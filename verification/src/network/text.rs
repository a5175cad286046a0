//! Character-level checks on category names.

use vstd::prelude::*;

verus! {

/// Whether `h`, `t`, `t`, `p` stand at index `i` of the name.
pub open spec fn holds_http_at(name: Seq<char>, i: int) -> bool {
    &&& 0 <= i
    &&& i + 4 <= name.len()
    &&& name[i] == 'h'
    &&& name[i + 1] == 't'
    &&& name[i + 2] == 't'
    &&& name[i + 3] == 'p'
}

/// The crude marker of personal data in a category name: an `@` anywhere,
/// or the substring `http`.
pub open spec fn has_pii_marker(name: Seq<char>) -> bool {
    ||| name.contains('@')
    ||| exists|i: int| holds_http_at(name, i)
}

/// The characters of a text, one by one.
pub fn chars_of(text: &str) -> (chars: Vec<char>)
    ensures
        chars@ == text@,
{
    let mut chars: Vec<char> = Vec::new();
    for c in it: text.chars()
        invariant
            it.seq() == text@,
            chars@ == it.seq().take(it.index() as int),
    {
        chars.push(c);
    }
    chars
}

/// Whether a category name holds a marker of personal data.
pub fn contains_pii_marker(name: &str) -> (found: bool)
    ensures
        found == has_pii_marker(name@),
{
    let chars = chars_of(name);
    let n = chars.len();
    let mut i: usize = 0;
    while i < n
        invariant
            i <= n,
            n == chars@.len(),
            chars@ == name@,
            forall|j: int| 0 <= j < i ==> chars@[j] != '@' && !holds_http_at(chars@, j),
        decreases n - i,
    {
        if chars[i] == '@' {
            assert(name@.contains('@'));
            return true;
        }
        if n - i >= 4 && chars[i] == 'h' && chars[i + 1] == 't' && chars[i + 2] == 't' && chars[i
            + 3] == 'p' {
            assert(holds_http_at(name@, i as int));
            return true;
        }
        i += 1;
    }
    assert(!name@.contains('@'));
    assert(forall|j: int| !holds_http_at(name@, j));
    false
}

} // verus!
