//! Standard base64 with padding: what the text of a byte string is, and the
//! calls that write and read it.

use vstd::prelude::*;

verus! {

/// The base64 symbol of a six-bit value (`A`-`Z`, `a`-`z`, `0`-`9`, `+`, `/`).
pub open spec fn base64_symbol(v: int) -> char {
    if v < 26 {
        ((0x41 + v) as u8) as char
    } else if v < 52 {
        ((0x61 + (v - 26)) as u8) as char
    } else if v < 62 {
        ((0x30 + (v - 52)) as u8) as char
    } else if v == 62 {
        '+'
    } else {
        '/'
    }
}

/// Standard base64 with `=` padding: every three bytes give four symbols, a
/// last group of one or two bytes is filled up with zero bits and padded.
pub open spec fn base64_text(bytes: Seq<u8>) -> Seq<char>
    decreases bytes.len(),
{
    if bytes.len() == 0 {
        Seq::empty()
    } else if bytes.len() == 1 {
        seq![
            base64_symbol(bytes[0] as int / 4),
            base64_symbol((bytes[0] as int % 4) * 16),
            '=',
            '=',
        ]
    } else if bytes.len() == 2 {
        seq![
            base64_symbol(bytes[0] as int / 4),
            base64_symbol((bytes[0] as int % 4) * 16 + bytes[1] as int / 16),
            base64_symbol((bytes[1] as int % 16) * 4),
            '=',
        ]
    } else {
        seq![
            base64_symbol(bytes[0] as int / 4),
            base64_symbol((bytes[0] as int % 4) * 16 + bytes[1] as int / 16),
            base64_symbol((bytes[1] as int % 16) * 4 + bytes[2] as int / 64),
            base64_symbol(bytes[2] as int % 64),
        ] + base64_text(bytes.skip(3))
    }
}

/// A character that base64 text can hold: a symbol or the padding sign.
pub open spec fn is_base64_char(c: char) -> bool {
    ||| 'A' <= c <= 'Z'
    ||| 'a' <= c <= 'z'
    ||| '0' <= c <= '9'
    ||| c == '+'
    ||| c == '/'
    ||| c == '='
}

/// Whether a text is made of base64 characters alone. Such a text needs no
/// escaping inside a JSON string.
pub open spec fn is_base64_string(text: Seq<char>) -> bool {
    forall|i: int| 0 <= i < text.len() ==> is_base64_char(#[trigger] text[i])
}

/// Number of characters in the base64 text of `n` bytes.
pub open spec fn base64_len(n: nat) -> nat {
    4 * ((n + 2) / 3)
}

/// The symbol of a six-bit value is a base64 character, and never the
/// padding sign.
pub proof fn lemma_base64_symbol_is_char(v: int)
    requires
        0 <= v < 64,
    ensures
        is_base64_char(base64_symbol(v)),
        base64_symbol(v) != '=',
{
}

/// The text of `n` bytes has `4 * ceil(n / 3)` characters, all of them
/// base64 characters.
pub proof fn lemma_base64_text_shape(bytes: Seq<u8>)
    ensures
        base64_text(bytes).len() == base64_len(bytes.len()),
        forall|i: int|
            0 <= i < base64_text(bytes).len() ==> is_base64_char(#[trigger] base64_text(bytes)[i]),
    decreases bytes.len(),
{
    if bytes.len() == 0 {
    } else if bytes.len() == 1 {
        lemma_base64_symbol_is_char(bytes[0] as int / 4);
        lemma_base64_symbol_is_char((bytes[0] as int % 4) * 16);
    } else if bytes.len() == 2 {
        lemma_base64_symbol_is_char(bytes[0] as int / 4);
        lemma_base64_symbol_is_char((bytes[0] as int % 4) * 16 + bytes[1] as int / 16);
        lemma_base64_symbol_is_char((bytes[1] as int % 16) * 4);
    } else {
        lemma_base64_symbol_is_char(bytes[0] as int / 4);
        lemma_base64_symbol_is_char((bytes[0] as int % 4) * 16 + bytes[1] as int / 16);
        lemma_base64_symbol_is_char((bytes[1] as int % 16) * 4 + bytes[2] as int / 64);
        lemma_base64_symbol_is_char(bytes[2] as int % 64);
        lemma_base64_text_shape(bytes.skip(3));
    }
}

/// Two different six-bit values have different symbols.
pub proof fn lemma_base64_symbol_injective(a: int, b: int)
    requires
        0 <= a < 64,
        0 <= b < 64,
        base64_symbol(a) == base64_symbol(b),
    ensures
        a == b,
{
}

/// No two byte strings share a base64 text.
pub proof fn lemma_base64_text_injective(a: Seq<u8>, b: Seq<u8>)
    requires
        base64_text(a) == base64_text(b),
    ensures
        a == b,
    decreases a.len(),
{
    let ta = base64_text(a);
    let tb = base64_text(b);
    lemma_base64_text_shape(a);
    lemma_base64_text_shape(b);
    if a.len() == 0 {
        assert(b.len() == 0);
        assert(a =~= b);
    } else {
        assert(b.len() > 0);
        let a0 = a[0] as int;
        let b0 = b[0] as int;
        let a1 = if a.len() > 1 { a[1] as int } else { 0 };
        let b1 = if b.len() > 1 { b[1] as int } else { 0 };
        let a2 = if a.len() > 2 { a[2] as int } else { 0 };
        let b2 = if b.len() > 2 { b[2] as int } else { 0 };
        lemma_base64_symbol_is_char(a0 / 4);
        lemma_base64_symbol_is_char(b0 / 4);
        lemma_base64_symbol_is_char((a0 % 4) * 16 + a1 / 16);
        lemma_base64_symbol_is_char((b0 % 4) * 16 + b1 / 16);
        lemma_base64_symbol_is_char((a1 % 16) * 4 + a2 / 64);
        lemma_base64_symbol_is_char((b1 % 16) * 4 + b2 / 64);
        lemma_base64_symbol_is_char(a2 % 64);
        lemma_base64_symbol_is_char(b2 % 64);
        assert(ta[0] == base64_symbol(a0 / 4));
        assert(tb[0] == base64_symbol(b0 / 4));
        assert(ta[1] == base64_symbol((a0 % 4) * 16 + a1 / 16));
        assert(tb[1] == base64_symbol((b0 % 4) * 16 + b1 / 16));
        assert(ta[2] == if a.len() > 1 { base64_symbol((a1 % 16) * 4 + a2 / 64) } else { '=' });
        assert(tb[2] == if b.len() > 1 { base64_symbol((b1 % 16) * 4 + b2 / 64) } else { '=' });
        assert(ta[3] == if a.len() > 2 { base64_symbol(a2 % 64) } else { '=' });
        assert(tb[3] == if b.len() > 2 { base64_symbol(b2 % 64) } else { '=' });
        assert(ta[0] == tb[0] && ta[1] == tb[1] && ta[2] == tb[2] && ta[3] == tb[3]);
        assert((a.len() > 1) == (b.len() > 1));
        assert((a.len() > 2) == (b.len() > 2));
        lemma_base64_symbol_injective(a0 / 4, b0 / 4);
        lemma_base64_symbol_injective((a0 % 4) * 16 + a1 / 16, (b0 % 4) * 16 + b1 / 16);
        lemma_base64_symbol_injective((a1 % 16) * 4 + a2 / 64, (b1 % 16) * 4 + b2 / 64);
        lemma_base64_symbol_injective(a2 % 64, b2 % 64);
        assert(a0 == b0 && a1 == b1 && a2 == b2);
        if a.len() <= 2 {
            assert(a.len() == b.len());
            assert(a =~= b);
        } else {
            let ra = a.skip(3);
            let rb = b.skip(3);
            assert(base64_text(ra) =~= ta.skip(4));
            assert(base64_text(rb) =~= tb.skip(4));
            lemma_base64_text_injective(ra, rb);
            assert(a =~= seq![a[0], a[1], a[2]] + ra);
            assert(b =~= seq![b[0], b[1], b[2]] + rb);
        }
    }
}

/// The bytes that a base64 text stands for, if it is the text of any.
pub open spec fn base64_bytes(text: Seq<char>) -> Option<Seq<u8>> {
    if exists|b: Seq<u8>| #[trigger] base64_text(b) == text {
        Some(choose|b: Seq<u8>| #[trigger] base64_text(b) == text)
    } else {
        None
    }
}

/// Decoding undoes encoding.
pub proof fn lemma_base64_round_trip(bytes: Seq<u8>)
    ensures
        base64_bytes(base64_text(bytes)) == Some(bytes),
{
    let text = base64_text(bytes);
    let found = choose|b: Seq<u8>| #[trigger] base64_text(b) == text;
    lemma_base64_text_injective(found, bytes);
}

/// Calls `base64::Engine::encode` on the `STANDARD` engine of `base64`, which
/// writes the alphabet of RFC 4648 with padding. The call fails only where
/// the length of the text would not fit in `usize`.
#[verifier::external_body]
pub(crate) fn base64_encode(bytes: &[u8]) -> (text: String)
    requires
        base64_len(bytes@.len()) <= usize::MAX,
    ensures
        text@ == base64_text(bytes@),
{
    base64::Engine::encode(&base64::engine::general_purpose::STANDARD, bytes)
}

/// Calls `base64::Engine::decode` on the `STANDARD` engine of `base64`. That
/// engine wants canonical padding and takes no stray bits in the last symbol,
/// so it accepts a text exactly when the text is the encoding of some bytes,
/// and then returns those bytes.
#[verifier::external_body]
pub(crate) fn base64_decode(text: &str) -> (bytes: Option<Vec<u8>>)
    ensures
        match bytes {
            Some(b) => base64_text(b@) == text@,
            None => forall|b: Seq<u8>| #[trigger] base64_text(b) != text@,
        },
{
    base64::Engine::decode(&base64::engine::general_purpose::STANDARD, text).ok()
}

/// Encodes bytes as standard base64 text.
pub fn encode_base64(bytes: &[u8]) -> (text: String)
    requires
        base64_len(bytes@.len()) <= usize::MAX,
    ensures
        text@ == base64_text(bytes@),
        text@.len() == base64_len(bytes@.len()),
        is_base64_string(text@),
{
    proof {
        lemma_base64_text_shape(bytes@);
    }
    base64_encode(bytes)
}

/// Decodes standard base64 text; `None` where the text is no encoding.
pub fn decode_base64(text: &str) -> (bytes: Option<Vec<u8>>)
    ensures
        match bytes {
            Some(b) => base64_bytes(text@) == Some(b@),
            None => base64_bytes(text@) is None,
        },
{
    let decoded = base64_decode(text);
    proof {
        if decoded is Some {
            lemma_base64_round_trip(decoded->0@);
        }
    }
    decoded
}

/// Whether a character is a base64 symbol or the padding sign.
pub fn base64_char(c: char) -> (r: bool)
    ensures
        r == is_base64_char(c),
{
    ('A' <= c && c <= 'Z') || ('a' <= c && c <= 'z') || ('0' <= c && c <= '9') || c == '+' || c
        == '/' || c == '='
}

/// Whether a text is made of base64 characters alone.
pub fn base64_string(text: &str) -> (r: bool)
    ensures
        r == is_base64_string(text@),
{
    let chars = crate::network::text::chars_of(text);
    let n = chars.len();
    let mut i: usize = 0;
    while i < n
        invariant
            i <= n,
            n == chars@.len(),
            chars@ == text@,
            forall|j: int| 0 <= j < i ==> is_base64_char(#[trigger] chars@[j]),
        decreases n - i,
    {
        if !base64_char(chars[i]) {
            return false;
        }
        i += 1;
    }
    true
}

} // verus!
