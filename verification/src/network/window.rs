//! The sliding windows of scores: one bounded queue for the total scores
//! and one for each category, oldest score first.

use crate::network::types::{
    CacheView, CategoryScores, CategoryStats, ManifestationResult, NetworkScoresCache,
    MAX_SCORES_CAPACITY,
};
use crate::binary64::{mean, mean_of};
use crate::network::utils::{calculate_percentile, percentile_of};
use crate::score::NINETIETH_PERCENTILE_BITS;
use std::collections::VecDeque;
use vstd::prelude::*;

verus! {

/// A queue with one more score at its end; where it is full, its oldest
/// score leaves first.
pub open spec fn push_bounded(fifo: Seq<u64>, x: u64) -> Seq<u64> {
    if fifo.len() >= MAX_SCORES_CAPACITY {
        fifo.drop_first().push(x)
    } else {
        fifo.push(x)
    }
}

/// A queue after a list of scores was pushed onto it one by one.
pub open spec fn push_all(fifo: Seq<u64>, xs: Seq<u64>) -> Seq<u64>
    decreases xs.len(),
{
    if xs.len() == 0 {
        fifo
    } else {
        push_bounded(push_all(fifo, xs.drop_last()), xs.last())
    }
}

/// The last `n` elements of a list, or all of it where it has fewer.
pub open spec fn last_n(s: Seq<u64>, n: nat) -> Seq<u64> {
    if s.len() <= n {
        s
    } else {
        s.skip(s.len() - n)
    }
}

/// After any number of pushes a queue holds the last `MAX_SCORES_CAPACITY`
/// of the scores that it held and that were pushed, in their order: exactly
/// that many once so many have come.
pub proof fn lemma_push_all_keeps_last(fifo: Seq<u64>, xs: Seq<u64>)
    requires
        fifo.len() <= MAX_SCORES_CAPACITY,
    ensures
        push_all(fifo, xs) == last_n(fifo + xs, MAX_SCORES_CAPACITY as nat),
        push_all(fifo, xs).len() <= MAX_SCORES_CAPACITY,
        fifo.len() + xs.len() >= MAX_SCORES_CAPACITY ==> push_all(fifo, xs).len()
            == MAX_SCORES_CAPACITY,
    decreases xs.len(),
{
    if xs.len() == 0 {
        assert(fifo + xs =~= fifo);
    } else {
        let front = xs.drop_last();
        lemma_push_all_keeps_last(fifo, front);
        let before = push_all(fifo, front);
        assert(fifo + xs =~= (fifo + front).push(xs.last()));
        assert(push_bounded(before, xs.last()) =~= last_n(
            fifo + xs,
            MAX_SCORES_CAPACITY as nat,
        ));
    }
}

/// The names of a list of category windows.
pub open spec fn names_of(categories: Seq<(Seq<char>, Seq<u64>)>) -> Seq<Seq<char>> {
    categories.map_values(|c: (Seq<char>, Seq<u64>)| c.0)
}

/// The category windows after one score came for the category `name`: its
/// queue takes the score, and a category that was not there gets a queue
/// behind the others.
pub open spec fn push_category(
    categories: Seq<(Seq<char>, Seq<u64>)>,
    name: Seq<char>,
    x: u64,
) -> Seq<(Seq<char>, Seq<u64>)> {
    if names_of(categories).contains(name) {
        let at = names_of(categories).index_of(name);
        categories.update(at, (name, push_bounded(categories[at].1, x)))
    } else {
        categories.push((name, seq![x]))
    }
}

/// The category windows after the category scores of a result came, one by
/// one in their order.
pub open spec fn push_categories(
    categories: Seq<(Seq<char>, Seq<u64>)>,
    entries: Seq<(Seq<char>, u64)>,
) -> Seq<(Seq<char>, Seq<u64>)>
    decreases entries.len(),
{
    if entries.len() == 0 {
        categories
    } else {
        push_category(
            push_categories(categories, entries.drop_last()),
            entries.last().0,
            entries.last().1,
        )
    }
}

/// What a `ScoreWindow` holds, as plain values: the total scores, and the
/// categories in the order in which they first came, each with its scores.
pub struct WindowView {
    pub scores: Seq<u64>,
    pub categories: Seq<(Seq<char>, Seq<u64>)>,
}

impl WindowView {
    /// No queue is longer than `MAX_SCORES_CAPACITY`, and no category is
    /// there twice.
    pub open spec fn wf(self) -> bool {
        &&& self.scores.len() <= MAX_SCORES_CAPACITY
        &&& forall|i: int|
            0 <= i < self.categories.len() ==> (#[trigger] self.categories[i]).1.len()
                <= MAX_SCORES_CAPACITY
        &&& names_of(self.categories).no_duplicates()
    }

    /// The window after a result was taken in.
    pub open spec fn insert(self, result: crate::network::types::ResultView) -> WindowView {
        WindowView {
            scores: push_bounded(self.scores, result.score),
            categories: push_categories(self.categories, result.category_scores),
        }
    }
}

/// One score more leaves well-formed category windows well-formed.
pub proof fn lemma_push_category_wf(
    categories: Seq<(Seq<char>, Seq<u64>)>,
    name: Seq<char>,
    x: u64,
)
    requires
        (WindowView { scores: Seq::empty(), categories }).wf(),
    ensures
        (WindowView { scores: Seq::empty(), categories: push_category(categories, name, x) }).wf(),
{
    let after = push_category(categories, name, x);
    let names = names_of(categories);
    if names.contains(name) {
        let at = names.index_of(name);
        assert(names[at] == name);
        assert(names_of(after) =~= names);
        assert forall|i: int| 0 <= i < after.len() implies (#[trigger] after[i]).1.len()
            <= MAX_SCORES_CAPACITY by {
            if i != at {
                assert(after[i] == categories[i]);
            } else {
                assert(categories[at].1.len() <= MAX_SCORES_CAPACITY);
            }
        }
    } else {
        assert(names_of(after) =~= names.push(name));
        assert forall|i: int| 0 <= i < after.len() implies (#[trigger] after[i]).1.len()
            <= MAX_SCORES_CAPACITY by {
            if i < categories.len() {
                assert(after[i] == categories[i]);
            }
        }
        assert forall|i: int, j: int|
            0 <= i < j < names_of(after).len() implies names_of(after)[i] != names_of(after)[j] by {
            if j == names.len() {
                assert(names.contains(names[i]));
            } else {
                assert(names[i] != names[j]);
            }
        }
    }
}

/// A result more leaves a well-formed window well-formed.
pub proof fn lemma_push_categories_wf(
    categories: Seq<(Seq<char>, Seq<u64>)>,
    entries: Seq<(Seq<char>, u64)>,
)
    requires
        (WindowView { scores: Seq::empty(), categories }).wf(),
    ensures
        (WindowView { scores: Seq::empty(), categories: push_categories(categories, entries) }).wf(),
    decreases entries.len(),
{
    if entries.len() > 0 {
        lemma_push_categories_wf(categories, entries.drop_last());
        lemma_push_category_wf(
            push_categories(categories, entries.drop_last()),
            entries.last().0,
            entries.last().1,
        );
    }
}

/// The queue of a category among the category windows; empty where the
/// category has none.
pub open spec fn queue_of(categories: Seq<(Seq<char>, Seq<u64>)>, name: Seq<char>) -> Seq<u64> {
    if names_of(categories).contains(name) {
        categories[names_of(categories).index_of(name)].1
    } else {
        Seq::empty()
    }
}

/// The scores that a list of category scores holds for one category, in
/// their order.
pub open spec fn scores_for(entries: Seq<(Seq<char>, u64)>, name: Seq<char>) -> Seq<u64>
    decreases entries.len(),
{
    if entries.len() == 0 {
        Seq::empty()
    } else if entries.last().0 == name {
        scores_for(entries.drop_last(), name).push(entries.last().1)
    } else {
        scores_for(entries.drop_last(), name)
    }
}

/// The total scores of a list of results, in their order.
pub open spec fn total_scores(results: Seq<crate::network::types::ResultView>) -> Seq<u64> {
    results.map_values(|r: crate::network::types::ResultView| r.score)
}

/// The category scores of a list of results, one result after the other.
pub open spec fn all_category_scores(results: Seq<crate::network::types::ResultView>) -> Seq<
    (Seq<char>, u64),
>
    decreases results.len(),
{
    if results.len() == 0 {
        Seq::empty()
    } else {
        all_category_scores(results.drop_last()) + results.last().category_scores
    }
}

impl WindowView {
    /// The window after a list of results was taken in, one by one.
    pub open spec fn insert_all(self, results: Seq<crate::network::types::ResultView>) -> WindowView
        decreases results.len(),
    {
        if results.len() == 0 {
            self
        } else {
            self.insert_all(results.drop_last()).insert(results.last())
        }
    }
}

/// A score for one category goes onto the queue of that category and
/// leaves every other queue as it is.
pub proof fn lemma_push_category_queue(
    categories: Seq<(Seq<char>, Seq<u64>)>,
    name: Seq<char>,
    x: u64,
    other: Seq<char>,
)
    requires
        names_of(categories).no_duplicates(),
    ensures
        queue_of(push_category(categories, name, x), other) == if other == name {
            push_bounded(queue_of(categories, name), x)
        } else {
            queue_of(categories, other)
        },
{
    let names = names_of(categories);
    let after = push_category(categories, name, x);
    if names.contains(name) {
        let at = names.index_of(name);
        assert(names[at] == name);
        assert(names_of(after) =~= names);
        if other != name && names.contains(other) {
            let k = names.index_of(other);
            assert(names[k] == other);
            assert(after[k] == categories[k]);
        }
    } else {
        assert(names_of(after) =~= names.push(name));
        let grown = names_of(after);
        if other == name {
            assert(grown[names.len() as int] == name);
            assert(grown.contains(name));
            let k = grown.index_of(name);
            if k < names.len() {
                assert(names[k] == name);
                assert(names.contains(name));
            }
            assert(after[k].1 == seq![x]);
            assert(push_bounded(Seq::<u64>::empty(), x) =~= seq![x]);
        } else if names.contains(other) {
            let j = names.index_of(other);
            assert(names[j] == other);
            assert(grown[j] == other);
            assert(grown.contains(other));
            let k = grown.index_of(other);
            assert(grown[k] == other);
            if k == names.len() {
                assert(grown[k] == name);
            }
            assert(names[k] == other);
            assert(after[k] == categories[k]);
            assert forall|a: int, b: int| 0 <= a < b < names.len() implies names[a] != names[b] by {}
            assert(k == j);
        } else {
            if grown.contains(other) {
                let k = grown.index_of(other);
                assert(grown[k] == other);
                if k < names.len() {
                    assert(names[k] == other);
                    assert(names.contains(other));
                }
            }
        }
    }
}

/// After a list of category scores came in, the queue of each category is
/// its old queue with the scores for that category pushed onto it.
pub proof fn lemma_push_categories_queue(
    categories: Seq<(Seq<char>, Seq<u64>)>,
    entries: Seq<(Seq<char>, u64)>,
    name: Seq<char>,
)
    requires
        (WindowView { scores: Seq::empty(), categories }).wf(),
    ensures
        queue_of(push_categories(categories, entries), name) == push_all(
            queue_of(categories, name),
            scores_for(entries, name),
        ),
    decreases entries.len(),
{
    if entries.len() > 0 {
        let front = entries.drop_last();
        lemma_push_categories_queue(categories, front, name);
        lemma_push_categories_wf(categories, front);
        lemma_push_category_queue(
            push_categories(categories, front),
            entries.last().0,
            entries.last().1,
            name,
        );
        if entries.last().0 == name {
            assert(scores_for(entries, name).drop_last() =~= scores_for(front, name));
        }
    }
}

proof fn lemma_scores_for_concat(a: Seq<(Seq<char>, u64)>, b: Seq<(Seq<char>, u64)>, name: Seq<char>)
    ensures
        scores_for(a + b, name) == scores_for(a, name) + scores_for(b, name),
    decreases b.len(),
{
    if b.len() == 0 {
        assert(a + b =~= a);
        assert(scores_for(a, name) + scores_for(b, name) =~= scores_for(a, name));
    } else {
        lemma_scores_for_concat(a, b.drop_last(), name);
        assert((a + b).drop_last() =~= a + b.drop_last());
        assert((a + b).last() == b.last());
        if b.last().0 == name {
            assert(scores_for(a, name) + scores_for(b, name) =~= (scores_for(a, name) + scores_for(
                b.drop_last(),
                name,
            )).push(b.last().1));
        }
    }
}

proof fn lemma_push_all_concat(fifo: Seq<u64>, a: Seq<u64>, b: Seq<u64>)
    ensures
        push_all(fifo, a + b) == push_all(push_all(fifo, a), b),
    decreases b.len(),
{
    if b.len() == 0 {
        assert(a + b =~= a);
    } else {
        lemma_push_all_concat(fifo, a, b.drop_last());
        assert((a + b).drop_last() =~= a + b.drop_last());
        assert((a + b).last() == b.last());
    }
}

/// The window bound: after any number of results every queue of a window
/// holds the last `MAX_SCORES_CAPACITY` of the scores that it held and that
/// came for it, in their order, and exactly that many once so many have
/// come. This holds of the global queue and of the queue of each category.
pub proof fn lemma_window_keeps_last(
    window: WindowView,
    results: Seq<crate::network::types::ResultView>,
    name: Seq<char>,
)
    requires
        window.wf(),
    ensures
        window.insert_all(results).wf(),
        window.insert_all(results).scores == last_n(
            window.scores + total_scores(results),
            MAX_SCORES_CAPACITY as nat,
        ),
        queue_of(window.insert_all(results).categories, name) == last_n(
            queue_of(window.categories, name) + scores_for(all_category_scores(results), name),
            MAX_SCORES_CAPACITY as nat,
        ),
    decreases results.len(),
{
    let old_queue = queue_of(window.categories, name);
    assert(old_queue.len() <= MAX_SCORES_CAPACITY) by {
        if names_of(window.categories).contains(name) {
            let at = names_of(window.categories).index_of(name);
            assert(window.categories[at].1.len() <= MAX_SCORES_CAPACITY);
        }
    }
    if results.len() == 0 {
        assert(window.scores + total_scores(results) =~= window.scores);
        assert(old_queue + scores_for(all_category_scores(results), name) =~= old_queue);
    } else {
        let front = results.drop_last();
        let last = results.last();
        lemma_window_keeps_last(window, front, name);
        let before = window.insert_all(front);
        lemma_push_categories_wf(before.categories, last.category_scores);
        // The global queue.
        lemma_push_all_keeps_last(window.scores, total_scores(front));
        lemma_push_all_keeps_last(window.scores, total_scores(results));
        assert(total_scores(results).drop_last() =~= total_scores(front));
        assert(total_scores(results).last() == last.score);
        // The queue of the category.
        lemma_push_categories_queue(before.categories, last.category_scores, name);
        let came_before = scores_for(all_category_scores(front), name);
        let came_now = scores_for(last.category_scores, name);
        lemma_scores_for_concat(all_category_scores(front), last.category_scores, name);
        lemma_push_all_keeps_last(old_queue, came_before);
        lemma_push_all_keeps_last(old_queue, came_before + came_now);
        lemma_push_all_concat(old_queue, came_before, came_now);
    }
}

/// The window of one category.
pub struct CategoryWindow {
    category: String,
    scores: VecDeque<u64>,
}

impl View for CategoryWindow {
    type V = (Seq<char>, Seq<u64>);

    closed spec fn view(&self) -> (Seq<char>, Seq<u64>) {
        (self.category@, self.scores@)
    }
}

/// The sliding windows of a node: the total scores it took in of late and,
/// for each category, the scores of that category.
pub struct ScoreWindow {
    scores: VecDeque<u64>,
    categories: Vec<CategoryWindow>,
}

impl View for ScoreWindow {
    type V = WindowView;

    closed spec fn view(&self) -> WindowView {
        WindowView {
            scores: self.scores@,
            categories: self.categories@.map_values(|c: CategoryWindow| c@),
        }
    }
}

/// Pushes a score onto a queue; where the queue is full, its oldest score
/// is evicted first.
fn push_score(fifo: &mut VecDeque<u64>, x: u64)
    ensures
        final(fifo)@ == push_bounded(old(fifo)@, x),
{
    if fifo.len() >= MAX_SCORES_CAPACITY {
        let _ = fifo.pop_front();
    }
    fifo.push_back(x);
    assert(fifo@ =~= push_bounded(old(fifo)@, x));
}

impl ScoreWindow {
    /// No queue is longer than `MAX_SCORES_CAPACITY`, and no category is
    /// there twice.
    pub open spec fn wf(&self) -> bool {
        self@.wf()
    }

    /// An empty window.
    pub fn new() -> (window: Self)
        ensures
            window.wf(),
            window@.scores.len() == 0,
            window@.categories.len() == 0,
    {
        let window = ScoreWindow { scores: VecDeque::new(), categories: Vec::new() };
        assert(names_of(window@.categories) =~= Seq::empty());
        window
    }

    /// Number of total scores in the window.
    pub fn len(&self) -> (n: usize)
        ensures
            n == self@.scores.len(),
    {
        self.scores.len()
    }

    /// The index of the category's window, if it has one.
    fn find_category(&self, name: &String) -> (at: Option<usize>)
        ensures
            match at {
                Some(i) => i < self@.categories.len() && self@.categories[i as int].0 == name@,
                None => !names_of(self@.categories).contains(name@),
            },
    {
        let n = self.categories.len();
        let mut i: usize = 0;
        while i < n
            invariant
                i <= n,
                n == self.categories@.len(),
                forall|j: int| 0 <= j < i ==> self@.categories[j].0 != name@,
            decreases n - i,
        {
            if self.categories[i].category == *name {
                return Some(i);
            }
            i += 1;
        }
        assert forall|j: int| 0 <= j < names_of(self@.categories).len() implies names_of(
            self@.categories,
        )[j] != name@ by {
            assert(self@.categories[j].0 != name@);
        }
        None
    }

    /// Takes one score of one category in.
    fn push_category_score(&mut self, name: &String, x: u64)
        requires
            old(self).wf(),
        ensures
            final(self).wf(),
            final(self)@.scores == old(self)@.scores,
            final(self)@.categories == push_category(old(self)@.categories, name@, x),
    {
        proof {
            lemma_wf_categories(self@);
            lemma_push_category_wf(self@.categories, name@, x);
        }
        match self.find_category(name) {
            Some(i) => {
                proof {
                    let names = names_of(self@.categories);
                    assert(names[i as int] == name@);
                    assert(names.contains(name@));
                    assert(names.index_of(name@) == i);
                }
                push_score(&mut self.categories[i].scores, x);
                assert(self@.categories =~= push_category(old(self)@.categories, name@, x));
            },
            None => {
                let mut scores: VecDeque<u64> = VecDeque::new();
                scores.push_back(x);
                assert(scores@ =~= seq![x]);
                self.categories.push(CategoryWindow { category: name.clone(), scores });
                assert(self@.categories =~= push_category(old(self)@.categories, name@, x));
            },
        }
        proof {
            lemma_wf_from_categories(self@, old(self)@);
        }
    }

    /// Takes a result in: its total score goes onto the global queue, each
    /// category score onto the queue of its category; a queue that is full
    /// lets its oldest score go.
    pub fn insert(&mut self, result: &ManifestationResult)
        requires
            old(self).wf(),
        ensures
            final(self).wf(),
            final(self)@ == old(self)@.insert(result@),
    {
        push_score(&mut self.scores, result.score);
        let n = result.category_scores.len();
        let mut i: usize = 0;
        assert(result@.category_scores.take(0) =~= Seq::empty());
        while i < n
            invariant
                i <= n,
                n == result.category_scores@.len(),
                n == result@.category_scores.len(),
                self.wf(),
                self@.scores == push_bounded(old(self)@.scores, result.score),
                self@.categories == push_categories(
                    old(self)@.categories,
                    result@.category_scores.take(i as int),
                ),
            decreases n - i,
        {
            let entry = &result.category_scores[i];
            proof {
                let upto = result@.category_scores.take(i + 1);
                assert(upto.drop_last() =~= result@.category_scores.take(i as int));
                assert(upto.last() == entry@);
            }
            self.push_category_score(&entry.category, entry.score);
            i += 1;
        }
        assert(result@.category_scores.take(n as int) =~= result@.category_scores);
    }
}

proof fn lemma_wf_categories(w: WindowView)
    requires
        w.wf(),
    ensures
        (WindowView { scores: Seq::empty(), categories: w.categories }).wf(),
{
}

proof fn lemma_wf_from_categories(w: WindowView, before: WindowView)
    requires
        before.wf(),
        w.scores == before.scores,
        (WindowView { scores: Seq::empty(), categories: w.categories }).wf(),
    ensures
        w.wf(),
{
}

/// The window that a persisted snapshot describes.
pub open spec fn window_of(cache: CacheView) -> WindowView {
    WindowView { scores: cache.scores, categories: cache.category_scores }
}

/// The snapshot that persists a window.
pub open spec fn cache_of(window: WindowView) -> CacheView {
    CacheView { scores: window.scores, category_scores: window.categories }
}

/// A window that is saved and loaded again is the window that was saved:
/// the same scores in the same order, stream by stream.
pub proof fn lemma_persistence_round_trip(window: WindowView)
    requires
        window.wf(),
    ensures
        window_of(cache_of(window)).wf(),
        window_of(cache_of(window)) == window,
{
}

/// The statistics of the category windows that are not empty, in the order
/// of the categories: name, mean, 90th percentile.
pub open spec fn stats_of(categories: Seq<(Seq<char>, Seq<u64>)>) -> Seq<(Seq<char>, u64, u64)>
    decreases categories.len(),
{
    if categories.len() == 0 {
        Seq::empty()
    } else {
        let front = stats_of(categories.drop_last());
        let c = categories.last();
        if c.1.len() == 0 {
            front
        } else {
            front.push((c.0, mean_of(c.1)->0, percentile_of(c.1, NINETIETH_PERCENTILE_BITS)->0))
        }
    }
}

fn queue_to_vec(queue: &VecDeque<u64>) -> (v: Vec<u64>)
    ensures
        v@ == queue@,
{
    let mut v: Vec<u64> = Vec::new();
    let n = queue.len();
    let mut i: usize = 0;
    while i < n
        invariant
            i <= n,
            n == queue@.len(),
            v@ == queue@.take(i as int),
        decreases n - i,
    {
        v.push(queue[i]);
        assert(v@ =~= queue@.take(i + 1));
        i += 1;
    }
    assert(queue@.take(n as int) =~= queue@);
    v
}

fn vec_to_queue(v: &Vec<u64>) -> (queue: VecDeque<u64>)
    ensures
        queue@ == v@,
{
    let mut queue: VecDeque<u64> = VecDeque::new();
    let n = v.len();
    let mut i: usize = 0;
    while i < n
        invariant
            i <= n,
            n == v@.len(),
            queue@ == v@.take(i as int),
        decreases n - i,
    {
        queue.push_back(v[i]);
        assert(queue@ =~= v@.take(i + 1));
        i += 1;
    }
    assert(v@.take(n as int) =~= v@);
    queue
}

/// Whether the name at index `at` stands at no earlier index.
fn name_is_new(categories: &Vec<CategoryScores>, at: usize) -> (fresh: bool)
    requires
        at < categories@.len(),
    ensures
        fresh == (forall|j: int| 0 <= j < at ==> categories@[j].category@ != categories@[at as int].category@),
{
    let mut j: usize = 0;
    while j < at
        invariant
            j <= at,
            at < categories@.len(),
            forall|k: int| 0 <= k < j ==> categories@[k].category@ != categories@[at as int].category@,
        decreases at - j,
    {
        if categories[j].category == categories[at].category {
            return false;
        }
        j += 1;
    }
    true
}

impl ScoreWindow {
    /// The scores of the global window, oldest first.
    pub fn scores(&self) -> (scores: Vec<u64>)
        ensures
            scores@ == self@.scores,
    {
        queue_to_vec(&self.scores)
    }

    /// The snapshot that persists the window: every queue, oldest score
    /// first.
    pub fn to_cache(&self) -> (cache: NetworkScoresCache)
        ensures
            cache@ == cache_of(self@),
    {
        let mut category_scores: Vec<CategoryScores> = Vec::new();
        let n = self.categories.len();
        let mut i: usize = 0;
        while i < n
            invariant
                i <= n,
                n == self.categories@.len(),
                category_scores@.len() == i,
                forall|j: int| 0 <= j < i ==> category_scores@[j]@ == self@.categories[j],
            decreases n - i,
        {
            let c = &self.categories[i];
            category_scores.push(
                CategoryScores { category: c.category.clone(), scores: queue_to_vec(&c.scores) },
            );
            i += 1;
        }
        let cache = NetworkScoresCache { scores: queue_to_vec(&self.scores), category_scores };
        assert(cache@.category_scores =~= self@.categories);
        cache
    }

    /// The window that a persisted snapshot describes; `None` where the
    /// snapshot is none of a window: a queue longer than
    /// `MAX_SCORES_CAPACITY`, or a category that is there twice.
    pub fn from_cache(cache: &NetworkScoresCache) -> (window: Option<Self>)
        ensures
            window is Some <==> window_of(cache@).wf(),
            window matches Some(w) ==> w@ == window_of(cache@) && w.wf(),
    {
        if cache.scores.len() > MAX_SCORES_CAPACITY {
            return None;
        }
        let mut categories: Vec<CategoryWindow> = Vec::new();
        let n = cache.category_scores.len();
        let mut i: usize = 0;
        let ghost target = window_of(cache@);
        while i < n
            invariant
                i <= n,
                n == cache.category_scores@.len(),
                target == window_of(cache@),
                categories@.len() == i,
                forall|j: int| 0 <= j < i ==> categories@[j]@ == cache.category_scores@[j]@,
                forall|j: int|
                    0 <= j < i ==> (#[trigger] cache.category_scores@[j]).scores@.len()
                        <= MAX_SCORES_CAPACITY,
                forall|j: int, k: int|
                    0 <= j < k < i ==> cache.category_scores@[j].category@
                        != cache.category_scores@[k].category@,
            decreases n - i,
        {
            let c = &cache.category_scores[i];
            if c.scores.len() > MAX_SCORES_CAPACITY {
                proof {
                    assert(target.categories[i as int] == c@);
                    assert(target.categories[i as int].1.len() > MAX_SCORES_CAPACITY);
                }
                return None;
            }
            if !name_is_new(&cache.category_scores, i) {
                proof {
                    let j = choose|j: int|
                        0 <= j < i && cache.category_scores@[j].category@
                            == cache.category_scores@[i as int].category@;
                    let names = names_of(target.categories);
                    assert(names[j] == names[i as int]);
                }
                return None;
            }
            categories.push(
                CategoryWindow { category: c.category.clone(), scores: vec_to_queue(&c.scores) },
            );
            i += 1;
        }
        let window = ScoreWindow { scores: vec_to_queue(&cache.scores), categories };
        proof {
            assert(window@.categories =~= target.categories);
            assert forall|j: int| 0 <= j < target.categories.len() implies (
            #[trigger] target.categories[j]).1.len() <= MAX_SCORES_CAPACITY by {
                assert(cache.category_scores@[j].scores@.len() <= MAX_SCORES_CAPACITY);
            }
            let names = names_of(target.categories);
            assert forall|j: int, k: int| 0 <= j < k < names.len() implies names[j] != names[k] by {
                assert(cache.category_scores@[j].category@ != cache.category_scores@[k].category@);
            }
        }
        Some(window)
    }

    /// The mean of the global window; `None` where it is empty.
    pub fn mean(&self) -> (value: Option<u64>)
        ensures
            value == mean_of(self@.scores),
    {
        let scores = queue_to_vec(&self.scores);
        mean(scores.as_slice())
    }

    /// The 90th percentile of the global window; `None` where it is empty.
    pub fn percentile_90(&self) -> (value: Option<u64>)
        ensures
            value == percentile_of(self@.scores, NINETIETH_PERCENTILE_BITS),
    {
        let scores = queue_to_vec(&self.scores);
        calculate_percentile(scores.as_slice(), NINETIETH_PERCENTILE_BITS)
    }

    /// The statistics of each category whose window is not empty.
    pub fn category_stats(&self) -> (stats: Vec<CategoryStats>)
        ensures
            stats@.map_values(|s: CategoryStats| s@) == stats_of(self@.categories),
    {
        let mut stats: Vec<CategoryStats> = Vec::new();
        let n = self.categories.len();
        let mut i: usize = 0;
        assert(self@.categories.take(0) =~= Seq::empty());
        assert(stats@.map_values(|s: CategoryStats| s@) =~= Seq::empty());
        while i < n
            invariant
                i <= n,
                n == self.categories@.len(),
                stats@.map_values(|s: CategoryStats| s@) == stats_of(
                    self@.categories.take(i as int),
                ),
            decreases n - i,
        {
            let c = &self.categories[i];
            let ghost before = stats@.map_values(|s: CategoryStats| s@);
            proof {
                let upto = self@.categories.take(i + 1);
                assert(upto.drop_last() =~= self@.categories.take(i as int));
                assert(upto.last() == c@);
            }
            if c.scores.len() > 0 {
                let scores = queue_to_vec(&c.scores);
                let p90 = match calculate_percentile(scores.as_slice(), NINETIETH_PERCENTILE_BITS) {
                    Some(v) => v,
                    None => 0,
                };
                let avg = match mean(scores.as_slice()) {
                    Some(v) => v,
                    None => 0,
                };
                let entry = CategoryStats { category: c.category.clone(), avg, p90 };
                stats.push(entry);
                assert(stats@.map_values(|s: CategoryStats| s@) =~= before.push(
                    (c@.0, avg, p90),
                ));
            }
            i += 1;
        }
        assert(self@.categories.take(n as int) =~= self@.categories);
        stats
    }
}

} // verus!
