//! The result of a run: how many packages were vendored, and which
//! dependencies are missing, in a fixed order.

use crate::table::Pairs;
use crate::text::{same_text, to_chars};
use vstd::prelude::*;
use vstd::relations::{sorted_by, total_ordering};
use vstd::seq_lib::lemma_sorted_unique;

verus! {

/// Whether `a` comes before `b`, or equals it, in the order of texts: the
/// texts are compared character by character, by code point, and a text
/// comes before every text that it begins.
pub open spec fn text_le(a: Seq<char>, b: Seq<char>) -> bool
    decreases a.len(),
{
    if a.len() == 0 {
        true
    } else if b.len() == 0 {
        false
    } else if a[0] != b[0] {
        a[0] < b[0]
    } else {
        text_le(a.skip(1), b.skip(1))
    }
}

/// Whether the missing dependency `a` comes before `b`, or equals it: by
/// alias, and by spec where the aliases are equal.
pub open spec fn entry_le(a: (Seq<char>, Seq<char>), b: (Seq<char>, Seq<char>)) -> bool {
    if a.0 == b.0 {
        text_le(a.1, b.1)
    } else {
        text_le(a.0, b.0)
    }
}

/// Whether a list of missing dependencies is in order: by alias, then spec.
pub open spec fn in_order(list: Pairs) -> bool {
    forall|i: int, j: int| 0 <= i < j < list.len() ==> entry_le(#[trigger] list[i], #[trigger] list[j])
}

/// Every text comes before or equals itself.
proof fn lemma_text_le_reflexive(a: Seq<char>)
    ensures
        text_le(a, a),
    decreases a.len(),
{
    if a.len() > 0 {
        lemma_text_le_reflexive(a.skip(1));
    }
}

/// Two texts that each come before or equal the other are the same.
proof fn lemma_text_le_antisymmetric(a: Seq<char>, b: Seq<char>)
    requires
        text_le(a, b),
        text_le(b, a),
    ensures
        a == b,
    decreases a.len(),
{
    if a.len() > 0 && b.len() > 0 {
        lemma_text_le_antisymmetric(a.skip(1), b.skip(1));
        assert(a =~= seq![a[0]] + a.skip(1));
    }
}

/// The order of texts is transitive.
proof fn lemma_text_le_transitive(a: Seq<char>, b: Seq<char>, c: Seq<char>)
    requires
        text_le(a, b),
        text_le(b, c),
    ensures
        text_le(a, c),
    decreases a.len(),
{
    if a.len() > 0 && b.len() > 0 && c.len() > 0 {
        if a[0] == b[0] && b[0] == c[0] {
            lemma_text_le_transitive(a.skip(1), b.skip(1), c.skip(1));
        }
    }
}

/// Of two texts, one comes before or equals the other.
proof fn lemma_text_le_total(a: Seq<char>, b: Seq<char>)
    ensures
        text_le(a, b) || text_le(b, a),
    decreases a.len(),
{
    if a.len() > 0 && b.len() > 0 && a[0] == b[0] {
        lemma_text_le_total(a.skip(1), b.skip(1));
    }
}

/// The order of missing dependencies is a total order.
pub proof fn lemma_entry_order()
    ensures
        total_ordering(|a: (Seq<char>, Seq<char>), b: (Seq<char>, Seq<char>)| entry_le(a, b)),
{
    let le = |a: (Seq<char>, Seq<char>), b: (Seq<char>, Seq<char>)| entry_le(a, b);
    assert forall|a: (Seq<char>, Seq<char>)| #[trigger] le(a, a) by {
        lemma_text_le_reflexive(a.1);
    }
    assert forall|a: (Seq<char>, Seq<char>), b: (Seq<char>, Seq<char>)|
        #[trigger] le(a, b) && #[trigger] le(b, a) implies a == b by {
        if a.0 == b.0 {
            lemma_text_le_antisymmetric(a.1, b.1);
        } else {
            lemma_text_le_antisymmetric(a.0, b.0);
        }
    }
    assert forall|a: (Seq<char>, Seq<char>), b: (Seq<char>, Seq<char>)|
        #[trigger] le(a, b) || #[trigger] le(b, a) by {
        lemma_text_le_total(a.0, b.0);
        lemma_text_le_total(a.1, b.1);
    }
    assert forall|a: (Seq<char>, Seq<char>), b: (Seq<char>, Seq<char>), c: (Seq<char>, Seq<char>)|
        #[trigger] le(a, b) && #[trigger] le(b, c) implies le(a, c) by {
        lemma_entry_le_transitive(a, b, c);
    }
}

/// The order of missing dependencies is transitive.
proof fn lemma_entry_le_transitive(
    a: (Seq<char>, Seq<char>),
    b: (Seq<char>, Seq<char>),
    c: (Seq<char>, Seq<char>),
)
    requires
        entry_le(a, b),
        entry_le(b, c),
    ensures
        entry_le(a, c),
{
    lemma_text_le_reflexive(a.0);
    lemma_text_le_reflexive(b.0);
    if a.0 == b.0 && b.0 == c.0 {
        lemma_text_le_transitive(a.1, b.1, c.1);
    } else if a.0 != b.0 && b.0 != c.0 {
        lemma_text_le_transitive(a.0, b.0, c.0);
        if a.0 == c.0 {
            lemma_text_le_antisymmetric(a.0, b.0);
        }
    }
}

/// The order of the final list of missing dependencies does not depend on
/// the order in which they were found: two lists in order that hold the
/// same dependencies, each as often, are the same list.
pub proof fn law_order_is_unique(a: Pairs, b: Pairs)
    requires
        in_order(a),
        in_order(b),
        a.to_multiset() == b.to_multiset(),
    ensures
        a == b,
{
    let le = |x: (Seq<char>, Seq<char>), y: (Seq<char>, Seq<char>)| entry_le(x, y);
    lemma_entry_order();
    lemma_sorted_unique(a, b, le);
}

/// Whether `a` comes before `b`, or equals it, in the order of texts.
pub fn text_precedes(a: &str, b: &str) -> (r: bool)
    ensures
        r == text_le(a@, b@),
{
    let x = to_chars(a);
    let y = to_chars(b);
    let mut i: usize = 0;
    assert(x@.skip(0) =~= x@ && y@.skip(0) =~= y@);
    while i < x.len() && i < y.len()
        invariant
            x@ == a@,
            y@ == b@,
            i <= x.len(),
            i <= y.len(),
            text_le(a@, b@) == text_le(x@.skip(i as int), y@.skip(i as int)),
        decreases x.len() - i,
    {
        let p: char = x[i];
        let q: char = y[i];
        if p != q {
            return p < q;
        }
        assert(x@.skip(i as int).skip(1) =~= x@.skip(i + 1));
        assert(y@.skip(i as int).skip(1) =~= y@.skip(i + 1));
        i = i + 1;
    }
    i == x.len()
}

/// Whether the missing dependency `a` comes before `b`, or equals it.
pub fn entry_precedes(a: &(String, String), b: &(String, String)) -> (r: bool)
    ensures
        r == entry_le(a.deep_view(), b.deep_view()),
{
    if same_text(a.0.as_str(), b.0.as_str()) {
        text_precedes(a.1.as_str(), b.1.as_str())
    } else {
        text_precedes(a.0.as_str(), b.0.as_str())
    }
}

/// The missing dependencies in order: by alias, then by spec. The list
/// holds what was given, each entry as often as it was given.
pub fn sort_missing(missing: &Vec<(String, String)>) -> (r: Vec<(String, String)>)
    ensures
        in_order(r.deep_view()),
        r.deep_view().to_multiset() == missing.deep_view().to_multiset(),
{
    let ghost given = missing.deep_view();
    let n: usize = missing.len();
    let mut sorted: Vec<(String, String)> = Vec::new();
    let mut i: usize = 0;
    assert(sorted.deep_view() =~= given.take(0));
    while i < n
        invariant
            given == missing.deep_view(),
            n == missing.len(),
            i <= n,
            sorted.len() == i,
            in_order(sorted.deep_view()),
            sorted.deep_view().to_multiset() == given.take(i as int).to_multiset(),
        decreases n - i,
    {
        let entry = &missing[i];
        let ghost e = entry.deep_view();
        let ghost before = sorted.deep_view();
        let mut p: usize = 0;
        while p < sorted.len() && entry_precedes(&sorted[p], entry)
            invariant
                p <= sorted.len(),
                e == entry.deep_view(),
                before == sorted.deep_view(),
                forall|j: int| 0 <= j < p ==> entry_le(before[j], e),
            decreases sorted.len() - p,
        {
            p = p + 1;
        }
        sorted.insert(p, (entry.0.clone(), entry.1.clone()));
        proof {
            let now = sorted.deep_view();
            assert(now =~= before.insert(p as int, e));
            assert forall|x: int, y: int| 0 <= x < y < now.len() implies entry_le(
                now[x],
                now[y],
            ) by {
                if x == p {
                    lemma_text_le_total(before[p as int].0, e.0);
                    lemma_text_le_total(before[p as int].1, e.1);
                    if y - 1 > p {
                        lemma_entry_le_transitive(e, before[p as int], before[y - 1]);
                    }
                }
            }
            vstd::seq_lib::to_multiset_insert(before, p as int, e);
            assert(given.take(i + 1) =~= given.take(i as int).push(e));
            vstd::seq_lib::to_multiset_build(given.take(i as int), e);
        }
        i = i + 1;
    }
    assert(given.take(n as int) =~= given);
    sorted
}

/// The result of a run.
#[derive(Clone, Debug)]
pub struct RunResult {
    /// The number of dependencies vendored.
    pub vendored: usize,
    /// The number of dependencies of the realms that were vendored.
    pub total: usize,
    /// The dependencies that resolve to no installed package: alias and
    /// spec.
    pub missing: Vec<(String, String)>,
}

impl RunResult {
    /// The result of a run in which no realm has been vendored yet.
    pub fn new() -> (r: RunResult)
        ensures
            r.vendored == 0,
            r.total == 0,
            r.missing.deep_view() == Seq::<(Seq<char>, Seq<char>)>::empty(),
    {
        let r = RunResult { vendored: 0, total: 0, missing: Vec::new() };
        r
    }

    /// Adds what one realm gave: the number of its dependencies, how many
    /// of them were vendored, and those that are missing.
    pub fn record(self, total: usize, vendored: usize, missing: &Vec<(String, String)>) -> (r:
        RunResult)
        requires
            self.total + total <= usize::MAX,
            self.vendored + vendored <= usize::MAX,
        ensures
            r.total == self.total + total,
            r.vendored == self.vendored + vendored,
            r.missing.deep_view() == self.missing.deep_view() + missing.deep_view(),
    {
        let ghost before = self.missing.deep_view();
        let mut all = self.missing;
        let n: usize = missing.len();
        let mut i: usize = 0;
        while i < n
            invariant
                n == missing.len(),
                i <= n,
                all.deep_view() == before + missing.deep_view().take(i as int),
            decreases n - i,
        {
            let ghost earlier = all.deep_view();
            all.push((missing[i].0.clone(), missing[i].1.clone()));
            assert(all.deep_view() =~= earlier.push(missing.deep_view()[i as int]));
            assert(missing.deep_view().take(i + 1) =~= missing.deep_view().take(i as int).push(
                missing.deep_view()[i as int],
            ));
            i = i + 1;
        }
        RunResult { vendored: self.vendored + vendored, total: self.total + total, missing: all }
    }

    /// The result as it is reported: the counts as they are, the missing
    /// dependencies in order, by alias and then by spec.
    pub fn finish(self) -> (r: RunResult)
        ensures
            r.vendored == self.vendored,
            r.total == self.total,
            in_order(r.missing.deep_view()),
            r.missing.deep_view().to_multiset() == self.missing.deep_view().to_multiset(),
    {
        let missing = sort_missing(&self.missing);
        RunResult { vendored: self.vendored, total: self.total, missing }
    }
}

} // verus!
