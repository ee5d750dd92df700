//! Counting occurrences and keeping first occurrences in a sequence.

use vstd::prelude::*;

verus! {

/// How often `t` occurs in `s`.
pub open spec fn occurrences<A>(s: Seq<A>, t: A) -> nat
    decreases s.len(),
{
    if s.len() == 0 {
        0
    } else {
        occurrences(s.drop_last(), t) + if s.last() == t {
            1nat
        } else {
            0nat
        }
    }
}

/// `s` with every element dropped that already occurred further left.
pub open spec fn first_occurrences<A>(s: Seq<A>) -> Seq<A>
    decreases s.len(),
{
    if s.len() == 0 {
        Seq::empty()
    } else if s.drop_last().contains(s.last()) {
        first_occurrences(s.drop_last())
    } else {
        first_occurrences(s.drop_last()).push(s.last())
    }
}

/// Whether position `i` of `s` holds an element that occurs nowhere to its
/// left.
pub open spec fn is_first_occurrence<A>(s: Seq<A>, i: int) -> bool {
    &&& 0 <= i < s.len()
    &&& forall|j: int| 0 <= j < i ==> s[j] != s[i]
}

/// The position at which `t` first occurs in `s`.
pub open spec fn first_position<A>(s: Seq<A>, t: A) -> int {
    choose|i: int| is_first_occurrence(s, i) && s[i] == t
}

/// The slots of `s` that hold `t`.
pub open spec fn slots_of<A>(s: Seq<A>, t: A) -> Set<int> {
    Set::new(|i: int| 0 <= i < s.len() && s[i] == t)
}

/// An element occurs as often as there are slots that hold it: of the
/// `s.len()` slots of a sequence, `occurrences(s, t)` belong to `t`.
pub proof fn lemma_slots_of<A>(s: Seq<A>, t: A)
    ensures
        slots_of(s, t).finite(),
        slots_of(s, t).len() == occurrences(s, t),
    decreases s.len(),
{
    if s.len() == 0 {
        assert(slots_of(s, t) =~= Set::<int>::empty());
    } else {
        let front = s.drop_last();
        lemma_slots_of(front, t);
        if s.last() == t {
            assert(slots_of(s, t) =~= slots_of(front, t).insert(s.len() - 1));
        } else {
            assert(slots_of(s, t) =~= slots_of(front, t));
        }
    }
}

/// An element occurs a positive number of times exactly when the sequence
/// contains it.
pub proof fn lemma_occurrences_contains<A>(s: Seq<A>, t: A)
    ensures
        occurrences(s, t) > 0 <==> s.contains(t),
    decreases s.len(),
{
    if s.len() > 0 {
        let front = s.drop_last();
        lemma_occurrences_contains(front, t);
        if front.contains(t) {
            let i = choose|i: int| 0 <= i < front.len() && front[i] == t;
            assert(s[i] == t);
        }
        if s.contains(t) && s.last() != t {
            let i = choose|i: int| 0 <= i < s.len() && s[i] == t;
            assert(front[i] == t);
        }
    }
}

/// Occurrences add up over concatenation.
pub proof fn lemma_occurrences_add<A>(a: Seq<A>, b: Seq<A>, t: A)
    ensures
        occurrences(a + b, t) == occurrences(a, t) + occurrences(b, t),
    decreases b.len(),
{
    if b.len() == 0 {
        assert(a + b =~= a);
    } else {
        assert((a + b).drop_last() =~= a + b.drop_last());
        lemma_occurrences_add(a, b.drop_last(), t);
    }
}

/// Pushing an element adds one occurrence of it and none of anything else.
pub proof fn lemma_occurrences_push<A>(s: Seq<A>, x: A, t: A)
    ensures
        occurrences(s.push(x), t) == occurrences(s, t) + if x == t {
            1nat
        } else {
            0nat
        },
{
    assert(s.push(x).drop_last() =~= s);
}

/// In a sequence without duplicates nothing occurs twice.
pub proof fn lemma_occurrences_no_duplicates<A>(s: Seq<A>, t: A)
    requires
        s.no_duplicates(),
    ensures
        occurrences(s, t) <= 1,
    decreases s.len(),
{
    if s.len() > 0 {
        let front = s.drop_last();
        lemma_occurrences_no_duplicates(front, t);
        if s.last() == t {
            lemma_occurrences_contains(front, t);
            if front.contains(t) {
                let i = choose|i: int| 0 <= i < front.len() && front[i] == t;
                assert(s[i] == s[s.len() - 1]);
            }
        }
    }
}

/// Filtering keeps every copy of an element that passes and none of one that
/// does not.
pub proof fn lemma_occurrences_filter<A>(s: Seq<A>, keep: spec_fn(A) -> bool, t: A)
    ensures
        occurrences(s.filter(keep), t) == if keep(t) {
            occurrences(s, t)
        } else {
            0
        },
    decreases s.len(),
{
    reveal(Seq::filter);
    if s.len() > 0 {
        lemma_occurrences_filter(s.drop_last(), keep, t);
        if keep(s.last()) {
            lemma_occurrences_push(s.drop_last().filter(keep), s.last(), t);
        }
    }
}

/// The first occurrences hold the same elements as the sequence they were
/// taken from.
pub proof fn lemma_first_occurrences_contains<A>(s: Seq<A>, t: A)
    ensures
        first_occurrences(s).contains(t) <==> s.contains(t),
    decreases s.len(),
{
    if s.len() > 0 {
        let front = s.drop_last();
        let kept = first_occurrences(front);
        lemma_first_occurrences_contains(front, t);
        if front.contains(t) {
            let i = choose|i: int| 0 <= i < front.len() && front[i] == t;
            assert(s[i] == t);
        }
        if s.contains(t) && s.last() != t {
            let i = choose|i: int| 0 <= i < s.len() && s[i] == t;
            assert(front[i] == t);
        }
        if !front.contains(s.last()) {
            let r = kept.push(s.last());
            if kept.contains(t) {
                let i = choose|i: int| 0 <= i < kept.len() && kept[i] == t;
                assert(r[i] == t);
            }
            if s.last() == t {
                assert(r[r.len() - 1] == t);
            }
            if r.contains(t) {
                let i = choose|i: int| 0 <= i < r.len() && r[i] == t;
                if i < kept.len() {
                    assert(kept[i] == t);
                }
            }
        }
    }
}

/// The first occurrences hold no element twice.
pub proof fn lemma_first_occurrences_no_duplicates<A>(s: Seq<A>)
    ensures
        first_occurrences(s).no_duplicates(),
    decreases s.len(),
{
    if s.len() > 0 {
        let front = s.drop_last();
        lemma_first_occurrences_no_duplicates(front);
        if !front.contains(s.last()) {
            let kept = first_occurrences(front);
            let r = kept.push(s.last());
            assert forall|i: int, j: int| 0 <= i < r.len() && 0 <= j < r.len() && i != j implies r[i]
                != r[j] by {
                if i == kept.len() {
                    lemma_first_occurrences_contains(front, kept[j]);
                    assert(kept.contains(kept[j]));
                } else if j == kept.len() {
                    lemma_first_occurrences_contains(front, kept[i]);
                    assert(kept.contains(kept[i]));
                }
            }
        }
    }
}

/// Every element of the sequence occurs exactly once among its first
/// occurrences, and nothing else occurs there.
pub proof fn lemma_first_occurrences_once<A>(s: Seq<A>, t: A)
    ensures
        occurrences(first_occurrences(s), t) == if s.contains(t) {
            1nat
        } else {
            0nat
        },
{
    let r = first_occurrences(s);
    lemma_first_occurrences_contains(s, t);
    lemma_first_occurrences_no_duplicates(s);
    lemma_occurrences_contains(r, t);
    lemma_occurrences_no_duplicates(r, t);
}

/// A contained element has exactly one first position.
pub proof fn lemma_first_position<A>(s: Seq<A>, t: A)
    requires
        s.contains(t),
    ensures
        is_first_occurrence(s, first_position(s, t)),
        s[first_position(s, t)] == t,
        forall|i: int| is_first_occurrence(s, i) && s[i] == t ==> i == first_position(s, t),
    decreases s.len(),
{
    let front = s.drop_last();
    if front.contains(t) {
        lemma_first_position(front, t);
        let p = first_position(front, t);
        assert(s[p] == t);
        assert forall|j: int| 0 <= j < p implies s[j] != s[p] by {
            assert(front[j] != front[p]);
        }
        assert(is_first_occurrence(s, p));
    } else {
        let i = choose|i: int| 0 <= i < s.len() && s[i] == t;
        assert(i == s.len() - 1) by {
            if i < front.len() {
                assert(front[i] == t);
            }
        }
        assert forall|j: int| 0 <= j < i implies s[j] != s[i] by {
            assert(front[j] == s[j]);
        }
        assert(is_first_occurrence(s, i));
    }
    let p = first_position(s, t);
    assert forall|i: int| is_first_occurrence(s, i) && s[i] == t implies i == p by {
        if i < p {
            assert(s[i] != s[p]);
        } else if p < i {
            assert(s[p] != s[i]);
        }
    }
}

/// The first occurrences stand in the order in which their elements first
/// appear in the sequence.
pub proof fn lemma_first_occurrences_order<A>(s: Seq<A>, i: int, j: int)
    requires
        0 <= i < j < first_occurrences(s).len(),
    ensures
        s.contains(first_occurrences(s)[i]),
        s.contains(first_occurrences(s)[j]),
        first_position(s, first_occurrences(s)[i]) < first_position(s, first_occurrences(s)[j]),
    decreases s.len(),
{
    let r = first_occurrences(s);
    assert(r.contains(r[i]));
    assert(r.contains(r[j]));
    lemma_first_occurrences_contains(s, r[i]);
    lemma_first_occurrences_contains(s, r[j]);
    lemma_first_position(s, r[i]);
    lemma_first_position(s, r[j]);
    let front = s.drop_last();
    let kept = first_occurrences(front);
    if !front.contains(s.last()) && j == kept.len() {
        assert(kept.contains(kept[i]));
        lemma_first_occurrences_contains(front, kept[i]);
        lemma_first_position(front, kept[i]);
        let p = first_position(front, kept[i]);
        assert(s[p] == kept[i]);
        assert forall|k: int| 0 <= k < p implies s[k] != s[p] by {
            assert(front[k] != front[p]);
        }
        assert(is_first_occurrence(s, p));
        let q = s.len() - 1;
        assert(is_first_occurrence(s, q)) by {
            assert forall|k: int| 0 <= k < q implies #[trigger] s[k] != s[q] by {
                assert(front[k] == s[k]);
            }
        }
    } else {
        lemma_first_occurrences_order(front, i, j);
        lemma_first_position_front(s, kept[i]);
        lemma_first_position_front(s, kept[j]);
    }
}

/// Appending an element leaves the first position of everything that came
/// before it where it was.
proof fn lemma_first_position_front<A>(s: Seq<A>, t: A)
    requires
        s.len() > 0,
        s.drop_last().contains(t),
    ensures
        first_position(s, t) == first_position(s.drop_last(), t),
{
    let front = s.drop_last();
    lemma_first_position(front, t);
    let p = first_position(front, t);
    assert(s[p] == t);
    assert(s.contains(t));
    assert forall|k: int| 0 <= k < p implies s[k] != s[p] by {
        assert(front[k] != front[p]);
    }
    assert(is_first_occurrence(s, p));
    lemma_first_position(s, t);
}

} // verus!
