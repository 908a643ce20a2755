//! The ordering model.
//!
//! A list of documents is seen here as the sequence of their ordering values:
//! `Some(v)` for a document of the ordered subset, `None` for the others. The
//! functions below say what each edit does to that sequence, and the proof
//! functions state what holds of every sequence the edits can reach.

use vstd::prelude::*;

verus! {

/// The number of ordered entries among the first `n` entries of `s`.
pub open spec fn rank(s: Seq<Option<int>>, n: int) -> int
    decreases n,
{
    if n <= 0 {
        0
    } else {
        rank(s, n - 1) + if s[n - 1] is Some {
            1int
        } else {
            0int
        }
    }
}

/// The number of ordered entries of `s`.
pub open spec fn ordered_count(s: Seq<Option<int>>) -> int {
    rank(s, s.len() as int)
}

/// The set of values that the ordered entries of `s` carry.
pub open spec fn ordered_values(s: Seq<Option<int>>) -> Set<int> {
    Set::new(|v: int| exists|i: int| 0 <= i < s.len() && #[trigger] s[i] == Some(v))
}

/// The invariant of the ordering: every ordered entry carries the number of
/// ordered entries that stand before it. The values are then `0, 1, 2, ...` in
/// the order of the sequence.
pub open spec fn dense(s: Seq<Option<int>>) -> bool {
    forall|i: int| 0 <= i < s.len() && (#[trigger] s[i]) is Some ==> s[i] == Some(rank(s, i))
}

/// The value of the last ordered entry strictly before position `idx`.
pub open spec fn last_ordered_before(s: Seq<Option<int>>, idx: int) -> Option<int>
    decreases idx,
{
    if idx <= 0 {
        None
    } else if s[idx - 1] is Some {
        s[idx - 1]
    } else {
        last_ordered_before(s, idx - 1)
    }
}

/// The value that an entry entering the ordered subset at `idx` receives: one
/// more than the last ordered value before it, or 0 where there is none.
pub open spec fn insertion_value(s: Seq<Option<int>>, idx: int) -> int {
    match last_ordered_before(s, idx) {
        Some(v) => v + 1,
        None => 0,
    }
}

/// The sequence after the membership of entry `idx` has been flipped.
///
/// An ordered entry leaves and every later ordered value drops by one; an
/// unordered entry receives `insertion_value` and every later ordered value
/// rises by one. No entry changes place.
pub open spec fn toggled(s: Seq<Option<int>>, idx: int) -> Seq<Option<int>> {
    Seq::new(
        s.len(),
        |j: int|
            if j < idx {
                s[j]
            } else if j == idx {
                if s[idx] is Some {
                    None
                } else {
                    Some(insertion_value(s, idx))
                }
            } else {
                match s[j] {
                    Some(v) => Some(
                        if s[idx] is Some {
                            v - 1
                        } else {
                            v + 1
                        },
                    ),
                    None => None,
                }
            },
    )
}

/// The sequence of values after the entries at `i` and `j` have traded places.
///
/// Two ordered entries trade their values before they trade places, so each
/// position keeps its value. Otherwise the values move with the entries.
pub open spec fn swapped_values(s: Seq<Option<int>>, i: int, j: int) -> Seq<Option<int>> {
    if s[i] is Some && s[j] is Some {
        s
    } else {
        s.update(i, s[j]).update(j, s[i])
    }
}

/// The sequence after a renumbering from left to right: the ordered entries
/// receive `0, 1, 2, ...`, the others stay unordered.
pub open spec fn renumbered_values(s: Seq<Option<int>>) -> Seq<Option<int>> {
    Seq::new(
        s.len(),
        |i: int|
            if s[i] is Some {
                Some(rank(s, i))
            } else {
                None
            },
    )
}

/// An edit of the ordering, as a caller may request it. One that names a
/// position outside the list, or a neighbour that does not exist, is refused
/// and changes nothing.
pub enum Edit {
    Toggle(int),
    SwapPrev(int),
    SwapNext(int),
}

/// The sequence after one edit.
pub open spec fn edited(s: Seq<Option<int>>, e: Edit) -> Seq<Option<int>> {
    match e {
        Edit::Toggle(i) => if 0 <= i < s.len() {
            toggled(s, i)
        } else {
            s
        },
        Edit::SwapPrev(i) => if 1 <= i < s.len() {
            swapped_values(s, i, i - 1)
        } else {
            s
        },
        Edit::SwapNext(i) => if 0 <= i < s.len() - 1 {
            swapped_values(s, i, i + 1)
        } else {
            s
        },
    }
}

/// The sequence after a run of edits, applied from first to last.
pub open spec fn edited_all(s: Seq<Option<int>>, edits: Seq<Edit>) -> Seq<Option<int>>
    decreases edits.len(),
{
    if edits.len() == 0 {
        s
    } else {
        edited(edited_all(s, edits.drop_last()), edits.last())
    }
}

/// `rank` looks only at which of the first `n` entries are ordered.
pub proof fn lemma_rank_agrees(s: Seq<Option<int>>, t: Seq<Option<int>>, n: int)
    requires
        n <= s.len(),
        n <= t.len(),
        forall|k: int| 0 <= k < n ==> ((#[trigger] s[k]) is Some <==> t[k] is Some),
    ensures
        rank(s, n) == rank(t, n),
    decreases n,
{
    if n > 0 {
        lemma_rank_agrees(s, t, n - 1);
    }
}

/// `rank` never decreases, and grows by at most one per entry.
pub proof fn lemma_rank_monotonic(s: Seq<Option<int>>, m: int, n: int)
    requires
        0 <= m <= n,
    ensures
        0 <= rank(s, m) <= rank(s, n),
        rank(s, n) - rank(s, m) <= n - m,
    decreases n,
{
    if m < n {
        lemma_rank_monotonic(s, m, n - 1);
    } else {
        lemma_rank_nonnegative(s, m);
    }
}

proof fn lemma_rank_nonnegative(s: Seq<Option<int>>, n: int)
    ensures
        0 <= rank(s, n),
        n >= 0 ==> rank(s, n) <= n,
    decreases n,
{
    if n > 0 {
        lemma_rank_nonnegative(s, n - 1);
    }
}

/// In a dense sequence the value that `toggled` hands out is the rank of the
/// position.
pub proof fn lemma_insertion_value_is_rank(s: Seq<Option<int>>, idx: int)
    requires
        dense(s),
        0 <= idx <= s.len(),
    ensures
        insertion_value(s, idx) == rank(s, idx),
    decreases idx,
{
    if idx > 0 {
        if s[idx - 1] is Some {
        } else {
            lemma_insertion_value_is_rank(s, idx - 1);
        }
    }
}

/// The rank of a position after entry `idx` has been flipped: unchanged up to
/// `idx`, one less behind an entry that left, one more behind one that entered.
pub proof fn lemma_rank_toggled(s: Seq<Option<int>>, idx: int, n: int)
    requires
        0 <= idx < s.len(),
        0 <= n <= s.len(),
    ensures
        rank(toggled(s, idx), n) == rank(s, n) + if n <= idx {
            0int
        } else if s[idx] is Some {
            -1int
        } else {
            1int
        },
    decreases n,
{
    if n > 0 {
        lemma_rank_toggled(s, idx, n - 1);
    }
}

/// Flipping the membership of an entry keeps a dense sequence dense.
pub proof fn lemma_toggled_dense(s: Seq<Option<int>>, idx: int)
    requires
        dense(s),
        0 <= idx < s.len(),
    ensures
        dense(toggled(s, idx)),
{
    let t = toggled(s, idx);
    assert forall|i: int| 0 <= i < t.len() && (#[trigger] t[i]) is Some implies t[i] == Some(
        rank(t, i),
    ) by {
        lemma_rank_toggled(s, idx, i);
        if i == idx {
            lemma_insertion_value_is_rank(s, idx);
        } else {
            assert(s[i] is Some);
        }
    }
}

/// Trading the places of two neighbours keeps a dense sequence dense.
pub proof fn lemma_swapped_dense(s: Seq<Option<int>>, i: int)
    requires
        dense(s),
        0 <= i < s.len() - 1,
    ensures
        dense(swapped_values(s, i, i + 1)),
        swapped_values(s, i + 1, i) == swapped_values(s, i, i + 1),
{
    let t = swapped_values(s, i, i + 1);
    assert(swapped_values(s, i + 1, i) =~= t);
    if !(s[i] is Some && s[i + 1] is Some) {
        assert forall|k: int| 0 <= k < t.len() && (#[trigger] t[k]) is Some implies t[k] == Some(
            rank(t, k),
        ) by {
            if k <= i {
                lemma_rank_agrees(s, t, i);
                if k < i {
                    lemma_rank_agrees(s, t, k);
                    assert(s[k] is Some);
                } else {
                    // The entry that moved down to `i` was ordered at `i + 1`,
                    // behind an unordered entry.
                    assert(s[i + 1] is Some);
                    assert(rank(s, i + 1) == rank(s, i));
                }
            } else if k == i + 1 {
                // The entry that moved up to `i + 1` was ordered at `i`; the one
                // now before it is unordered.
                lemma_rank_agrees(s, t, i);
                assert(s[i] is Some);
                assert(rank(t, i + 1) == rank(t, i));
            } else {
                lemma_rank_swapped_behind(s, i, k);
                assert(s[k] is Some);
            }
        }
    }
}

proof fn lemma_rank_swapped_behind(s: Seq<Option<int>>, i: int, n: int)
    requires
        0 <= i < s.len() - 1,
        i + 2 <= n <= s.len(),
    ensures
        rank(s.update(i, s[i + 1]).update(i + 1, s[i]), n) == rank(s, n),
    decreases n,
{
    let t = s.update(i, s[i + 1]).update(i + 1, s[i]);
    if n == i + 2 {
        lemma_rank_agrees(s, t, i);
        assert(rank(s, i + 2) == rank(s, i + 1) + if s[i + 1] is Some { 1int } else { 0int });
        assert(rank(s, i + 1) == rank(s, i) + if s[i] is Some { 1int } else { 0int });
        assert(rank(t, i + 2) == rank(t, i + 1) + if t[i + 1] is Some { 1int } else { 0int });
        assert(rank(t, i + 1) == rank(t, i) + if t[i] is Some { 1int } else { 0int });
    } else {
        lemma_rank_swapped_behind(s, i, n - 1);
    }
}

/// A renumbering makes any sequence dense, and changes nothing in one that is.
pub proof fn lemma_renumbered_dense(s: Seq<Option<int>>)
    ensures
        dense(renumbered_values(s)),
        dense(s) ==> renumbered_values(s) == s,
{
    let t = renumbered_values(s);
    assert forall|i: int| 0 <= i < t.len() && (#[trigger] t[i]) is Some implies t[i] == Some(
        rank(t, i),
    ) by {
        lemma_rank_agrees(s, t, i);
    }
    if dense(s) {
        assert(t =~= s);
    }
}

/// Every edit, accepted or refused, keeps a dense sequence dense.
pub proof fn lemma_edited_dense(s: Seq<Option<int>>, e: Edit)
    requires
        dense(s),
    ensures
        dense(edited(s, e)),
{
    match e {
        Edit::Toggle(i) => {
            if 0 <= i < s.len() {
                lemma_toggled_dense(s, i);
            }
        },
        Edit::SwapPrev(i) => {
            if 1 <= i < s.len() {
                lemma_swapped_dense(s, i - 1);
            }
        },
        Edit::SwapNext(i) => {
            if 0 <= i < s.len() - 1 {
                lemma_swapped_dense(s, i);
            }
        },
    }
}

/// Density holds after any run of edits: whatever is toggled or swapped, and
/// in whatever order, a dense sequence stays dense.
pub proof fn lemma_edited_all_dense(s: Seq<Option<int>>, edits: Seq<Edit>)
    requires
        dense(s),
    ensures
        dense(edited_all(s, edits)),
    decreases edits.len(),
{
    if edits.len() > 0 {
        lemma_edited_all_dense(s, edits.drop_last());
        lemma_edited_dense(edited_all(s, edits.drop_last()), edits.last());
    }
}

/// Every rank below the number of ordered entries among the first `n` is the
/// rank of one of them.
proof fn lemma_rank_reached(s: Seq<Option<int>>, n: int, v: int) -> (i: int)
    requires
        0 <= n <= s.len(),
        0 <= v < rank(s, n),
    ensures
        0 <= i < n,
        s[i] is Some,
        rank(s, i) == v,
    decreases n,
{
    if n <= 0 {
        0
    } else if s[n - 1] is Some && rank(s, n - 1) == v {
        n - 1
    } else {
        lemma_rank_reached(s, n - 1, v)
    }
}

/// The values of a dense sequence are exactly `0, 1, ..., k - 1`, where `k` is
/// the number of ordered entries, and no two entries carry the same value.
pub proof fn lemma_dense_values_are_contiguous(s: Seq<Option<int>>)
    requires
        dense(s),
    ensures
        ordered_values(s) == Set::new(|v: int| 0 <= v < ordered_count(s)),
        forall|i: int, j: int|
            0 <= i < j < s.len() && (#[trigger] s[i]) is Some && (#[trigger] s[j]) is Some
                ==> s[i] != s[j],
{
    let k = ordered_count(s);
    assert forall|v: int| 0 <= v < k implies ordered_values(s).contains(v) by {
        let i = lemma_rank_reached(s, s.len() as int, v);
        assert(s[i] == Some(v));
    }
    assert forall|v: int| ordered_values(s).contains(v) implies 0 <= v < k by {
        let i = choose|i: int| 0 <= i < s.len() && #[trigger] s[i] == Some(v);
        lemma_rank_monotonic(s, 0, i);
        lemma_rank_monotonic(s, i + 1, s.len() as int);
    }
    assert(ordered_values(s) =~= Set::new(|v: int| 0 <= v < k));
    lemma_dense_values_ascend(s);
}

/// In a dense sequence the ordered entries stand in ascending order of their
/// values.
pub proof fn lemma_dense_values_ascend(s: Seq<Option<int>>)
    requires
        dense(s),
    ensures
        forall|i: int, j: int|
            0 <= i < j < s.len() && (#[trigger] s[i]) is Some && (#[trigger] s[j]) is Some
                ==> s[i]->0 < s[j]->0,
{
    assert forall|i: int, j: int|
        0 <= i < j < s.len() && (#[trigger] s[i]) is Some && (#[trigger] s[j]) is Some implies s[i]->0
        < s[j]->0 by {
        lemma_rank_monotonic(s, i + 1, j);
    }
}

/// Flipping the membership of the same entry twice in a row gives back the
/// sequence as it was.
pub proof fn lemma_toggled_twice(s: Seq<Option<int>>, idx: int)
    requires
        dense(s),
        0 <= idx < s.len(),
    ensures
        toggled(toggled(s, idx), idx) == s,
{
    let t = toggled(s, idx);
    let u = toggled(t, idx);
    if s[idx] is Some {
        lemma_toggled_dense(s, idx);
        lemma_insertion_value_is_rank(t, idx);
        lemma_rank_toggled(s, idx, idx);
    }
    assert(u =~= s);
}

/// A swap with the next entry followed by a swap of that entry with its
/// previous one gives back the values as they were.
pub proof fn lemma_swapped_values_back(s: Seq<Option<int>>, i: int)
    requires
        0 <= i < s.len() - 1,
    ensures
        swapped_values(swapped_values(s, i, i + 1), i + 1, i) == s,
{
    assert(swapped_values(swapped_values(s, i, i + 1), i + 1, i) =~= s);
}

} // verus!
