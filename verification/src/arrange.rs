//! Lists of documents as sequences of `PageView`: what the operations of a
//! `PageList` make of them, and what holds of the results.

use crate::order::{
    dense, lemma_rank_agrees, lemma_rank_monotonic, lemma_renumbered_dense, lemma_toggled_twice,
    ordered_count, rank, renumbered_values, swapped_values, toggled,
};
use crate::page::PageView;
use vstd::prelude::*;

verus! {

/// The ordering values of a list, document by document.
pub open spec fn values_of(s: Seq<PageView>) -> Seq<Option<int>> {
    Seq::new(s.len(), |i: int| s[i].value)
}

/// The list `s` with the ordering values `values`, document by document.
pub open spec fn with_values(s: Seq<PageView>, values: Seq<Option<int>>) -> Seq<PageView> {
    Seq::new(s.len(), |i: int| PageView { value: values[i], ..s[i] })
}

/// The list after the membership of document `idx` has been flipped: the
/// documents stay where they are and as they are, but for their ordering
/// values.
pub open spec fn toggled_pages(s: Seq<PageView>, idx: int) -> Seq<PageView> {
    with_values(s, toggled(values_of(s), idx))
}

/// The list after the documents at `i` and `j` have traded places. Where both
/// are ordered, each position keeps its ordering value.
pub open spec fn swapped_pages(s: Seq<PageView>, i: int, j: int) -> Seq<PageView> {
    if s[i].value is Some && s[j].value is Some {
        s.update(i, PageView { value: s[i].value, ..s[j] }).update(
            j,
            PageView { value: s[j].value, ..s[i] },
        )
    } else {
        s.update(i, s[j]).update(j, s[i])
    }
}

/// The list after a renumbering: the ordered documents receive `0, 1, 2, ...`
/// in the order of the list.
pub open spec fn renumbered_pages(s: Seq<PageView>) -> Seq<PageView> {
    with_values(s, renumbered_values(values_of(s)))
}

/// The order in which documents are sorted: an ordered document comes before
/// another with a greater value, and before every unordered one. Documents
/// with equal values, and unordered ones among themselves, do not come before
/// each other.
pub open spec fn sorts_before(a: Option<int>, b: Option<int>) -> bool {
    match (a, b) {
        (Some(x), Some(y)) => x < y,
        (Some(_), None) => true,
        (None, _) => false,
    }
}

/// Whether no document of `s` stands behind one that it sorts before.
pub open spec fn is_sorted(s: Seq<PageView>) -> bool {
    forall|i: int, j: int|
        0 <= i < j < s.len() ==> !sorts_before((#[trigger] s[j]).value, (#[trigger] s[i]).value)
}

/// Where a document with `value` enters a sorted list: behind the last
/// document that it does not sort before.
pub open spec fn insertion_index(t: Seq<PageView>, value: Option<int>) -> int
    decreases t.len(),
{
    if t.len() == 0 {
        0
    } else if sorts_before(value, t.last().value) {
        insertion_index(t.drop_last(), value)
    } else {
        t.len() as int
    }
}

/// The list sorted by `sorts_before`, with documents that do not sort before
/// each other left in the order in which they stood: the documents enter one
/// by one, each at its `insertion_index`.
pub open spec fn stable_sorted(s: Seq<PageView>) -> Seq<PageView>
    decreases s.len(),
{
    if s.len() == 0 {
        s
    } else {
        let t = stable_sorted(s.drop_last());
        t.insert(insertion_index(t, s.last().value), s.last())
    }
}

/// The list as it stands after loading: sorted, then renumbered.
pub open spec fn arranged(s: Seq<PageView>) -> Seq<PageView> {
    renumbered_pages(stable_sorted(s))
}

/// The documents of `s` that carry the ordering value `value`, in their order.
pub open spec fn with_value(s: Seq<PageView>, value: Option<int>) -> Seq<PageView> {
    s.filter(|p: PageView| p.value == value)
}

/// The insertion index lies in the list; the documents before it do not sort
/// behind the entering one, and in a sorted list those from it on do.
pub proof fn lemma_insertion_index(t: Seq<PageView>, value: Option<int>)
    ensures
        0 <= insertion_index(t, value) <= t.len(),
        forall|k: int|
            insertion_index(t, value) <= k < t.len() ==> sorts_before(
                value,
                (#[trigger] t[k]).value,
            ),
        is_sorted(t) ==> forall|k: int|
            0 <= k < insertion_index(t, value) ==> !sorts_before(value, (#[trigger] t[k]).value),
    decreases t.len(),
{
    if t.len() > 0 {
        if sorts_before(value, t.last().value) {
            let head = t.drop_last();
            lemma_insertion_index(head, value);
            assert forall|k: int| insertion_index(t, value) <= k < t.len() implies sorts_before(
                value,
                (#[trigger] t[k]).value,
            ) by {
                if k < t.len() - 1 {
                    assert(t[k] == head[k]);
                }
            }
            if is_sorted(t) {
                assert(is_sorted(head)) by {
                    assert forall|i: int, j: int| 0 <= i < j < head.len() implies !sorts_before(
                        (#[trigger] head[j]).value,
                        (#[trigger] head[i]).value,
                    ) by {
                        assert(head[i] == t[i] && head[j] == t[j]);
                    }
                }
                assert forall|k: int| 0 <= k < insertion_index(t, value) implies !sorts_before(
                    value,
                    (#[trigger] t[k]).value,
                ) by {
                    assert(t[k] == head[k]);
                }
            }
        } else {
            if is_sorted(t) {
                assert forall|k: int| 0 <= k < t.len() implies !sorts_before(
                    value,
                    (#[trigger] t[k]).value,
                ) by {
                    let last = t.len() - 1;
                    if k < last {
                        assert(!sorts_before(t[last].value, t[k].value));
                    }
                }
            }
        }
    }
}

/// Sorting keeps the number of documents.
pub proof fn lemma_stable_sorted_len(s: Seq<PageView>)
    ensures
        stable_sorted(s).len() == s.len(),
    decreases s.len(),
{
    if s.len() > 0 {
        lemma_stable_sorted_len(s.drop_last());
        lemma_insertion_index(stable_sorted(s.drop_last()), s.last().value);
    }
}

/// A sorted list is sorted: no document stands behind one that it sorts
/// before. The ordered documents come first, by ascending value, and the
/// unordered ones last.
pub proof fn lemma_stable_sorted_is_sorted(s: Seq<PageView>)
    ensures
        is_sorted(stable_sorted(s)),
    decreases s.len(),
{
    if s.len() > 0 {
        let t = stable_sorted(s.drop_last());
        let x = s.last();
        let pos = insertion_index(t, x.value);
        let u = t.insert(pos, x);
        lemma_stable_sorted_is_sorted(s.drop_last());
        lemma_insertion_index(t, x.value);
        assert forall|i: int, j: int| 0 <= i < j < u.len() implies !sorts_before(
            (#[trigger] u[j]).value,
            (#[trigger] u[i]).value,
        ) by {
            if j < pos {
                assert(u[i] == t[i] && u[j] == t[j]);
            } else if j == pos {
                assert(u[i] == t[i]);
            } else if i < pos {
                assert(u[i] == t[i] && u[j] == t[j - 1]);
            } else if i == pos {
                assert(u[j] == t[j - 1]);
            } else {
                assert(u[i] == t[i - 1] && u[j] == t[j - 1]);
            }
        }
    }
}

/// Sorting moves documents and does nothing else: the sorted list holds the
/// same documents, each as often as the list it was made from.
pub proof fn lemma_stable_sorted_is_permutation(s: Seq<PageView>)
    ensures
        stable_sorted(s).to_multiset() == s.to_multiset(),
    decreases s.len(),
{
    if s.len() > 0 {
        let t = stable_sorted(s.drop_last());
        let x = s.last();
        lemma_stable_sorted_is_permutation(s.drop_last());
        lemma_insertion_index(t, x.value);
        vstd::seq_lib::to_multiset_insert(t, insertion_index(t, x.value), x);
        vstd::seq_lib::to_multiset_build(s.drop_last(), x);
        assert(s.drop_last().push(x) == s);
    }
}

/// Sorting is stable: the documents that carry one ordering value, and the
/// unordered ones, stand in the sorted list in the order in which they stood
/// before.
pub proof fn lemma_stable_sorted_is_stable(s: Seq<PageView>, value: Option<int>)
    ensures
        with_value(stable_sorted(s), value) == with_value(s, value),
    decreases s.len(),
{
    let pred = |p: PageView| p.value == value;
    if s.len() > 0 {
        let t = stable_sorted(s.drop_last());
        let x = s.last();
        let pos = insertion_index(t, x.value);
        lemma_stable_sorted_is_stable(s.drop_last(), value);
        lemma_stable_sorted_is_sorted(s.drop_last());
        lemma_insertion_index(t, x.value);
        let front = t.subrange(0, pos);
        let back = t.subrange(pos, t.len() as int);
        assert(t == front + back);
        assert(t.insert(pos, x) == front.push(x) + back);
        Seq::filter_distributes_over_add(front, back, pred);
        Seq::filter_distributes_over_add(front.push(x), back, pred);
        front.lemma_filter_push(x, pred);
        s.drop_last().lemma_filter_push(x, pred);
        assert(s.drop_last().push(x) == s);
        if pred(x) {
            // No document behind the insertion index carries the value of `x`.
            assert forall|k: int| 0 <= k < back.len() implies !pred(#[trigger] back[k]) by {
                assert(back[k] == t[pos + k]);
            }
            back.lemma_all_neg_filter_empty(pred);
            assert(back.filter(pred).len() == 0);
            assert(front.filter(pred).push(x) + back.filter(pred) == (front.filter(pred)
                + back.filter(pred)).push(x));
        }
    } else {
        assert(stable_sorted(s) == s);
    }
}

/// The ordering values of a list that has been given `values` are `values`.
pub proof fn lemma_values_of_with_values(s: Seq<PageView>, values: Seq<Option<int>>)
    requires
        values.len() == s.len(),
    ensures
        values_of(with_values(s, values)) == values,
        with_values(s, values_of(s)) == s,
{
    assert(values_of(with_values(s, values)) =~= values);
    assert(with_values(s, values_of(s)) =~= s);
}

/// After loading, the ordering is dense.
pub proof fn lemma_arranged_dense(s: Seq<PageView>)
    ensures
        arranged(s).len() == s.len(),
        dense(values_of(arranged(s))),
{
    let t = stable_sorted(s);
    lemma_stable_sorted_len(s);
    lemma_renumbered_dense(values_of(t));
    lemma_values_of_with_values(t, renumbered_values(values_of(t)));
}

/// The number of ordered documents among the first `n` after a document has
/// entered the list at `pos`.
proof fn lemma_rank_insert(t: Seq<PageView>, pos: int, x: PageView, n: int)
    requires
        0 <= pos <= t.len(),
        0 <= n <= t.len() + 1,
    ensures
        rank(values_of(t.insert(pos, x)), n) == if n <= pos {
            rank(values_of(t), n)
        } else {
            rank(values_of(t), n - 1) + if x.value is Some {
                1int
            } else {
                0int
            }
        },
    decreases n,
{
    if n > 0 {
        lemma_rank_insert(t, pos, x, n - 1);
        let u = t.insert(pos, x);
        if n - 1 < pos {
            assert(u[n - 1] == t[n - 1]);
        } else if n - 1 == pos {
            assert(u[n - 1] == x);
        } else {
            assert(u[n - 1] == t[n - 2]);
        }
    }
}

/// Sorting keeps the number of ordered documents.
pub proof fn lemma_stable_sorted_ordered_count(s: Seq<PageView>)
    ensures
        ordered_count(values_of(stable_sorted(s))) == ordered_count(values_of(s)),
    decreases s.len(),
{
    if s.len() > 0 {
        let head = s.drop_last();
        let t = stable_sorted(head);
        let x = s.last();
        lemma_stable_sorted_ordered_count(head);
        lemma_stable_sorted_len(head);
        lemma_insertion_index(t, x.value);
        lemma_rank_insert(t, insertion_index(t, x.value), x, t.len() as int + 1);
        lemma_rank_agrees(values_of(s), values_of(head), head.len() as int);
    }
}

/// In a sorted list the ordered documents stand before the unordered ones:
/// among the first `n` documents, all are ordered, or as many as in the whole
/// list.
proof fn lemma_sorted_rank(t: Seq<PageView>, n: int)
    requires
        is_sorted(t),
        0 <= n <= t.len(),
    ensures
        rank(values_of(t), n) == if n <= ordered_count(values_of(t)) {
            n
        } else {
            ordered_count(values_of(t))
        },
        n < ordered_count(values_of(t)) ==> t[n].value is Some,
        ordered_count(values_of(t)) <= n < t.len() ==> t[n].value is None,
    decreases t.len() - n,
{
    let v = values_of(t);
    let k = ordered_count(v);
    lemma_rank_monotonic(v, 0, n);
    lemma_rank_monotonic(v, n, t.len() as int);
    if n < t.len() {
        lemma_sorted_rank(t, n + 1);
        if t[n].value is None {
            // No ordered document stands behind an unordered one.
            assert forall|m: int| n <= m < t.len() implies (#[trigger] v[m]) is None by {
                if n < m {
                    assert(!sorts_before(t[m].value, t[n].value));
                }
            }
            lemma_rank_constant(v, n, t.len() as int);
        } else {
            assert forall|m: int| 0 <= m < n implies (#[trigger] v[m]) is Some by {
                assert(!sorts_before(t[n].value, t[m].value));
            }
            lemma_rank_full(v, n + 1);
        }
    }
}

/// Where none of the entries from `m` up to `n` is ordered, the rank does not
/// grow between them.
proof fn lemma_rank_constant(v: Seq<Option<int>>, m: int, n: int)
    requires
        0 <= m <= n <= v.len(),
        forall|i: int| m <= i < n ==> (#[trigger] v[i]) is None,
    ensures
        rank(v, n) == rank(v, m),
    decreases n - m,
{
    if m < n {
        lemma_rank_constant(v, m, n - 1);
    }
}

/// Where each of the first `n` entries is ordered, their rank is `n`.
proof fn lemma_rank_full(v: Seq<Option<int>>, n: int)
    requires
        0 <= n <= v.len(),
        forall|i: int| 0 <= i < n ==> (#[trigger] v[i]) is Some,
    ensures
        rank(v, n) == n,
    decreases n,
{
    if n > 0 {
        lemma_rank_full(v, n - 1);
    }
}

/// After loading, the ordered documents stand first and carry `0, 1, ...,
/// k - 1`, where `k` is their number, and the unordered ones stand behind
/// them.
pub proof fn lemma_arranged_values(s: Seq<PageView>)
    ensures
        arranged(s).len() == s.len(),
        forall|i: int|
            0 <= i < s.len() ==> (#[trigger] arranged(s)[i]).value == if i < ordered_count(
                values_of(s),
            ) {
                Some(i)
            } else {
                None
            },
{
    let t = stable_sorted(s);
    lemma_stable_sorted_len(s);
    lemma_stable_sorted_is_sorted(s);
    lemma_stable_sorted_ordered_count(s);
    assert forall|i: int| 0 <= i < s.len() implies (#[trigger] arranged(s)[i]).value == if i
        < ordered_count(values_of(s)) {
        Some(i)
    } else {
        None
    } by {
        lemma_sorted_rank(t, i);
    }
}

/// The ordering values after a toggle are those that `toggled` gives.
pub proof fn lemma_values_of_toggled(s: Seq<PageView>, idx: int)
    ensures
        values_of(toggled_pages(s, idx)) == toggled(values_of(s), idx),
{
    lemma_values_of_with_values(s, toggled(values_of(s), idx));
}

/// The ordering values after a swap are those that `swapped_values` gives.
pub proof fn lemma_values_of_swapped(s: Seq<PageView>, i: int, j: int)
    requires
        0 <= i < s.len(),
        0 <= j < s.len(),
    ensures
        values_of(swapped_pages(s, i, j)) == swapped_values(values_of(s), i, j),
{
    assert(values_of(swapped_pages(s, i, j)) =~= swapped_values(values_of(s), i, j));
}

/// Flipping the membership of the same document twice in a row gives back the
/// list as it was: the value of that document, and those of all others.
pub proof fn lemma_toggled_pages_twice(s: Seq<PageView>, idx: int)
    requires
        dense(values_of(s)),
        0 <= idx < s.len(),
    ensures
        toggled_pages(toggled_pages(s, idx), idx) == s,
{
    let v = values_of(s);
    lemma_toggled_twice(v, idx);
    lemma_values_of_with_values(s, toggled(v, idx));
    assert(toggled_pages(toggled_pages(s, idx), idx) =~= s);
}

/// A swap of a document with the next one, followed by a swap of the document
/// then at the next position with its previous one, gives back the list as it
/// was: the order of the documents, and the value of each.
pub proof fn lemma_swapped_pages_back(s: Seq<PageView>, i: int)
    requires
        0 <= i < s.len() - 1,
    ensures
        swapped_pages(swapped_pages(s, i, i + 1), i + 1, i) == s,
{
    assert(swapped_pages(swapped_pages(s, i, i + 1), i + 1, i) =~= s);
}

} // verus!
