//! Facts about sequences that serve as tables: finding the first row that a
//! predicate picks, and keeping the rows that a predicate picks.

use vstd::prelude::*;

verus! {

/// The position of the first row that `pick` holds of, if any.
pub open spec fn first_where<T>(rows: Seq<T>, pick: spec_fn(T) -> bool) -> Option<int>
    decreases rows.len(),
{
    if rows.len() == 0 {
        None
    } else if pick(rows[0]) {
        Some(0)
    } else {
        match first_where(rows.drop_first(), pick) {
            Some(i) => Some(i + 1),
            None => None,
        }
    }
}

/// What `first_where` finds is a row that is picked, with no picked row
/// before it; where it finds nothing, no row is picked.
pub proof fn lemma_first_where<T>(rows: Seq<T>, pick: spec_fn(T) -> bool)
    ensures
        match first_where(rows, pick) {
            Some(i) => 0 <= i < rows.len() && pick(rows[i]) && forall|j: int|
                0 <= j < i ==> !pick(#[trigger] rows[j]),
            None => forall|j: int| 0 <= j < rows.len() ==> !pick(#[trigger] rows[j]),
        },
    decreases rows.len(),
{
    if rows.len() > 0 && !pick(rows[0]) {
        let rest = rows.drop_first();
        lemma_first_where(rest, pick);
        match first_where(rest, pick) {
            Some(i) => {
                assert forall|j: int| 0 <= j < i + 1 implies !pick(#[trigger] rows[j]) by {
                    if j > 0 {
                        assert(rest[j - 1] == rows[j]);
                    }
                }
            },
            None => {
                assert forall|j: int| 0 <= j < rows.len() implies !pick(#[trigger] rows[j]) by {
                    if j > 0 {
                        assert(rest[j - 1] == rows[j]);
                    }
                }
            },
        }
    }
}

/// A picked row with no picked row before it is what `first_where` finds.
pub proof fn lemma_first_where_at<T>(rows: Seq<T>, pick: spec_fn(T) -> bool, i: int)
    requires
        0 <= i < rows.len(),
        pick(rows[i]),
        forall|j: int| 0 <= j < i ==> !pick(#[trigger] rows[j]),
    ensures
        first_where(rows, pick) == Some(i),
{
    lemma_first_where(rows, pick);
}

/// Where no row is picked, `first_where` finds nothing.
pub proof fn lemma_first_where_none<T>(rows: Seq<T>, pick: spec_fn(T) -> bool)
    requires
        forall|j: int| 0 <= j < rows.len() ==> !pick(#[trigger] rows[j]),
    ensures
        first_where(rows, pick) is None,
{
    lemma_first_where(rows, pick);
}

/// Keeping the picked rows of a table that is one row longer: the row is
/// kept or not, behind what was kept before.
pub proof fn lemma_filter_next<T>(rows: Seq<T>, pick: spec_fn(T) -> bool, k: int)
    requires
        0 <= k < rows.len(),
    ensures
        rows.subrange(0, k + 1).filter(pick) == if pick(rows[k]) {
            rows.subrange(0, k).filter(pick).push(rows[k])
        } else {
            rows.subrange(0, k).filter(pick)
        },
{
    reveal(Seq::filter);
    let head = rows.subrange(0, k + 1);
    assert(head.drop_last() =~= rows.subrange(0, k));
    assert(head.last() == rows[k]);
}

/// Of no rows, none are kept.
pub proof fn lemma_filter_none<T>(rows: Seq<T>, pick: spec_fn(T) -> bool)
    ensures
        rows.subrange(0, 0).filter(pick) == Seq::<T>::empty(),
{
    reveal(Seq::filter);
    assert(rows.subrange(0, 0).len() == 0);
    assert(rows.subrange(0, 0).filter(pick) =~= Seq::<T>::empty());
}

/// Two rows that are kept, one before the other, stood in that order in the
/// table they were kept from.
pub proof fn lemma_filter_pairs<T>(rows: Seq<T>, pick: spec_fn(T) -> bool, a: int, b: int)
    requires
        0 <= a < b < rows.filter(pick).len(),
    ensures
        exists|x: int, y: int|
            0 <= x < y < rows.len() && rows[x] == rows.filter(pick)[a] && rows[y] == rows.filter(
                pick,
            )[b] && pick(rows[x]) && pick(rows[y]),
    decreases rows.len(),
{
    reveal(Seq::filter);
    if rows.len() > 0 {
        let front = rows.drop_last();
        let kept = front.filter(pick);
        if b < kept.len() {
            lemma_filter_pairs(front, pick, a, b);
            let (x, y) = choose|x: int, y: int|
                0 <= x < y < front.len() && front[x] == kept[a] && front[y] == kept[b] && pick(
                    front[x],
                ) && pick(front[y]);
            assert(rows[x] == rows.filter(pick)[a] && rows[y] == rows.filter(pick)[b]);
        } else {
            lemma_filter_one(front, pick, a);
            let x = choose|x: int| 0 <= x < front.len() && front[x] == kept[a] && pick(front[x]);
            let y = rows.len() - 1;
            assert(rows[x] == rows.filter(pick)[a] && rows[y] == rows.filter(pick)[b]);
        }
    }
}

/// A row that is kept stood in the table it was kept from, and is picked.
pub proof fn lemma_filter_one<T>(rows: Seq<T>, pick: spec_fn(T) -> bool, a: int)
    requires
        0 <= a < rows.filter(pick).len(),
    ensures
        exists|x: int| 0 <= x < rows.len() && rows[x] == rows.filter(pick)[a] && pick(rows[x]),
    decreases rows.len(),
{
    reveal(Seq::filter);
    if rows.len() > 0 {
        let front = rows.drop_last();
        let kept = front.filter(pick);
        if a < kept.len() {
            lemma_filter_one(front, pick, a);
            let x = choose|x: int| 0 <= x < front.len() && front[x] == kept[a] && pick(front[x]);
            assert(rows[x] == rows.filter(pick)[a]);
        } else {
            assert(rows[rows.len() - 1] == rows.filter(pick)[a]);
        }
    }
}

/// Two tables of the same length whose rows are picked alike have their
/// first picked row at the same place.
pub proof fn lemma_first_where_same<T>(a: Seq<T>, b: Seq<T>, pick: spec_fn(T) -> bool)
    requires
        a.len() == b.len(),
        forall|j: int| 0 <= j < a.len() ==> pick(#[trigger] a[j]) == pick(b[j]),
    ensures
        first_where(a, pick) == first_where(b, pick),
{
    lemma_first_where(a, pick);
    match first_where(a, pick) {
        Some(x) => {
            assert(pick(a[x]) == pick(b[x]));
            assert forall|j: int| 0 <= j < x implies !pick(#[trigger] b[j]) by {
                assert(pick(a[j]) == pick(b[j]));
            }
            lemma_first_where_at(b, pick, x);
        },
        None => {
            assert forall|j: int| 0 <= j < b.len() implies !pick(#[trigger] b[j]) by {
                assert(pick(a[j]) == pick(b[j]));
            }
            lemma_first_where_none(b, pick);
        },
    }
}

} // verus!
