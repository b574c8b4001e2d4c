//! What the tables of the store have in common: rows with an id that the
//! table gives out, and a url that no two rows share.

use vstd::prelude::*;

verus! {

/// A row that is told from the others by its id and by its url.
pub trait Keyed {
    /// The id of the row.
    spec fn row_id(&self) -> int;

    /// The url of the row.
    spec fn row_url(&self) -> Seq<char>;
}

/// Whether some row of `rows` holds the url `url`.
pub open spec fn url_present<R: Keyed>(rows: Seq<R>, url: Seq<char>) -> bool {
    exists|i: int| 0 <= i < rows.len() && (#[trigger] rows[i]).row_url() == url
}

/// The rules of a table: ids grow with the rows and have never been
/// used before, and no url occurs twice.
pub open spec fn table_rules<R: Keyed>(rows: Seq<R>, next_id: int) -> bool {
    &&& 1 <= next_id <= i32::MAX + 1
    &&& forall|i: int| 0 <= i < rows.len() ==> i < (#[trigger] rows[i]).row_id() < next_id
    &&& forall|i: int, j: int|
        0 <= i < j < rows.len() ==> (#[trigger] rows[i]).row_id() < (#[trigger] rows[j]).row_id()
    &&& forall|i: int, j: int|
        0 <= i < j < rows.len() ==> (#[trigger] rows[i]).row_url() != (#[trigger] rows[j]).row_url()
}

/// A row with a new url and the next id may stand last.
pub proof fn lemma_push_keeps_rules<R: Keyed>(rows: Seq<R>, next_id: int, row: R)
    requires
        table_rules(rows, next_id),
        next_id <= i32::MAX,
        row.row_id() == next_id,
        !url_present(rows, row.row_url()),
    ensures
        table_rules(rows.push(row), next_id + 1),
{
    let new = rows.push(row);
    assert forall|i: int| 0 <= i < new.len() implies i < (#[trigger] new[i]).row_id() < next_id + 1 by {
        if i < rows.len() {
            assert(new[i] == rows[i]);
        } else if rows.len() > 0 {
            assert(rows.len() - 1 < rows[rows.len() - 1].row_id());
        }
    }
    assert forall|i: int, j: int| 0 <= i < j < new.len() implies (#[trigger] new[i]).row_id() < (
    #[trigger] new[j]).row_id() && new[i].row_url() != new[j].row_url() by {
        assert(new[i] == rows[i]);
        if j < rows.len() {
            assert(new[j] == rows[j]);
        }
    }
}

/// A table cannot hold more rows than there are ids.
pub proof fn lemma_rules_bound_len<R: Keyed>(rows: Seq<R>, next_id: int)
    requires
        table_rules(rows, next_id),
    ensures
        rows.len() <= i32::MAX,
{
    if rows.len() > 0 {
        assert(rows.len() - 1 < rows[rows.len() - 1].row_id());
    }
}

/// Rows that meet a condition and rows that do not make up the whole.
pub proof fn lemma_filter_splits<A>(s: Seq<A>, yes: spec_fn(A) -> bool, no: spec_fn(A) -> bool)
    requires
        forall|a: A| #[trigger] yes(a) == !no(a),
    ensures
        s.filter(yes).len() + s.filter(no).len() == s.len(),
    decreases s.len(),
{
    reveal(Seq::filter);
    if s.len() > 0 {
        lemma_filter_splits(s.drop_last(), yes, no);
    }
}

/// Taking rows out breaks no rule.
pub proof fn lemma_filter_keeps_rules<R: Keyed>(
    rows: Seq<R>,
    next_id: int,
    pred: spec_fn(R) -> bool,
)
    requires
        table_rules(rows, next_id),
    ensures
        table_rules(rows.filter(pred), next_id),
    decreases rows.len(),
{
    reveal(Seq::filter);
    if rows.len() > 0 {
        let front = rows.drop_last();
        let last = rows.last();
        assert forall|i: int| 0 <= i < front.len() implies front[i] == rows[i] by {}
        lemma_filter_keeps_rules(front, next_id, pred);
        let sub = front.filter(pred);
        front.lemma_filter_len(pred);
        if pred(last) {
            let new = sub.push(last);
            assert forall|k: int| 0 <= k < sub.len() implies (#[trigger] sub[k]).row_id() < last.row_id()
                && sub[k].row_url() != last.row_url() by {
                assert(sub.contains(sub[k]));
                front.lemma_filter_contains_rev(pred, sub[k]);
                let i = choose|i: int| 0 <= i < front.len() && front[i] == sub[k];
                assert(rows[i] == sub[k]);
                assert(rows[rows.len() - 1] == last);
            }
            assert(rows.len() - 1 < rows[rows.len() - 1].row_id());
            assert forall|i: int| 0 <= i < new.len() implies i < (#[trigger] new[i]).row_id()
                < next_id by {
                if i < sub.len() {
                    assert(new[i] == sub[i]);
                }
            }
            assert forall|i: int, j: int| 0 <= i < j < new.len() implies (#[trigger] new[i]).row_id() < (
            #[trigger] new[j]).row_id() && new[i].row_url() != new[j].row_url() by {
                assert(new[i] == sub[i]);
                if j < sub.len() {
                    assert(new[j] == sub[j]);
                }
            }
        }
    }
}

/// A url that was taken out is not there any more.
pub proof fn lemma_filter_frees_url<R: Keyed>(
    rows: Seq<R>,
    next_id: int,
    pred: spec_fn(R) -> bool,
    i: int,
)
    requires
        table_rules(rows, next_id),
        0 <= i < rows.len(),
        !pred(rows[i]),
    ensures
        !url_present(rows.filter(pred), rows[i].row_url()),
{
    let kept = rows.filter(pred);
    if url_present(kept, rows[i].row_url()) {
        let k = choose|k: int| 0 <= k < kept.len() && (#[trigger] kept[k]).row_url() == rows[i].row_url();
        rows.lemma_filter_pred(pred, k);
        assert(kept.contains(kept[k]));
        rows.lemma_filter_contains_rev(pred, kept[k]);
        let j = choose|j: int| 0 <= j < rows.len() && rows[j] == kept[k];
        if j < i {
            assert(rows[j].row_url() != rows[i].row_url());
        } else if i < j {
            assert(rows[i].row_url() != rows[j].row_url());
        }
    }
}


/// The rows of `rows` for which `mask` says so, in their order.
pub(crate) fn keep_rows<T: View>(
    rows: Vec<T>,
    mask: &Vec<bool>,
    Ghost(pred): Ghost<spec_fn(T::V) -> bool>,
) -> (out: Vec<T>)
    requires
        mask.len() == rows.len(),
        forall|i: int| 0 <= i < rows.len() ==> mask@[i] == pred(#[trigger] rows@[i]@),
    ensures
        out@.map_values(|r: T| r@) == rows@.map_values(|r: T| r@).filter(pred),
{
    let ghost all = rows@.map_values(|r: T| r@);
    let mut out: Vec<T> = Vec::new();
    let mut i: usize = 0;
    assert(all.take(0).filter(pred) =~= Seq::<T::V>::empty()) by {
        reveal(Seq::filter);
    }
    for row in it: rows
        invariant
            i == it.index(),
            mask.len() == it.seq().len(),
            all == it.seq().map_values(|r: T| r@),
            forall|k: int| 0 <= k < it.seq().len() ==> mask@[k] == pred(#[trigger] it.seq()[k]@),
            out@.map_values(|r: T| r@) =~= all.take(i as int).filter(pred),
    {
        proof {
            assert(all.take(i + 1) =~= all.take(i as int).push(row@));
            all.take(i as int).lemma_filter_push(row@, pred);
        }
        if mask[i] {
            out.push(row);
        }
        i += 1;
    }
    assert(all.take(i as int) =~= all);
    out
}

} // verus!
