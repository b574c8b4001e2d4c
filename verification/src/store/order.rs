//! Newest first: the order in which the store lists its rows.
//!
//! Rows carry the time they were written as text. Times are ordered as
//! texts are, character by character, so that a later time of the same
//! format stands behind an earlier one; a listing runs from the latest
//! time to the earliest, and rows of one time keep the order of their ids.

use vstd::prelude::*;
use crate::text::chars_of;

verus! {

/// `a` stands before `b`, or is `b`, in the order of texts: the first
/// character in which they differ decides, and a text stands before its
/// extensions.
pub open spec fn text_le(a: Seq<char>, b: Seq<char>) -> bool
    decreases a.len(),
{
    if a.len() == 0 {
        true
    } else if b.len() == 0 {
        false
    } else if a[0] != b[0] {
        (a[0] as u32) < (b[0] as u32)
    } else {
        text_le(a.drop_first(), b.drop_first())
    }
}

/// Of two texts one stands before the other, or they are the same.
pub proof fn lemma_text_le_total(a: Seq<char>, b: Seq<char>)
    ensures
        text_le(a, b) || text_le(b, a),
    decreases a.len(),
{
    if a.len() > 0 && b.len() > 0 {
        if a[0] == b[0] {
            lemma_text_le_total(a.drop_first(), b.drop_first());
        } else {
            assert(a[0] as u32 != b[0] as u32) by {
                vstd::utf8::char_u32_cast(a[0], a[0] as u32);
                vstd::utf8::char_u32_cast(b[0], b[0] as u32);
            }
        }
    }
}

/// Whether `a` stands before `b`, or is `b`, in the order of texts.
pub fn text_at_most(a: &Vec<char>, b: &Vec<char>) -> (r: bool)
    ensures
        r == text_le(a@, b@),
{
    let mut i: usize = 0;
    assert(a@.skip(0) =~= a@ && b@.skip(0) =~= b@);
    while i < a.len() && i < b.len()
        invariant
            i <= a.len(),
            i <= b.len(),
            text_le(a@, b@) == text_le(a@.skip(i as int), b@.skip(i as int)),
        decreases a.len() - i,
    {
        proof {
            assert(a@.skip(i as int).drop_first() =~= a@.skip(i + 1));
            assert(b@.skip(i as int).drop_first() =~= b@.skip(i + 1));
            assert(a@.skip(i as int)[0] == a@[i as int]);
            assert(b@.skip(i as int)[0] == b@[i as int]);
        }
        if a[i] != b[i] {
            return (a[i] as u32) < (b[i] as u32);
        }
        i += 1;
    }
    i == a.len()
}

/// Where a row of the time `t` goes into `order`, a listing of rows of
/// `times` from the latest to the earliest: behind every row that is at
/// least as late.
pub open spec fn slot(times: Seq<Seq<char>>, order: Seq<int>, t: Seq<char>) -> int
    decreases order.len(),
{
    if order.len() == 0 {
        0
    } else if !text_le(t, times[order[0]]) {
        0
    } else {
        1 + slot(times, order.drop_first(), t)
    }
}

/// The rows of `times`, by their positions, from the latest to the
/// earliest; rows of one time in the order of their positions.
pub open spec fn newest_order(times: Seq<Seq<char>>) -> Seq<int>
    decreases times.len(),
{
    if times.len() == 0 {
        Seq::empty()
    } else {
        let rest = newest_order(times.drop_last());
        rest.insert(slot(times, rest, times.last()), times.len() - 1)
    }
}

/// What distinguishes the slot: all rows before it are at least as late,
/// and the row at it, if there is one, is earlier.
pub proof fn lemma_slot(times: Seq<Seq<char>>, order: Seq<int>, t: Seq<char>)
    ensures
        0 <= slot(times, order, t) <= order.len(),
        forall|k: int| 0 <= k < slot(times, order, t) ==> text_le(t, times[#[trigger] order[k]]),
        slot(times, order, t) < order.len() ==> !text_le(
            t,
            times[order[slot(times, order, t)]],
        ),
    decreases order.len(),
{
    if order.len() > 0 && text_le(t, times[order[0]]) {
        let rest = order.drop_first();
        lemma_slot(times, rest, t);
        let p = slot(times, rest, t);
        assert forall|k: int| 0 <= k < p + 1 implies text_le(t, times[#[trigger] order[k]]) by {
            if k > 0 {
                assert(order[k] == rest[k - 1]);
            }
        }
        if p < rest.len() {
            assert(order[p + 1] == rest[p]);
        }
    }
}

/// The slot is the only position of its kind.
proof fn lemma_slot_is(times: Seq<Seq<char>>, order: Seq<int>, t: Seq<char>, p: int)
    requires
        0 <= p <= order.len(),
        forall|k: int| 0 <= k < p ==> text_le(t, times[#[trigger] order[k]]),
        p < order.len() ==> !text_le(t, times[order[p]]),
    ensures
        slot(times, order, t) == p,
    decreases order.len(),
{
    if order.len() > 0 {
        if p == 0 {
        } else {
            assert(text_le(t, times[order[0]]));
            let rest = order.drop_first();
            assert forall|k: int| 0 <= k < p - 1 implies text_le(t, times[#[trigger] rest[k]]) by {
                assert(rest[k] == order[k + 1]);
            }
            if p - 1 < rest.len() {
                assert(rest[p - 1] == order[p]);
            }
            lemma_slot_is(times, rest, t, p - 1);
        }
    }
}

/// The slot depends on the times of the listed rows only.
proof fn lemma_slot_same_times(
    a: Seq<Seq<char>>,
    b: Seq<Seq<char>>,
    order: Seq<int>,
    t: Seq<char>,
)
    requires
        forall|k: int| 0 <= k < order.len() ==> a[#[trigger] order[k]] == b[order[k]],
    ensures
        slot(a, order, t) == slot(b, order, t),
    decreases order.len(),
{
    if order.len() > 0 {
        let rest = order.drop_first();
        assert(a[order[0]] == b[order[0]]);
        assert forall|k: int| 0 <= k < rest.len() implies a[#[trigger] rest[k]] == b[rest[k]] by {
            assert(rest[k] == order[k + 1]);
        }
        lemma_slot_same_times(a, b, rest, t);
    }
}

/// The listing names every row once: it is as long as the table, and
/// every position of the table stands in it at exactly one place.
pub proof fn lemma_order_permutes(times: Seq<Seq<char>>)
    ensures
        newest_order(times).len() == times.len(),
        forall|k: int|
            0 <= k < times.len() ==> 0 <= #[trigger] newest_order(times)[k] < times.len(),
        forall|k: int, m: int|
            0 <= k < m < times.len() ==> #[trigger] newest_order(times)[k]
                != #[trigger] newest_order(times)[m],
    decreases times.len(),
{
    if times.len() > 0 {
        let rest = newest_order(times.drop_last());
        lemma_order_permutes(times.drop_last());
        lemma_slot(times, rest, times.last());
        let p = slot(times, rest, times.last());
        let order = newest_order(times);
        assert(order == rest.insert(p, times.len() - 1));
        assert forall|k: int| 0 <= k < times.len() implies 0 <= #[trigger] order[k]
            < times.len() by {
            if k < p {
                assert(order[k] == rest[k]);
            } else if k > p {
                assert(order[k] == rest[k - 1]);
            }
        }
        assert forall|k: int, m: int| 0 <= k < m < times.len() implies #[trigger] order[k]
            != #[trigger] order[m] by {
            if k < p {
                assert(order[k] == rest[k]);
            } else if k > p {
                assert(order[k] == rest[k - 1]);
            }
            if m < p {
                assert(order[m] == rest[m]);
            } else if m > p {
                assert(order[m] == rest[m - 1]);
            }
        }
    }
}

/// `order` lists rows of `times` from the latest to the earliest.
pub open spec fn descends(times: Seq<Seq<char>>, order: Seq<int>) -> bool {
    forall|k: int|
        0 <= k && k + 1 < order.len() ==> text_le(times[order[k + 1]], times[#[trigger] order[k]])
}

/// A row that goes into its slot leaves the listing in order.
proof fn lemma_insert_descends(times: Seq<Seq<char>>, rest: Seq<int>, row: int, p: int)
    requires
        descends(times, rest),
        0 <= p <= rest.len(),
        forall|k: int| 0 <= k < p ==> text_le(times[row], times[#[trigger] rest[k]]),
        p < rest.len() ==> !text_le(times[row], times[rest[p]]),
    ensures
        descends(times, rest.insert(p, row)),
{
    let order = rest.insert(p, row);
    assert forall|k: int| 0 <= k && k + 1 < order.len() implies text_le(
        times[order[k + 1]],
        times[#[trigger] order[k]],
    ) by {
        if k + 1 < p {
            assert(order[k] == rest[k] && order[k + 1] == rest[k + 1]);
        } else if k + 1 == p {
            assert(order[k] == rest[k] && order[k + 1] == row);
        } else if k == p {
            assert(order[k] == row && order[k + 1] == rest[k]);
            lemma_text_le_total(times[row], times[rest[p]]);
        } else {
            assert(order[k] == rest[k - 1] && order[k + 1] == rest[k]);
            assert(text_le(times[rest[(k - 1) + 1]], times[rest[k - 1]]));
        }
    }
}

/// Whether a listing is in order depends on the times of the listed rows
/// only.
proof fn lemma_descends_same_times(a: Seq<Seq<char>>, b: Seq<Seq<char>>, order: Seq<int>)
    requires
        descends(a, order),
        forall|k: int| 0 <= k < order.len() ==> a[#[trigger] order[k]] == b[order[k]],
    ensures
        descends(b, order),
{
    assert forall|k: int| 0 <= k && k + 1 < order.len() implies text_le(
        b[order[k + 1]],
        b[#[trigger] order[k]],
    ) by {
        assert(a[order[k]] == b[order[k]]);
        assert(a[order[k + 1]] == b[order[k + 1]]);
    }
}

/// The listing runs from the latest time to the earliest: no row stands
/// before a row of a later time.
pub proof fn lemma_order_descends(times: Seq<Seq<char>>)
    ensures
        descends(times, newest_order(times)),
    decreases times.len(),
{
    if times.len() > 0 {
        let front = times.drop_last();
        let rest = newest_order(front);
        lemma_order_permutes(front);
        lemma_order_descends(front);
        assert forall|k: int| 0 <= k < rest.len() implies front[#[trigger] rest[k]] == times[rest[k]] by {}
        lemma_descends_same_times(front, times, rest);
        lemma_slot(times, rest, times.last());
        lemma_insert_descends(
            times,
            rest,
            times.len() - 1,
            slot(times, rest, times.last()),
        );
    }
}

/// The views of a list of texts.
pub open spec fn text_views(v: Seq<Vec<char>>) -> Seq<Seq<char>> {
    v.map_values(|t: Vec<char>| t@)
}

/// The positions in a list.
pub open spec fn positions(v: Seq<usize>) -> Seq<int> {
    v.map_values(|i: usize| i as int)
}

/// The rows of `times`, by their positions, from the latest to the
/// earliest.
pub fn newest_first_order(times: &Vec<Vec<char>>) -> (order: Vec<usize>)
    ensures
        positions(order@) == newest_order(text_views(times@)),
        order.len() == times.len(),
        forall|k: int| 0 <= k < order.len() ==> #[trigger] order@[k] < times.len(),
{
    let ghost all = text_views(times@);
    let mut order: Vec<usize> = Vec::new();
    let mut i: usize = 0;
    assert(positions(order@) =~= newest_order(all.take(0)));
    while i < times.len()
        invariant
            i <= times.len(),
            all == text_views(times@),
            order.len() == i,
            positions(order@) == newest_order(all.take(i as int)),
            forall|k: int| 0 <= k < order.len() ==> #[trigger] order@[k] < i,
        decreases times.len() - i,
    {
        let ghost rest = positions(order@);
        let ghost before = order@;
        let mut p: usize = 0;
        while p < order.len() && text_at_most(&times[i], &times[order[p]])
            invariant
                p <= order.len(),
                i < times.len(),
                all == text_views(times@),
                rest == positions(order@),
                forall|k: int| 0 <= k < order.len() ==> #[trigger] order@[k] < i,
                forall|k: int| 0 <= k < p ==> text_le(all[i as int], all[#[trigger] rest[k]]),
            decreases order.len() - p,
        {
            assert(rest[p as int] == order@[p as int]);
            p += 1;
        }
        proof {
            let now = all.take(i + 1);
            assert(now.drop_last() =~= all.take(i as int));
            assert(now.last() == all[i as int]);
            if p < order.len() {
                assert(rest[p as int] == order@[p as int]);
            }
            lemma_slot_is(all, rest, all[i as int], p as int);
            assert forall|k: int| 0 <= k < rest.len() implies all[#[trigger] rest[k]]
                == now[rest[k]] by {
                assert(rest[k] == order@[k]);
            }
            lemma_slot_same_times(all, now, rest, all[i as int]);
        }
        order.insert(p, i);
        assert(positions(order@) =~= rest.insert(p as int, i as int));
        assert forall|k: int| 0 <= k < order.len() implies #[trigger] order@[k] < i + 1 by {
            if k < p {
                assert(positions(order@)[k] == rest[k]);
                assert(rest[k] == before[k] as int);
            } else if k > p {
                assert(positions(order@)[k] == rest[k - 1]);
                assert(rest[k - 1] == before[k - 1] as int);
            }
        }
        i += 1;
    }
    assert(all.take(i as int) =~= all);
    order
}

/// How many rows a listing bounded by `limit` shows of `len` rows: at most
/// `limit`, and all of them where the limit is negative.
pub open spec fn shown(limit: int, len: int) -> int {
    if limit < 0 || limit > len {
        len
    } else {
        limit
    }
}

/// How many rows a listing bounded by `limit` shows of `len` rows.
pub fn bounded(limit: i32, len: usize) -> (n: usize)
    ensures
        n == shown(limit as int, len as int),
{
    if limit < 0 {
        len
    } else if (limit as usize) > len {
        len
    } else {
        limit as usize
    }
}

/// The characters of the time of each row.
pub fn times_of(stamps: &Vec<&str>) -> (times: Vec<Vec<char>>)
    ensures
        text_views(times@) == stamps@.map_values(|s: &str| s@),
{
    let mut times: Vec<Vec<char>> = Vec::new();
    let mut i: usize = 0;
    while i < stamps.len()
        invariant
            i <= stamps.len(),
            times.len() == i,
            forall|k: int| 0 <= k < i ==> (#[trigger] times@[k])@ == stamps@[k]@,
        decreases stamps.len() - i,
    {
        times.push(chars_of(stamps[i]));
        i += 1;
    }
    assert(text_views(times@) =~= stamps@.map_values(|s: &str| s@));
    times
}

} // verus!
