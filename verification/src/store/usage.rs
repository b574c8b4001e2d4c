//! The usage ledger: what each session spent on a language model.
//!
//! Sessions are appended and never changed. Every total is computed from
//! the sessions as they are when it is asked for.

use vstd::prelude::*;
use crate::store::order::{bounded, newest_first_order, newest_order, shown, times_of};
use crate::store::rows::StoreError;
use crate::text::str_eq;

verus! {

/// One session of use of a language model. The cost is kept as the text
/// that the store holds; the ledger does not read it.
#[derive(Debug)]
pub struct UsageSession {
    pub id: i32,
    pub session_start: String,
    pub model: String,
    pub input_tokens: i64,
    pub output_tokens: i64,
    pub cost: String,
    pub api_calls: i64,
}

/// What a `UsageSession` stands for.
pub struct UsageSessionView {
    pub id: int,
    pub session_start: Seq<char>,
    pub model: Seq<char>,
    pub input_tokens: int,
    pub output_tokens: int,
    pub cost: Seq<char>,
    pub api_calls: int,
}

impl View for UsageSession {
    type V = UsageSessionView;

    open spec fn view(&self) -> UsageSessionView {
        UsageSessionView {
            id: self.id as int,
            session_start: self.session_start@,
            model: self.model@,
            input_tokens: self.input_tokens as int,
            output_tokens: self.output_tokens as int,
            cost: self.cost@,
            api_calls: self.api_calls as int,
        }
    }
}

impl UsageSession {
    /// A copy of the session.
    pub fn copy(&self) -> (c: UsageSession)
        ensures
            c@ == self@,
    {
        UsageSession {
            id: self.id,
            session_start: self.session_start.clone(),
            model: self.model.clone(),
            input_tokens: self.input_tokens,
            output_tokens: self.output_tokens,
            cost: self.cost.clone(),
            api_calls: self.api_calls,
        }
    }
}

/// The views of a list of sessions.
pub open spec fn session_views(rows: Seq<UsageSession>) -> Seq<UsageSessionView> {
    rows.map_values(|r: UsageSession| r@)
}

/// What is known of a session before the ledger gives it an id.
#[derive(Debug)]
pub struct SessionRecord {
    pub session_start: String,
    pub model: String,
    pub input_tokens: i64,
    pub output_tokens: i64,
    pub cost: String,
    pub api_calls: i64,
}

impl SessionRecord {
    /// The row that holds this session under the id `id`.
    pub open spec fn row(&self, id: int) -> UsageSessionView {
        UsageSessionView {
            id,
            session_start: self.session_start@,
            model: self.model@,
            input_tokens: self.input_tokens as int,
            output_tokens: self.output_tokens as int,
            cost: self.cost@,
            api_calls: self.api_calls as int,
        }
    }
}

/// The rules of the usage ledger: ids grow with the rows and have never
/// been used before.
pub open spec fn usage_rules(rows: Seq<UsageSessionView>, next_id: int) -> bool {
    &&& 1 <= next_id <= i32::MAX + 1
    &&& forall|i: int| 0 <= i < rows.len() ==> i < (#[trigger] rows[i]).id < next_id
    &&& forall|i: int, j: int|
        0 <= i < j < rows.len() ==> (#[trigger] rows[i]).id < (#[trigger] rows[j]).id
}

/// The usage ledger.
#[derive(Debug)]
pub struct UsageLedger {
    rows: Vec<UsageSession>,
    next_id: i64,
}

impl View for UsageLedger {
    type V = Seq<UsageSessionView>;

    closed spec fn view(&self) -> Seq<UsageSessionView> {
        session_views(self.rows@)
    }
}

impl UsageLedger {
    /// The id that the next session gets.
    pub closed spec fn next_id(&self) -> int {
        self.next_id as int
    }

    /// The ledger keeps its rules.
    pub open spec fn wf(&self) -> bool {
        usage_rules(self@, self.next_id())
    }

    /// An empty ledger.
    pub fn new() -> (l: UsageLedger)
        ensures
            l.wf(),
            l@ == Seq::<UsageSessionView>::empty(),
            l.next_id() == 1,
    {
        let l = UsageLedger { rows: Vec::new(), next_id: 1 };
        assert(l@ =~= Seq::<UsageSessionView>::empty());
        l
    }

    /// The id after the last id of `rows`.
    pub open spec fn id_after(rows: Seq<UsageSessionView>) -> int {
        if rows.len() == 0 {
            1
        } else {
            rows.last().id + 1
        }
    }

    /// The ledger that holds `rows`, if their ids grow from one row to the
    /// next and the first of them is positive.
    pub fn from_rows(rows: Vec<UsageSession>) -> (r: Option<UsageLedger>)
        ensures
            match r {
                Some(l) => l.wf() && l@ == session_views(rows@) && l.next_id() == Self::id_after(
                    session_views(rows@),
                ),
                None => !usage_rules(session_views(rows@), Self::id_after(session_views(rows@))),
            },
    {
        let ghost all = session_views(rows@);
        let n = rows.len();
        let mut i: usize = 0;
        while i < n
            invariant
                i <= n,
                n == rows.len(),
                all == session_views(rows@),
                forall|k: int| 0 <= k < i ==> k < (#[trigger] all[k]).id,
                forall|k: int, m: int|
                    0 <= k < m < i ==> (#[trigger] all[k]).id < (#[trigger] all[m]).id,
            decreases n - i,
        {
            if i == 0 {
                if rows[0].id < 1 {
                    assert(!(0 < all[0].id));
                    return None;
                }
            } else {
                if rows[i - 1].id >= rows[i].id {
                    assert(!(all[i - 1].id < all[i as int].id));
                    return None;
                }
                assert forall|k: int| 0 <= k < i implies (#[trigger] all[k]).id
                    < all[i as int].id by {
                    if k < i - 1 {
                        assert(all[k].id < all[i - 1].id);
                    }
                }
                assert(i - 1 < all[i - 1].id);
            }
            i += 1;
        }
        let next_id: i64 = if n == 0 {
            1
        } else {
            rows[n - 1].id as i64 + 1
        };
        proof {
            assert forall|k: int| 0 <= k < n implies (#[trigger] all[k]).id < next_id by {
                if k < n - 1 {
                    assert(all[k].id < all[n - 1].id);
                }
            }
            assert(Self::id_after(all) == next_id);
            assert(usage_rules(all, next_id as int));
        }
        let l = UsageLedger { rows, next_id };
        assert(l@ == all);
        Some(l)
    }

    /// The sessions, oldest id first.
    pub fn rows(&self) -> (r: &Vec<UsageSession>)
        ensures
            session_views(r@) == self@,
    {
        &self.rows
    }

    /// The number of sessions.
    pub fn len(&self) -> (n: usize)
        ensures
            n == self@.len(),
    {
        self.rows.len()
    }

    /// Appends a session. It gets the next id and stands last.
    pub fn record(&mut self, session: SessionRecord) -> (r: Result<i32, StoreError>)
        requires
            old(self).wf(),
        ensures
            final(self).wf(),
            match r {
                Ok(id) => {
                    &&& id == old(self).next_id()
                    &&& final(self).next_id() == id + 1
                    &&& final(self)@ == old(self)@.push(session.row(id as int))
                },
                Err(e) => {
                    &&& e == StoreError::Full
                    &&& old(self).next_id() > i32::MAX
                    &&& final(self)@ == old(self)@
                    &&& final(self).next_id() == old(self).next_id()
                },
            },
    {
        if self.next_id > i32::MAX as i64 {
            return Err(StoreError::Full);
        }
        let id: i32 = self.next_id as i32;
        let row = UsageSession {
            id,
            session_start: session.session_start,
            model: session.model,
            input_tokens: session.input_tokens,
            output_tokens: session.output_tokens,
            cost: session.cost,
            api_calls: session.api_calls,
        };
        assert(row@ == session.row(id as int));
        self.rows.push(row);
        self.next_id = self.next_id + 1;
        assert(self@ =~= old(self)@.push(session.row(id as int)));
        proof {
            let before = old(self)@;
            let new = self@;
            assert forall|i: int| 0 <= i < new.len() implies i < (#[trigger] new[i]).id
                < self.next_id() by {
                if i < before.len() {
                    assert(new[i] == before[i]);
                } else if before.len() > 0 {
                    assert(before.len() - 1 < before[before.len() - 1].id);
                }
            }
            assert forall|i: int, j: int| 0 <= i < j < new.len() implies (#[trigger] new[i]).id < (
            #[trigger] new[j]).id by {
                assert(new[i] == before[i]);
                if j < before.len() {
                    assert(new[j] == before[j]);
                }
            }
        }
        Ok(id)
    }
}

/// Removes every session. The ids that were used stay used.
pub fn clear_api_sessions(ledger: &mut UsageLedger)
    requires
        old(ledger).wf(),
    ensures
        final(ledger).wf(),
        final(ledger).next_id() == old(ledger).next_id(),
        final(ledger)@ == Seq::<UsageSessionView>::empty(),
{
    ledger.rows = Vec::new();
    assert(ledger@ =~= Seq::<UsageSessionView>::empty());
}

/// The time at which each session started.
pub open spec fn session_times(rows: Seq<UsageSessionView>) -> Seq<Seq<char>> {
    rows.map_values(|r: UsageSessionView| r.session_start)
}

/// The sessions from the latest start to the earliest.
pub open spec fn sessions_newest_first(rows: Seq<UsageSessionView>) -> Seq<UsageSessionView> {
    newest_order(session_times(rows)).map_values(|i: int| rows[i])
}

/// The sessions from the latest start to the earliest, at most `limit` of
/// them; all of them where `limit` is negative.
pub fn get_api_sessions(ledger: &UsageLedger, limit: i32) -> (list: Vec<UsageSession>)
    ensures
        session_views(list@) == sessions_newest_first(ledger@).take(
            shown(limit as int, ledger@.len() as int),
        ),
{
    let mut stamps: Vec<&str> = Vec::new();
    let mut i: usize = 0;
    while i < ledger.rows.len()
        invariant
            i <= ledger.rows.len(),
            stamps.len() == i,
            forall|k: int| 0 <= k < i ==> (#[trigger] stamps@[k])@ == ledger@[k].session_start,
        decreases ledger.rows.len() - i,
    {
        stamps.push(ledger.rows[i].session_start.as_str());
        i += 1;
    }
    let times = times_of(&stamps);
    assert(stamps@.map_values(|s: &str| s@) =~= session_times(ledger@));
    let order = newest_first_order(&times);
    let n = bounded(limit, ledger.rows.len());
    let ghost wanted = sessions_newest_first(ledger@);
    let mut list: Vec<UsageSession> = Vec::new();
    let mut k: usize = 0;
    while k < n
        invariant
            k <= n <= order.len(),
            order.len() == ledger.rows.len(),
            forall|m: int| 0 <= m < order.len() ==> #[trigger] order@[m] < ledger.rows.len(),
            wanted == sessions_newest_first(ledger@),
            wanted.len() == order.len(),
            forall|m: int|
                0 <= m < order.len() ==> #[trigger] wanted[m] == ledger@[order@[m] as int],
            list.len() == k,
            forall|m: int| 0 <= m < k ==> (#[trigger] list@[m])@ == wanted[m],
        decreases n - k,
    {
        list.push(ledger.rows[order[k]].copy());
        k += 1;
    }
    assert(session_views(list@) =~= wanted.take(n as int));
    list
}

/// The texts of `texts` without repetition, each where it first occurs.
pub open spec fn distinct(texts: Seq<Seq<char>>) -> Seq<Seq<char>>
    decreases texts.len(),
{
    if texts.len() == 0 {
        Seq::empty()
    } else {
        let before = distinct(texts.drop_last());
        if before.contains(texts.last()) {
            before
        } else {
            before.push(texts.last())
        }
    }
}

/// Without repetition means: every text that occurs, and none twice.
pub proof fn lemma_distinct(texts: Seq<Seq<char>>)
    ensures
        distinct(texts).no_duplicates(),
        forall|t: Seq<char>| distinct(texts).contains(t) <==> texts.contains(t),
        distinct(texts).len() <= texts.len(),
    decreases texts.len(),
{
    if texts.len() > 0 {
        let front = texts.drop_last();
        let last = texts.last();
        lemma_distinct(front);
        let before = distinct(front);
        let now = distinct(texts);
        assert forall|t: Seq<char>| now.contains(t) <==> texts.contains(t) by {
            if texts.contains(t) {
                let i = choose|i: int| 0 <= i < texts.len() && texts[i] == t;
                if i < front.len() {
                    assert(front[i] == t);
                    assert(front.contains(t));
                    assert(before.contains(t));
                    let k = choose|k: int| 0 <= k < before.len() && before[k] == t;
                    assert(now[k] == t);
                } else {
                    if before.contains(last) {
                    } else {
                        assert(now[before.len() as int] == t);
                    }
                }
            }
            if now.contains(t) {
                let k = choose|k: int| 0 <= k < now.len() && now[k] == t;
                if k < before.len() {
                    assert(before[k] == t);
                    assert(before.contains(t));
                    assert(front.contains(t));
                    let i = choose|i: int| 0 <= i < front.len() && front[i] == t;
                    assert(texts[i] == t);
                } else {
                    assert(texts[texts.len() - 1] == t);
                }
            }
        }
        if !before.contains(last) {
            assert forall|i: int, j: int| 0 <= i < now.len() && 0 <= j < now.len() && i
                != j implies now[i] != now[j] by {
                if i < before.len() && j < before.len() {
                    assert(before[i] != before[j]);
                } else if i < before.len() {
                    assert(before.contains(before[i]));
                } else {
                    assert(before.contains(before[j]));
                }
            }
        }
    }
}

/// The sums over a set of sessions.
pub struct Tally {
    pub input_tokens: int,
    pub output_tokens: int,
    pub api_calls: int,
}

/// The tokens read, the tokens written and the calls made in `rows`,
/// summed.
pub open spec fn tally(rows: Seq<UsageSessionView>) -> Tally
    decreases rows.len(),
{
    if rows.len() == 0 {
        Tally { input_tokens: 0, output_tokens: 0, api_calls: 0 }
    } else {
        let t = tally(rows.drop_last());
        Tally {
            input_tokens: t.input_tokens + rows.last().input_tokens,
            output_tokens: t.output_tokens + rows.last().output_tokens,
            api_calls: t.api_calls + rows.last().api_calls,
        }
    }
}

/// The sessions of `rows` that used `model`.
pub open spec fn sessions_of(rows: Seq<UsageSessionView>, model: Seq<char>) -> Seq<
    UsageSessionView,
> {
    rows.filter(|r: UsageSessionView| r.model == model)
}

/// The use of one model, summed over its sessions.
#[derive(Debug)]
pub struct ModelUsage {
    pub model: String,
    pub input_tokens: i64,
    pub output_tokens: i64,
    pub total_tokens: i64,
    pub api_calls: i64,
}

/// What a `ModelUsage` stands for.
pub struct ModelUsageView {
    pub model: Seq<char>,
    pub input_tokens: int,
    pub output_tokens: int,
    pub total_tokens: int,
    pub api_calls: int,
}

impl View for ModelUsage {
    type V = ModelUsageView;

    open spec fn view(&self) -> ModelUsageView {
        ModelUsageView {
            model: self.model@,
            input_tokens: self.input_tokens as int,
            output_tokens: self.output_tokens as int,
            total_tokens: self.total_tokens as int,
            api_calls: self.api_calls as int,
        }
    }
}

/// The use of `model` in `rows`.
pub open spec fn usage_of(rows: Seq<UsageSessionView>, model: Seq<char>) -> ModelUsageView {
    let t = tally(sessions_of(rows, model));
    ModelUsageView {
        model,
        input_tokens: t.input_tokens,
        output_tokens: t.output_tokens,
        total_tokens: t.input_tokens + t.output_tokens,
        api_calls: t.api_calls,
    }
}

/// The models that `rows` name, each where it first occurs.
pub open spec fn models_of(rows: Seq<UsageSessionView>) -> Seq<Seq<char>> {
    distinct(rows.map_values(|r: UsageSessionView| r.model))
}

/// The use of every model, and of all of them together.
#[derive(Debug)]
pub struct UsageSummary {
    pub by_model: Vec<ModelUsage>,
    pub total_calls: i64,
    pub total_tokens: i64,
    pub session_count: i64,
}

/// What a `UsageSummary` stands for.
pub struct UsageSummaryView {
    pub by_model: Seq<ModelUsageView>,
    pub total_calls: int,
    pub total_tokens: int,
    pub session_count: int,
}

impl View for UsageSummary {
    type V = UsageSummaryView;

    open spec fn view(&self) -> UsageSummaryView {
        UsageSummaryView {
            by_model: self.by_model@.map_values(|m: ModelUsage| m@),
            total_calls: self.total_calls as int,
            total_tokens: self.total_tokens as int,
            session_count: self.session_count as int,
        }
    }
}

/// The summary of `rows`: the use of each model that they name, in the
/// order in which the models first occur; the calls and the tokens of all
/// sessions; and the number of different starting times.
pub open spec fn summary_of(rows: Seq<UsageSessionView>) -> UsageSummaryView {
    let all = tally(rows);
    UsageSummaryView {
        by_model: models_of(rows).map_values(|m: Seq<char>| usage_of(rows, m)),
        total_calls: all.api_calls,
        total_tokens: all.input_tokens + all.output_tokens,
        session_count: distinct(session_times(rows)).len() as int,
    }
}

/// Whether `n` can stand in a column of the store.
pub open spec fn fits(n: int) -> bool {
    i64::MIN <= n <= i64::MAX
}

/// Whether every number of a use of one model can stand in a column.
pub open spec fn usage_fits(u: ModelUsageView) -> bool {
    fits(u.input_tokens) && fits(u.output_tokens) && fits(u.total_tokens) && fits(u.api_calls)
}

/// Whether every number of the summary of `rows` can stand in a column.
pub open spec fn summary_fits(rows: Seq<UsageSessionView>) -> bool {
    &&& fits(summary_of(rows).total_calls)
    &&& fits(summary_of(rows).total_tokens)
    &&& forall|k: int|
        0 <= k < models_of(rows).len() ==> usage_fits(
            usage_of(rows, #[trigger] models_of(rows)[k]),
        )
}

/// The sums over the sessions of `ledger` that use `model`; over all of
/// them where there is no model.
fn tally_up(ledger: &UsageLedger, model: Option<&str>) -> (t: (i128, i128, i128))
    requires
        ledger@.len() <= i32::MAX,
    ensures
        ({
            let rows = match model {
                Some(m) => sessions_of(ledger@, m@),
                None => ledger@,
            };
            t.0 == tally(rows).input_tokens && t.1 == tally(rows).output_tokens && t.2 == tally(
                rows,
            ).api_calls
        }),
        -0x4000_0000_0000_0000_0000_0000 <= t.0 <= 0x4000_0000_0000_0000_0000_0000,
        -0x4000_0000_0000_0000_0000_0000 <= t.1 <= 0x4000_0000_0000_0000_0000_0000,
        -0x4000_0000_0000_0000_0000_0000 <= t.2 <= 0x4000_0000_0000_0000_0000_0000,
{
    let ghost pred = |r: UsageSessionView|
        match model {
            Some(m) => r.model == m@,
            None => true,
        };
    let ghost all = ledger@;
    let mut input: i128 = 0;
    let mut output: i128 = 0;
    let mut calls: i128 = 0;
    let mut i: usize = 0;
    assert(all.take(0).filter(pred) =~= Seq::<UsageSessionView>::empty()) by {
        reveal(Seq::filter);
    }
    while i < ledger.rows.len()
        invariant
            i <= ledger.rows.len(),
            all == ledger@,
            all.len() <= i32::MAX,
            pred == (|r: UsageSessionView|
                match model {
                    Some(m) => r.model == m@,
                    None => true,
                }),
            input == tally(all.take(i as int).filter(pred)).input_tokens,
            output == tally(all.take(i as int).filter(pred)).output_tokens,
            calls == tally(all.take(i as int).filter(pred)).api_calls,
            -i * 0x8000_0000_0000_0000 <= input <= i * 0x8000_0000_0000_0000,
            -i * 0x8000_0000_0000_0000 <= output <= i * 0x8000_0000_0000_0000,
            -i * 0x8000_0000_0000_0000 <= calls <= i * 0x8000_0000_0000_0000,
        decreases ledger.rows.len() - i,
    {
        let row = &ledger.rows[i];
        let take = match model {
            Some(m) => str_eq(row.model.as_str(), m),
            None => true,
        };
        proof {
            let seen = all.take(i as int);
            assert(all.take(i + 1) =~= seen.push(all[i as int]));
            seen.lemma_filter_push(all[i as int], pred);
            assert(row@ == all[i as int]);
            if take {
                assert(seen.filter(pred).push(row@).drop_last() =~= seen.filter(pred));
            }
        }
        if take {
            input = input + row.input_tokens as i128;
            output = output + row.output_tokens as i128;
            calls = calls + row.api_calls as i128;
        }
        i += 1;
    }
    proof {
        assert(all.take(i as int) =~= all);
        match model {
            Some(m) => {
                lemma_filter_same(all, pred, |r: UsageSessionView| r.model == m@);
            },
            None => {
                assert forall|k: int| 0 <= k < all.len() implies pred(#[trigger] all[k]) by {}
                lemma_filter_all(all, pred);
            },
        }
    }
    (input, output, calls)
}

/// Two conditions that agree on every row take the same rows out.
proof fn lemma_filter_same<A>(s: Seq<A>, p: spec_fn(A) -> bool, q: spec_fn(A) -> bool)
    requires
        forall|a: A| #[trigger] p(a) == q(a),
    ensures
        s.filter(p) == s.filter(q),
    decreases s.len(),
{
    reveal(Seq::filter);
    if s.len() > 0 {
        lemma_filter_same(s.drop_last(), p, q);
    }
}

/// A condition that every row meets takes no row out.
proof fn lemma_filter_all<A>(s: Seq<A>, pred: spec_fn(A) -> bool)
    requires
        forall|k: int| 0 <= k < s.len() ==> pred(#[trigger] s[k]),
    ensures
        s.filter(pred) == s,
    decreases s.len(),
{
    reveal(Seq::filter);
    if s.len() > 0 {
        let front = s.drop_last();
        assert forall|k: int| 0 <= k < front.len() implies pred(#[trigger] front[k]) by {
            assert(front[k] == s[k]);
        }
        lemma_filter_all(front, pred);
        assert(pred(s[s.len() - 1]));
        assert(front.push(s.last()) =~= s);
    }
}

/// The views of a list of texts.
pub open spec fn texts(v: Seq<String>) -> Seq<Seq<char>> {
    v.map_values(|s: String| s@)
}

/// The texts of `all` without repetition, each where it first occurs.
fn distinct_texts(all: &Vec<&str>) -> (out: Vec<String>)
    ensures
        texts(out@) == distinct(all@.map_values(|s: &str| s@)),
        out.len() <= all.len(),
{
    let ghost views = all@.map_values(|s: &str| s@);
    let mut out: Vec<String> = Vec::new();
    let mut i: usize = 0;
    assert(texts(out@) =~= distinct(views.take(0)));
    while i < all.len()
        invariant
            i <= all.len(),
            views == all@.map_values(|s: &str| s@),
            texts(out@) == distinct(views.take(i as int)),
            out.len() <= i,
        decreases all.len() - i,
    {
        let ghost seen = texts(out@);
        let mut found = false;
        let mut k: usize = 0;
        while k < out.len() && !found
            invariant
                k <= out.len(),
                i < all.len(),
                seen == texts(out@),
                views == all@.map_values(|s: &str| s@),
                found ==> seen.contains(views[i as int]),
                !found ==> forall|m: int| 0 <= m < k ==> #[trigger] seen[m] != views[i as int],
            decreases out.len() - k + if found { 0int } else { 1int },
        {
            if str_eq(out[k].as_str(), all[i]) {
                assert(seen[k as int] == views[i as int]);
                found = true;
            } else {
                k += 1;
            }
        }
        proof {
            assert(views.take(i + 1).drop_last() =~= views.take(i as int));
            assert(views.take(i + 1).last() == views[i as int]);
        }
        if !found {
            out.push(all[i].to_owned());
            assert(texts(out@) =~= seen.push(views[i as int]));
        }
        i += 1;
    }
    assert(views.take(i as int) =~= views);
    out
}

/// The number `n` as a column holds it, if it fits.
fn narrow(n: i128) -> (r: Option<i64>)
    ensures
        match r {
            Some(v) => v == n,
            None => !fits(n as int),
        },
{
    if n < i64::MIN as i128 || n > i64::MAX as i128 {
        None
    } else {
        Some(n as i64)
    }
}

/// The use of `model` in `ledger`, if its numbers fit.
fn model_usage(ledger: &UsageLedger, model: &str) -> (r: Option<ModelUsage>)
    requires
        ledger@.len() <= i32::MAX,
    ensures
        match r {
            Some(u) => u@ == usage_of(ledger@, model@),
            None => !usage_fits(usage_of(ledger@, model@)),
        },
{
    let t = tally_up(ledger, Some(model));
    let input = narrow(t.0);
    let output = narrow(t.1);
    let total = narrow(t.0 + t.1);
    let calls = narrow(t.2);
    match (input, output, total, calls) {
        (Some(i), Some(o), Some(s), Some(c)) => Some(
            ModelUsage {
                model: model.to_owned(),
                input_tokens: i,
                output_tokens: o,
                total_tokens: s,
                api_calls: c,
            },
        ),
        _ => None,
    }
}

/// A ledger cannot hold more sessions than there are ids.
pub proof fn lemma_usage_bound_len(rows: Seq<UsageSessionView>, next_id: int)
    requires
        usage_rules(rows, next_id),
    ensures
        rows.len() <= i32::MAX,
{
    if rows.len() > 0 {
        assert(rows.len() - 1 < rows[rows.len() - 1].id);
    }
}

/// The summary of the ledger: for each model the tokens read and written,
/// their sum and the calls made, over the sessions that used it; the
/// calls and tokens of all sessions together; and the number of different
/// starting times. The models come in the order in which they first
/// occur. A summary with a number that does not fit its column is
/// refused.
pub fn get_api_cost_summary(ledger: &UsageLedger) -> (r: Result<UsageSummary, StoreError>)
    requires
        ledger.wf(),
    ensures
        match r {
            Ok(s) => s@ == summary_of(ledger@) && summary_fits(ledger@),
            Err(e) => e == StoreError::Overflow && !summary_fits(ledger@),
        },
{
    proof {
        lemma_usage_bound_len(ledger@, ledger.next_id());
    }
    let mut names: Vec<&str> = Vec::new();
    let mut starts: Vec<&str> = Vec::new();
    let mut i: usize = 0;
    while i < ledger.rows.len()
        invariant
            i <= ledger.rows.len(),
            names.len() == i,
            starts.len() == i,
            forall|k: int| 0 <= k < i ==> (#[trigger] names@[k])@ == ledger@[k].model,
            forall|k: int| 0 <= k < i ==> (#[trigger] starts@[k])@ == ledger@[k].session_start,
        decreases ledger.rows.len() - i,
    {
        names.push(ledger.rows[i].model.as_str());
        starts.push(ledger.rows[i].session_start.as_str());
        i += 1;
    }
    assert(names@.map_values(|s: &str| s@) =~= ledger@.map_values(|r: UsageSessionView| r.model));
    assert(starts@.map_values(|s: &str| s@) =~= session_times(ledger@));
    let models = distinct_texts(&names);
    let ghost wanted = models_of(ledger@);
    assert(texts(models@) == wanted);
    let mut by_model: Vec<ModelUsage> = Vec::new();
    let mut k: usize = 0;
    while k < models.len()
        invariant
            k <= models.len(),
            ledger@.len() <= i32::MAX,
            wanted == models_of(ledger@),
            texts(models@) == wanted,
            by_model.len() == k,
            forall|m: int| 0 <= m < k ==> (#[trigger] by_model@[m])@ == usage_of(ledger@, wanted[m]),
            forall|m: int| 0 <= m < k ==> usage_fits(usage_of(ledger@, #[trigger] wanted[m])),
        decreases models.len() - k,
    {
        assert(wanted[k as int] == models@[k as int]@);
        match model_usage(ledger, models[k].as_str()) {
            Some(u) => {
                by_model.push(u);
            },
            None => {
                assert(!usage_fits(usage_of(ledger@, models_of(ledger@)[k as int])));
                return Err(StoreError::Overflow);
            },
        }
        k += 1;
    }
    let all = tally_up(ledger, None);
    let total_calls = narrow(all.2);
    let total_tokens = narrow(all.0 + all.1);
    let days = distinct_texts(&starts);
    match (total_calls, total_tokens) {
        (Some(calls), Some(tokens)) => {
            let summary = UsageSummary {
                by_model,
                total_calls: calls,
                total_tokens: tokens,
                session_count: days.len() as i64,
            };
            assert(summary@.by_model =~= summary_of(ledger@).by_model);
            assert(texts(days@).len() == days.len());
            Ok(summary)
        },
        _ => Err(StoreError::Overflow),
    }
}


} // verus!
