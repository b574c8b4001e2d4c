//! The outcome ledger: one row for each url that was attempted.

use vstd::prelude::*;
use crate::store::rows::{ProcessedStats, ProcessedURL, ProcessedUrlView, StoreError, processed_views};
use crate::store::table::{
    Keyed, keep_rows, lemma_filter_frees_url, lemma_filter_keeps_rules, lemma_filter_splits,
    lemma_push_keeps_rules, lemma_rules_bound_len, table_rules, url_present,
};
use crate::store::csv::{escaped, lemma_escaped_keeps_newlines, push_escaped};
use crate::store::order::{bounded, newest_first_order, newest_order, shown, times_of};
use crate::text::{
    concat, count, decimal, lemma_count_add, lemma_count_concat, lemma_count_none,
    lemma_count_one, lemma_decimal_has_no_newline, push_chars, push_decimal, push_str_chars,
    str_eq, string_of,
};

verus! {

/// How many rows of `rows` have the status `status`.
pub open spec fn count_status(rows: Seq<ProcessedUrlView>, status: Seq<char>) -> nat {
    rows.filter(|r: ProcessedUrlView| r.status == status).len()
}

/// The rules of the ledger: those of every table.
pub open spec fn ledger_rules(rows: Seq<ProcessedUrlView>, next_id: int) -> bool {
    table_rules(rows, next_id)
}

impl Keyed for ProcessedUrlView {
    open spec fn row_id(&self) -> int {
        self.id
    }

    open spec fn row_url(&self) -> Seq<char> {
        self.url
    }
}

/// What is recorded of one attempt, before the ledger gives it an id.
#[derive(Debug)]
pub struct Outcome {
    pub url: String,
    pub source: String,
    pub status: String,
    pub fields_filled: Option<String>,
    pub error_message: Option<String>,
    pub error_category: Option<String>,
    pub details: Option<String>,
    pub screenshot_path: Option<String>,
    pub confirmation_data: Option<String>,
    pub network_data: Option<String>,
    pub processed_at: String,
}

impl Outcome {
    /// The row that holds this outcome under the id `id`.
    pub open spec fn row(&self, id: int) -> ProcessedUrlView {
        ProcessedUrlView {
            id,
            url: self.url@,
            source: self.source@,
            status: self.status@,
            fields_filled: crate::text::opt_view(self.fields_filled),
            error_message: crate::text::opt_view(self.error_message),
            error_category: crate::text::opt_view(self.error_category),
            details: crate::text::opt_view(self.details),
            screenshot_path: crate::text::opt_view(self.screenshot_path),
            confirmation_data: crate::text::opt_view(self.confirmation_data),
            network_data: crate::text::opt_view(self.network_data),
            processed_at: self.processed_at@,
        }
    }
}

/// The outcome ledger.
#[derive(Debug)]
pub struct OutcomeLedger {
    rows: Vec<ProcessedURL>,
    next_id: i64,
}

impl View for OutcomeLedger {
    type V = Seq<ProcessedUrlView>;

    closed spec fn view(&self) -> Seq<ProcessedUrlView> {
        processed_views(self.rows@)
    }
}

impl OutcomeLedger {
    /// The id that the next row gets.
    pub closed spec fn next_id(&self) -> int {
        self.next_id as int
    }

    /// The ledger keeps its rules.
    pub open spec fn wf(&self) -> bool {
        ledger_rules(self@, self.next_id())
    }

    /// An empty ledger.
    pub fn new() -> (l: OutcomeLedger)
        ensures
            l.wf(),
            l@ == Seq::<ProcessedUrlView>::empty(),
            l.next_id() == 1,
    {
        let l = OutcomeLedger { rows: Vec::new(), next_id: 1 };
        assert(l@ =~= Seq::<ProcessedUrlView>::empty());
        l
    }

    /// The id after the last id of `rows`.
    pub open spec fn id_after(rows: Seq<ProcessedUrlView>) -> int {
        if rows.len() == 0 {
            1
        } else {
            rows.last().id + 1
        }
    }

    /// The ledger that holds `rows`, if they keep the rules: ids that grow
    /// from one row to the next, the first of them positive, and no url
    /// twice. The next row then gets the id after the last.
    pub fn from_rows(rows: Vec<ProcessedURL>) -> (r: Option<OutcomeLedger>)
        ensures
            match r {
                Some(l) => l.wf() && l@ == processed_views(rows@) && l.next_id() == Self::id_after(
                    processed_views(rows@),
                ),
                None => !ledger_rules(
                    processed_views(rows@),
                    Self::id_after(processed_views(rows@)),
                ),
            },
    {
        let ghost all = processed_views(rows@);
        let n = rows.len();
        let mut i: usize = 0;
        while i < n
            invariant
                i <= n,
                n == rows.len(),
                all == processed_views(rows@),
                forall|k: int| 0 <= k < i ==> k < (#[trigger] all[k]).id,
                forall|k: int, m: int|
                    0 <= k < m < i ==> (#[trigger] all[k]).id < (#[trigger] all[m]).id,
                forall|k: int, m: int|
                    0 <= k < m < i ==> (#[trigger] all[k]).url != (#[trigger] all[m]).url,
            decreases n - i,
        {
            if i == 0 {
                if rows[0].id < 1 {
                    assert(!(0 < all[0].id));
                    return None;
                }
            } else {
                if rows[i - 1].id >= rows[i].id {
                    assert(!(all[i - 1].id < all[i as int].id));
                    return None;
                }
                assert forall|k: int| 0 <= k < i implies (#[trigger] all[k]).id
                    < all[i as int].id by {
                    if k < i - 1 {
                        assert(all[k].id < all[i - 1].id);
                    }
                }
                assert(i - 1 < all[i - 1].id);
            }
            let mut j: usize = 0;
            while j < i
                invariant
                    j <= i < n,
                    n == rows.len(),
                    all == processed_views(rows@),
                    forall|k: int| 0 <= k < j ==> (#[trigger] all[k]).url != all[i as int].url,
                decreases i - j,
            {
                if str_eq(rows[j].url.as_str(), rows[i].url.as_str()) {
                    assert(all[j as int].url == all[i as int].url);
                    return None;
                }
                j += 1;
            }
            i += 1;
        }
        let next_id: i64 = if n == 0 {
            1
        } else {
            rows[n - 1].id as i64 + 1
        };
        proof {
            assert forall|k: int| 0 <= k < n implies (#[trigger] all[k]).id < next_id by {
                if k < n - 1 {
                    assert(all[k].id < all[n - 1].id);
                }
            }
        }
        Some(OutcomeLedger { rows, next_id })
    }

    /// The rows, oldest id first.
    pub fn rows(&self) -> (r: &Vec<ProcessedURL>)
        ensures
            processed_views(r@) == self@,
    {
        &self.rows
    }

    /// The number of rows.
    pub fn len(&self) -> (n: usize)
        ensures
            n == self@.len(),
    {
        self.rows.len()
    }

    /// Where the row with the url `url` stands, if there is one.
    fn position_of_url(&self, url: &str) -> (r: Option<usize>)
        ensures
            match r {
                Some(i) => i < self@.len() && self@[i as int].url == url@,
                None => !url_present(self@, url@),
            },
    {
        let mut i: usize = 0;
        while i < self.rows.len()
            invariant
                i <= self.rows.len(),
                forall|k: int| 0 <= k < i ==> (#[trigger] self@[k]).url != url@,
            decreases self.rows.len() - i,
        {
            if str_eq(self.rows[i].url.as_str(), url) {
                return Some(i);
            }
            i += 1;
        }
        None
    }

    /// Whether the ledger holds an outcome for `url`.
    pub fn contains_url(&self, url: &str) -> (r: bool)
        ensures
            r == url_present(self@, url@),
    {
        self.position_of_url(url).is_some()
    }

    /// Records an outcome. A url that the ledger holds already is refused:
    /// its row has to be removed first. The new row gets the next id and
    /// stands last.
    pub fn record(&mut self, outcome: Outcome) -> (r: Result<i32, StoreError>)
        requires
            old(self).wf(),
        ensures
            final(self).wf(),
            match r {
                Ok(id) => {
                    &&& !url_present(old(self)@, outcome.url@)
                    &&& id == old(self).next_id()
                    &&& final(self).next_id() == id + 1
                    &&& final(self)@ == old(self)@.push(outcome.row(id as int))
                },
                Err(e) => {
                    &&& final(self)@ == old(self)@
                    &&& final(self).next_id() == old(self).next_id()
                    &&& e == if url_present(old(self)@, outcome.url@) {
                        StoreError::DuplicateUrl
                    } else {
                        StoreError::Full
                    }
                    &&& (url_present(old(self)@, outcome.url@) || old(self).next_id() > i32::MAX)
                },
            },
    {
        if self.contains_url(outcome.url.as_str()) {
            return Err(StoreError::DuplicateUrl);
        }
        if self.next_id > i32::MAX as i64 {
            return Err(StoreError::Full);
        }
        let id: i32 = self.next_id as i32;
        let row = ProcessedURL {
            id,
            url: outcome.url,
            source: outcome.source,
            status: outcome.status,
            fields_filled: outcome.fields_filled,
            error_message: outcome.error_message,
            error_category: outcome.error_category,
            details: outcome.details,
            screenshot_path: outcome.screenshot_path,
            confirmation_data: outcome.confirmation_data,
            network_data: outcome.network_data,
            processed_at: outcome.processed_at,
        };
        assert(row@ == outcome.row(id as int));
        self.rows.push(row);
        self.next_id = self.next_id + 1;
        assert(self@ =~= old(self)@.push(outcome.row(id as int)));
        proof {
            lemma_push_keeps_rules(old(self)@, old(self).next_id(), outcome.row(id as int));
        }
        Ok(id)
    }
}

/// The number of rows with the status `status`.
fn count_with_status(ledger: &OutcomeLedger, status: &str) -> (n: usize)
    ensures
        n == count_status(ledger@, status@),
{
    let ghost pred = |r: ProcessedUrlView| r.status == status@;
    let mut n: usize = 0;
    let mut i: usize = 0;
    assert(ledger@.take(0).filter(pred) =~= Seq::<ProcessedUrlView>::empty()) by {
        reveal(Seq::filter);
    }
    while i < ledger.rows.len()
        invariant
            i <= ledger.rows.len(),
            pred == (|r: ProcessedUrlView| r.status == status@),
            n == ledger@.take(i as int).filter(pred).len(),
            n <= i,
        decreases ledger.rows.len() - i,
    {
        proof {
            assert(ledger@.take(i + 1) =~= ledger@.take(i as int).push(ledger@[i as int]));
            ledger@.take(i as int).lemma_filter_push(ledger@[i as int], pred);
        }
        if str_eq(ledger.rows[i].status.as_str(), status) {
            n += 1;
        }
        i += 1;
    }
    assert(ledger@.take(i as int) =~= ledger@);
    n
}

/// The ledger in numbers: all rows, and the rows of each status, counted
/// from the rows as they are.
pub fn get_processed_stats(ledger: &OutcomeLedger) -> (stats: ProcessedStats)
    requires
        ledger.wf(),
    ensures
        stats.total == ledger@.len(),
        stats.successful == count_status(ledger@, "success"@),
        stats.failed == count_status(ledger@, "failed"@),
        stats.skipped == count_status(ledger@, "skipped"@),
{
    proof {
        lemma_rules_bound_len(ledger@, ledger.next_id());
        ledger@.lemma_filter_len(|r: ProcessedUrlView| r.status == "success"@);
        ledger@.lemma_filter_len(|r: ProcessedUrlView| r.status == "failed"@);
        ledger@.lemma_filter_len(|r: ProcessedUrlView| r.status == "skipped"@);
    }
    ProcessedStats {
        total: ledger.rows.len() as i32,
        successful: count_with_status(ledger, "success") as i32,
        failed: count_with_status(ledger, "failed") as i32,
        skipped: count_with_status(ledger, "skipped") as i32,
    }
}

/// The ledger in numbers, under its older name.
pub fn get_stats(ledger: &OutcomeLedger) -> (stats: ProcessedStats)
    requires
        ledger.wf(),
    ensures
        stats.total == ledger@.len(),
        stats.successful == count_status(ledger@, "success"@),
        stats.failed == count_status(ledger@, "failed"@),
        stats.skipped == count_status(ledger@, "skipped"@),
{
    get_processed_stats(ledger)
}

/// The number of rows whose attempt failed.
pub fn get_failed_count(ledger: &OutcomeLedger) -> (n: i32)
    requires
        ledger.wf(),
    ensures
        n == count_status(ledger@, "failed"@),
{
    proof {
        lemma_rules_bound_len(ledger@, ledger.next_id());
        ledger@.lemma_filter_len(|r: ProcessedUrlView| r.status == "failed"@);
    }
    count_with_status(ledger, "failed") as i32
}

/// Whether an outcome is recorded for `url`.
pub fn is_url_processed(ledger: &OutcomeLedger, url: &str) -> (r: bool)
    ensures
        r == url_present(ledger@, url@),
{
    ledger.contains_url(url)
}

/// Removes the row with the id `id`, if there is one.
pub fn delete_processed_url(ledger: &mut OutcomeLedger, id: i32)
    requires
        old(ledger).wf(),
    ensures
        final(ledger).wf(),
        final(ledger).next_id() == old(ledger).next_id(),
        final(ledger)@ == old(ledger)@.filter(|r: ProcessedUrlView| r.id != id),
{
    let ghost pred = |r: ProcessedUrlView| r.id != id;
    let mut mask: Vec<bool> = Vec::new();
    let mut i: usize = 0;
    while i < ledger.rows.len()
        invariant
            i <= ledger.rows.len(),
            mask.len() == i,
            pred == (|r: ProcessedUrlView| r.id != id),
            forall|k: int| 0 <= k < i ==> mask@[k] == pred(#[trigger] ledger.rows@[k]@),
        decreases ledger.rows.len() - i,
    {
        mask.push(ledger.rows[i].id != id);
        i += 1;
    }
    let mut rows: Vec<ProcessedURL> = Vec::new();
    core::mem::swap(&mut rows, &mut ledger.rows);
    ledger.rows = keep_rows(rows, &mask, Ghost(pred));
    proof {
        lemma_filter_keeps_rules(old(ledger)@, old(ledger).next_id(), pred);
    }
}

/// Forgets the failed attempt with the id `id`, so that its url may be
/// attempted again: the row is removed, whatever its status.
pub fn retry_url_by_id(ledger: &mut OutcomeLedger, id: i32)
    requires
        old(ledger).wf(),
    ensures
        final(ledger).wf(),
        final(ledger).next_id() == old(ledger).next_id(),
        final(ledger)@ == old(ledger)@.filter(|r: ProcessedUrlView| r.id != id),
{
    delete_processed_url(ledger, id)
}

/// Forgets every failed attempt, so that the urls may be attempted again:
/// the rows with the status `failed` are removed. Returns how many there
/// were.
pub fn retry_failed_urls(ledger: &mut OutcomeLedger) -> (removed: usize)
    requires
        old(ledger).wf(),
    ensures
        final(ledger).wf(),
        final(ledger).next_id() == old(ledger).next_id(),
        final(ledger)@ == old(ledger)@.filter(|r: ProcessedUrlView| r.status != "failed"@),
        removed == count_status(old(ledger)@, "failed"@),
        removed == old(ledger)@.len() - final(ledger)@.len(),
{
    let ghost pred = |r: ProcessedUrlView| r.status != "failed"@;
    let before = ledger.rows.len();
    let mut mask: Vec<bool> = Vec::new();
    let mut i: usize = 0;
    while i < ledger.rows.len()
        invariant
            i <= ledger.rows.len(),
            mask.len() == i,
            pred == (|r: ProcessedUrlView| r.status != "failed"@),
            forall|k: int| 0 <= k < i ==> mask@[k] == pred(#[trigger] ledger.rows@[k]@),
        decreases ledger.rows.len() - i,
    {
        mask.push(!str_eq(ledger.rows[i].status.as_str(), "failed"));
        i += 1;
    }
    let mut rows: Vec<ProcessedURL> = Vec::new();
    core::mem::swap(&mut rows, &mut ledger.rows);
    ledger.rows = keep_rows(rows, &mask, Ghost(pred));
    proof {
        lemma_filter_keeps_rules(old(ledger)@, old(ledger).next_id(), pred);
        lemma_filter_splits(old(ledger)@, |r: ProcessedUrlView| r.status == "failed"@, pred);
        old(ledger)@.lemma_filter_len(pred);
    }
    before - ledger.rows.len()
}

/// Removes every row. The ids that were used stay used.
pub fn clear_processed_urls(ledger: &mut OutcomeLedger)
    requires
        old(ledger).wf(),
    ensures
        final(ledger).wf(),
        final(ledger).next_id() == old(ledger).next_id(),
        final(ledger)@ == Seq::<ProcessedUrlView>::empty(),
{
    ledger.rows = Vec::new();
    assert(ledger@ =~= Seq::<ProcessedUrlView>::empty());
}

/// Forgetting the failed attempts admits their urls again: a url whose
/// attempt had failed is absent from the ledger afterwards, and no row
/// that is left has failed.
pub proof fn lemma_retry_readmits(rows: Seq<ProcessedUrlView>, next_id: int, i: int)
    requires
        ledger_rules(rows, next_id),
        0 <= i < rows.len(),
        rows[i].status == "failed"@,
    ensures
        !url_present(rows.filter(|r: ProcessedUrlView| r.status != "failed"@), rows[i].url),
        count_status(rows.filter(|r: ProcessedUrlView| r.status != "failed"@), "failed"@) == 0,
{
    let pred = |r: ProcessedUrlView| r.status != "failed"@;
    let failed = |r: ProcessedUrlView| r.status == "failed"@;
    lemma_filter_frees_url(rows, next_id, pred, i);
    let kept = rows.filter(pred);
    assert forall|k: int| 0 <= k < kept.len() implies !failed(#[trigger] kept[k]) by {
        rows.lemma_filter_pred(pred, k);
    }
    kept.lemma_all_neg_filter_empty(failed);
}


/// The time of each row.
pub open spec fn processed_times(rows: Seq<ProcessedUrlView>) -> Seq<Seq<char>> {
    rows.map_values(|r: ProcessedUrlView| r.processed_at)
}

/// The rows from the latest attempt to the earliest.
pub open spec fn processed_newest_first(rows: Seq<ProcessedUrlView>) -> Seq<ProcessedUrlView> {
    newest_order(processed_times(rows)).map_values(|i: int| rows[i])
}

/// The outcomes from the latest attempt to the earliest, at most `limit`
/// of them; all of them where `limit` is negative.
pub fn get_processed_urls(ledger: &OutcomeLedger, limit: i32) -> (list: Vec<ProcessedURL>)
    ensures
        processed_views(list@) == processed_newest_first(ledger@).take(
            shown(limit as int, ledger@.len() as int),
        ),
{
    let mut stamps: Vec<&str> = Vec::new();
    let mut i: usize = 0;
    while i < ledger.rows.len()
        invariant
            i <= ledger.rows.len(),
            stamps.len() == i,
            forall|k: int| 0 <= k < i ==> (#[trigger] stamps@[k])@ == ledger@[k].processed_at,
        decreases ledger.rows.len() - i,
    {
        stamps.push(ledger.rows[i].processed_at.as_str());
        i += 1;
    }
    let times = times_of(&stamps);
    assert(stamps@.map_values(|s: &str| s@) =~= processed_times(ledger@));
    let order = newest_first_order(&times);
    let n = bounded(limit, ledger.rows.len());
    let ghost wanted = processed_newest_first(ledger@);
    let mut list: Vec<ProcessedURL> = Vec::new();
    let mut k: usize = 0;
    while k < n
        invariant
            k <= n <= order.len(),
            order.len() == ledger.rows.len(),
            forall|m: int| 0 <= m < order.len() ==> #[trigger] order@[m] < ledger.rows.len(),
            wanted == processed_newest_first(ledger@),
            wanted.len() == order.len(),
            forall|m: int| 0 <= m < order.len() ==> #[trigger] wanted[m] == ledger@[order@[m] as int],
            list.len() == k,
            forall|m: int| 0 <= m < k ==> (#[trigger] list@[m])@ == wanted[m],
        decreases n - k,
    {
        list.push(ledger.rows[order[k]].copy());
        k += 1;
    }
    assert(processed_views(list@) =~= wanted.take(n as int));
    list
}

/// The line of a row in the exported table: the id, the url between
/// quotation marks, the source, the status and the time.
pub open spec fn processed_line(r: ProcessedUrlView) -> Seq<char> {
    decimal(r.id) + seq![',', '"'] + escaped(r.url) + seq!['"', ','] + r.source + seq![',']
        + r.status + seq![','] + r.processed_at + seq!['\n']
}

/// The lines of the exported table, one for each row, from the latest
/// attempt to the earliest.
pub open spec fn processed_lines(rows: Seq<ProcessedUrlView>) -> Seq<Seq<char>> {
    processed_newest_first(rows).map_values(|r: ProcessedUrlView| processed_line(r))
}

/// The exported table: the line of column names, then the lines of the
/// rows.
pub open spec fn processed_csv(rows: Seq<ProcessedUrlView>) -> Seq<char> {
    "id,url,source,status,processed_at\n"@ + concat(processed_lines(rows))
}

/// The exported table has one line for each row of the ledger.
pub proof fn lemma_processed_csv_rows(rows: Seq<ProcessedUrlView>)
    ensures
        processed_lines(rows).len() == rows.len(),
{
    crate::store::order::lemma_order_permutes(processed_times(rows));
}

/// The line of `row` in the exported table.
fn processed_row_line(row: &ProcessedURL) -> (line: Vec<char>)
    ensures
        line@ == processed_line(row@),
{
    let mut line: Vec<char> = Vec::new();
    push_decimal(&mut line, row.id as i64);
    let ghost w0 = decimal(row@.id);
    assert(line@ =~= w0);
    line.push(',');
    line.push('"');
    let ghost w1 = w0 + seq![',', '"'];
    assert(line@ =~= w1);
    push_escaped(&mut line, row.url.as_str());
    let ghost w2 = w1 + escaped(row@.url);
    line.push('"');
    line.push(',');
    let ghost w3 = w2 + seq!['"', ','];
    assert(line@ =~= w3);
    push_str_chars(&mut line, row.source.as_str());
    let ghost w4 = w3 + row@.source;
    line.push(',');
    let ghost w5 = w4 + seq![','];
    assert(line@ =~= w5);
    push_str_chars(&mut line, row.status.as_str());
    let ghost w6 = w5 + row@.status;
    line.push(',');
    let ghost w7 = w6 + seq![','];
    assert(line@ =~= w7);
    push_str_chars(&mut line, row.processed_at.as_str());
    let ghost w8 = w7 + row@.processed_at;
    line.push('\n');
    assert(line@ =~= w8 + seq!['\n']);
    line
}

/// The ledger as comma-separated text, from the latest attempt to the
/// earliest. The url stands between quotation marks with its own
/// quotation marks doubled; the other fields stand as they are.
pub fn export_processed_csv(ledger: &OutcomeLedger) -> (csv: String)
    ensures
        csv@ == processed_csv(ledger@),
{
    let list = get_processed_urls(ledger, -1);
    let ghost lines = processed_lines(ledger@);
    proof {
        lemma_processed_csv_rows(ledger@);
        assert(processed_newest_first(ledger@).take(ledger@.len() as int)
            =~= processed_newest_first(ledger@));
    }
    let mut out: Vec<char> = Vec::new();
    push_str_chars(&mut out, "id,url,source,status,processed_at\n");
    let ghost header = out@;
    assert(concat(lines.take(0)) =~= Seq::<char>::empty());
    let mut k: usize = 0;
    while k < list.len()
        invariant
            k <= list.len(),
            lines.len() == list.len(),
            forall|m: int| 0 <= m < list.len() ==> #[trigger] lines[m] == processed_line(list@[m]@),
            out@ == header + concat(lines.take(k as int)),
        decreases list.len() - k,
    {
        let line = processed_row_line(&list[k]);
        push_chars(&mut out, &line);
        proof {
            assert(lines.take(k + 1).drop_last() =~= lines.take(k as int));
            assert(lines.take(k + 1).last() == lines[k as int]);
        }
        k += 1;
    }
    assert(lines.take(k as int) =~= lines);
    string_of(&out)
}


/// Whether the row is written on one line: none of its url, source,
/// status and time holds a line break.
pub open spec fn processed_on_one_line(r: ProcessedUrlView) -> bool {
    &&& count(r.url, '\n') == 0
    &&& count(r.source, '\n') == 0
    &&& count(r.status, '\n') == 0
    &&& count(r.processed_at, '\n') == 0
}

/// The line of a row that is written on one line ends in the only line
/// break that it holds.
pub proof fn lemma_processed_line_break(r: ProcessedUrlView)
    requires
        processed_on_one_line(r),
    ensures
        count(processed_line(r), '\n') == 1,
{
    let w0 = decimal(r.id);
    let w1 = w0 + seq![',', '"'];
    let w2 = w1 + escaped(r.url);
    let w3 = w2 + seq!['"', ','];
    let w4 = w3 + r.source;
    let w5 = w4 + seq![','];
    let w6 = w5 + r.status;
    let w7 = w6 + seq![','];
    let w8 = w7 + r.processed_at;
    lemma_decimal_has_no_newline(r.id);
    lemma_count_none(seq![',', '"'], '\n');
    lemma_count_add(w0, seq![',', '"'], '\n');
    lemma_escaped_keeps_newlines(r.url);
    lemma_count_add(w1, escaped(r.url), '\n');
    lemma_count_none(seq!['"', ','], '\n');
    lemma_count_add(w2, seq!['"', ','], '\n');
    lemma_count_add(w3, r.source, '\n');
    lemma_count_one(',', '\n');
    lemma_count_add(w4, seq![','], '\n');
    lemma_count_add(w5, r.status, '\n');
    lemma_count_add(w6, seq![','], '\n');
    lemma_count_add(w7, r.processed_at, '\n');
    lemma_count_one('\n', '\n');
    lemma_count_add(w8, seq!['\n'], '\n');
}

/// The exported table has as many lines as the ledger has rows, besides
/// the line of column names: where every row is written on one line, the
/// lines of the rows hold one line break for each row.
pub proof fn lemma_processed_csv_line_breaks(rows: Seq<ProcessedUrlView>)
    requires
        forall|i: int| 0 <= i < rows.len() ==> processed_on_one_line(#[trigger] rows[i]),
    ensures
        count(concat(processed_lines(rows)), '\n') == rows.len(),
{
    crate::store::order::lemma_order_permutes(processed_times(rows));
    let order = newest_order(processed_times(rows));
    let lines = processed_lines(rows);
    assert forall|k: int| 0 <= k < lines.len() implies count(#[trigger] lines[k], '\n')
        == 1 by {
        assert(0 <= order[k] < rows.len());
        assert(lines[k] == processed_line(rows[order[k]]));
        lemma_processed_line_break(rows[order[k]]);
    }
    lemma_count_concat(lines, '\n', 1);
}


} // verus!
