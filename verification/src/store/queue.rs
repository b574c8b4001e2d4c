//! The candidate queue: the urls that were discovered and await an
//! attempt.

use vstd::prelude::*;
use crate::store::csv::{escaped, lemma_escaped_keeps_newlines, push_escaped};
use crate::store::order::{bounded, newest_first_order, newest_order, shown, times_of};
use crate::store::rows::{ScrapedStats, ScrapedURL, ScrapedUrlView, StoreError, scraped_views};
use crate::text::opt_view;
use crate::store::table::{
    Keyed, keep_rows, lemma_filter_keeps_rules, lemma_filter_splits, lemma_push_keeps_rules,
    lemma_rules_bound_len, table_rules, url_present,
};
use crate::text::{
    concat, count, decimal, lemma_count_add, lemma_count_concat, lemma_count_none,
    lemma_count_one, lemma_decimal_has_no_newline, push_chars, push_decimal, push_str_chars,
    str_eq, string_of,
};

verus! {

impl Keyed for ScrapedUrlView {
    open spec fn row_id(&self) -> int {
        self.id
    }

    open spec fn row_url(&self) -> Seq<char> {
        self.url
    }
}

/// The rules of the queue: those of every table.
pub open spec fn queue_rules(rows: Seq<ScrapedUrlView>, next_id: int) -> bool {
    table_rules(rows, next_id)
}

/// How many rows of `rows` are marked as `processed`.
pub open spec fn count_marked(rows: Seq<ScrapedUrlView>, processed: bool) -> nat {
    rows.filter(|r: ScrapedUrlView| r.processed == processed).len()
}

/// The row `r` with its mark set to `processed` if its id is `id`, and as
/// it is otherwise.
pub open spec fn marked(r: ScrapedUrlView, id: int, processed: bool) -> ScrapedUrlView {
    if r.id == id {
        ScrapedUrlView { processed, ..r }
    } else {
        r
    }
}

/// What is known of a url when it is discovered, before the queue gives
/// it an id.
#[derive(Debug)]
pub struct Discovery {
    pub url: String,
    pub ad_id: Option<String>,
    pub advertiser: Option<String>,
    pub scraped_at: String,
}

impl Discovery {
    /// The row that holds this discovery under the id `id`: not yet
    /// processed.
    pub open spec fn row(&self, id: int) -> ScrapedUrlView {
        ScrapedUrlView {
            id,
            url: self.url@,
            ad_id: opt_view(self.ad_id),
            advertiser: opt_view(self.advertiser),
            scraped_at: self.scraped_at@,
            processed: false,
        }
    }
}

/// The candidate queue.
#[derive(Debug)]
pub struct CandidateQueue {
    rows: Vec<ScrapedURL>,
    next_id: i64,
}

impl View for CandidateQueue {
    type V = Seq<ScrapedUrlView>;

    closed spec fn view(&self) -> Seq<ScrapedUrlView> {
        scraped_views(self.rows@)
    }
}

impl CandidateQueue {
    /// The id that the next row gets.
    pub closed spec fn next_id(&self) -> int {
        self.next_id as int
    }

    /// The queue keeps its rules.
    pub open spec fn wf(&self) -> bool {
        queue_rules(self@, self.next_id())
    }

    /// An empty queue.
    pub fn new() -> (q: CandidateQueue)
        ensures
            q.wf(),
            q@ == Seq::<ScrapedUrlView>::empty(),
            q.next_id() == 1,
    {
        let q = CandidateQueue { rows: Vec::new(), next_id: 1 };
        assert(q@ =~= Seq::<ScrapedUrlView>::empty());
        q
    }

    /// The id after the last id of `rows`.
    pub open spec fn id_after(rows: Seq<ScrapedUrlView>) -> int {
        if rows.len() == 0 {
            1
        } else {
            rows.last().id + 1
        }
    }

    /// The queue that holds `rows`, if they keep the rules: ids that grow
    /// from one row to the next, the first of them positive, and no url
    /// twice. The next row then gets the id after the last.
    pub fn from_rows(rows: Vec<ScrapedURL>) -> (r: Option<CandidateQueue>)
        ensures
            match r {
                Some(q) => q.wf() && q@ == scraped_views(rows@) && q.next_id() == Self::id_after(
                    scraped_views(rows@),
                ),
                None => !queue_rules(scraped_views(rows@), Self::id_after(scraped_views(rows@))),
            },
    {
        let ghost all = scraped_views(rows@);
        let n = rows.len();
        let mut i: usize = 0;
        while i < n
            invariant
                i <= n,
                n == rows.len(),
                all == scraped_views(rows@),
                forall|k: int| 0 <= k < i ==> k < (#[trigger] all[k]).id,
                forall|k: int, m: int|
                    0 <= k < m < i ==> (#[trigger] all[k]).id < (#[trigger] all[m]).id,
                forall|k: int, m: int|
                    0 <= k < m < i ==> (#[trigger] all[k]).url != (#[trigger] all[m]).url,
            decreases n - i,
        {
            if i == 0 {
                if rows[0].id < 1 {
                    assert(!(0 < all[0].row_id()));
                    return None;
                }
            } else {
                if rows[i - 1].id >= rows[i].id {
                    assert(!(all[i - 1].row_id() < all[i as int].row_id()));
                    return None;
                }
                assert forall|k: int| 0 <= k < i implies (#[trigger] all[k]).id
                    < all[i as int].id by {
                    if k < i - 1 {
                        assert(all[k].id < all[i - 1].id);
                    }
                }
                assert(i - 1 < all[i - 1].id);
            }
            let mut j: usize = 0;
            while j < i
                invariant
                    j <= i < n,
                    n == rows.len(),
                    all == scraped_views(rows@),
                    forall|k: int| 0 <= k < j ==> (#[trigger] all[k]).url != all[i as int].url,
                decreases i - j,
            {
                if str_eq(rows[j].url.as_str(), rows[i].url.as_str()) {
                    assert(all[j as int].row_url() == all[i as int].row_url());
                    return None;
                }
                j += 1;
            }
            i += 1;
        }
        let next_id: i64 = if n == 0 {
            1
        } else {
            rows[n - 1].id as i64 + 1
        };
        proof {
            assert forall|k: int| 0 <= k < n implies (#[trigger] all[k]).row_id() < next_id by {
                if k < n - 1 {
                    assert(all[k].id < all[n - 1].id);
                }
            }
            assert forall|k: int| 0 <= k < n implies k < (#[trigger] all[k]).row_id() by {
                assert(k < all[k].id);
            }
            assert forall|k: int, m: int| 0 <= k < m < n implies (#[trigger] all[k]).row_id() < (
            #[trigger] all[m]).row_id() && all[k].row_url() != all[m].row_url() by {
                assert(all[k].id < all[m].id && all[k].url != all[m].url);
            }
        }
        Some(CandidateQueue { rows, next_id })
    }

    /// The rows, oldest id first.
    pub fn rows(&self) -> (r: &Vec<ScrapedURL>)
        ensures
            scraped_views(r@) == self@,
    {
        &self.rows
    }

    /// The number of rows.
    pub fn len(&self) -> (n: usize)
        ensures
            n == self@.len(),
    {
        self.rows.len()
    }

    /// Whether the queue holds `url`.
    pub fn contains_url(&self, url: &str) -> (r: bool)
        ensures
            r == url_present(self@, url@),
    {
        let mut i: usize = 0;
        while i < self.rows.len()
            invariant
                i <= self.rows.len(),
                forall|k: int| 0 <= k < i ==> (#[trigger] self@[k]).row_url() != url@,
            decreases self.rows.len() - i,
        {
            if str_eq(self.rows[i].url.as_str(), url) {
                assert(self@[i as int].row_url() == url@);
                return true;
            }
            i += 1;
        }
        false
    }

    /// Puts a discovered url into the queue, unless the queue holds it
    /// already. The new row gets the next id, stands last and is not yet
    /// processed.
    pub fn enqueue(&mut self, item: Discovery) -> (r: Result<i32, StoreError>)
        requires
            old(self).wf(),
        ensures
            final(self).wf(),
            match r {
                Ok(id) => {
                    &&& !url_present(old(self)@, item.url@)
                    &&& id == old(self).next_id()
                    &&& final(self).next_id() == id + 1
                    &&& final(self)@ == old(self)@.push(item.row(id as int))
                },
                Err(e) => {
                    &&& final(self)@ == old(self)@
                    &&& final(self).next_id() == old(self).next_id()
                    &&& e == if url_present(old(self)@, item.url@) {
                        StoreError::DuplicateUrl
                    } else {
                        StoreError::Full
                    }
                    &&& (url_present(old(self)@, item.url@) || old(self).next_id() > i32::MAX)
                },
            },
    {
        if self.contains_url(item.url.as_str()) {
            return Err(StoreError::DuplicateUrl);
        }
        if self.next_id > i32::MAX as i64 {
            return Err(StoreError::Full);
        }
        let id: i32 = self.next_id as i32;
        let row = ScrapedURL {
            id,
            url: item.url,
            ad_id: item.ad_id,
            advertiser: item.advertiser,
            scraped_at: item.scraped_at,
            processed: false,
        };
        assert(row@ == item.row(id as int));
        self.rows.push(row);
        self.next_id = self.next_id + 1;
        assert(self@ =~= old(self)@.push(item.row(id as int)));
        proof {
            lemma_push_keeps_rules(old(self)@, old(self).next_id(), item.row(id as int));
        }
        Ok(id)
    }
}

/// A url that was put into the queue is in the queue: putting it there a
/// second time is refused, and the queue holds it once.
pub proof fn lemma_enqueued_once(rows: Seq<ScrapedUrlView>, next_id: int, row: ScrapedUrlView)
    requires
        queue_rules(rows, next_id),
        next_id <= i32::MAX,
        row.id == next_id,
        !url_present(rows, row.url),
    ensures
        url_present(rows.push(row), row.url),
        rows.push(row).filter(|r: ScrapedUrlView| r.url == row.url).len() == 1,
{
    let new = rows.push(row);
    assert(new[rows.len() as int].row_url() == row.url);
    let same = |r: ScrapedUrlView| r.url == row.url;
    rows.lemma_filter_push(row, same);
    assert forall|k: int| 0 <= k < rows.len() implies !same(#[trigger] rows[k]) by {
        assert(rows[k].row_url() != row.url);
    }
    rows.lemma_all_neg_filter_empty(same);
}

/// The number of rows that are marked as `processed`.
fn count_with_mark(queue: &CandidateQueue, processed: bool) -> (n: usize)
    ensures
        n == count_marked(queue@, processed),
{
    let ghost pred = |r: ScrapedUrlView| r.processed == processed;
    let mut n: usize = 0;
    let mut i: usize = 0;
    assert(queue@.take(0).filter(pred) =~= Seq::<ScrapedUrlView>::empty()) by {
        reveal(Seq::filter);
    }
    while i < queue.rows.len()
        invariant
            i <= queue.rows.len(),
            pred == (|r: ScrapedUrlView| r.processed == processed),
            n == queue@.take(i as int).filter(pred).len(),
            n <= i,
        decreases queue.rows.len() - i,
    {
        proof {
            assert(queue@.take(i + 1) =~= queue@.take(i as int).push(queue@[i as int]));
            queue@.take(i as int).lemma_filter_push(queue@[i as int], pred);
        }
        if queue.rows[i].processed == processed {
            n += 1;
        }
        i += 1;
    }
    assert(queue@.take(i as int) =~= queue@);
    n
}

/// The queue in numbers: all rows, those that were processed and those
/// that still wait, counted from the rows as they are.
pub fn get_scraped_stats(queue: &CandidateQueue) -> (stats: ScrapedStats)
    requires
        queue.wf(),
    ensures
        stats.total == queue@.len(),
        stats.processed == count_marked(queue@, true),
        stats.pending == count_marked(queue@, false),
        stats.total == stats.processed + stats.pending,
{
    proof {
        lemma_rules_bound_len(queue@, queue.next_id());
        queue@.lemma_filter_len(|r: ScrapedUrlView| r.processed == true);
        queue@.lemma_filter_len(|r: ScrapedUrlView| r.processed == false);
        lemma_filter_splits(
            queue@,
            |r: ScrapedUrlView| r.processed == true,
            |r: ScrapedUrlView| r.processed == false,
        );
    }
    ScrapedStats {
        total: queue.rows.len() as i32,
        processed: count_with_mark(queue, true) as i32,
        pending: count_with_mark(queue, false) as i32,
    }
}

/// Removes the row with the id `id`, if there is one.
pub fn delete_scraped_url(queue: &mut CandidateQueue, id: i32)
    requires
        old(queue).wf(),
    ensures
        final(queue).wf(),
        final(queue).next_id() == old(queue).next_id(),
        final(queue)@ == old(queue)@.filter(|r: ScrapedUrlView| r.id != id),
{
    let ghost pred = |r: ScrapedUrlView| r.id != id;
    let mut mask: Vec<bool> = Vec::new();
    let mut i: usize = 0;
    while i < queue.rows.len()
        invariant
            i <= queue.rows.len(),
            mask.len() == i,
            pred == (|r: ScrapedUrlView| r.id != id),
            forall|k: int| 0 <= k < i ==> mask@[k] == pred(#[trigger] queue.rows@[k]@),
        decreases queue.rows.len() - i,
    {
        mask.push(queue.rows[i].id != id);
        i += 1;
    }
    let mut rows: Vec<ScrapedURL> = Vec::new();
    core::mem::swap(&mut rows, &mut queue.rows);
    queue.rows = keep_rows(rows, &mask, Ghost(pred));
    proof {
        lemma_filter_keeps_rules(old(queue)@, old(queue).next_id(), pred);
    }
}

/// Marks the row with the id `id` as processed or as waiting. Nothing
/// else changes, and without such a row nothing changes at all.
pub fn update_scraped_url_status(queue: &mut CandidateQueue, id: i32, processed: bool)
    requires
        old(queue).wf(),
    ensures
        final(queue).wf(),
        final(queue).next_id() == old(queue).next_id(),
        final(queue)@ == old(queue)@.map_values(
            |r: ScrapedUrlView| marked(r, id as int, processed),
        ),
{
    let ghost before = queue@;
    let ghost wanted = before.map_values(|r: ScrapedUrlView| marked(r, id as int, processed));
    let mut i: usize = 0;
    while i < queue.rows.len()
        invariant
            i <= queue.rows.len(),
            queue.rows.len() == before.len(),
            queue.next_id() == old(queue).next_id(),
            wanted == before.map_values(|r: ScrapedUrlView| marked(r, id as int, processed)),
            forall|k: int| 0 <= k < i ==> (#[trigger] queue@[k]) == wanted[k],
            forall|k: int| i <= k < before.len() ==> (#[trigger] queue@[k]) == before[k],
        decreases queue.rows.len() - i,
    {
        assert(queue@[i as int] == before[i as int]);
        assert(wanted[i as int] == marked(before[i as int], id as int, processed));
        if queue.rows[i].id == id {
            let mut row = queue.rows[i].copy();
            row.processed = processed;
            let ghost prior = queue@;
            queue.rows.set(i, row);
            assert forall|k: int| 0 <= k < before.len() && k != i implies (#[trigger] queue@[k])
                == prior[k] by {}
            assert(queue@[i as int] == wanted[i as int]);
        }
        i += 1;
    }
    assert(queue@ =~= wanted);
    proof {
        assert forall|k: int| 0 <= k < wanted.len() implies (#[trigger] wanted[k]).row_id()
            == before[k].row_id() && wanted[k].row_url() == before[k].row_url() by {}
        assert forall|k: int| 0 <= k < wanted.len() implies k < (#[trigger] wanted[k]).row_id()
            < queue.next_id() by {
            assert(k < before[k].row_id() < old(queue).next_id());
        }
        assert forall|k: int, m: int| 0 <= k < m < wanted.len() implies (
        #[trigger] wanted[k]).row_id() < (#[trigger] wanted[m]).row_id() && wanted[k].row_url()
            != wanted[m].row_url() by {
            assert(before[k].row_id() < before[m].row_id());
            assert(before[k].row_url() != before[m].row_url());
        }
    }
}

/// Removes every row. The ids that were used stay used.
pub fn clear_scraped_urls(queue: &mut CandidateQueue)
    requires
        old(queue).wf(),
    ensures
        final(queue).wf(),
        final(queue).next_id() == old(queue).next_id(),
        final(queue)@ == Seq::<ScrapedUrlView>::empty(),
{
    queue.rows = Vec::new();
    assert(queue@ =~= Seq::<ScrapedUrlView>::empty());
}

/// The time of each row.
pub open spec fn scraped_times(rows: Seq<ScrapedUrlView>) -> Seq<Seq<char>> {
    rows.map_values(|r: ScrapedUrlView| r.scraped_at)
}

/// The rows from the latest discovery to the earliest.
pub open spec fn scraped_newest_first(rows: Seq<ScrapedUrlView>) -> Seq<ScrapedUrlView> {
    newest_order(scraped_times(rows)).map_values(|i: int| rows[i])
}

/// The candidates from the latest discovery to the earliest, at most
/// `limit` of them; all of them where `limit` is negative.
pub fn get_scraped_urls(queue: &CandidateQueue, limit: i32) -> (list: Vec<ScrapedURL>)
    ensures
        scraped_views(list@) == scraped_newest_first(queue@).take(
            shown(limit as int, queue@.len() as int),
        ),
{
    let mut stamps: Vec<&str> = Vec::new();
    let mut i: usize = 0;
    while i < queue.rows.len()
        invariant
            i <= queue.rows.len(),
            stamps.len() == i,
            forall|k: int| 0 <= k < i ==> (#[trigger] stamps@[k])@ == queue@[k].scraped_at,
        decreases queue.rows.len() - i,
    {
        stamps.push(queue.rows[i].scraped_at.as_str());
        i += 1;
    }
    let times = times_of(&stamps);
    assert(stamps@.map_values(|s: &str| s@) =~= scraped_times(queue@));
    let order = newest_first_order(&times);
    let n = bounded(limit, queue.rows.len());
    let ghost wanted = scraped_newest_first(queue@);
    let mut list: Vec<ScrapedURL> = Vec::new();
    let mut k: usize = 0;
    while k < n
        invariant
            k <= n <= order.len(),
            order.len() == queue.rows.len(),
            forall|m: int| 0 <= m < order.len() ==> #[trigger] order@[m] < queue.rows.len(),
            wanted == scraped_newest_first(queue@),
            wanted.len() == order.len(),
            forall|m: int| 0 <= m < order.len() ==> #[trigger] wanted[m] == queue@[order@[m] as int],
            list.len() == k,
            forall|m: int| 0 <= m < k ==> (#[trigger] list@[m])@ == wanted[m],
        decreases n - k,
    {
        list.push(queue.rows[order[k]].copy());
        k += 1;
    }
    assert(scraped_views(list@) =~= wanted.take(n as int));
    list
}

/// An optional text as it is written: nothing where there is none.
pub open spec fn or_empty(o: Option<Seq<char>>) -> Seq<char> {
    match o {
        Some(s) => s,
        None => Seq::empty(),
    }
}

/// The line of a row in the exported table: the id, the url between
/// quotation marks, the id of the advertisement, the advertiser between
/// quotation marks, the time, and 1 or 0 for processed or not.
pub open spec fn scraped_line(r: ScrapedUrlView) -> Seq<char> {
    decimal(r.id) + seq![',', '"'] + escaped(r.url) + seq!['"', ','] + or_empty(r.ad_id) + seq![
        ',',
        '"',
    ] + escaped(or_empty(r.advertiser)) + seq!['"', ','] + r.scraped_at + seq![','] + decimal(
        if r.processed {
            1
        } else {
            0
        },
    ) + seq!['\n']
}

/// The lines of the exported table, one for each row, from the latest
/// discovery to the earliest.
pub open spec fn scraped_lines(rows: Seq<ScrapedUrlView>) -> Seq<Seq<char>> {
    scraped_newest_first(rows).map_values(|r: ScrapedUrlView| scraped_line(r))
}

/// The exported table: the line of column names, then the lines of the
/// rows.
pub open spec fn scraped_csv(rows: Seq<ScrapedUrlView>) -> Seq<char> {
    "id,url,ad_id,advertiser,scraped_at,processed\n"@ + concat(scraped_lines(rows))
}

/// The exported table has one line for each row of the queue.
pub proof fn lemma_scraped_csv_rows(rows: Seq<ScrapedUrlView>)
    ensures
        scraped_lines(rows).len() == rows.len(),
{
    crate::store::order::lemma_order_permutes(scraped_times(rows));
}

/// Appends an optional text to `out`: nothing where there is none.
fn push_opt(out: &mut Vec<char>, o: &Option<String>)
    ensures
        final(out)@ == old(out)@ + or_empty(opt_view(*o)),
{
    match o {
        Some(s) => push_str_chars(out, s.as_str()),
        None => {
            assert(out@ =~= old(out)@ + Seq::<char>::empty());
        },
    }
}

/// Appends an optional text to `out` with every quotation mark doubled.
fn push_opt_escaped(out: &mut Vec<char>, o: &Option<String>)
    ensures
        final(out)@ == old(out)@ + escaped(or_empty(opt_view(*o))),
{
    match o {
        Some(s) => push_escaped(out, s.as_str()),
        None => {
            assert(out@ =~= old(out)@ + escaped(Seq::<char>::empty()));
        },
    }
}

/// The line of `row` in the exported table.
fn scraped_row_line(row: &ScrapedURL) -> (line: Vec<char>)
    ensures
        line@ == scraped_line(row@),
{
    let mut line: Vec<char> = Vec::new();
    push_decimal(&mut line, row.id as i64);
    let ghost w0 = decimal(row@.id);
    assert(line@ =~= w0);
    line.push(',');
    line.push('"');
    let ghost w1 = w0 + seq![',', '"'];
    assert(line@ =~= w1);
    push_escaped(&mut line, row.url.as_str());
    let ghost w2 = w1 + escaped(row@.url);
    line.push('"');
    line.push(',');
    let ghost w3 = w2 + seq!['"', ','];
    assert(line@ =~= w3);
    push_opt(&mut line, &row.ad_id);
    let ghost w4 = w3 + or_empty(row@.ad_id);
    line.push(',');
    line.push('"');
    let ghost w5 = w4 + seq![',', '"'];
    assert(line@ =~= w5);
    push_opt_escaped(&mut line, &row.advertiser);
    let ghost w6 = w5 + escaped(or_empty(row@.advertiser));
    line.push('"');
    line.push(',');
    let ghost w7 = w6 + seq!['"', ','];
    assert(line@ =~= w7);
    push_str_chars(&mut line, row.scraped_at.as_str());
    let ghost w8 = w7 + row@.scraped_at;
    line.push(',');
    let ghost w9 = w8 + seq![','];
    assert(line@ =~= w9);
    push_decimal(&mut line, if row.processed { 1 } else { 0 });
    let ghost w10 = w9 + decimal(if row@.processed { 1 } else { 0 });
    line.push('\n');
    assert(line@ =~= w10 + seq!['\n']);
    line
}

/// The queue as comma-separated text, from the latest discovery to the
/// earliest. The url and the advertiser stand between quotation marks
/// with their own quotation marks doubled; the other fields stand as they
/// are, and a field without a value stays empty.
pub fn export_scraped_csv(queue: &CandidateQueue) -> (csv: String)
    ensures
        csv@ == scraped_csv(queue@),
{
    let list = get_scraped_urls(queue, -1);
    let ghost lines = scraped_lines(queue@);
    proof {
        lemma_scraped_csv_rows(queue@);
        assert(scraped_newest_first(queue@).take(queue@.len() as int) =~= scraped_newest_first(
            queue@,
        ));
    }
    let mut out: Vec<char> = Vec::new();
    push_str_chars(&mut out, "id,url,ad_id,advertiser,scraped_at,processed\n");
    let ghost header = out@;
    assert(concat(lines.take(0)) =~= Seq::<char>::empty());
    let mut k: usize = 0;
    while k < list.len()
        invariant
            k <= list.len(),
            lines.len() == list.len(),
            forall|m: int| 0 <= m < list.len() ==> #[trigger] lines[m] == scraped_line(list@[m]@),
            out@ == header + concat(lines.take(k as int)),
        decreases list.len() - k,
    {
        let line = scraped_row_line(&list[k]);
        push_chars(&mut out, &line);
        proof {
            assert(lines.take(k + 1).drop_last() =~= lines.take(k as int));
            assert(lines.take(k + 1).last() == lines[k as int]);
        }
        k += 1;
    }
    assert(lines.take(k as int) =~= lines);
    string_of(&out)
}

/// Whether the row is written on one line: none of its url, the id of its
/// advertisement, its advertiser and its time holds a line break.
pub open spec fn scraped_on_one_line(r: ScrapedUrlView) -> bool {
    &&& count(r.url, '\n') == 0
    &&& count(or_empty(r.ad_id), '\n') == 0
    &&& count(or_empty(r.advertiser), '\n') == 0
    &&& count(r.scraped_at, '\n') == 0
}

/// The line of a row that is written on one line ends in the only line
/// break that it holds.
pub proof fn lemma_scraped_line_break(r: ScrapedUrlView)
    requires
        scraped_on_one_line(r),
    ensures
        count(scraped_line(r), '\n') == 1,
{
    let mark = decimal(
        if r.processed {
            1
        } else {
            0
        },
    );
    let w0 = decimal(r.id);
    let w1 = w0 + seq![',', '"'];
    let w2 = w1 + escaped(r.url);
    let w3 = w2 + seq!['"', ','];
    let w4 = w3 + or_empty(r.ad_id);
    let w5 = w4 + seq![',', '"'];
    let w6 = w5 + escaped(or_empty(r.advertiser));
    let w7 = w6 + seq!['"', ','];
    let w8 = w7 + r.scraped_at;
    let w9 = w8 + seq![','];
    let w10 = w9 + mark;
    lemma_decimal_has_no_newline(r.id);
    lemma_decimal_has_no_newline(1);
    lemma_decimal_has_no_newline(0);
    lemma_count_none(seq![',', '"'], '\n');
    lemma_count_none(seq!['"', ','], '\n');
    lemma_count_one(',', '\n');
    lemma_count_one('\n', '\n');
    lemma_escaped_keeps_newlines(r.url);
    lemma_escaped_keeps_newlines(or_empty(r.advertiser));
    lemma_count_add(w0, seq![',', '"'], '\n');
    lemma_count_add(w1, escaped(r.url), '\n');
    lemma_count_add(w2, seq!['"', ','], '\n');
    lemma_count_add(w3, or_empty(r.ad_id), '\n');
    lemma_count_add(w4, seq![',', '"'], '\n');
    lemma_count_add(w5, escaped(or_empty(r.advertiser)), '\n');
    lemma_count_add(w6, seq!['"', ','], '\n');
    lemma_count_add(w7, r.scraped_at, '\n');
    lemma_count_add(w8, seq![','], '\n');
    lemma_count_add(w9, mark, '\n');
    lemma_count_add(w10, seq!['\n'], '\n');
}

/// The exported table has as many lines as the queue has rows, besides
/// the line of column names: where every row is written on one line, the
/// lines of the rows hold one line break for each row.
pub proof fn lemma_scraped_csv_line_breaks(rows: Seq<ScrapedUrlView>)
    requires
        forall|i: int| 0 <= i < rows.len() ==> scraped_on_one_line(#[trigger] rows[i]),
    ensures
        count(concat(scraped_lines(rows)), '\n') == rows.len(),
{
    crate::store::order::lemma_order_permutes(scraped_times(rows));
    let order = newest_order(scraped_times(rows));
    let lines = scraped_lines(rows);
    assert forall|k: int| 0 <= k < lines.len() implies count(#[trigger] lines[k], '\n')
        == 1 by {
        assert(0 <= order[k] < rows.len());
        assert(lines[k] == scraped_line(rows[order[k]]));
        lemma_scraped_line_break(rows[order[k]]);
    }
    lemma_count_concat(lines, '\n', 1);
}


} // verus!
