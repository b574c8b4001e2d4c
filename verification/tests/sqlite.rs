use inboxhunter::store::ledger::{
    export_processed_csv, get_failed_count, get_processed_stats, get_processed_urls,
    retry_failed_urls, Outcome, OutcomeLedger,
};
use inboxhunter::store::queue::{
    get_scraped_stats, update_scraped_url_status, CandidateQueue, Discovery,
};
use inboxhunter::store::rows::{ProcessedStats, ProcessedURL, ScrapedStats, ScrapedURL};
use inboxhunter::store::schema::{init_database, migrate_database, Columns, Step};
use inboxhunter::store::sql::{
    CLEAR_PROCESSED, DELETE_FAILED, DELETE_PROCESSED, INSERT_PROCESSED, INSERT_SCRAPED,
    INSERT_SESSION, SELECT_PROCESSED, SELECT_SCRAPED, SELECT_SESSIONS, UPDATE_SCRAPED_STATUS,
};
use inboxhunter::store::usage::{get_api_cost_summary, UsageLedger, UsageSession};
use rusqlite::types::Value;
use rusqlite::Connection;

fn open() -> Connection {
    let conn = Connection::open_in_memory().unwrap();
    migrate(&conn);
    conn
}

fn has(conn: &Connection, step: Step) -> bool {
    match step.probe() {
        Some(sql) => conn.prepare(sql).is_ok(),
        None => false,
    }
}

fn migrate(conn: &Connection) {
    conn.execute_batch(init_database()).unwrap();
    let found = Columns {
        error_category: has(conn, Step::AddErrorCategory),
        details: has(conn, Step::AddDetails),
    };
    for step in migrate_database(found) {
        conn.execute(step.sql(), []).unwrap();
    }
}

fn insert_outcome(conn: &Connection, url: &str, status: &str, at: &str) -> rusqlite::Result<usize> {
    let values: [Option<&str>; 8] =
        [Some(url), Some("meta"), Some(status), None, None, None, None, Some(at)];
    conn.execute(INSERT_PROCESSED, values)
}

fn insert_candidate(conn: &Connection, url: &str, at: &str) -> rusqlite::Result<usize> {
    let values: [Option<&str>; 4] = [Some(url), None, None, Some(at)];
    conn.execute(INSERT_SCRAPED, values)
}

fn load_ledger(conn: &Connection) -> OutcomeLedger {
    let mut stmt = conn.prepare(SELECT_PROCESSED).unwrap();
    let rows = stmt
        .query_map([], |row| {
            Ok(ProcessedURL {
                id: row.get(0)?,
                url: row.get(1)?,
                source: row.get(2)?,
                status: row.get(3)?,
                fields_filled: row.get(4)?,
                error_message: row.get(5)?,
                error_category: row.get(6)?,
                details: row.get(7)?,
                screenshot_path: None,
                confirmation_data: None,
                network_data: None,
                processed_at: row.get(8)?,
            })
        })
        .unwrap()
        .collect::<Result<Vec<_>, _>>()
        .unwrap();
    OutcomeLedger::from_rows(rows).unwrap()
}

fn load_queue(conn: &Connection) -> CandidateQueue {
    let mut stmt = conn.prepare(SELECT_SCRAPED).unwrap();
    let rows = stmt
        .query_map([], |row| {
            Ok(ScrapedURL {
                id: row.get(0)?,
                url: row.get(1)?,
                ad_id: row.get(2)?,
                advertiser: row.get(3)?,
                scraped_at: row.get(4)?,
                processed: row.get::<_, i32>(5)? == 1,
            })
        })
        .unwrap()
        .collect::<Result<Vec<_>, _>>()
        .unwrap();
    CandidateQueue::from_rows(rows).unwrap()
}

fn urls(l: &OutcomeLedger) -> Vec<(i32, String, String)> {
    l.rows().iter().map(|r| (r.id, r.url.clone(), r.status.clone())).collect()
}

#[test]
fn engine_keeps_one_row_for_a_url_put_in_twice() {
    let conn = open();
    assert_eq!(insert_candidate(&conn, "https://x/1", "2024-01-01 10:00:00").unwrap(), 1);
    assert!(insert_candidate(&conn, "https://x/1", "2024-01-02 10:00:00").is_err());
    let q = load_queue(&conn);
    assert_eq!(q.len(), 1);
    // the model refuses the same
    let mut m = CandidateQueue::new();
    let d = |at: &str| Discovery {
        url: "https://x/1".to_string(),
        ad_id: None,
        advertiser: None,
        scraped_at: at.to_string(),
    };
    assert!(m.enqueue(d("2024-01-01 10:00:00")).is_ok());
    assert!(m.enqueue(d("2024-01-02 10:00:00")).is_err());
    assert_eq!(m.len(), q.len());
    assert_eq!(m.rows()[0].id, q.rows()[0].id);
    assert_eq!(m.rows()[0].url, q.rows()[0].url);
    assert_eq!(m.rows()[0].processed, q.rows()[0].processed);
}

#[test]
fn engine_and_model_agree_on_the_stats() {
    let conn = open();
    insert_outcome(&conn, "https://x/1", "success", "2024-01-01 10:00:00").unwrap();
    insert_outcome(&conn, "https://x/2", "success", "2024-01-01 11:00:00").unwrap();
    insert_outcome(&conn, "https://x/3", "failed", "2024-01-01 12:00:00").unwrap();
    insert_outcome(&conn, "https://x/4", "skipped", "2024-01-01 13:00:00").unwrap();
    let l = load_ledger(&conn);
    assert_eq!(
        get_processed_stats(&l),
        ProcessedStats { total: 4, successful: 2, failed: 1, skipped: 1 }
    );
    let count = |sql: &str| -> i32 { conn.query_row(sql, [], |row| row.get(0)).unwrap() };
    assert_eq!(count("SELECT COUNT(*) FROM processed_urls"), 4);
    assert_eq!(count("SELECT COUNT(*) FROM processed_urls WHERE status = 'success'"), 2);
    assert_eq!(count("SELECT COUNT(*) FROM processed_urls WHERE status = 'failed'"), 1);
    assert_eq!(count("SELECT COUNT(*) FROM processed_urls WHERE status = 'skipped'"), 1);
    assert_eq!(get_failed_count(&l), 1);
}

#[test]
fn engine_and_model_agree_on_retry() {
    let conn = open();
    let mut m = OutcomeLedger::new();
    let o = |url: &str, status: &str, at: &str| Outcome {
        url: url.to_string(),
        source: "meta".to_string(),
        status: status.to_string(),
        fields_filled: None,
        error_message: None,
        error_category: None,
        details: None,
        screenshot_path: None,
        confirmation_data: None,
        network_data: None,
        processed_at: at.to_string(),
    };
    for (url, status, at) in [
        ("https://x/1", "failed", "2024-01-01"),
        ("https://x/2", "success", "2024-01-02"),
        ("https://x/3", "failed", "2024-01-03"),
    ] {
        insert_outcome(&conn, url, status, at).unwrap();
        m.record(o(url, status, at)).unwrap();
    }
    assert_eq!(urls(&load_ledger(&conn)), urls(&m));
    let removed = conn.execute(DELETE_FAILED, []).unwrap();
    assert_eq!(removed, retry_failed_urls(&mut m));
    assert_eq!(removed, 2);
    assert_eq!(urls(&load_ledger(&conn)), urls(&m));
    // the url of a failed attempt is admitted again, under a new id
    insert_outcome(&conn, "https://x/1", "success", "2024-01-04").unwrap();
    assert_eq!(m.record(o("https://x/1", "success", "2024-01-04")), Ok(4));
    assert_eq!(urls(&load_ledger(&conn)), urls(&m));
    // a url that is still there is refused by both
    assert!(insert_outcome(&conn, "https://x/2", "failed", "2024-01-05").is_err());
    assert!(m.record(o("https://x/2", "failed", "2024-01-05")).is_err());
    conn.execute(DELETE_PROCESSED, [2]).unwrap();
    inboxhunter::store::ledger::delete_processed_url(&mut m, 2);
    assert_eq!(urls(&load_ledger(&conn)), urls(&m));
    conn.execute(CLEAR_PROCESSED, []).unwrap();
    inboxhunter::store::ledger::clear_processed_urls(&mut m);
    assert_eq!(urls(&load_ledger(&conn)), urls(&m));
    insert_outcome(&conn, "https://x/9", "success", "2024-01-06").unwrap();
    assert_eq!(m.record(o("https://x/9", "success", "2024-01-06")), Ok(5));
    assert_eq!(urls(&load_ledger(&conn)), urls(&m));
}

#[test]
fn engine_and_model_agree_on_the_order_of_a_listing() {
    let conn = open();
    for (url, at) in [
        ("a", "2024-01-02 10:00:00"),
        ("b", "2024-01-03 10:00:00"),
        ("c", "2024-01-01 10:00:00"),
        ("d", "2024-01-03 09:59:59"),
    ] {
        insert_outcome(&conn, url, "success", at).unwrap();
    }
    let l = load_ledger(&conn);
    let listed: Vec<String> = get_processed_urls(&l, 3).into_iter().map(|r| r.url).collect();
    let mut stmt = conn
        .prepare("SELECT url FROM processed_urls ORDER BY processed_at DESC LIMIT ?")
        .unwrap();
    let wanted: Vec<String> =
        stmt.query_map([3], |row| row.get(0)).unwrap().collect::<Result<_, _>>().unwrap();
    assert_eq!(listed, wanted);
    assert_eq!(listed, vec!["b", "d", "a"]);
    let csv = export_processed_csv(&l);
    assert_eq!(csv.lines().count(), 5);
}

#[test]
fn engine_and_model_agree_on_the_mark() {
    let conn = open();
    insert_candidate(&conn, "a", "2024-01-01 10:00:00").unwrap();
    insert_candidate(&conn, "b", "2024-01-02 10:00:00").unwrap();
    let mut m = load_queue(&conn);
    conn.execute(UPDATE_SCRAPED_STATUS, [1, 2]).unwrap();
    update_scraped_url_status(&mut m, 2, true);
    let q = load_queue(&conn);
    assert_eq!(get_scraped_stats(&q), ScrapedStats { total: 2, processed: 1, pending: 1 });
    assert_eq!(get_scraped_stats(&q), get_scraped_stats(&m));
    assert_eq!(q.rows()[1].processed, m.rows()[1].processed);
}

#[test]
fn opening_a_store_twice_changes_nothing() {
    let conn = open();
    insert_outcome(&conn, "https://x/1", "success", "2024-01-01").unwrap();
    let before = urls(&load_ledger(&conn));
    migrate(&conn);
    migrate(&conn);
    assert_eq!(urls(&load_ledger(&conn)), before);
}

#[test]
fn opening_an_old_store_adds_what_is_missing() {
    let conn = Connection::open_in_memory().unwrap();
    conn.execute_batch(
        "CREATE TABLE processed_urls (
            id INTEGER PRIMARY KEY AUTOINCREMENT,
            url TEXT NOT NULL UNIQUE,
            source TEXT DEFAULT 'unknown',
            status TEXT NOT NULL,
            fields_filled TEXT,
            error_message TEXT,
            processed_at DATETIME DEFAULT CURRENT_TIMESTAMP
        );
        INSERT INTO processed_urls (url, source, status, processed_at)
            VALUES ('https://old/1', 'csv', 'failed', '2023-01-01');",
    )
    .unwrap();
    assert!(!has(&conn, Step::AddErrorCategory));
    assert!(!has(&conn, Step::AddDetails));
    migrate(&conn);
    assert!(has(&conn, Step::AddErrorCategory));
    assert!(has(&conn, Step::AddDetails));
    let l = load_ledger(&conn);
    assert_eq!(urls(&l), vec![(1, "https://old/1".to_string(), "failed".to_string())]);
    assert_eq!(l.rows()[0].source, "csv");
    // and once more
    migrate(&conn);
    assert_eq!(urls(&load_ledger(&conn)).len(), 1);
}

#[test]
fn engine_and_model_agree_on_the_usage() {
    let conn = open();
    for (start, model, input, output, cost, calls) in [
        ("2024-01-01", "gpt-4", 100i64, 50i64, "0.01", 1i64),
        ("2024-01-02", "gpt-4", 200, 100, "0.02", 2),
        ("2024-01-02", "mini", 7, 3, "0.001", 1),
    ] {
        let values = vec![
            Value::Text(start.to_string()),
            Value::Text(model.to_string()),
            Value::Integer(input),
            Value::Integer(output),
            Value::Text(cost.to_string()),
            Value::Integer(calls),
        ];
        conn.execute(INSERT_SESSION, rusqlite::params_from_iter(values)).unwrap();
    }
    let mut stmt = conn.prepare(SELECT_SESSIONS).unwrap();
    let rows = stmt
        .query_map([], |row| {
            Ok(UsageSession {
                id: row.get(0)?,
                session_start: row.get(1)?,
                model: row.get(2)?,
                input_tokens: row.get(3)?,
                output_tokens: row.get(4)?,
                cost: row.get(5)?,
                api_calls: row.get(6)?,
            })
        })
        .unwrap()
        .collect::<Result<Vec<_>, _>>()
        .unwrap();
    let l = UsageLedger::from_rows(rows).unwrap();
    let s = get_api_cost_summary(&l).unwrap();
    let mut by_sql = conn
        .prepare(
            "SELECT model, SUM(input_tokens), SUM(output_tokens), SUM(api_calls) FROM api_sessions GROUP BY model ORDER BY MIN(id)",
        )
        .unwrap();
    let wanted: Vec<(String, i64, i64, i64)> = by_sql
        .query_map([], |row| Ok((row.get(0)?, row.get(1)?, row.get(2)?, row.get(3)?)))
        .unwrap()
        .collect::<Result<_, _>>()
        .unwrap();
    let got: Vec<(String, i64, i64, i64)> = s
        .by_model
        .iter()
        .map(|m| (m.model.clone(), m.input_tokens, m.output_tokens, m.api_calls))
        .collect();
    assert_eq!(got, wanted);
    assert_eq!(got[0], ("gpt-4".to_string(), 300, 150, 3));
    assert_eq!(s.by_model[0].total_tokens, 450);
    let distinct: i64 = conn
        .query_row("SELECT COUNT(DISTINCT session_start) FROM api_sessions", [], |row| row.get(0))
        .unwrap();
    assert_eq!(s.session_count, distinct);
    assert_eq!(l.rows()[0].cost, "0.01");
}
