//! The shape of the store and how an older store grows into it.
//!
//! A store is made by statements that create what is absent and leave
//! what is there. A store that was made by an older version lacks columns;
//! they are added one by one, each only where it is missing, and nothing
//! is ever dropped or reordered.

use vstd::prelude::*;

verus! {

/// The statements that make the tables and indexes of a store where they
/// are absent.
pub const SCHEMA: &'static str =
    "CREATE TABLE IF NOT EXISTS processed_urls (
    id INTEGER PRIMARY KEY AUTOINCREMENT,
    url TEXT NOT NULL UNIQUE,
    source TEXT DEFAULT 'unknown',
    status TEXT NOT NULL,
    fields_filled TEXT,
    error_message TEXT,
    error_category TEXT,
    details TEXT,
    processed_at DATETIME DEFAULT CURRENT_TIMESTAMP
);
CREATE TABLE IF NOT EXISTS scraped_urls (
    id INTEGER PRIMARY KEY AUTOINCREMENT,
    url TEXT NOT NULL UNIQUE,
    ad_id TEXT,
    advertiser TEXT,
    scraped_at DATETIME DEFAULT CURRENT_TIMESTAMP,
    processed INTEGER DEFAULT 0
);
CREATE TABLE IF NOT EXISTS api_sessions (
    id INTEGER PRIMARY KEY AUTOINCREMENT,
    session_start DATETIME DEFAULT CURRENT_TIMESTAMP,
    model TEXT NOT NULL,
    input_tokens INTEGER DEFAULT 0,
    output_tokens INTEGER DEFAULT 0,
    cost TEXT DEFAULT '0.0',
    api_calls INTEGER DEFAULT 0
);
CREATE INDEX IF NOT EXISTS idx_processed_url ON processed_urls(url);
CREATE INDEX IF NOT EXISTS idx_processed_status ON processed_urls(status);
CREATE INDEX IF NOT EXISTS idx_scraped_url ON scraped_urls(url);
CREATE INDEX IF NOT EXISTS idx_scraped_processed ON scraped_urls(processed);
CREATE INDEX IF NOT EXISTS idx_api_sessions_model ON api_sessions(model);
";

/// The statements that make a store, to be run when the store is opened.
pub fn init_database() -> (sql: &'static str)
    ensures
        sql@ == SCHEMA@,
{
    SCHEMA
}

/// The columns of the outcome ledger that an older store may lack, and
/// whether each is there.
#[derive(Clone, Copy, Debug, PartialEq, Eq, Structural)]
pub struct Columns {
    pub error_category: bool,
    pub details: bool,
}

/// One step that brings an older store up to date.
#[derive(Clone, Copy, Debug, PartialEq, Eq, Structural)]
pub enum Step {
    /// Add the column `error_category` to the outcome ledger.
    AddErrorCategory,
    /// Add the column `details` to the outcome ledger.
    AddDetails,
    /// Create the index on `error_category`, unless it is there.
    IndexErrorCategory,
}

/// The statement of a step.
pub open spec fn step_sql(step: Step) -> Seq<char> {
    match step {
        Step::AddErrorCategory => "ALTER TABLE processed_urls ADD COLUMN error_category TEXT"@,
        Step::AddDetails => "ALTER TABLE processed_urls ADD COLUMN details TEXT"@,
        Step::IndexErrorCategory =>
            "CREATE INDEX IF NOT EXISTS idx_processed_category ON processed_urls(error_category)"@,
    }
}

/// The statement that asks whether a column is there: it can be prepared
/// exactly when the column exists.
pub open spec fn probe_sql(step: Step) -> Option<Seq<char>> {
    match step {
        Step::AddErrorCategory => Some("SELECT error_category FROM processed_urls LIMIT 1"@),
        Step::AddDetails => Some("SELECT details FROM processed_urls LIMIT 1"@),
        Step::IndexErrorCategory => None,
    }
}

impl Step {
    /// The statement that carries the step out.
    pub fn sql(&self) -> (s: &'static str)
        ensures
            s@ == step_sql(*self),
    {
        match self {
            Step::AddErrorCategory => "ALTER TABLE processed_urls ADD COLUMN error_category TEXT",
            Step::AddDetails => "ALTER TABLE processed_urls ADD COLUMN details TEXT",
            Step::IndexErrorCategory =>
                "CREATE INDEX IF NOT EXISTS idx_processed_category ON processed_urls(error_category)",
        }
    }

    /// The statement that tells whether the step is due: the column that
    /// the step adds is missing exactly when the statement cannot be
    /// prepared. A step that is always due has none.
    pub fn probe(&self) -> (s: Option<&'static str>)
        ensures
            match s {
                Some(t) => probe_sql(*self) == Some(t@),
                None => probe_sql(*self) is None,
            },
    {
        match self {
            Step::AddErrorCategory => Some("SELECT error_category FROM processed_urls LIMIT 1"),
            Step::AddDetails => Some("SELECT details FROM processed_urls LIMIT 1"),
            Step::IndexErrorCategory => None,
        }
    }
}

/// Whether the store takes `step` without an error: a column can be added
/// only where it is missing, and an index needs its column.
pub open spec fn runs(found: Columns, step: Step) -> bool {
    match step {
        Step::AddErrorCategory => !found.error_category,
        Step::AddDetails => !found.details,
        Step::IndexErrorCategory => found.error_category,
    }
}

/// The columns after `step`.
pub open spec fn after(found: Columns, step: Step) -> Columns {
    match step {
        Step::AddErrorCategory => Columns { error_category: true, ..found },
        Step::AddDetails => Columns { details: true, ..found },
        Step::IndexErrorCategory => found,
    }
}

/// The columns after the steps `steps`, one after the other.
pub open spec fn after_all(found: Columns, steps: Seq<Step>) -> Columns
    decreases steps.len(),
{
    if steps.len() == 0 {
        found
    } else {
        after(after_all(found, steps.drop_last()), steps.last())
    }
}

/// Whether the store takes each of `steps` in turn without an error.
pub open spec fn all_run(found: Columns, steps: Seq<Step>) -> bool
    decreases steps.len(),
{
    if steps.len() == 0 {
        true
    } else {
        all_run(found, steps.drop_last()) && runs(
            after_all(found, steps.drop_last()),
            steps.last(),
        )
    }
}

/// The steps that are due for a store with the columns `found`: each
/// missing column is added, and then the index is made.
pub open spec fn migration(found: Columns) -> Seq<Step> {
    let first: Seq<Step> = if found.error_category {
        Seq::empty()
    } else {
        seq![Step::AddErrorCategory]
    };
    let second: Seq<Step> = if found.details {
        Seq::empty()
    } else {
        seq![Step::AddDetails]
    };
    first + second + seq![Step::IndexErrorCategory]
}

/// The steps that bring a store with the columns `found` up to date, in
/// the order in which they are run.
pub fn migrate_database(found: Columns) -> (steps: Vec<Step>)
    ensures
        steps@ == migration(found),
{
    let mut steps: Vec<Step> = Vec::new();
    if !found.error_category {
        steps.push(Step::AddErrorCategory);
    }
    let ghost first = steps@;
    if !found.details {
        steps.push(Step::AddDetails);
    }
    assert(steps@ =~= first + if found.details {
        Seq::<Step>::empty()
    } else {
        seq![Step::AddDetails]
    });
    steps.push(Step::IndexErrorCategory);
    assert(steps@ =~= migration(found));
    steps
}

/// Opening a store is safe to repeat. Whatever columns are found, every
/// step that is due runs without an error and leaves both columns in
/// place; and when the store is opened again, no column is added a second
/// time: all that is left is to make the index unless it is there.
pub proof fn lemma_migration_is_idempotent(found: Columns)
    ensures
        all_run(found, migration(found)),
        after_all(found, migration(found)) == (Columns { error_category: true, details: true }),
        migration(after_all(found, migration(found))) == seq![Step::IndexErrorCategory],
        all_run(
            after_all(found, migration(found)),
            migration(after_all(found, migration(found))),
        ),
        after_all(
            after_all(found, migration(found)),
            migration(after_all(found, migration(found))),
        ) == after_all(found, migration(found)),
{
    let done = Columns { error_category: true, details: true };
    let steps = migration(found);
    lemma_steps(found, steps);
    assert(migration(done) =~= seq![Step::IndexErrorCategory]);
    lemma_steps(done, migration(done));
}

/// What a list of up to three steps does.
proof fn lemma_steps(found: Columns, steps: Seq<Step>)
    requires
        steps.len() <= 3,
    ensures
        steps.len() == 1 ==> after_all(found, steps) == after(found, steps[0]) && all_run(
            found,
            steps,
        ) == runs(found, steps[0]),
        steps.len() == 2 ==> after_all(found, steps) == after(after(found, steps[0]), steps[1])
            && all_run(found, steps) == (runs(found, steps[0]) && runs(
            after(found, steps[0]),
            steps[1],
        )),
        steps.len() == 3 ==> after_all(found, steps) == after(
            after(after(found, steps[0]), steps[1]),
            steps[2],
        ) && all_run(found, steps) == (runs(found, steps[0]) && runs(
            after(found, steps[0]),
            steps[1],
        ) && runs(after(after(found, steps[0]), steps[1]), steps[2])),
    decreases steps.len(),
{
    if steps.len() > 0 {
        let front = steps.drop_last();
        lemma_steps(found, front);
        if front.len() == 0 {
            assert(after_all(found, front) == found);
            assert(all_run(found, front));
        }
        if front.len() > 0 {
            assert(front[0] == steps[0]);
        }
        if front.len() > 1 {
            assert(front[1] == steps[1]);
        }
        assert(steps.last() == steps[steps.len() - 1]);
    }
}

} // verus!
