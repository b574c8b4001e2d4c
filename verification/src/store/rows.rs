//! The rows of the store and what they stand for.

use vstd::prelude::*;
use crate::text::{copy_opt, opt_view};

verus! {

/// The recorded result of one attempt against a candidate.
#[derive(Debug)]
pub struct ProcessedURL {
    pub id: i32,
    pub url: String,
    pub source: String,
    pub status: String,
    pub fields_filled: Option<String>,
    pub error_message: Option<String>,
    pub error_category: Option<String>,
    pub details: Option<String>,
    pub screenshot_path: Option<String>,
    pub confirmation_data: Option<String>,
    pub network_data: Option<String>,
    pub processed_at: String,
}

/// What a `ProcessedURL` stands for.
pub struct ProcessedUrlView {
    pub id: int,
    pub url: Seq<char>,
    pub source: Seq<char>,
    pub status: Seq<char>,
    pub fields_filled: Option<Seq<char>>,
    pub error_message: Option<Seq<char>>,
    pub error_category: Option<Seq<char>>,
    pub details: Option<Seq<char>>,
    pub screenshot_path: Option<Seq<char>>,
    pub confirmation_data: Option<Seq<char>>,
    pub network_data: Option<Seq<char>>,
    pub processed_at: Seq<char>,
}

impl View for ProcessedURL {
    type V = ProcessedUrlView;

    open spec fn view(&self) -> ProcessedUrlView {
        ProcessedUrlView {
            id: self.id as int,
            url: self.url@,
            source: self.source@,
            status: self.status@,
            fields_filled: opt_view(self.fields_filled),
            error_message: opt_view(self.error_message),
            error_category: opt_view(self.error_category),
            details: opt_view(self.details),
            screenshot_path: opt_view(self.screenshot_path),
            confirmation_data: opt_view(self.confirmation_data),
            network_data: opt_view(self.network_data),
            processed_at: self.processed_at@,
        }
    }
}

impl ProcessedURL {
    /// A copy of the row.
    pub fn copy(&self) -> (c: ProcessedURL)
        ensures
            c@ == self@,
    {
        ProcessedURL {
            id: self.id,
            url: self.url.clone(),
            source: self.source.clone(),
            status: self.status.clone(),
            fields_filled: copy_opt(&self.fields_filled),
            error_message: copy_opt(&self.error_message),
            error_category: copy_opt(&self.error_category),
            details: copy_opt(&self.details),
            screenshot_path: copy_opt(&self.screenshot_path),
            confirmation_data: copy_opt(&self.confirmation_data),
            network_data: copy_opt(&self.network_data),
            processed_at: self.processed_at.clone(),
        }
    }
}

/// The views of a list of outcome rows.
pub open spec fn processed_views(rows: Seq<ProcessedURL>) -> Seq<ProcessedUrlView> {
    rows.map_values(|r: ProcessedURL| r@)
}

/// A discovered URL that awaits an attempt.
#[derive(Debug)]
pub struct ScrapedURL {
    pub id: i32,
    pub url: String,
    pub ad_id: Option<String>,
    pub advertiser: Option<String>,
    pub scraped_at: String,
    pub processed: bool,
}

/// What a `ScrapedURL` stands for.
pub struct ScrapedUrlView {
    pub id: int,
    pub url: Seq<char>,
    pub ad_id: Option<Seq<char>>,
    pub advertiser: Option<Seq<char>>,
    pub scraped_at: Seq<char>,
    pub processed: bool,
}

impl View for ScrapedURL {
    type V = ScrapedUrlView;

    open spec fn view(&self) -> ScrapedUrlView {
        ScrapedUrlView {
            id: self.id as int,
            url: self.url@,
            ad_id: opt_view(self.ad_id),
            advertiser: opt_view(self.advertiser),
            scraped_at: self.scraped_at@,
            processed: self.processed,
        }
    }
}

impl ScrapedURL {
    /// A copy of the row.
    pub fn copy(&self) -> (c: ScrapedURL)
        ensures
            c@ == self@,
    {
        ScrapedURL {
            id: self.id,
            url: self.url.clone(),
            ad_id: copy_opt(&self.ad_id),
            advertiser: copy_opt(&self.advertiser),
            scraped_at: self.scraped_at.clone(),
            processed: self.processed,
        }
    }
}

/// The views of a list of candidate rows.
pub open spec fn scraped_views(rows: Seq<ScrapedURL>) -> Seq<ScrapedUrlView> {
    rows.map_values(|r: ScrapedURL| r@)
}

/// The outcome ledger in numbers.
#[derive(Clone, Copy, Debug, PartialEq, Eq, Structural)]
pub struct ProcessedStats {
    pub total: i32,
    pub successful: i32,
    pub failed: i32,
    pub skipped: i32,
}

/// The candidate queue in numbers.
#[derive(Clone, Copy, Debug, PartialEq, Eq, Structural)]
pub struct ScrapedStats {
    pub total: i32,
    pub processed: i32,
    pub pending: i32,
}

/// Why the store refused an operation.
#[derive(Clone, Copy, Debug, PartialEq, Eq, Structural)]
pub enum StoreError {
    /// A row with this url exists already.
    DuplicateUrl,
    /// The table has run out of row ids.
    Full,
    /// A sum does not fit the column that holds it.
    Overflow,
}

} // verus!
