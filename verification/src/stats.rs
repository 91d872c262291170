//! The report on what the store holds: how many tokens are registered and how
//! many values are kept, counted by walking each partition.

use vstd::prelude::*;
use crate::model::lemma_listing_counts;
use crate::store::Db;
use crate::text::{decimal, decimal_string, texts};

verus! {

/// The report for the given counts:
/// `serving N access token, M k-v pairs`, with both numbers in decimal.
pub open spec fn stats_text(tokens: nat, values: nat) -> Seq<char> {
    "serving "@ + decimal(tokens) + " access token, "@ + decimal(values) + " k-v pairs"@
}

/// The count that a scan of a partition stands for: the number of keys it
/// returned, or zero where it failed.
pub open spec fn scan_count(scan: Option<Vec<String>>) -> nat {
    match scan {
        Some(keys) => keys@.len(),
        None => 0,
    }
}

/// Writes the report for the given counts.
pub fn stats_line(tokens: usize, values: usize) -> (line: String)
    ensures
        line@ == stats_text(tokens as nat, values as nat),
{
    let mut line: String = "serving ".to_owned();
    line.append(decimal_string(tokens).as_str());
    line.append(" access token, ");
    line.append(decimal_string(values).as_str());
    line.append(" k-v pairs");
    line
}

/// The report, given what the scans of the two partitions returned. A scan
/// that failed counts as zero: a partial report is preferred to none.
pub fn stats_reply(token_scan: Option<Vec<String>>, value_scan: Option<Vec<String>>) -> (line:
    String)
    ensures
        line@ == stats_text(scan_count(token_scan), scan_count(value_scan)),
{
    let tokens = match token_scan {
        Some(keys) => keys.len(),
        None => 0,
    };
    let values = match value_scan {
        Some(keys) => keys.len(),
        None => 0,
    };
    stats_line(tokens, values)
}

/// The report on the store: the number of entries of the token partition and
/// of the value partition, each replaced by zero where its partition could not
/// be walked.
pub fn stats(db: &Db) -> (line: String)
    ensures
        line@ == stats_text(db@.token_count(), db@.value_count()) || line@ == stats_text(
            0,
            db@.value_count(),
        ) || line@ == stats_text(db@.token_count(), 0) || line@ == stats_text(0, 0),
{
    let token_scan = db.token_entry_keys();
    let value_scan = db.value_entry_keys();
    proof {
        if token_scan is Some {
            lemma_listing_counts(db@.tokens.dom(), texts(token_scan->0@));
        }
        if value_scan is Some {
            lemma_listing_counts(db@.values.dom(), texts(value_scan->0@));
        }
    }
    stats_reply(token_scan, value_scan)
}

} // verus!
