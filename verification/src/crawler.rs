//! The market-data ingestion interface.
//!
//! Fetching lives outside the verified core; the simulation only consumes
//! the plain values an implementation hands back, so the trait methods
//! promise nothing about them.

use vstd::prelude::*;
use crate::date::Date;
use crate::schema::RawData;

verus! {

/// A fetch request: one symbol over an inclusive date range.
pub struct Args {
    pub stock_id: String,
    pub start_date: Date,
    pub end_date: Date,
}

/// Failures of a data source, reduced to the failing layer and its message.
#[derive(Clone, Debug)]
pub enum Error {
    Reqwest(String),
    Url(String),
    Io(String),
    Csv(String),
    BadRequest,
    RateLimitReached,
    Unknown,
}

/// The first field of each data row of a CSV document, headers skipped.
pub uninterp spec fn csv_first_fields(bytes: Seq<u8>) -> Seq<Seq<char>>;

/// Relies on csv::Reader: parses the buffer as headered CSV and keeps each
/// record's first field (empty when a record has none); the result depends
/// on the bytes alone.
#[verifier::external_body]
fn parse_csv_first_fields(buf: &Vec<u8>) -> (r: Result<Vec<String>, String>)
    ensures
        r matches Ok(v) ==> v@.map_values(|s: String| s@) == csv_first_fields(buf@),
{
    let mut out = Vec::new();
    for result in csv::Reader::from_reader(&buf[..]).records() {
        let record = result.map_err(|e| e.to_string())?;
        out.push(record.get(0).unwrap_or("").to_owned());
    }
    Ok(out)
}

/// Extracts the tradable symbols from a downloaded CSV listing: the first
/// field of each data row, exactly `csv_first_fields` of the bytes; a
/// malformed document is a `Csv` error.
pub fn parse_stock_list(buf: &Vec<u8>) -> (r: Result<Vec<String>, Error>)
    ensures
        r matches Ok(v) ==> v@.map_values(|s: String| s@) == csv_first_fields(buf@),
        r matches Err(e) ==> e matches Error::Csv(_),
{
    match parse_csv_first_fields(buf) {
        Ok(v) => Ok(v),
        Err(msg) => Err(Error::Csv(msg)),
    }
}

/// A source of daily records and of the tradable symbol universe.
pub trait Crawler {
    /// The tradable universe the source stands for; left unspecified
    /// unless an implementation states its own.  A successful
    /// `get_stock_list` reports exactly this list.
    open spec fn universe(&self) -> Seq<Seq<char>> {
        vstd::pervasive::arbitrary()
    }

    fn get_stock_data(&self, args: &Args) -> Result<Vec<RawData>, Error>;

    fn get_stock_list(&self) -> (r: Result<Vec<String>, Error>)
        ensures
            r matches Ok(v) ==> v@.map_values(|s: String| s@) == self.universe(),
    ;
}

} // verus!
