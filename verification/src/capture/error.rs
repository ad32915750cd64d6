//! Why a log cannot be made into a workload.

use crate::capture::table::{record_debug, record_text};
use crate::profile::{ProfileView, WorkloadProfile};
use crate::text::{copy_string, views};
use vstd::prelude::*;

verus! {

/// Why a capture failed.
#[derive(Debug)]
pub enum CaptureError {
    /// The first row of a table cannot be read.
    NoHeader,
    /// A row of a table cannot be read.
    BadRow,
    /// A record of a log cannot be read.
    BadRecord,
    /// A table lacks a column; its header names these.
    MissingColumn { column: String, headers: Vec<String> },
    /// An event file is not well formed.
    BadXml,
    /// An event file holds an attribute that cannot be read, for this reason.
    BadAttribute(String),
    /// An event file holds text that cannot be read.
    BadText,
    /// An event file holds text with an unknown entity.
    BadEntity,
    /// The captured times do not fit into 64 bits.
    TooLong,
}

/// The model of a capture error.
pub enum ErrorView {
    NoHeader,
    BadRow,
    BadRecord,
    MissingColumn(Seq<char>, Seq<Seq<char>>),
    BadXml,
    BadAttribute(Seq<char>),
    BadText,
    BadEntity,
    TooLong,
}

impl View for CaptureError {
    type V = ErrorView;

    open spec fn view(&self) -> ErrorView {
        match *self {
            CaptureError::NoHeader => ErrorView::NoHeader,
            CaptureError::BadRow => ErrorView::BadRow,
            CaptureError::BadRecord => ErrorView::BadRecord,
            CaptureError::MissingColumn { column, headers } => ErrorView::MissingColumn(
                column@,
                views(headers@),
            ),
            CaptureError::BadXml => ErrorView::BadXml,
            CaptureError::BadAttribute(reason) => ErrorView::BadAttribute(reason@),
            CaptureError::BadText => ErrorView::BadText,
            CaptureError::BadEntity => ErrorView::BadEntity,
            CaptureError::TooLong => ErrorView::TooLong,
        }
    }
}

/// The model of what a capture returns.
pub open spec fn outcome(r: Result<WorkloadProfile, CaptureError>) -> Result<ProfileView, ErrorView> {
    match r {
        Ok(p) => Ok(p@),
        Err(e) => Err(e@),
    }
}

/// The words for a capture error.
pub open spec fn error_text(e: ErrorView) -> Seq<char> {
    match e {
        ErrorView::NoHeader => "CSV has no header row"@,
        ErrorView::BadRow => "malformed CSV row"@,
        ErrorView::BadRecord => "Failed to read CSV record"@,
        ErrorView::MissingColumn(column, headers) => "CSV needs a `"@ + column + "` column (got: "@ + record_debug(
            headers,
        ) + ")"@,
        ErrorView::BadXml => "malformed XML"@,
        ErrorView::BadAttribute(reason) => reason,
        ErrorView::BadText => "malformed XML text"@,
        ErrorView::BadEntity => "malformed XML entity"@,
        ErrorView::TooLong => "captured times do not fit into 64 bits"@,
    }
}

impl CaptureError {
    /// The error in words.
    pub fn message(&self) -> (r: String)
        ensures
            r@ == error_text(self@),
    {
        match self {
            CaptureError::NoHeader => copy_string("CSV has no header row"),
            CaptureError::BadRow => copy_string("malformed CSV row"),
            CaptureError::BadRecord => copy_string("Failed to read CSV record"),
            CaptureError::MissingColumn { column, headers } => {
                let mut out = copy_string("CSV needs a `");
                out.push_str(column.as_str());
                out.push_str("` column (got: ");
                out.push_str(record_text(headers).as_str());
                out.push_str(")");
                out
            },
            CaptureError::BadXml => copy_string("malformed XML"),
            CaptureError::BadAttribute(reason) => copy_string(reason.as_str()),
            CaptureError::BadText => copy_string("malformed XML text"),
            CaptureError::BadEntity => copy_string("malformed XML entity"),
            CaptureError::TooLong => copy_string("captured times do not fit into 64 bits"),
        }
    }
}

} // verus!
