//! Publication records.
use vstd::prelude::*;

verus! {

/// One publication, as a bibliography entry lists it.
#[derive(Clone, Debug)]
pub struct Publication {
    pub title: String,
    pub authors: Vec<String>,
    pub journal: Option<String>,
    pub volume: Option<String>,
    pub pages: Option<String>,
    pub year: u32,
    pub website: Option<String>,
    pub pdf: Option<String>,
    pub publisher: Option<String>,
}

/// One row of the publication spreadsheet, each field as written.
#[derive(Clone, Debug)]
pub struct PubRow {
    pub year: String,
    pub title: String,
    pub authors: String,
    pub journal: String,
    pub website: String,
    pub note: String,
}

/// The publications built into the site; the list is kept elsewhere, so
/// none are built in.
pub fn get_publications() -> (r: Vec<Publication>)
    ensures
        r@.len() == 0,
{
    Vec::new()
}

} // verus!
