//! What the journal is told.
use vstd::prelude::*;

verus! {

/// One event of the journal.
#[derive(Debug)]
pub struct VfsJournalEvent<'a> {
    pub user_id: &'a str,
    pub action: &'a str,
    pub src: &'a str,
    pub dst: Option<&'a str>,
    pub success: bool,
    pub error: Option<String>,
}

} // verus!
