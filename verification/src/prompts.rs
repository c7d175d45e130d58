//! A prompt as it is first taken down: a title and a body under a fresh
//! identifier.

use crate::ident::{fresh_id, is_identifier};
use vstd::prelude::*;

verus! {

/// A prompt with its title and body under an identifier.
#[derive(Debug, Clone)]
pub struct PromptRecord {
    pub id: String,
    pub title: String,
    pub body: String,
}

impl PromptRecord {
    /// A record of the given title and body under a fresh identifier.
    pub fn new(title: &str, body: &str) -> (record: Self)
        ensures
            is_identifier(record.id@),
            record.title@ == title@,
            record.body@ == body@,
    {
        PromptRecord { id: fresh_id(), title: title.to_owned(), body: body.to_owned() }
    }
}

} // verus!
