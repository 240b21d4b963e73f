//! Rows of the quiz database as the query functions return them.
use vstd::prelude::*;

verus! {

/// A generated question as stored in the `quiz` table.
#[derive(Debug, Clone)]
pub struct DatabaseQuestion {
    pub id: i32,
    pub prompt: String,
    pub response: String,
    pub filename: String,
    pub question_type: String,
    pub difficulty: Option<String>,
}

} // verus!
