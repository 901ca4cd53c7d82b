//! Study sessions and their modes.
use vstd::prelude::*;

verus! {

/// The ways of studying.
#[derive(Debug, Clone, Copy, PartialEq, Eq, Structural)]
pub enum SessionMode {
    ParadigmView,
    Flashcard,
    FlashcardReverse,
    FillIn,
    BuildParadigm,
    Spaced,
}

/// A finished or running study session.
#[derive(Debug, Clone)]
pub struct Session {
    pub id: u64,
    pub mode: SessionMode,
    pub started_at: i64,
    pub finished_at: Option<i64>,
    pub total_shown: u32,
    pub correct: u32,
    pub incorrect: u32,
    /// JSON snapshot of the filter the session ran with.
    pub filter_json: String,
}

} // verus!
