//! What can be wrong with the persisted state.

use vstd::prelude::*;
use vstd::string::*;
use crate::decimal::{int_text, nat_text, push_i64, push_u64};

verus! {

/// The persisted state cannot be read. Loading is strict: one unreadable
/// record fails the whole load, and nothing is skipped.
#[derive(Clone, Copy, Debug, PartialEq, Eq, Structural)]
pub enum CorruptState {
    /// A line of the index snapshot lacks an identifier or a marker. `line`
    /// counts the non-empty lines before it.
    Snapshot { line: usize },
    /// The transcript log of a session has a field left over, or a role tag
    /// that is not read as a role.
    Transcript { chat_id: i64 },
}

impl CorruptState {
    /// The error in words.
    pub open spec fn describe(self) -> Seq<char> {
        match self {
            CorruptState::Snapshot { line } => "corrupt index snapshot at line "@ + nat_text(
                line as nat,
            ),
            CorruptState::Transcript { chat_id } => "corrupt transcript log of session "@
                + int_text(chat_id as int),
        }
    }

    /// The error in words.
    pub fn message(&self) -> (text: String)
        ensures
            text@ == self.describe(),
    {
        match self {
            CorruptState::Snapshot { line } => {
                let mut text = String::from_str("corrupt index snapshot at line ");
                push_u64(&mut text, *line as u64);
                text
            },
            CorruptState::Transcript { chat_id } => {
                let mut text = String::from_str("corrupt transcript log of session ");
                push_i64(&mut text, *chat_id);
                text
            },
        }
    }
}

} // verus!
