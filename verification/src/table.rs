//! The session table as contracts see it: what a session is, what each
//! operation of the store makes of the table, and how the table is written to
//! files and read back.

use vstd::prelude::*;
use crate::error::CorruptState;
use crate::files::{index_path, log_path, Effect};
use crate::snapshot::{read_snapshot, snapshot_text, Entry};
use crate::transcript::{read_transcript, transcript_text, Message};

verus! {

/// A transcript is cleared once its session has been idle for this many
/// seconds.
pub const ACTIVITY_WINDOW: u64 = 1800;

/// The state of one session as contracts see it.
pub enum Session {
    Unconfirmed,
    Confirmed { last_activity: u64, transcript: Seq<Message> },
}

/// The session table as contracts see it.
pub type Table = Map<i64, Session>;

/// What the index snapshot says of a session: zero while it is unconfirmed,
/// then the time of its last activity.
pub open spec fn marker(session: Session) -> u64 {
    match session {
        Session::Unconfirmed => 0,
        Session::Confirmed { last_activity, .. } => last_activity,
    }
}

/// The snapshot entries of the sessions of `table`, in the given order.
pub open spec fn entries_of(order: Seq<i64>, table: Table) -> Seq<Entry> {
    Seq::new(order.len(), |k: int| (order[k], marker(table[order[k]])))
}

/// Whether `text` is an index snapshot of `table`: one line for each session
/// and no other, in some order.
pub open spec fn is_snapshot_of(text: Seq<char>, table: Table) -> bool {
    exists|order: Seq<i64>|
        order.no_duplicates() && order.to_set() == table.dom() && text == snapshot_text(
            #[trigger] entries_of(order, table),
        )
}

/// The transcript log of a session; nothing where there is none.
pub open spec fn log_of(logs: Map<i64, Seq<char>>, chat_id: i64) -> Seq<char> {
    if logs.contains_key(chat_id) {
        logs[chat_id]
    } else {
        Seq::empty()
    }
}

/// The session that a snapshot entry and the transcript log of the session
/// stand for. `None` where the session is confirmed and its log is corrupt.
/// The log of an unconfirmed session is not looked at.
pub open spec fn session_of(entry: Entry, log: Seq<char>) -> Option<Session> {
    if entry.1 == 0 {
        Some(Session::Unconfirmed)
    } else {
        match read_transcript(log) {
            Some(transcript) => Some(Session::Confirmed { last_activity: entry.1, transcript }),
            None => None,
        }
    }
}

/// The table that snapshot entries and transcript logs stand for, or the
/// first session whose log is corrupt. A later entry for a session takes the
/// place of an earlier one; a session without a log has an empty transcript.
pub open spec fn restore(entries: Seq<Entry>, logs: Map<i64, Seq<char>>) -> Result<
    Table,
    CorruptState,
>
    decreases entries.len(),
{
    if entries.len() == 0 {
        Ok(Map::empty())
    } else {
        match restore(entries.drop_last(), logs) {
            Err(e) => Err(e),
            Ok(table) => {
                let entry = entries.last();
                match session_of(entry, log_of(logs, entry.0)) {
                    Some(session) => Ok(table.insert(entry.0, session)),
                    None => Err(CorruptState::Transcript { chat_id: entry.0 }),
                }
            },
        }
    }
}

/// The table that an index snapshot and transcript logs stand for.
pub open spec fn load(snapshot: Seq<char>, logs: Map<i64, Seq<char>>) -> Result<
    Table,
    CorruptState,
> {
    match read_snapshot(snapshot) {
        Err(e) => Err(e),
        Ok(entries) => restore(entries, logs),
    }
}

/// Where a list of entries fails, every longer list fails in the same way.
pub proof fn lemma_restore_fails(entries: Seq<Entry>, logs: Map<i64, Seq<char>>, k: int)
    requires
        0 <= k < entries.len(),
        restore(entries.take(k + 1), logs) is Err,
    ensures
        restore(entries, logs) == restore(entries.take(k + 1), logs),
    decreases entries.len(),
{
    if k + 1 == entries.len() {
        assert(entries.take(k + 1) == entries);
    } else {
        let front = entries.drop_last();
        assert(front.take(k + 1) == entries.take(k + 1));
        lemma_restore_fails(front, logs, k);
    }
}

/// Whether a session is approved.
pub open spec fn accepted(table: Table, chat_id: i64) -> bool {
    table.contains_key(chat_id) && table[chat_id] is Confirmed
}

/// Whether a session last active at `last_activity` is still within its
/// activity window at `now`. A clock that has stepped back counts as no time
/// gone by.
pub open spec fn within_window(last_activity: u64, now: u64) -> bool {
    now - last_activity < ACTIVITY_WINDOW
}

/// Whether a session is approved and has been idle for the whole activity
/// window.
pub open spec fn expired(table: Table, chat_id: i64, now: u64) -> bool {
    accepted(table, chat_id) && !within_window(table[chat_id]->last_activity, now)
}

/// The table after `register`.
pub open spec fn registered(table: Table, chat_id: i64) -> Table {
    table.insert(chat_id, Session::Unconfirmed)
}

/// The table after `confirm` at time `now`.
pub open spec fn confirmed(table: Table, chat_id: i64, now: u64) -> Table {
    table.insert(chat_id, Session::Confirmed { last_activity: now, transcript: Seq::empty() })
}

/// The table after `reset_chat` at time `now`: an approved session starts
/// over, any other is left as it is.
pub open spec fn restarted(table: Table, chat_id: i64, now: u64) -> Table {
    if accepted(table, chat_id) {
        confirmed(table, chat_id, now)
    } else {
        table
    }
}

/// The table after `delete`.
pub open spec fn deleted(table: Table, chat_id: i64) -> Table {
    table.remove(chat_id)
}

/// What `chat_prev` returns at time `now`: the transcript of an approved
/// session within its activity window, else nothing.
pub open spec fn rolling_context(table: Table, chat_id: i64, now: u64) -> Seq<Message> {
    if accepted(table, chat_id) && !expired(table, chat_id, now) {
        table[chat_id]->transcript
    } else {
        Seq::empty()
    }
}

/// The table after `chat_prev` at time `now`: an expired session is reset.
pub open spec fn refreshed(table: Table, chat_id: i64, now: u64) -> Table {
    if expired(table, chat_id, now) {
        confirmed(table, chat_id, now)
    } else {
        table
    }
}

/// The table after `add_to_chat` at time `now`: an approved session gains the
/// message, any other is left as it is.
pub open spec fn appended(table: Table, chat_id: i64, message: Message, now: u64) -> Table {
    if accepted(table, chat_id) {
        table.insert(
            chat_id,
            Session::Confirmed {
                last_activity: now,
                transcript: table[chat_id]->transcript.push(message),
            },
        )
    } else {
        table
    }
}

/// The record of a session, if the table holds one.
pub open spec fn record_of(table: Table, chat_id: i64) -> Option<Session> {
    if table.contains_key(chat_id) {
        Some(table[chat_id])
    } else {
        None
    }
}

/// The table after `put_back`.
pub open spec fn reverted(table: Table, chat_id: i64, previous: Option<Session>) -> Table {
    match previous {
        Some(session) => table.insert(chat_id, session),
        None => table.remove(chat_id),
    }
}

/// The file operations that write the transcript log of a session anew from
/// the table: the log is removed, and written again in one piece where the
/// session is approved and has a transcript.
pub open spec fn log_anew(table: Table, root: Seq<char>, chat_id: i64) -> Seq<Effect> {
    let path = log_path(root, chat_id);
    if accepted(table, chat_id) && table[chat_id]->transcript.len() > 0 {
        seq![
            Effect::Remove { path },
            Effect::Append { path, data: transcript_text(table[chat_id]->transcript) },
        ]
    } else {
        seq![Effect::Remove { path }]
    }
}

/// Whether `list` is the operations `first` and then a write of an index
/// snapshot of `table` under `root`.
pub open spec fn saves(
    list: Seq<Effect>,
    first: Seq<Effect>,
    root: Seq<char>,
    table: Table,
) -> bool {
    &&& list.len() > 0
    &&& list == first.push(list.last())
    &&& list.last() is Write
    &&& list.last()->Write_path == index_path(root)
    &&& is_snapshot_of(list.last()->Write_data, table)
}

} // verus!
