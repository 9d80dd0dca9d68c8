//! What holds of the session table whatever is done with it.

use vstd::prelude::*;
use crate::table::{
    accepted,
    appended,
    confirmed,
    deleted,
    expired,
    record_of,
    refreshed,
    registered,
    restarted,
    reverted,
    rolling_context,
    Table,
    ACTIVITY_WINDOW,
};
use crate::transcript::Message;

verus! {

/// A session that the table does not hold, or holds as unconfirmed, is not
/// accepted and has no rolling context; asking for its context changes
/// nothing.
pub proof fn lemma_unapproved_is_gated(table: Table, chat_id: i64, now: u64)
    requires
        !table.contains_key(chat_id) || table[chat_id] is Unconfirmed,
    ensures
        !accepted(table, chat_id),
        rolling_context(table, chat_id, now) == Seq::<Message>::empty(),
        refreshed(table, chat_id, now) == table,
{
}

/// Only `confirm` approves. A session that is not accepted stays so under
/// every other operation, `reset_chat` among them, and `reset_chat` leaves the
/// table as it is.
pub proof fn lemma_only_confirm_approves(table: Table, chat_id: i64, message: Message, now: u64)
    requires
        !accepted(table, chat_id),
    ensures
        restarted(table, chat_id, now) == table,
        !accepted(restarted(table, chat_id, now), chat_id),
        !accepted(registered(table, chat_id), chat_id),
        !accepted(deleted(table, chat_id), chat_id),
        !accepted(refreshed(table, chat_id, now), chat_id),
        !accepted(appended(table, chat_id, message, now), chat_id),
{
}

/// No operation on one session touches another: the other is in the table
/// as before, with the record that it had.
pub proof fn lemma_other_sessions_untouched(
    table: Table,
    chat_id: i64,
    other: i64,
    message: Message,
    now: u64,
)
    requires
        other != chat_id,
    ensures
        ({
            let after = registered(table, chat_id);
            after.contains_key(other) == table.contains_key(other) && after[other] == table[other]
        }),
        ({
            let after = confirmed(table, chat_id, now);
            after.contains_key(other) == table.contains_key(other) && after[other] == table[other]
        }),
        ({
            let after = restarted(table, chat_id, now);
            after.contains_key(other) == table.contains_key(other) && after[other] == table[other]
        }),
        ({
            let after = deleted(table, chat_id);
            after.contains_key(other) == table.contains_key(other) && after[other] == table[other]
        }),
        ({
            let after = refreshed(table, chat_id, now);
            after.contains_key(other) == table.contains_key(other) && after[other] == table[other]
        }),
        ({
            let after = appended(table, chat_id, message, now);
            after.contains_key(other) == table.contains_key(other) && after[other] == table[other]
        }),
{
}

/// Once a session has been idle for the whole activity window, its context
/// is empty and stays forgotten: the next message starts a transcript that
/// holds that message alone.
pub proof fn lemma_idle_session_starts_afresh(
    table: Table,
    chat_id: i64,
    at: u64,
    said: Message,
    now: u64,
    next: Message,
    later: u64,
)
    requires
        now >= at + ACTIVITY_WINDOW,
    ensures
        ({
            let talking = appended(confirmed(table, chat_id, at), chat_id, said, at);
            let idle = refreshed(talking, chat_id, now);
            let resumed = appended(idle, chat_id, next, later);
            &&& rolling_context(talking, chat_id, now) == Seq::<Message>::empty()
            &&& accepted(idle, chat_id)
            &&& idle[chat_id]->transcript == Seq::<Message>::empty()
            &&& resumed[chat_id]->transcript == seq![next]
        }),
{
    let talking = appended(confirmed(table, chat_id, at), chat_id, said, at);
    let idle = refreshed(talking, chat_id, now);
    let resumed = appended(idle, chat_id, next, later);
    assert(expired(talking, chat_id, now));
    assert(resumed[chat_id]->transcript =~= seq![next]);
}

/// Within the activity window the context is what was said since the last
/// reset, in the order in which it was said.
pub proof fn lemma_context_within_window(
    table: Table,
    chat_id: i64,
    at: u64,
    said: Message,
    now: u64,
)
    requires
        now < at + ACTIVITY_WINDOW,
    ensures
        ({
            let talking = appended(confirmed(table, chat_id, at), chat_id, said, at);
            &&& rolling_context(talking, chat_id, now) == seq![said]
            &&& refreshed(talking, chat_id, now) == talking
        }),
{
    let talking = appended(confirmed(table, chat_id, at), chat_id, said, at);
    assert(talking[chat_id]->transcript =~= seq![said]);
}

/// A deleted session is not accepted.
pub proof fn lemma_deleted_is_not_accepted(table: Table, chat_id: i64)
    ensures
        !accepted(deleted(table, chat_id), chat_id),
        !deleted(table, chat_id).contains_key(chat_id),
{
}

/// Confirming a session again clears what was said: the context is empty at
/// any time after.
pub proof fn lemma_reconfirmation_clears_history(
    table: Table,
    chat_id: i64,
    first: u64,
    said: Message,
    at: u64,
    second: u64,
    now: u64,
)
    ensures
        ({
            let talked = appended(confirmed(table, chat_id, first), chat_id, said, at);
            let again = confirmed(talked, chat_id, second);
            &&& accepted(again, chat_id)
            &&& rolling_context(again, chat_id, now) == Seq::<Message>::empty()
        }),
{
}

/// Registering a session, once or twice in a row, leaves it unconfirmed.
pub proof fn lemma_register_is_idempotent(table: Table, chat_id: i64)
    ensures
        registered(table, chat_id)[chat_id] is Unconfirmed,
        !accepted(registered(table, chat_id), chat_id),
        registered(registered(table, chat_id), chat_id) == registered(table, chat_id),
{
    assert(registered(registered(table, chat_id), chat_id) =~= registered(table, chat_id));
}

/// While the clock does not step back, a message never moves the last
/// activity of its session back.
pub proof fn lemma_activity_never_goes_back(table: Table, chat_id: i64, message: Message, now: u64)
    requires
        accepted(table, chat_id),
        table[chat_id]->last_activity <= now,
    ensures
        accepted(appended(table, chat_id, message, now), chat_id),
        appended(table, chat_id, message, now)[chat_id]->last_activity
            >= table[chat_id]->last_activity,
{
}

/// Putting back the record that a session had before an operation on it
/// undoes the operation: the table is what it was.
pub proof fn lemma_put_back_undoes(table: Table, chat_id: i64, message: Message, now: u64)
    ensures
        reverted(registered(table, chat_id), chat_id, record_of(table, chat_id)) == table,
        reverted(confirmed(table, chat_id, now), chat_id, record_of(table, chat_id)) == table,
        reverted(restarted(table, chat_id, now), chat_id, record_of(table, chat_id)) == table,
        reverted(deleted(table, chat_id), chat_id, record_of(table, chat_id)) == table,
        reverted(refreshed(table, chat_id, now), chat_id, record_of(table, chat_id)) == table,
        reverted(appended(table, chat_id, message, now), chat_id, record_of(table, chat_id))
            == table,
{
    let before = record_of(table, chat_id);
    assert(reverted(registered(table, chat_id), chat_id, before) =~= table);
    assert(reverted(confirmed(table, chat_id, now), chat_id, before) =~= table);
    assert(reverted(restarted(table, chat_id, now), chat_id, before) =~= table);
    assert(reverted(deleted(table, chat_id), chat_id, before) =~= table);
    assert(reverted(refreshed(table, chat_id, now), chat_id, before) =~= table);
    assert(reverted(appended(table, chat_id, message, now), chat_id, before) =~= table);
}

/// Neither a message nor a reset takes the approval of a session away, and
/// `reset_chat` leaves an approved session with an empty transcript.
pub proof fn lemma_approval_is_kept(table: Table, chat_id: i64, message: Message, now: u64)
    requires
        accepted(table, chat_id),
    ensures
        accepted(appended(table, chat_id, message, now), chat_id),
        accepted(refreshed(table, chat_id, now), chat_id),
        accepted(confirmed(table, chat_id, now), chat_id),
        accepted(restarted(table, chat_id, now), chat_id),
        restarted(table, chat_id, now)[chat_id]->transcript == Seq::<Message>::empty(),
{
}

} // verus!
