//! Why the table survives a restart: the file operations that the store hands
//! back keep the files in step with the table, and the table is loaded back
//! from files that are in step with it.

use vstd::prelude::*;
use crate::error::CorruptState;
use crate::files::{
    content,
    index_path,
    lemma_paths_differ,
    lemma_perform_one_more,
    log_path,
    perform_all,
    Disk,
    Effect,
};
use crate::table::{
    accepted,
    appended,
    confirmed,
    deleted,
    entries_of,
    expired,
    is_snapshot_of,
    load,
    log_anew,
    log_of,
    marker,
    refreshed,
    registered,
    restarted,
    restore,
    rolling_context,
    saves,
    session_of,
    Session,
    Table,
    ACTIVITY_WINDOW,
};
use crate::role::tags_read_back;
use crate::snapshot::{lemma_snapshot_reads_back, read_snapshot, snapshot_text};
use crate::transcript::{
    is_legible,
    lemma_transcript_push,
    lemma_transcript_reads_back,
    record_text,
    transcript_text,
    Message,
};

verus! {

/// The transcript logs that lie under a root directory, by session.
pub open spec fn logs_on(disk: Disk, root: Seq<char>) -> Map<i64, Seq<char>> {
    Map::new(
        |id: i64| disk.contains_key(log_path(root, id)),
        |id: i64| disk[log_path(root, id)],
    )
}

/// Whether the file at `path` is the transcript log of a transcript: it holds
/// the records of its messages, and it exists only while there is a message.
pub open spec fn is_log_of(disk: Disk, path: Seq<char>, transcript: Seq<Message>) -> bool {
    &&& content(disk, path) == transcript_text(transcript)
    &&& disk.contains_key(path) <==> transcript.len() > 0
}

/// Whether the files under `root` are in step with the table: the index
/// snapshot lists its sessions and their markers, and each approved session
/// has its transcript in its transcript log. A missing snapshot counts as an
/// empty one. Of the log of a session that is not approved nothing is asked:
/// it may be left over from an earlier approval.
pub open spec fn in_step(table: Table, root: Seq<char>, disk: Disk) -> bool {
    &&& is_snapshot_of(content(disk, index_path(root)), table)
    &&& forall|id: i64|
        accepted(table, id) ==> is_log_of(
            disk,
            #[trigger] log_path(root, id),
            table[id]->transcript,
        )
}

/// Whether a table can be read back from its files: no approved session has
/// the marker of an unconfirmed one, and every message is legible.
pub open spec fn readable(table: Table) -> bool {
    forall|id: i64| #[trigger]
        accepted(table, id) ==> table[id]->last_activity != 0 && forall|k: int|
            0 <= k < table[id]->transcript.len() ==> is_legible(
                #[trigger] table[id]->transcript[k],
            )
}

/// An index snapshot of a table says of the table all there is to say in
/// it: read back, it names each session once and no other, each with its
/// marker.
pub proof fn lemma_snapshot_reflects_table(text: Seq<char>, table: Table)
    requires
        is_snapshot_of(text, table),
    ensures
        read_snapshot(text) is Ok,
        ({
            let entries = read_snapshot(text)->Ok_0;
            &&& forall|k: int|
                0 <= k < entries.len() ==> table.contains_key((#[trigger] entries[k]).0)
                    && entries[k].1 == marker(table[entries[k].0])
            &&& forall|i: int, j: int|
                0 <= i < j < entries.len() ==> (#[trigger] entries[i]).0 != (
                #[trigger] entries[j]).0
            &&& forall|id: i64|
                table.contains_key(id) ==> exists|k: int|
                    0 <= k < entries.len() && (#[trigger] entries[k]).0 == id
        }),
{
    let order = choose|order: Seq<i64>|
        order.no_duplicates() && order.to_set() == table.dom() && text == snapshot_text(
            #[trigger] entries_of(order, table),
        );
    let entries = entries_of(order, table);
    lemma_snapshot_reads_back(entries);
    assert forall|k: int| 0 <= k < entries.len() implies table.contains_key(
        (#[trigger] entries[k]).0,
    ) && entries[k].1 == marker(table[entries[k].0]) by {
        assert(order.to_set().contains(order[k]));
    }
    assert(read_snapshot(text)->Ok_0 == entries);
    assert forall|i: int, j: int| 0 <= i < j < entries.len() implies (#[trigger] entries[i]).0 != (
    #[trigger] entries[j]).0 by {
        assert(order[i] != order[j]);
    }
    assert forall|id: i64| table.contains_key(id) implies exists|k: int|
        0 <= k < entries.len() && (#[trigger] entries[k]).0 == id by {
        assert(order.to_set().contains(id));
        let k = choose|k: int| 0 <= k < order.len() && order[k] == id;
        assert(entries[k].0 == id);
    }
}

/// Before anything is written, the files are in step with the empty table.
pub proof fn lemma_nothing_is_in_step(root: Seq<char>)
    ensures
        in_step(Map::empty(), root, Map::empty()),
{
    let order = Seq::<i64>::empty();
    let table: Table = Map::empty();
    assert(order.to_set() =~= table.dom());
    assert(snapshot_text(entries_of(order, table)) == Seq::<char>::empty());
}

/// The files after operations that end with the write of a snapshot.
pub proof fn lemma_saved(
    disk: Disk,
    list: Seq<Effect>,
    first: Seq<Effect>,
    root: Seq<char>,
    table: Table,
)
    requires
        saves(list, first, root, table),
    ensures
        perform_all(disk, list) == perform_all(disk, first).insert(
            index_path(root),
            list.last()->Write_data,
        ),
        is_snapshot_of(content(perform_all(disk, list), index_path(root)), table),
{
    lemma_perform_one_more(disk, first, list.last());
}

/// After `register` the files are in step with the table again.
pub proof fn lemma_register_keeps_in_step(
    table: Table,
    root: Seq<char>,
    disk: Disk,
    chat_id: i64,
    list: Seq<Effect>,
)
    requires
        in_step(table, root, disk),
        saves(list, Seq::empty(), root, registered(table, chat_id)),
    ensures
        in_step(registered(table, chat_id), root, perform_all(disk, list)),
{
    let after = registered(table, chat_id);
    let files = perform_all(disk, list);
    lemma_saved(disk, list, Seq::empty(), root, after);
    assert forall|id: i64| accepted(after, id) implies is_log_of(
        files,
        #[trigger] log_path(root, id),
        after[id]->transcript,
    ) by {
        lemma_paths_differ(root, id, chat_id);
        assert(accepted(table, id));
    }
}

/// The files after the log of a session is removed and a snapshot is written.
proof fn lemma_reset_files(
    disk: Disk,
    root: Seq<char>,
    chat_id: i64,
    list: Seq<Effect>,
    table: Table,
)
    requires
        saves(list, seq![Effect::Remove { path: log_path(root, chat_id) }], root, table),
    ensures
        perform_all(disk, list) == disk.remove(log_path(root, chat_id)).insert(
            index_path(root),
            list.last()->Write_data,
        ),
{
    let first = seq![Effect::Remove { path: log_path(root, chat_id) }];
    lemma_saved(disk, list, first, root, table);
    assert(first.drop_last() == Seq::<Effect>::empty());
    assert(perform_all(disk, first.drop_last()) == disk);
}

/// After `confirm` the files are in step with the table again.
pub proof fn lemma_confirm_keeps_in_step(
    table: Table,
    root: Seq<char>,
    disk: Disk,
    chat_id: i64,
    now: u64,
    list: Seq<Effect>,
)
    requires
        in_step(table, root, disk),
        saves(
            list,
            seq![Effect::Remove { path: log_path(root, chat_id) }],
            root,
            confirmed(table, chat_id, now),
        ),
    ensures
        in_step(confirmed(table, chat_id, now), root, perform_all(disk, list)),
{
    let after = confirmed(table, chat_id, now);
    let files = perform_all(disk, list);
    lemma_reset_files(disk, root, chat_id, list, after);
    lemma_saved(disk, list, seq![Effect::Remove { path: log_path(root, chat_id) }], root, after);
    assert forall|id: i64| accepted(after, id) implies is_log_of(
        files,
        #[trigger] log_path(root, id),
        after[id]->transcript,
    ) by {
        lemma_paths_differ(root, id, chat_id);
        if id == chat_id {
            assert(transcript_text(Seq::<Message>::empty()) == Seq::<char>::empty());
        } else {
            assert(accepted(table, id));
        }
    }
}

/// After `reset_chat` the files are in step with the table again.
pub proof fn lemma_reset_keeps_in_step(
    table: Table,
    root: Seq<char>,
    disk: Disk,
    chat_id: i64,
    now: u64,
    list: Seq<Effect>,
)
    requires
        in_step(table, root, disk),
        accepted(table, chat_id) ==> saves(
            list,
            seq![Effect::Remove { path: log_path(root, chat_id) }],
            root,
            restarted(table, chat_id, now),
        ),
        !accepted(table, chat_id) ==> list.len() == 0,
    ensures
        in_step(restarted(table, chat_id, now), root, perform_all(disk, list)),
{
    if accepted(table, chat_id) {
        lemma_confirm_keeps_in_step(table, root, disk, chat_id, now, list);
    }
}

/// After `delete` the files are in step with the table again, and the
/// transcript log of the session is gone.
pub proof fn lemma_delete_keeps_in_step(
    table: Table,
    root: Seq<char>,
    disk: Disk,
    chat_id: i64,
    list: Seq<Effect>,
)
    requires
        in_step(table, root, disk),
        saves(
            list,
            seq![Effect::Remove { path: log_path(root, chat_id) }],
            root,
            deleted(table, chat_id),
        ),
    ensures
        in_step(deleted(table, chat_id), root, perform_all(disk, list)),
        !perform_all(disk, list).contains_key(log_path(root, chat_id)),
{
    let after = deleted(table, chat_id);
    let files = perform_all(disk, list);
    lemma_reset_files(disk, root, chat_id, list, after);
    lemma_saved(disk, list, seq![Effect::Remove { path: log_path(root, chat_id) }], root, after);
    lemma_paths_differ(root, chat_id, chat_id);
    assert forall|id: i64| accepted(after, id) implies is_log_of(
        files,
        #[trigger] log_path(root, id),
        after[id]->transcript,
    ) by {
        lemma_paths_differ(root, id, chat_id);
        assert(accepted(table, id));
    }
}

/// After `delete`, whatever the files were, no transcript log of the session
/// is left.
pub proof fn lemma_delete_removes_log(
    table: Table,
    root: Seq<char>,
    disk: Disk,
    chat_id: i64,
    list: Seq<Effect>,
)
    requires
        saves(list, seq![Effect::Remove { path: log_path(root, chat_id) }], root, table),
    ensures
        !perform_all(disk, list).contains_key(log_path(root, chat_id)),
{
    lemma_reset_files(disk, root, chat_id, list, table);
    lemma_paths_differ(root, chat_id, chat_id);
}

/// After `add_to_chat` the files are in step with the table again.
pub proof fn lemma_append_keeps_in_step(
    table: Table,
    root: Seq<char>,
    disk: Disk,
    chat_id: i64,
    message: Message,
    now: u64,
    list: Seq<Effect>,
)
    requires
        in_step(table, root, disk),
        accepted(table, chat_id) ==> saves(
            list,
            seq![Effect::Append { path: log_path(root, chat_id), data: record_text(message) }],
            root,
            appended(table, chat_id, message, now),
        ),
        !accepted(table, chat_id) ==> list.len() == 0,
    ensures
        in_step(appended(table, chat_id, message, now), root, perform_all(disk, list)),
{
    let after = appended(table, chat_id, message, now);
    let files = perform_all(disk, list);
    if accepted(table, chat_id) {
        let first = seq![
            Effect::Append { path: log_path(root, chat_id), data: record_text(message) },
        ];
        lemma_saved(disk, list, first, root, after);
        assert(first.drop_last() == Seq::<Effect>::empty());
        assert(perform_all(disk, first.drop_last()) == disk);
        assert forall|id: i64| accepted(after, id) implies is_log_of(
            files,
            #[trigger] log_path(root, id),
            after[id]->transcript,
        ) by {
            lemma_paths_differ(root, id, chat_id);
            assert(accepted(table, id));
            if id == chat_id {
                lemma_transcript_push(table[id]->transcript, message);
            }
        }
    }
}

/// After `chat_prev` the files are in step with the table again.
pub proof fn lemma_read_keeps_in_step(
    table: Table,
    root: Seq<char>,
    disk: Disk,
    chat_id: i64,
    now: u64,
    list: Seq<Effect>,
)
    requires
        in_step(table, root, disk),
        expired(table, chat_id, now) ==> saves(
            list,
            seq![Effect::Remove { path: log_path(root, chat_id) }],
            root,
            refreshed(table, chat_id, now),
        ),
        !expired(table, chat_id, now) ==> list.len() == 0,
    ensures
        in_step(refreshed(table, chat_id, now), root, perform_all(disk, list)),
{
    if expired(table, chat_id, now) {
        lemma_confirm_keeps_in_step(table, root, disk, chat_id, now, list);
    }
}

/// After the file operations of `repair` the files are in step with the
/// table, whatever the transcript log of the session and the index snapshot
/// held before; the logs of the other sessions must have been in step.
pub proof fn lemma_repair_brings_in_step(
    table: Table,
    root: Seq<char>,
    disk: Disk,
    chat_id: i64,
    list: Seq<Effect>,
)
    requires
        forall|id: i64|
            id != chat_id && accepted(table, id) ==> is_log_of(
                disk,
                #[trigger] log_path(root, id),
                table[id]->transcript,
            ),
        saves(list, log_anew(table, root, chat_id), root, table),
    ensures
        in_step(table, root, perform_all(disk, list)),
{
    let first = log_anew(table, root, chat_id);
    let path = log_path(root, chat_id);
    let files = perform_all(disk, list);
    lemma_saved(disk, list, first, root, table);
    let removed = seq![Effect::Remove { path }];
    assert(removed.drop_last() == Seq::<Effect>::empty());
    assert(perform_all(disk, removed.drop_last()) == disk);
    assert(perform_all(disk, removed) == disk.remove(path));
    if first.len() == 2 {
        assert(first.drop_last() == removed);
    }
    assert forall|id: i64| accepted(table, id) implies is_log_of(
        files,
        #[trigger] log_path(root, id),
        table[id]->transcript,
    ) by {
        lemma_paths_differ(root, id, chat_id);
        if id == chat_id && table[id]->transcript.len() == 0 {
            assert(transcript_text(Seq::<Message>::empty()) == Seq::<char>::empty());
            assert(table[id]->transcript =~= Seq::<Message>::empty());
        }
    }
}

/// A readable table stays readable, as long as no session is confirmed at
/// time zero and no message is added that is not legible.
pub proof fn lemma_readable_is_kept(table: Table, chat_id: i64, message: Message, now: u64)
    requires
        readable(table),
    ensures
        readable(registered(table, chat_id)),
        readable(deleted(table, chat_id)),
        now != 0 ==> readable(confirmed(table, chat_id, now)),
        now != 0 ==> readable(refreshed(table, chat_id, now)),
        now != 0 ==> readable(restarted(table, chat_id, now)),
        now != 0 && is_legible(message) ==> readable(appended(table, chat_id, message, now)),
{
    assert forall|id: i64| #[trigger]
        accepted(registered(table, chat_id), id) implies accepted(table, id) by {}
    assert forall|id: i64| #[trigger]
        accepted(deleted(table, chat_id), id) implies accepted(table, id) by {}
    if now != 0 {
        let after = confirmed(table, chat_id, now);
        assert forall|id: i64| #[trigger] accepted(after, id) implies after[id]->last_activity != 0
            && forall|k: int|
            0 <= k < after[id]->transcript.len() ==> is_legible(
                #[trigger] after[id]->transcript[k],
            ) by {
            if id != chat_id {
                assert(accepted(table, id));
            }
        }
        if is_legible(message) {
            let after = appended(table, chat_id, message, now);
            assert forall|id: i64| #[trigger]
                accepted(after, id) implies after[id]->last_activity != 0 && forall|k: int|
                0 <= k < after[id]->transcript.len() ==> is_legible(
                    #[trigger] after[id]->transcript[k],
                ) by {
                assert(accepted(table, id));
            }
        }
    }
}

/// What is said to a freshly confirmed session survives a restart: after
/// `register`, `confirm` and `add_to_chat`, each with its file operations
/// carried out, loading from the files gives the table back, and the context
/// of the session within its activity window is the message. This is so for
/// a legible message and a confirmation at another time than zero, given that
/// the role tags are read back.
pub proof fn lemma_message_survives_restart(
    table: Table,
    root: Seq<char>,
    disk: Disk,
    chat_id: i64,
    at: u64,
    message: Message,
    now: u64,
    first: Seq<Effect>,
    second: Seq<Effect>,
    third: Seq<Effect>,
)
    requires
        in_step(table, root, disk),
        readable(table),
        tags_read_back(),
        at != 0,
        is_legible(message),
        now < at + ACTIVITY_WINDOW,
        saves(first, Seq::empty(), root, registered(table, chat_id)),
        saves(
            second,
            seq![Effect::Remove { path: log_path(root, chat_id) }],
            root,
            confirmed(registered(table, chat_id), chat_id, at),
        ),
        saves(
            third,
            seq![Effect::Append { path: log_path(root, chat_id), data: record_text(message) }],
            root,
            appended(confirmed(registered(table, chat_id), chat_id, at), chat_id, message, at),
        ),
    ensures
        ({
            let files = perform_all(perform_all(perform_all(disk, first), second), third);
            let loaded = load(content(files, index_path(root)), logs_on(files, root));
            &&& loaded is Ok
            &&& loaded->Ok_0 == appended(
                confirmed(registered(table, chat_id), chat_id, at),
                chat_id,
                message,
                at,
            )
            &&& rolling_context(loaded->Ok_0, chat_id, now) == seq![message]
        }),
{
    let one = registered(table, chat_id);
    let two = confirmed(one, chat_id, at);
    let three = appended(two, chat_id, message, at);
    lemma_register_keeps_in_step(table, root, disk, chat_id, first);
    lemma_readable_is_kept(table, chat_id, message, at);
    let files_one = perform_all(disk, first);
    lemma_confirm_keeps_in_step(one, root, files_one, chat_id, at, second);
    lemma_readable_is_kept(one, chat_id, message, at);
    let files_two = perform_all(files_one, second);
    lemma_append_keeps_in_step(two, root, files_two, chat_id, message, at, third);
    lemma_readable_is_kept(two, chat_id, message, at);
    let files_three = perform_all(files_two, third);
    lemma_load_gives_table_back(three, root, files_three);
    assert(three[chat_id]->transcript =~= seq![message]);
}

/// Entries written from a table are restored as the part of the table that
/// they list.
proof fn lemma_restore_entries(order: Seq<i64>, table: Table, logs: Map<i64, Seq<char>>)
    requires
        forall|k: int|
            0 <= k < order.len() ==> table.contains_key(#[trigger] order[k]) && session_of(
                (order[k], marker(table[order[k]])),
                log_of(logs, order[k]),
            ) == Some(table[order[k]]),
    ensures
        restore(entries_of(order, table), logs) == Ok::<Table, CorruptState>(
            table.restrict(order.to_set()),
        ),
    decreases order.len(),
{
    let entries = entries_of(order, table);
    if order.len() == 0 {
        assert(table.restrict(order.to_set()) =~= Map::<i64, Session>::empty());
    } else {
        let front = order.drop_last();
        lemma_restore_entries(front, table, logs);
        assert(entries.drop_last() =~= entries_of(front, table));
        let id = order.last();
        assert(entries.last() == (id, marker(table[id])));
        assert(table.restrict(front.to_set()).insert(id, table[id]) =~= table.restrict(
            order.to_set(),
        )) by {
            assert forall|x: i64| order.to_set().contains(x) <==> front.to_set().contains(x) || x
                == id by {
                if order.to_set().contains(x) {
                    let k = choose|k: int| 0 <= k < order.len() && order[k] == x;
                    if k < order.len() - 1 {
                        assert(front[k] == x);
                    }
                }
                if front.to_set().contains(x) {
                    let k = choose|k: int| 0 <= k < front.len() && front[k] == x;
                    assert(order[k] == x);
                }
            }
        }
    }
}

/// Loading from files that are in step with a readable table gives the table
/// back, given that the role tags are read back.
pub proof fn lemma_load_gives_table_back(table: Table, root: Seq<char>, disk: Disk)
    requires
        in_step(table, root, disk),
        readable(table),
        tags_read_back(),
    ensures
        load(content(disk, index_path(root)), logs_on(disk, root)) == Ok::<Table, CorruptState>(
            table,
        ),
{
    let text = content(disk, index_path(root));
    let logs = logs_on(disk, root);
    let order = choose|order: Seq<i64>|
        order.no_duplicates() && order.to_set() == table.dom() && text == snapshot_text(
            #[trigger] entries_of(order, table),
        );
    lemma_snapshot_reads_back(entries_of(order, table));
    assert forall|k: int| 0 <= k < order.len() implies table.contains_key(#[trigger] order[k])
        && session_of((order[k], marker(table[order[k]])), log_of(logs, order[k])) == Some(
        table[order[k]],
    ) by {
        let id = order[k];
        assert(order.to_set().contains(id));
        if accepted(table, id) {
            assert(log_of(logs, id) == content(disk, log_path(root, id)));
            lemma_transcript_reads_back(table[id]->transcript);
        }
    }
    lemma_restore_entries(order, table, logs);
    assert(table.restrict(table.dom()) =~= table);
}

} // verus!
