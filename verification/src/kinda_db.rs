//! The session store: who is approved, and what was said of late.

use std::collections::HashMap;
use vstd::prelude::*;
use vstd::std_specs::iter::IteratorSpec;
use vstd::string::*;
use crate::error::CorruptState;
use crate::files::{effects, index_file, log_file, log_path, Effect, FileOp};
use crate::role::Role;
use crate::snapshot::{
    lemma_snapshot_push,
    parse_snapshot,
    push_line,
    read_snapshot,
    snapshot_text,
    Entry,
};
use crate::table::{
    accepted,
    appended,
    confirmed,
    deleted,
    entries_of,
    expired,
    is_snapshot_of,
    lemma_restore_fails,
    load,
    log_anew,
    log_of,
    record_of,
    refreshed,
    registered,
    restarted,
    restore,
    reverted,
    rolling_context,
    saves,
    Session,
    Table,
    ACTIVITY_WINDOW,
};
use crate::transcript::{
    duplicate_all,
    messages,
    parse_transcript,
    record_text,
    transcript_log,
    Message,
    RoleMessage,
};

verus! {

broadcast use vstd::std_specs::hash::group_hash_axioms;

/// The state of one session.
#[derive(Clone, Debug, PartialEq, Eq)]
pub enum ChatState {
    /// Registered, waiting for approval.
    Unconfirmed,
    /// Approved, with the time of the last activity and the transcript since
    /// the last reset.
    Confirmed(u64, Vec<RoleMessage>),
}

impl View for ChatState {
    type V = Session;

    open spec fn view(&self) -> Session {
        match self {
            ChatState::Unconfirmed => Session::Unconfirmed,
            ChatState::Confirmed(last_activity, list) => Session::Confirmed {
                last_activity: *last_activity,
                transcript: messages(list@),
            },
        }
    }
}

/// A record that may be missing, as contracts see it.
pub open spec fn seen(record: Option<ChatState>) -> Option<Session> {
    match record {
        Some(session) => Some(session@),
        None => None,
    }
}

/// The table that a map of session states stands for.
pub open spec fn table_of(state: Map<i64, ChatState>) -> Table {
    Map::new(|id: i64| state.contains_key(id), |id: i64| state[id]@)
}

/// The transcript logs at hand, by session.
pub open spec fn texts(logs: Map<i64, String>) -> Map<i64, Seq<char>> {
    Map::new(|id: i64| logs.contains_key(id), |id: i64| logs[id]@)
}

/// The session store. It holds the table in memory and knows the directory
/// under which the table is persisted.
pub struct KindaDb {
    path: String,
    state: HashMap<i64, ChatState>,
}

impl View for KindaDb {
    type V = Table;

    closed spec fn view(&self) -> Table {
        table_of(self.state@)
    }
}

impl KindaDb {
    /// The directory under which the store is persisted.
    pub closed spec fn root(&self) -> Seq<char> {
        self.path@
    }

    /// The index snapshot of the table as it stands.
    pub fn save_state(&self) -> (text: String)
        ensures
            is_snapshot_of(text@, self@),
    {
        let mut text = String::new();
        let ghost mut order: Seq<i64> = Seq::empty();
        for entry in it: self.state.iter()
            invariant
                it.seq() == self.state.iter().remaining(),
                order.len() == it.index(),
                forall|k: int| 0 <= k < order.len() ==> order[k] == *(#[trigger] it.seq()[k]).0,
                text@ == snapshot_text(entries_of(order, self@)),
        {
            let (id, session) = entry;
            let m: u64 = match session {
                ChatState::Unconfirmed => 0,
                ChatState::Confirmed(last_activity, _) => *last_activity,
            };
            push_line(&mut text, *id, m);
            proof {
                let longer = order.push(*id);
                assert(self.state@.contains_key(*id));
                assert(entries_of(longer, self@) == entries_of(order, self@).push((*id, m)));
                lemma_snapshot_push(entries_of(order, self@), (*id, m));
                order = longer;
            }
        }
        proof {
            let pairs = self.state.iter().remaining();
            assert(order.no_duplicates()) by {
                assert forall|i: int, j: int|
                    0 <= i < order.len() && 0 <= j < order.len() && i != j implies order[i]
                    != order[j] by {
                    assert(self.state@[*pairs[i].0] == *pairs[i].1);
                    assert(self.state@[*pairs[j].0] == *pairs[j].1);
                    assert(pairs[i] != pairs[j]);
                }
            }
            assert(order.to_set() =~= self@.dom()) by {
                assert forall|id: i64| self@.dom().contains(id) implies order.to_set().contains(
                    id,
                ) by {
                    let pair = (&id, &self.state@[id]);
                    assert(pairs.contains(pair));
                    let k = choose|k: int| 0 <= k < pairs.len() && pairs[k] == pair;
                    assert(order[k] == id);
                }
                assert forall|id: i64| order.to_set().contains(id) implies self@.dom().contains(
                    id,
                ) by {
                    let k = choose|k: int| 0 <= k < order.len() && order[k] == id;
                    assert(self.state@.contains_key(*pairs[k].0));
                }
            }
        }
        text
    }

    /// Loads the store from its persisted state: the content of the index
    /// snapshot (empty where there is no such file) and the transcript logs of
    /// the sessions that it lists as confirmed, as far as they exist.
    ///
    /// Loading is strict. It fails at the first line of the snapshot that
    /// cannot be read, else at the first confirmed session whose log is
    /// corrupt, and skips nothing.
    pub fn new(path: String, snapshot: &str, logs: &HashMap<i64, String>) -> (db: Result<
        KindaDb,
        CorruptState,
    >)
        ensures
            (match db {
                Ok(db) => db.root() == path@ && load(snapshot@, texts(logs@)) == Ok::<
                    Table,
                    CorruptState,
                >(db@),
                Err(e) => load(snapshot@, texts(logs@)) == Err::<Table, CorruptState>(e),
            }),
    {
        let entries = match parse_snapshot(snapshot) {
            Ok(entries) => entries,
            Err(e) => {
                return Err(e);
            },
        };
        let mut state: HashMap<i64, ChatState> = HashMap::new();
        let mut k: usize = 0;
        assert(entries@.take(0) == Seq::<Entry>::empty());
        assert(table_of(state@) =~= Map::<i64, Session>::empty());
        while k < entries.len()
            invariant
                k <= entries.len(),
                read_snapshot(snapshot@) == Ok::<Seq<Entry>, CorruptState>(entries@),
                restore(entries@.take(k as int), texts(logs@)) == Ok::<Table, CorruptState>(
                    table_of(state@),
                ),
            decreases entries.len() - k,
        {
            let entry = entries[k];
            let ghost before = table_of(state@);
            proof {
                let longer = entries@.take(k + 1);
                assert(longer.drop_last() == entries@.take(k as int));
                assert(longer.last() == entry);
            }
            let session = if entry.1 == 0 {
                ChatState::Unconfirmed
            } else {
                proof {
                    reveal_strlit("");
                }
                let log = match logs.get(&entry.0) {
                    Some(text) => text.as_str(),
                    None => "",
                };
                assert(log@ =~= log_of(texts(logs@), entry.0));
                match parse_transcript(log) {
                    Some(list) => ChatState::Confirmed(entry.1, list),
                    None => {
                        proof {
                            lemma_restore_fails(entries@, texts(logs@), k as int);
                        }
                        return Err(CorruptState::Transcript { chat_id: entry.0 });
                    },
                }
            };
            state.insert(entry.0, session);
            assert(table_of(state@) =~= before.insert(entry.0, session@));
            k = k + 1;
        }
        assert(entries@.take(k as int) == entries@);
        Ok(KindaDb { path, state })
    }

    /// A copy of the record of a session, to put back should the file
    /// operations of a change fail.
    pub fn session(&self, chat_id: i64) -> (copy: Option<ChatState>)
        ensures
            seen(copy) == record_of(self@, chat_id),
    {
        match self.state.get(&chat_id) {
            Some(ChatState::Confirmed(last_activity, list)) => Some(
                ChatState::Confirmed(*last_activity, duplicate_all(list)),
            ),
            Some(ChatState::Unconfirmed) => Some(ChatState::Unconfirmed),
            None => None,
        }
    }

    /// Puts the record of a session back as `session` copied it: the table
    /// then holds for this session what it held before the change.
    pub fn put_back(&mut self, chat_id: i64, previous: Option<ChatState>)
        ensures
            final(self).root() == old(self).root(),
            final(self)@ == reverted(old(self)@, chat_id, seen(previous)),
    {
        match previous {
            Some(session) => {
                self.put(chat_id, session);
            },
            None => {
                self.state.remove(&chat_id);
                assert(self@ =~= old(self)@.remove(chat_id));
            },
        }
    }

    /// The file operations that bring the files in step with the table
    /// again, after the operations of a change on a session failed half-way
    /// and `put_back` has undone the change: the transcript log of the session
    /// is written anew, and then the index snapshot.
    pub fn repair(&self, chat_id: i64) -> (ops: Vec<FileOp>)
        ensures
            saves(effects(ops@), log_anew(self@, self.root(), chat_id), self.root(), self@),
    {
        let mut first: Vec<FileOp> = Vec::new();
        first.push(FileOp::Remove { path: log_file(self.path.as_str(), chat_id) });
        match self.state.get(&chat_id) {
            Some(ChatState::Confirmed(_, list)) => {
                if list.len() > 0 {
                    let data = transcript_log(list);
                    first.push(
                        FileOp::Append { path: log_file(self.path.as_str(), chat_id), data },
                    );
                }
            },
            _ => {},
        }
        assert(effects(first@) =~= log_anew(self@, self.root(), chat_id));
        self.saved(first)
    }

    /// The directory under which the store is persisted.
    pub fn path(&self) -> (path: &str)
        ensures
            path@ == self.root(),
    {
        self.path.as_str()
    }

    /// Ends a list of file operations with the write of the index snapshot.
    fn saved(&self, first: Vec<FileOp>) -> (ops: Vec<FileOp>)
        ensures
            saves(effects(ops@), effects(first@), self.root(), self@),
    {
        let mut ops = first;
        let path = index_file(self.path.as_str());
        let data = self.save_state();
        ops.push(FileOp::Write { path, data });
        assert(effects(ops@) =~= effects(first@).push(effects(ops@).last()));
        ops
    }

    /// Puts a session into the table, in place of the one that was there.
    fn put(&mut self, chat_id: i64, session: ChatState)
        ensures
            final(self).root() == old(self).root(),
            final(self)@ == old(self)@.insert(chat_id, session@),
    {
        self.state.insert(chat_id, session);
        assert(self@ =~= old(self)@.insert(chat_id, session@));
    }

    /// Registers a session as waiting for approval, whatever it was before.
    pub fn register(&mut self, chat_id: i64) -> (ops: Vec<FileOp>)
        ensures
            final(self).root() == old(self).root(),
            final(self)@ == registered(old(self)@, chat_id),
            saves(effects(ops@), Seq::empty(), final(self).root(), final(self)@),
    {
        self.put(chat_id, ChatState::Unconfirmed);
        let ops = self.saved(Vec::new());
        assert(effects(Seq::<FileOp>::empty()) =~= Seq::<Effect>::empty());
        ops
    }

    /// Approves a session at time `now`. It starts with an empty transcript,
    /// and a transcript log left from an earlier approval is removed.
    pub fn confirm(&mut self, chat_id: i64, now: u64) -> (ops: Vec<FileOp>)
        ensures
            final(self).root() == old(self).root(),
            final(self)@ == confirmed(old(self)@, chat_id, now),
            saves(
                effects(ops@),
                seq![Effect::Remove { path: log_path(final(self).root(), chat_id) }],
                final(self).root(),
                final(self)@,
            ),
    {
        let mut first: Vec<FileOp> = Vec::new();
        first.push(FileOp::Remove { path: log_file(self.path.as_str(), chat_id) });
        self.put(chat_id, ChatState::Confirmed(now, Vec::new()));
        assert(messages(Seq::<RoleMessage>::empty()) =~= Seq::<Message>::empty());
        let ops = self.saved(first);
        assert(effects(first@) =~= seq![Effect::Remove { path: log_path(self.root(), chat_id) }]);
        ops
    }

    /// Starts a new conversation of an approved session at time `now`: its
    /// transcript is empty, its transcript log is removed, and it stays
    /// approved. A session that is not approved is left as it is, and nothing
    /// is to be written: only `confirm` approves.
    pub fn reset_chat(&mut self, chat_id: i64, now: u64) -> (ops: Vec<FileOp>)
        ensures
            final(self).root() == old(self).root(),
            final(self)@ == restarted(old(self)@, chat_id, now),
            accepted(old(self)@, chat_id) ==> final(self)@ == confirmed(old(self)@, chat_id, now)
                && saves(
                effects(ops@),
                seq![Effect::Remove { path: log_path(final(self).root(), chat_id) }],
                final(self).root(),
                final(self)@,
            ),
            !accepted(old(self)@, chat_id) ==> final(self)@ == old(self)@ && ops@.len() == 0,
    {
        if self.is_accepted(chat_id) {
            self.confirm(chat_id, now)
        } else {
            Vec::new()
        }
    }

    /// Forgets a session and removes its transcript log.
    pub fn delete(&mut self, chat_id: i64) -> (ops: Vec<FileOp>)
        ensures
            final(self).root() == old(self).root(),
            final(self)@ == deleted(old(self)@, chat_id),
            saves(
                effects(ops@),
                seq![Effect::Remove { path: log_path(final(self).root(), chat_id) }],
                final(self).root(),
                final(self)@,
            ),
    {
        self.state.remove(&chat_id);
        assert(self@ =~= deleted(old(self)@, chat_id));
        let mut first: Vec<FileOp> = Vec::new();
        first.push(FileOp::Remove { path: log_file(self.path.as_str(), chat_id) });
        let ops = self.saved(first);
        assert(effects(first@) =~= seq![Effect::Remove { path: log_path(self.root(), chat_id) }]);
        ops
    }

    /// Whether the session is approved.
    pub fn is_accepted(&self, chat_id: i64) -> (yes: bool)
        ensures
            yes == accepted(self@, chat_id),
    {
        match self.state.get(&chat_id) {
            Some(ChatState::Confirmed(_, _)) => true,
            _ => false,
        }
    }

    /// The transcript of a session at time `now`, for the next request. An
    /// approved session that has been idle for the whole activity window is
    /// reset first, as by `reset_chat`.
    pub fn chat_prev(&mut self, chat_id: i64, now: u64) -> (out: (Vec<RoleMessage>, Vec<FileOp>))
        ensures
            final(self).root() == old(self).root(),
            messages(out.0@) == rolling_context(old(self)@, chat_id, now),
            final(self)@ == refreshed(old(self)@, chat_id, now),
            expired(old(self)@, chat_id, now) ==> saves(
                effects(out.1@),
                seq![Effect::Remove { path: log_path(final(self).root(), chat_id) }],
                final(self).root(),
                final(self)@,
            ),
            !expired(old(self)@, chat_id, now) ==> out.1@.len() == 0,
    {
        let mut context: Vec<RoleMessage> = Vec::new();
        let mut idle = false;
        match self.state.get(&chat_id) {
            Some(ChatState::Confirmed(last_activity, list)) => {
                if now < *last_activity || now - *last_activity < ACTIVITY_WINDOW {
                    context = duplicate_all(list);
                } else {
                    idle = true;
                }
            },
            _ => {},
        }
        assert(messages(Seq::<RoleMessage>::empty()) =~= Seq::<Message>::empty());
        if idle {
            let ops = self.reset_chat(chat_id, now);
            (context, ops)
        } else {
            (context, Vec::new())
        }
    }

    /// Adds a message to the transcript of an approved session at time `now`.
    /// Any other session is left as it is, and nothing is to be written.
    pub fn add_to_chat(&mut self, chat_id: i64, role: Role, msg: String, now: u64) -> (ops: Vec<
        FileOp,
    >)
        ensures
            final(self).root() == old(self).root(),
            final(self)@ == appended(old(self)@, chat_id, (role, msg@), now),
            accepted(old(self)@, chat_id) ==> saves(
                effects(ops@),
                seq![
                    Effect::Append {
                        path: log_path(final(self).root(), chat_id),
                        data: record_text((role, msg@)),
                    },
                ],
                final(self).root(),
                final(self)@,
            ),
            !accepted(old(self)@, chat_id) ==> ops@.len() == 0,
    {
        if !self.is_accepted(chat_id) {
            return Vec::new();
        }
        match self.state.remove(&chat_id) {
            Some(ChatState::Confirmed(_, list)) => {
                let message = RoleMessage::new(role, msg);
                let data = message.record();
                let mut list = list;
                let ghost before = messages(list@);
                list.push(message);
                assert(messages(list@) =~= before.push((role, msg@)));
                self.state.insert(chat_id, ChatState::Confirmed(now, list));
                assert(self@ =~= appended(old(self)@, chat_id, (role, msg@), now));
                let mut first: Vec<FileOp> = Vec::new();
                first.push(FileOp::Append { path: log_file(self.path.as_str(), chat_id), data });
                let ops = self.saved(first);
                assert(effects(first@) =~= seq![
                    Effect::Append {
                        path: log_path(self.root(), chat_id),
                        data: record_text((role, msg@)),
                    },
                ]);
                ops
            },
            _ => {
                proof {
                    assert(false);
                }
                Vec::new()
            },
        }
    }
}

} // verus!
