//! The file operations that make a change of the session table durable, and
//! what they do to the files.
//!
//! The library touches no file. Each operation of the store hands back a list
//! of `FileOp`s, which the caller carries out in order.

use vstd::prelude::*;
use vstd::string::*;
use crate::decimal::{
    int_text,
    is_digit,
    lemma_i64_round_trip,
    lemma_int_text_chars,
    push_i64,
};

verus! {

/// One step on the file system.
#[derive(Clone, Debug, PartialEq, Eq)]
pub enum FileOp {
    /// Remove the file. That there is no such file is no failure.
    Remove { path: String },
    /// Write `data` at the end of the file, after creating it where it is
    /// missing.
    Append { path: String, data: String },
    /// Make `data` the whole content of the file.
    Write { path: String, data: String },
}

/// A file operation as contracts see it.
pub enum Effect {
    Remove { path: Seq<char> },
    Append { path: Seq<char>, data: Seq<char> },
    Write { path: Seq<char>, data: Seq<char> },
}

impl View for FileOp {
    type V = Effect;

    open spec fn view(&self) -> Effect {
        match self {
            FileOp::Remove { path } => Effect::Remove { path: path@ },
            FileOp::Append { path, data } => Effect::Append { path: path@, data: data@ },
            FileOp::Write { path, data } => Effect::Write { path: path@, data: data@ },
        }
    }
}

/// A list of file operations as contracts see it.
pub open spec fn effects(ops: Seq<FileOp>) -> Seq<Effect> {
    Seq::new(ops.len(), |k: int| ops[k]@)
}

/// The files that exist, each with its content.
pub type Disk = Map<Seq<char>, Seq<char>>;

/// What a file holds; nothing where there is no such file.
pub open spec fn content(disk: Disk, path: Seq<char>) -> Seq<char> {
    if disk.contains_key(path) {
        disk[path]
    } else {
        Seq::empty()
    }
}

/// The files after one operation.
pub open spec fn perform(disk: Disk, effect: Effect) -> Disk {
    match effect {
        Effect::Remove { path } => disk.remove(path),
        Effect::Append { path, data } => disk.insert(path, content(disk, path) + data),
        Effect::Write { path, data } => disk.insert(path, data),
    }
}

/// The files after a list of operations, carried out in order.
pub open spec fn perform_all(disk: Disk, list: Seq<Effect>) -> Disk
    decreases list.len(),
{
    if list.len() == 0 {
        disk
    } else {
        perform(perform_all(disk, list.drop_last()), list.last())
    }
}

/// Where the index snapshot lies under a root directory.
pub open spec fn index_path(root: Seq<char>) -> Seq<char> {
    root + "/db.txt"@
}

/// Where the transcript log of a session lies under a root directory.
pub open spec fn log_path(root: Seq<char>, chat_id: i64) -> Seq<char> {
    root + seq!['/'] + int_text(chat_id as int) + ".txt"@
}

/// The transcript logs of two sessions lie in two files, and neither is the
/// index snapshot.
pub proof fn lemma_paths_differ(root: Seq<char>, a: i64, b: i64)
    ensures
        log_path(root, a) != index_path(root),
        a != b ==> log_path(root, a) != log_path(root, b),
{
    reveal_strlit("/db.txt");
    reveal_strlit(".txt");
    let n = root.len() as int;
    let ta = int_text(a as int);
    let tb = int_text(b as int);
    lemma_int_text_chars(a as int);
    lemma_int_text_chars(b as int);
    assert(log_path(root, a)[n + 1] == ta[0]);
    assert(index_path(root)[n + 1] == 'd');
    assert(is_digit(ta[0]) || ta[0] == '-');
    if a != b && log_path(root, a) == log_path(root, b) {
        assert(".txt"@.len() == 4);
        assert(log_path(root, a).len() == n + 1 + ta.len() + 4);
        assert(log_path(root, b).len() == n + 1 + tb.len() + 4);
        assert(ta.len() == tb.len());
        assert forall|i: int| 0 <= i < ta.len() implies ta[i] == tb[i] by {
            assert(log_path(root, a)[n + 1 + i] == ta[i]);
            assert(log_path(root, b)[n + 1 + i] == tb[i]);
        }
        assert(ta =~= tb);
        lemma_i64_round_trip(a);
        lemma_i64_round_trip(b);
    }
}

/// The files after one operation more.
pub proof fn lemma_perform_one_more(disk: Disk, list: Seq<Effect>, effect: Effect)
    ensures
        perform_all(disk, list.push(effect)) == perform(perform_all(disk, list), effect),
{
    assert(list.push(effect).drop_last() == list);
}

/// The path of the index snapshot.
pub fn index_file(root: &str) -> (path: String)
    ensures
        path@ == index_path(root@),
{
    let mut path = String::from_str(root);
    path.append("/db.txt");
    path
}

/// The path of the transcript log of a session.
pub fn log_file(root: &str, chat_id: i64) -> (path: String)
    ensures
        path@ == log_path(root@, chat_id),
{
    proof {
        reveal_strlit("/");
    }
    let mut path = String::from_str(root);
    path.append("/");
    push_i64(&mut path, chat_id);
    path.append(".txt");
    path
}

} // verus!
