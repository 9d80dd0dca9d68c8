use std::collections::HashMap;

use councillor::error::CorruptState;
use councillor::files::FileOp;
use councillor::kinda_db::{ChatState, KindaDb};
use councillor::table::ACTIVITY_WINDOW;
use councillor::role::Role;
use councillor::snapshot::{logs_wanted, parse_snapshot};
use councillor::transcript::RoleMessage;

/// Files in memory: what the file operations of the store are carried out on.
fn carry_out(disk: &mut HashMap<String, String>, ops: &[FileOp]) {
    for op in ops {
        match op {
            FileOp::Remove { path } => {
                disk.remove(path);
            }
            FileOp::Append { path, data } => {
                disk.entry(path.clone()).or_default().push_str(data);
            }
            FileOp::Write { path, data } => {
                disk.insert(path.clone(), data.clone());
            }
        }
    }
}

/// Loads the store as a restart would: the snapshot, then the logs it names.
fn restart(root: &str, disk: &HashMap<String, String>) -> Result<KindaDb, CorruptState> {
    let snapshot = disk.get(&format!("{}/db.txt", root)).cloned().unwrap_or_default();
    let mut logs = HashMap::new();
    for id in logs_wanted(&snapshot)? {
        if let Some(text) = disk.get(&format!("{}/{}.txt", root, id)) {
            logs.insert(id, text.clone());
        }
    }
    KindaDb::new(root.to_string(), &snapshot, &logs)
}

fn empty(root: &str) -> KindaDb {
    KindaDb::new(root.to_string(), "", &HashMap::new()).unwrap()
}

fn said(role: Role, content: &str) -> RoleMessage {
    RoleMessage::new(role, content.to_string())
}

#[test]
fn unknown_session_is_gated() {
    let mut db = empty("data");
    assert!(!db.is_accepted(7));
    let (context, ops) = db.chat_prev(7, 1_000);
    assert_eq!(context, vec![]);
    assert_eq!(ops, vec![]);
    assert_eq!(db.session(7), None);
}

#[test]
fn unconfirmed_session_is_gated() {
    let mut db = empty("data");
    db.register(7);
    assert!(!db.is_accepted(7));
    let (context, ops) = db.chat_prev(7, 1_000);
    assert_eq!(context, vec![]);
    assert_eq!(ops, vec![]);
    assert_eq!(db.session(7), Some(ChatState::Unconfirmed));
    assert_eq!(db.add_to_chat(7, Role::User, "hello".to_string(), 1_000), vec![]);
    assert_eq!(db.session(7), Some(ChatState::Unconfirmed));
}

#[test]
fn register_writes_the_snapshot() {
    let mut db = empty("data");
    let ops = db.register(42);
    assert_eq!(
        ops,
        vec![FileOp::Write { path: "data/db.txt".to_string(), data: "42 0\n".to_string() }]
    );
}

#[test]
fn confirm_removes_the_log_and_writes_the_snapshot() {
    let mut db = empty("data");
    let ops = db.confirm(-42, 1_700_000_000);
    assert_eq!(
        ops,
        vec![
            FileOp::Remove { path: "data/-42.txt".to_string() },
            FileOp::Write {
                path: "data/db.txt".to_string(),
                data: "-42 1700000000\n".to_string()
            },
        ]
    );
    assert!(db.is_accepted(-42));
    assert_eq!(db.session(-42), Some(ChatState::Confirmed(1_700_000_000, vec![])));
}

#[test]
fn add_to_chat_appends_and_refreshes() {
    let mut db = empty("data");
    db.confirm(42, 100);
    let ops = db.add_to_chat(42, Role::User, "hi".to_string(), 160);
    assert_eq!(
        ops,
        vec![
            FileOp::Append {
                path: "data/42.txt".to_string(),
                data: "\"user\"***\nhi***\n".to_string()
            },
            FileOp::Write { path: "data/db.txt".to_string(), data: "42 160\n".to_string() },
        ]
    );
    assert_eq!(db.session(42), Some(ChatState::Confirmed(160, vec![said(Role::User, "hi")])));
}

#[test]
fn delete_of_an_unknown_session_still_saves() {
    let mut db = empty("data");
    db.register(1);
    let ops = db.delete(2);
    assert_eq!(
        ops,
        vec![
            FileOp::Remove { path: "data/2.txt".to_string() },
            FileOp::Write { path: "data/db.txt".to_string(), data: "1 0\n".to_string() },
        ]
    );
    assert_eq!(db.session(1), Some(ChatState::Unconfirmed));
}

#[test]
fn snapshot_lists_every_session_once() {
    let mut db = empty("data");
    db.register(1);
    db.confirm(2, 50);
    db.confirm(-3, 60);
    db.register(2);
    let mut entries = parse_snapshot(&db.save_state()).unwrap();
    entries.sort();
    assert_eq!(entries, vec![(-3, 60), (1, 0), (2, 0)]);
}

#[test]
fn round_trip_persistence() {
    let mut disk = HashMap::new();
    let mut db = empty("data");
    carry_out(&mut disk, &db.register(5));
    carry_out(&mut disk, &db.confirm(5, 1_000));
    carry_out(&mut disk, &db.add_to_chat(5, Role::User, "hi".to_string(), 1_000));
    drop(db);
    let mut db = restart("data", &disk).unwrap();
    let (context, ops) = db.chat_prev(5, 1_001);
    assert_eq!(context, vec![said(Role::User, "hi")]);
    assert_eq!(ops, vec![]);
}

#[test]
fn restart_gives_the_whole_table_back() {
    let mut disk = HashMap::new();
    let mut db = empty("var/bot");
    carry_out(&mut disk, &db.register(1));
    carry_out(&mut disk, &db.confirm(2, 10));
    carry_out(&mut disk, &db.confirm(-3, 20));
    carry_out(&mut disk, &db.add_to_chat(2, Role::User, "first".to_string(), 11));
    carry_out(&mut disk, &db.add_to_chat(2, Role::Assistant, "second\nline".to_string(), 12));
    carry_out(&mut disk, &db.add_to_chat(-3, Role::System, "* * *".to_string(), 21));
    carry_out(&mut disk, &db.add_to_chat(-3, Role::Tool, "t".to_string(), 22));
    carry_out(&mut disk, &db.add_to_chat(-3, Role::Function, "f".to_string(), 23));
    let again = restart("var/bot", &disk).unwrap();
    assert_eq!(again.path(), "var/bot");
    assert_eq!(again.session(1), Some(ChatState::Unconfirmed));
    assert_eq!(
        again.session(2),
        Some(ChatState::Confirmed(
            12,
            vec![said(Role::User, "first"), said(Role::Assistant, "second\nline")]
        ))
    );
    assert_eq!(
        again.session(-3),
        Some(ChatState::Confirmed(
            23,
            vec![said(Role::System, "* * *"), said(Role::Tool, "t"), said(Role::Function, "f")]
        ))
    );
    assert_eq!(again.session(4), None);
}

#[test]
fn a_long_conversation_survives_a_restart() {
    let mut disk = HashMap::new();
    let mut db = empty("data");
    carry_out(&mut disk, &db.confirm(1, 1));
    let mut expected = Vec::new();
    for n in 0..300u64 {
        let role = if n % 2 == 0 { Role::User } else { Role::Assistant };
        let content = format!("message {} of many, with some words to make it longer", n);
        carry_out(&mut disk, &db.add_to_chat(1, role, content.clone(), 2 + n));
        expected.push(said(role, &content));
    }
    for id in 2..200 {
        carry_out(&mut disk, &db.register(id));
    }
    let mut again = restart("data", &disk).unwrap();
    assert_eq!(again.chat_prev(1, 302).0, expected);
    assert_eq!(again.session(199), Some(ChatState::Unconfirmed));
    assert_eq!(again.session(200), None);
    let mut lines: Vec<String> = again.save_state().lines().map(str::to_string).collect();
    lines.sort();
    let mut before: Vec<String> = db.save_state().lines().map(str::to_string).collect();
    before.sort();
    assert_eq!(lines, before);
    assert_eq!(lines.len(), 199);
}

#[test]
fn missing_snapshot_starts_empty() {
    let db = restart("data", &HashMap::new()).unwrap();
    assert_eq!(db.save_state(), "");
    assert!(!db.is_accepted(1));
}

#[test]
fn confirmed_session_without_a_log_has_no_history() {
    let db = KindaDb::new("data".to_string(), "9 77\n", &HashMap::new()).unwrap();
    assert_eq!(db.session(9), Some(ChatState::Confirmed(77, vec![])));
}

#[test]
fn a_later_line_takes_the_place_of_an_earlier_one() {
    let db = KindaDb::new("data".to_string(), "9 77\n9 0\n", &HashMap::new()).unwrap();
    assert_eq!(db.session(9), Some(ChatState::Unconfirmed));
}

#[test]
fn the_log_of_an_unconfirmed_session_is_not_read() {
    let mut logs = HashMap::new();
    logs.insert(9, "left over".to_string());
    let db = KindaDb::new("data".to_string(), "9 0\n", &logs).unwrap();
    assert_eq!(db.session(9), Some(ChatState::Unconfirmed));
    assert_eq!(logs_wanted("9 0\n8 5\n\n7 6\n"), Ok(vec![8, 7]));
}

#[test]
fn corrupt_snapshot_fails_the_load() {
    let loaded = KindaDb::new("data".to_string(), "1 0\n\nseven 5\n3 4\n", &HashMap::new());
    assert_eq!(loaded.err(), Some(CorruptState::Snapshot { line: 1 }));
    assert_eq!(logs_wanted("1\n"), Err(CorruptState::Snapshot { line: 0 }));
}

#[test]
fn corrupt_transcript_fails_the_load() {
    let mut logs = HashMap::new();
    logs.insert(1, "\"user\"***\nfine***\n".to_string());
    logs.insert(2, "\"user\"***\n".to_string());
    let loaded = KindaDb::new("data".to_string(), "1 5\n2 6\n", &logs);
    assert_eq!(loaded.err(), Some(CorruptState::Transcript { chat_id: 2 }));
    logs.insert(2, "\"nobody\"***\nhm***\n".to_string());
    let loaded = KindaDb::new("data".to_string(), "1 5\n2 6\n", &logs);
    assert_eq!(loaded.err(), Some(CorruptState::Transcript { chat_id: 2 }));
}

#[test]
fn the_errors_in_words() {
    assert_eq!(
        CorruptState::Snapshot { line: 12 }.message(),
        "corrupt index snapshot at line 12"
    );
    assert_eq!(
        CorruptState::Transcript { chat_id: -7 }.message(),
        "corrupt transcript log of session -7"
    );
}

#[test]
fn idle_session_is_reset() {
    let mut disk = HashMap::new();
    let mut db = empty("data");
    let t = 5_000;
    carry_out(&mut disk, &db.confirm(8, t));
    carry_out(&mut disk, &db.add_to_chat(8, Role::User, "old".to_string(), t));
    assert!(disk.contains_key("data/8.txt"));
    let (context, ops) = db.chat_prev(8, t + ACTIVITY_WINDOW);
    assert_eq!(context, vec![]);
    assert_eq!(
        ops,
        vec![
            FileOp::Remove { path: "data/8.txt".to_string() },
            FileOp::Write { path: "data/db.txt".to_string(), data: "8 6800\n".to_string() },
        ]
    );
    carry_out(&mut disk, &ops);
    assert!(!disk.contains_key("data/8.txt"));
    assert!(db.is_accepted(8));
    carry_out(&mut disk, &db.add_to_chat(8, Role::User, "new".to_string(), t + 1_801));
    let (context, _) = db.chat_prev(8, t + 1_802);
    assert_eq!(context, vec![said(Role::User, "new")]);
    let mut again = restart("data", &disk).unwrap();
    assert_eq!(again.chat_prev(8, t + 1_802).0, vec![said(Role::User, "new")]);
}

#[test]
fn the_window_ends_at_its_last_second() {
    assert_eq!(ACTIVITY_WINDOW, 1800);
    let mut db = empty("data");
    db.confirm(8, 100);
    db.add_to_chat(8, Role::User, "still here".to_string(), 100);
    let (context, ops) = db.chat_prev(8, 1_899);
    assert_eq!(context, vec![said(Role::User, "still here")]);
    assert_eq!(ops, vec![]);
    let (context, ops) = db.chat_prev(8, 1_900);
    assert_eq!(context, vec![]);
    assert_eq!(ops.len(), 2);
}

#[test]
fn a_clock_that_steps_back_resets_nothing() {
    let mut db = empty("data");
    db.confirm(8, 10_000);
    db.add_to_chat(8, Role::User, "x".to_string(), 10_000);
    let (context, ops) = db.chat_prev(8, 3);
    assert_eq!(context, vec![said(Role::User, "x")]);
    assert_eq!(ops, vec![]);
}

#[test]
fn deletion_is_total() {
    let mut disk = HashMap::new();
    let mut db = empty("data");
    carry_out(&mut disk, &db.confirm(3, 10));
    carry_out(&mut disk, &db.add_to_chat(3, Role::User, "hello".to_string(), 11));
    assert!(disk.contains_key("data/3.txt"));
    carry_out(&mut disk, &db.delete(3));
    assert!(!db.is_accepted(3));
    assert_eq!(db.session(3), None);
    assert!(!disk.contains_key("data/3.txt"));
    assert_eq!(disk.get("data/db.txt"), Some(&String::new()));
    let again = restart("data", &disk).unwrap();
    assert!(!again.is_accepted(3));
}

#[test]
fn reconfirmation_clears_history() {
    let mut disk = HashMap::new();
    let mut db = empty("data");
    carry_out(&mut disk, &db.confirm(3, 10));
    carry_out(&mut disk, &db.add_to_chat(3, Role::User, "hello".to_string(), 11));
    carry_out(&mut disk, &db.confirm(3, 12));
    assert_eq!(db.chat_prev(3, 13).0, vec![]);
    assert!(!disk.contains_key("data/3.txt"));
    let mut again = restart("data", &disk).unwrap();
    assert_eq!(again.chat_prev(3, 13).0, vec![]);
}

#[test]
fn register_twice_stays_unconfirmed() {
    let mut db = empty("data");
    db.register(6);
    assert_eq!(db.session(6), Some(ChatState::Unconfirmed));
    assert!(!db.is_accepted(6));
    db.register(6);
    assert_eq!(db.session(6), Some(ChatState::Unconfirmed));
    assert!(!db.is_accepted(6));
}

#[test]
fn register_takes_the_approval_away() {
    let mut db = empty("data");
    db.confirm(6, 5);
    db.register(6);
    assert!(!db.is_accepted(6));
}

#[test]
fn reset_chat_keeps_the_approval() {
    let mut db = empty("data");
    db.confirm(6, 5);
    db.add_to_chat(6, Role::User, "a".to_string(), 6);
    let ops = db.reset_chat(6, 7);
    assert!(db.is_accepted(6));
    assert_eq!(db.session(6), Some(ChatState::Confirmed(7, vec![])));
    assert_eq!(
        ops,
        vec![
            FileOp::Remove { path: "data/6.txt".to_string() },
            FileOp::Write { path: "data/db.txt".to_string(), data: "6 7\n".to_string() },
        ]
    );
}

#[test]
fn reset_chat_does_not_approve() {
    let mut db = empty("data");
    db.register(6);
    assert_eq!(db.reset_chat(5, 7), vec![]);
    assert!(!db.is_accepted(5));
    assert_eq!(db.session(5), None);
    assert_eq!(db.reset_chat(6, 7), vec![]);
    assert!(!db.is_accepted(6));
    assert_eq!(db.session(6), Some(ChatState::Unconfirmed));
    assert_eq!(db.chat_prev(6, 8), (vec![], vec![]));
    assert_eq!(db.save_state(), "6 0\n");
}

#[test]
fn put_back_undoes_a_change() {
    let mut db = empty("data");
    db.confirm(6, 5);
    db.add_to_chat(6, Role::User, "a".to_string(), 6);
    let before = db.session(6);
    db.add_to_chat(6, Role::Assistant, "b".to_string(), 7);
    db.put_back(6, before.clone());
    assert_eq!(db.session(6), before);
    let nothing = db.session(9);
    db.register(9);
    db.put_back(9, nothing);
    assert_eq!(db.session(9), None);
}

#[test]
fn repair_after_a_failed_write() {
    let mut disk = HashMap::new();
    let mut db = empty("data");
    carry_out(&mut disk, &db.register(1));
    carry_out(&mut disk, &db.confirm(2, 10));
    carry_out(&mut disk, &db.add_to_chat(2, Role::User, "a".to_string(), 11));
    let in_step = disk.clone();
    let before = db.session(2);
    let ops = db.add_to_chat(2, Role::Assistant, "b".to_string(), 12);
    carry_out(&mut disk, &ops[..1]);
    assert_ne!(disk, in_step);
    db.put_back(2, before);
    let ops = db.repair(2);
    assert_eq!(ops.len(), 3);
    assert_eq!(ops[0], FileOp::Remove { path: "data/2.txt".to_string() });
    assert_eq!(
        ops[1],
        FileOp::Append { path: "data/2.txt".to_string(), data: "\"user\"***\na***\n".to_string() }
    );
    carry_out(&mut disk, &ops);
    let again = restart("data", &disk).unwrap();
    assert_eq!(again.session(1), Some(ChatState::Unconfirmed));
    assert_eq!(again.session(2), Some(ChatState::Confirmed(11, vec![said(Role::User, "a")])));
    assert_eq!(disk.get("data/2.txt"), in_step.get("data/2.txt"));
}

#[test]
fn repair_of_a_session_without_transcript() {
    let mut db = empty("data");
    db.register(1);
    db.confirm(2, 10);
    for id in [1, 2, 3] {
        let ops = db.repair(id);
        assert_eq!(ops.len(), 2);
        assert_eq!(ops[0], FileOp::Remove { path: format!("data/{}.txt", id) });
        match &ops[1] {
            FileOp::Write { path, data } => {
                assert_eq!(path, "data/db.txt");
                let mut lines: Vec<&str> = data.lines().collect();
                lines.sort();
                assert_eq!(lines, vec!["1 0", "2 10"]);
            }
            other => panic!("{:?}", other),
        }
    }
}

#[test]
fn end_to_end() {
    let mut db = empty("data");
    db.register(42);
    assert!(!db.is_accepted(42));
    db.confirm(42, 1_000);
    assert!(db.is_accepted(42));
    db.add_to_chat(42, Role::User, "translate: hello".to_string(), 1_001);
    db.add_to_chat(42, Role::Assistant, "привет".to_string(), 1_002);
    let (context, _) = db.chat_prev(42, 1_003);
    assert_eq!(
        context,
        vec![said(Role::User, "translate: hello"), said(Role::Assistant, "привет")]
    );
    db.delete(42);
    assert!(!db.is_accepted(42));
}
