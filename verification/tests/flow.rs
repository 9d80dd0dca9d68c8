use std::collections::HashMap;

use councillor::bot_flow::{
    admin_callback, apply_verdict, chat_member, chat_msg, new_chat, parse_callback, start,
    AdminReply, Verdict,
    SYSTEM_PROMPT,
};
use councillor::files::FileOp;
use councillor::kinda_db::{ChatState, KindaDb};
use councillor::role::Role;
use councillor::transcript::RoleMessage;

const ADMIN: i64 = 1000;

fn empty() -> KindaDb {
    KindaDb::new("data".to_string(), "", &HashMap::new()).unwrap()
}

fn said(role: Role, content: &str) -> RoleMessage {
    RoleMessage::new(role, content.to_string())
}

#[test]
fn start_registers_and_offers_two_buttons() {
    let mut db = empty();
    let (buttons, ops) = start(&mut db, -77);
    assert_eq!(buttons.accept, "accept--77");
    assert_eq!(buttons.decline, "decline--77");
    assert_eq!(
        ops,
        vec![FileOp::Write { path: "data/db.txt".to_string(), data: "-77 0\n".to_string() }]
    );
    assert_eq!(db.session(-77), Some(ChatState::Unconfirmed));
    assert_eq!(parse_callback(&buttons.accept), Some(Verdict::Accept(-77)));
    assert_eq!(parse_callback(&buttons.decline), Some(Verdict::Decline(-77)));
}

#[test]
fn callback_payloads() {
    assert_eq!(parse_callback("accept-42"), Some(Verdict::Accept(42)));
    assert_eq!(parse_callback("decline-42"), Some(Verdict::Decline(42)));
    assert_eq!(parse_callback("accept-+42"), Some(Verdict::Accept(42)));
    assert_eq!(parse_callback("accept--9223372036854775808"), Some(Verdict::Accept(i64::MIN)));
    assert_eq!(parse_callback("accept"), None);
    assert_eq!(parse_callback("accept-"), None);
    assert_eq!(parse_callback("accept-4-2"), None);
    assert_eq!(parse_callback("accept-9223372036854775808"), None);
    assert_eq!(parse_callback("Accept-42"), None);
    assert_eq!(parse_callback("approve-42"), None);
    assert_eq!(parse_callback("-42"), None);
    assert_eq!(parse_callback(""), None);
    assert_eq!(parse_callback("accept 42"), None);
}

#[test]
fn the_administrator_accepts() {
    let mut db = empty();
    start(&mut db, 5);
    let (reply, ops) = admin_callback(&mut db, ADMIN, ADMIN, Some("accept-5"), 300);
    assert_eq!(reply, AdminReply::Accepted(5));
    assert_eq!(
        ops,
        vec![
            FileOp::Remove { path: "data/5.txt".to_string() },
            FileOp::Write { path: "data/db.txt".to_string(), data: "5 300\n".to_string() },
        ]
    );
    assert!(db.is_accepted(5));
}

#[test]
fn the_administrator_declines() {
    let mut db = empty();
    start(&mut db, 5);
    let (reply, ops) = admin_callback(&mut db, ADMIN, ADMIN, Some("decline-5"), 300);
    assert_eq!(reply, AdminReply::Declined(5));
    assert_eq!(
        ops,
        vec![
            FileOp::Remove { path: "data/5.txt".to_string() },
            FileOp::Write { path: "data/db.txt".to_string(), data: String::new() },
        ]
    );
    assert_eq!(db.session(5), None);
}

#[test]
fn nobody_else_decides() {
    let mut db = empty();
    start(&mut db, 5);
    let (reply, ops) = admin_callback(&mut db, ADMIN, 5, Some("accept-5"), 300);
    assert_eq!(reply, AdminReply::NotAdmin);
    assert_eq!(ops, vec![]);
    assert!(!db.is_accepted(5));
    let (reply, ops) = admin_callback(&mut db, ADMIN, 5, None, 300);
    assert_eq!(reply, AdminReply::NotAdmin);
    assert_eq!(ops, vec![]);
}

#[test]
fn what_is_not_understood_changes_nothing() {
    let mut db = empty();
    start(&mut db, 5);
    for data in [None, Some(""), Some("accept"), Some("accept-five"), Some("promote-5")] {
        let (reply, ops) = admin_callback(&mut db, ADMIN, ADMIN, data, 300);
        assert_eq!(reply, AdminReply::Nothing);
        assert_eq!(ops, vec![]);
        assert_eq!(db.session(5), Some(ChatState::Unconfirmed));
    }
}

#[test]
fn a_verdict_that_was_read_already() {
    let mut db = empty();
    start(&mut db, 5);
    start(&mut db, 6);
    assert_eq!(Verdict::Accept(5).chat_id(), 5);
    assert_eq!(Verdict::Decline(-6).chat_id(), -6);
    let (reply, ops) = apply_verdict(&mut db, ADMIN, 5, Some(Verdict::Accept(5)), 300);
    assert_eq!((reply, ops), (AdminReply::NotAdmin, vec![]));
    let (reply, ops) = apply_verdict(&mut db, ADMIN, ADMIN, None, 300);
    assert_eq!((reply, ops), (AdminReply::Nothing, vec![]));
    assert!(!db.is_accepted(5));
    let (reply, ops) = apply_verdict(&mut db, ADMIN, ADMIN, Some(Verdict::Accept(5)), 300);
    assert_eq!(reply, AdminReply::Accepted(5));
    assert_eq!(ops.len(), 2);
    assert_eq!(ops[0], FileOp::Remove { path: "data/5.txt".to_string() });
    assert_eq!(db.session(5), Some(ChatState::Confirmed(300, vec![])));
    let (reply, ops) = apply_verdict(&mut db, ADMIN, ADMIN, Some(Verdict::Decline(6)), 301);
    assert_eq!(reply, AdminReply::Declined(6));
    assert_eq!(
        ops,
        vec![
            FileOp::Remove { path: "data/6.txt".to_string() },
            FileOp::Write { path: "data/db.txt".to_string(), data: "5 300\n".to_string() },
        ]
    );
    assert_eq!(db.session(6), None);
}

#[test]
fn a_pending_user_gets_no_request() {
    let mut db = empty();
    assert_eq!(chat_msg(&mut db, 5, "hello", 10), (None, vec![]));
    start(&mut db, 5);
    assert_eq!(chat_msg(&mut db, 5, "hello", 10), (None, vec![]));
    assert_eq!(db.session(5), Some(ChatState::Unconfirmed));
}

#[test]
fn the_request_holds_instruction_context_and_message() {
    let mut db = empty();
    db.confirm(5, 10);
    db.add_to_chat(5, Role::User, "one".to_string(), 11);
    db.add_to_chat(5, Role::Assistant, "two".to_string(), 12);
    let (request, ops) = chat_msg(&mut db, 5, "three", 13);
    assert_eq!(
        request,
        Some(vec![
            said(Role::System, SYSTEM_PROMPT),
            said(Role::User, "one"),
            said(Role::Assistant, "two"),
            said(Role::User, "three"),
        ])
    );
    assert_eq!(ops, vec![]);
}

#[test]
fn the_system_instruction() {
    let sentences = [
        "Ты ассистент и секретарь.",
        "Твой основной язык русский.",
        "Ты помогаешь вести деловую переписку и искать нужную информацию.",
        "Так же ты хороший переводчик и владеешь всеми языками мира.",
        "Ты опытен в составлении статей и имеешь широкий кругозор в науках и программировании.",
    ];
    assert_eq!(SYSTEM_PROMPT, sentences.join(" "));
}

#[test]
fn the_request_of_an_idle_session_starts_afresh() {
    let mut db = empty();
    db.confirm(5, 10);
    db.add_to_chat(5, Role::User, "one".to_string(), 11);
    let (request, ops) = chat_msg(&mut db, 5, "two", 11 + 1800);
    assert_eq!(request, Some(vec![said(Role::System, SYSTEM_PROMPT), said(Role::User, "two")]));
    assert_eq!(
        ops,
        vec![
            FileOp::Remove { path: "data/5.txt".to_string() },
            FileOp::Write { path: "data/db.txt".to_string(), data: "5 1811\n".to_string() },
        ]
    );
    assert_eq!(db.session(5), Some(ChatState::Confirmed(1811, vec![])));
}

#[test]
fn new_chat_is_for_the_approved() {
    let mut db = empty();
    assert_eq!(new_chat(&mut db, 5, 20), None);
    assert_eq!(db.session(5), None);
    start(&mut db, 5);
    assert_eq!(new_chat(&mut db, 5, 20), None);
    assert!(!db.is_accepted(5));
    db.confirm(5, 10);
    db.add_to_chat(5, Role::User, "one".to_string(), 11);
    let ops = new_chat(&mut db, 5, 20);
    assert_eq!(
        ops,
        Some(vec![
            FileOp::Remove { path: "data/5.txt".to_string() },
            FileOp::Write { path: "data/db.txt".to_string(), data: "5 20\n".to_string() },
        ])
    );
    assert_eq!(db.session(5), Some(ChatState::Confirmed(20, vec![])));
}

#[test]
fn who_leaves_is_forgotten() {
    let mut db = empty();
    db.confirm(5, 10);
    assert_eq!(chat_member(&mut db, true, 5), vec![]);
    assert!(db.is_accepted(5));
    let ops = chat_member(&mut db, false, 5);
    assert_eq!(
        ops,
        vec![
            FileOp::Remove { path: "data/5.txt".to_string() },
            FileOp::Write { path: "data/db.txt".to_string(), data: String::new() },
        ]
    );
    assert_eq!(db.session(5), None);
}
