//! What the bot decides on each event of the chat transport. The transport
//! itself, and the language model, are the caller's: these functions say what
//! is to be answered and what is to be written, and change the store.

use vstd::prelude::*;
use vstd::string::*;
use crate::decimal::{i64_of_text, int_text, lemma_i64_round_trip, push_i64, read_i64};
use crate::files::{effects, log_path, Effect, FileOp};
use crate::kinda_db::KindaDb;
use crate::role::Role;
use crate::table::{
    accepted,
    confirmed,
    deleted,
    expired,
    refreshed,
    registered,
    rolling_context,
    saves,
};
use crate::text::{
    chars_of,
    find_separator,
    first_separator,
    lemma_first_separator_is,
    Separator,
};
use crate::transcript::{messages, Message, RoleMessage};

verus! {

/// The instruction that opens every request to the language model.
pub const SYSTEM_PROMPT: &'static str =
    "Ты ассистент и секретарь. Твой основной язык русский. Ты помогаешь вести \
    деловую переписку и искать нужную информацию. Так же ты хороший переводчик и \
    владеешь всеми языками мира. Ты опытен в составлении статей и имеешь широкий \
    кругозор в науках и программировании.";

/// What the administrator decided about a session.
#[derive(Clone, Copy, Debug, PartialEq, Eq, Structural)]
pub enum Verdict {
    Accept(i64),
    Decline(i64),
}

impl Verdict {
    /// The session that the verdict is about.
    pub fn chat_id(&self) -> (chat_id: i64)
        ensures
            chat_id == (match *self {
                Verdict::Accept(id) => id,
                Verdict::Decline(id) => id,
            }),
    {
        match *self {
            Verdict::Accept(id) => id,
            Verdict::Decline(id) => id,
        }
    }
}

/// What follows from a press on one of the administrator's buttons.
#[derive(Clone, Copy, Debug, PartialEq, Eq, Structural)]
pub enum AdminReply {
    /// The press came from another chat than the administrator's: it is told
    /// so, and nothing changes.
    NotAdmin,
    /// The session was confirmed: its user is told.
    Accepted(i64),
    /// The session was deleted: its user is told.
    Declined(i64),
    /// The press carried no payload, or one that is not understood: nothing
    /// changes and nobody is told.
    Nothing,
}

/// The payload of the button that accepts a session.
pub open spec fn accept_text(chat_id: i64) -> Seq<char> {
    "accept-"@ + int_text(chat_id as int)
}

/// The payload of the button that declines a session.
pub open spec fn decline_text(chat_id: i64) -> Seq<char> {
    "decline-"@ + int_text(chat_id as int)
}

/// What a callback payload asks for: the verb before its first hyphen, and
/// the identifier after it. `None` where there is no hyphen, the identifier is
/// no `i64`, or the verb is neither `accept` nor `decline`.
pub open spec fn read_callback(text: Seq<char>) -> Option<Verdict> {
    let n = first_separator(text, Separator::Hyphen);
    if 0 <= n < text.len() {
        match i64_of_text(text.skip(n + 1)) {
            Some(chat_id) => if text.take(n) == "accept"@ {
                Some(Verdict::Accept(chat_id))
            } else if text.take(n) == "decline"@ {
                Some(Verdict::Decline(chat_id))
            } else {
                None
            },
            None => None,
        }
    } else {
        None
    }
}

/// What follows from a callback that chat `chat_id` sent with payload `data`,
/// where the administrator's chat is `admin_id`.
pub open spec fn callback_reply(
    admin_id: i64,
    chat_id: i64,
    data: Option<Seq<char>>,
) -> AdminReply {
    verdict_reply(
        admin_id,
        chat_id,
        match data {
            Some(text) => read_callback(text),
            None => None,
        },
    )
}

/// What follows from a verdict that chat `chat_id` sent, where the
/// administrator's chat is `admin_id`: nobody but the administrator decides,
/// and without a verdict nothing is done.
pub open spec fn verdict_reply(
    admin_id: i64,
    chat_id: i64,
    verdict: Option<Verdict>,
) -> AdminReply {
    if chat_id != admin_id {
        AdminReply::NotAdmin
    } else {
        match verdict {
            Some(Verdict::Accept(id)) => AdminReply::Accepted(id),
            Some(Verdict::Decline(id)) => AdminReply::Declined(id),
            None => AdminReply::Nothing,
        }
    }
}

/// The request that goes to the language model: the system instruction, the
/// rolling context and the new message of the user.
pub open spec fn request_of(context: Seq<Message>, text: Seq<char>) -> Seq<Message> {
    seq![(Role::System, SYSTEM_PROMPT@)] + context + seq![(Role::User, text)]
}

/// The payloads that `start` writes are read back as the verdicts that they
/// stand for.
pub proof fn lemma_buttons_are_understood(chat_id: i64)
    ensures
        read_callback(accept_text(chat_id)) == Some(Verdict::Accept(chat_id)),
        read_callback(decline_text(chat_id)) == Some(Verdict::Decline(chat_id)),
{
    reveal_strlit("accept-");
    reveal_strlit("decline-");
    reveal_strlit("accept");
    reveal_strlit("decline");
    lemma_i64_round_trip(chat_id);
    let id = int_text(chat_id as int);
    let accept = accept_text(chat_id);
    lemma_first_separator_is(accept, Separator::Hyphen, 6);
    assert(accept.take(6) =~= "accept"@);
    assert(accept.skip(7) =~= id);
    let decline = decline_text(chat_id);
    lemma_first_separator_is(decline, Separator::Hyphen, 7);
    assert(decline.take(7) =~= "decline"@);
    assert(decline.skip(8) =~= id);
}

/// Reads a callback payload.
pub fn parse_callback(text: &str) -> (verdict: Option<Verdict>)
    ensures
        verdict == read_callback(text@),
{
    let chars = chars_of(text);
    let n: usize = find_separator(&chars, 0, chars.len(), Separator::Hyphen);
    assert(chars@.subrange(0, chars.len() as int) == text@);
    if n == chars.len() {
        return None;
    }
    assert(text@.skip(n + 1) == chars@.subrange(n + 1, chars.len() as int));
    let chat_id = match read_i64(&chars, n + 1, chars.len()) {
        Some(chat_id) => chat_id,
        None => {
            return None;
        },
    };
    let verb = String::from_str(text.substring_char(0, n));
    assert(verb@ == text@.take(n as int));
    if verb == String::from_str("accept") {
        Some(Verdict::Accept(chat_id))
    } else if verb == String::from_str("decline") {
        Some(Verdict::Decline(chat_id))
    } else {
        None
    }
}

/// The payloads of the two buttons that `start` puts before the
/// administrator.
pub struct Buttons {
    pub accept: String,
    pub decline: String,
}

/// A new user wrote to the bot: the session is registered, and the
/// administrator is to be asked with two buttons.
pub fn start(db: &mut KindaDb, chat_id: i64) -> (out: (Buttons, Vec<FileOp>))
    ensures
        final(db).root() == old(db).root(),
        final(db)@ == registered(old(db)@, chat_id),
        saves(effects(out.1@), Seq::empty(), final(db).root(), final(db)@),
        out.0.accept@ == accept_text(chat_id),
        out.0.decline@ == decline_text(chat_id),
{
    let ops = db.register(chat_id);
    let mut accept = String::from_str("accept-");
    push_i64(&mut accept, chat_id);
    let mut decline = String::from_str("decline-");
    push_i64(&mut decline, chat_id);
    (Buttons { accept, decline }, ops)
}

/// The user asked for a new conversation at time `now`. An approved session
/// is reset, and the user is to be told; for any other nothing happens.
pub fn new_chat(db: &mut KindaDb, chat_id: i64, now: u64) -> (ops: Option<Vec<FileOp>>)
    ensures
        final(db).root() == old(db).root(),
        ops is Some == accepted(old(db)@, chat_id),
        ops is Some ==> final(db)@ == confirmed(old(db)@, chat_id, now) && saves(
            effects(ops->0@),
            seq![Effect::Remove { path: log_path(final(db).root(), chat_id) }],
            final(db).root(),
            final(db)@,
        ),
        ops is None ==> final(db)@ == old(db)@,
{
    if db.is_accepted(chat_id) {
        Some(db.reset_chat(chat_id, now))
    } else {
        None
    }
}

/// The administrator, or somebody else, pressed a button at time `now`.
pub fn admin_callback(
    db: &mut KindaDb,
    admin_id: i64,
    chat_id: i64,
    data: Option<&str>,
    now: u64,
) -> (out: (AdminReply, Vec<FileOp>))
    ensures
        final(db).root() == old(db).root(),
        out.0 == callback_reply(
            admin_id,
            chat_id,
            match data {
                Some(text) => Some(text@),
                None => None,
            },
        ),
        (match out.0 {
            AdminReply::Accepted(id) => final(db)@ == confirmed(old(db)@, id, now) && saves(
                effects(out.1@),
                seq![Effect::Remove { path: log_path(final(db).root(), id) }],
                final(db).root(),
                final(db)@,
            ),
            AdminReply::Declined(id) => final(db)@ == deleted(old(db)@, id) && saves(
                effects(out.1@),
                seq![Effect::Remove { path: log_path(final(db).root(), id) }],
                final(db).root(),
                final(db)@,
            ),
            _ => final(db)@ == old(db)@ && out.1@.len() == 0,
        }),
{
    let verdict = match data {
        Some(text) => parse_callback(text),
        None => None,
    };
    apply_verdict(db, admin_id, chat_id, verdict, now)
}

/// Chat `chat_id` sent a verdict at time `now`, or a press that holds none.
/// This is `admin_callback` for a payload that has been read already.
pub fn apply_verdict(
    db: &mut KindaDb,
    admin_id: i64,
    chat_id: i64,
    verdict: Option<Verdict>,
    now: u64,
) -> (out: (AdminReply, Vec<FileOp>))
    ensures
        final(db).root() == old(db).root(),
        out.0 == verdict_reply(admin_id, chat_id, verdict),
        (match out.0 {
            AdminReply::Accepted(id) => final(db)@ == confirmed(old(db)@, id, now) && saves(
                effects(out.1@),
                seq![Effect::Remove { path: log_path(final(db).root(), id) }],
                final(db).root(),
                final(db)@,
            ),
            AdminReply::Declined(id) => final(db)@ == deleted(old(db)@, id) && saves(
                effects(out.1@),
                seq![Effect::Remove { path: log_path(final(db).root(), id) }],
                final(db).root(),
                final(db)@,
            ),
            _ => final(db)@ == old(db)@ && out.1@.len() == 0,
        }),
{
    if chat_id != admin_id {
        return (AdminReply::NotAdmin, Vec::new());
    }
    match verdict {
        Some(Verdict::Accept(id)) => {
            let ops = db.confirm(id, now);
            (AdminReply::Accepted(id), ops)
        },
        Some(Verdict::Decline(id)) => {
            let ops = db.delete(id);
            (AdminReply::Declined(id), ops)
        },
        None => (AdminReply::Nothing, Vec::new()),
    }
}

/// The membership of a user changed. Whoever is no longer a member is
/// forgotten.
pub fn chat_member(db: &mut KindaDb, member: bool, chat_id: i64) -> (ops: Vec<FileOp>)
    ensures
        final(db).root() == old(db).root(),
        member ==> final(db)@ == old(db)@ && ops@.len() == 0,
        !member ==> final(db)@ == deleted(old(db)@, chat_id) && saves(
            effects(ops@),
            seq![Effect::Remove { path: log_path(final(db).root(), chat_id) }],
            final(db).root(),
            final(db)@,
        ),
{
    if member {
        Vec::new()
    } else {
        db.delete(chat_id)
    }
}

/// A user wrote `text` at time `now`. For an approved session this gives the
/// request for the language model; for any other it gives `None`, and the
/// user is to be told that the approval is pending.
///
/// The message itself and the replies are added to the transcript with
/// `add_to_chat` once the language model has answered.
pub fn chat_msg(db: &mut KindaDb, chat_id: i64, text: &str, now: u64) -> (out: (
    Option<Vec<RoleMessage>>,
    Vec<FileOp>,
))
    ensures
        final(db).root() == old(db).root(),
        final(db)@ == refreshed(old(db)@, chat_id, now),
        out.0 is Some == accepted(old(db)@, chat_id),
        out.0 is Some ==> messages(out.0->0@) == request_of(
            rolling_context(old(db)@, chat_id, now),
            text@,
        ),
        expired(old(db)@, chat_id, now) ==> saves(
            effects(out.1@),
            seq![Effect::Remove { path: log_path(final(db).root(), chat_id) }],
            final(db).root(),
            final(db)@,
        ),
        !expired(old(db)@, chat_id, now) ==> out.1@.len() == 0,
{
    if !db.is_accepted(chat_id) {
        return (None, Vec::new());
    }
    let (context, ops) = db.chat_prev(chat_id, now);
    let mut request: Vec<RoleMessage> = Vec::new();
    request.push(RoleMessage::new(Role::System, String::from_str(SYSTEM_PROMPT)));
    let mut context = context;
    let ghost middle = messages(context@);
    request.append(&mut context);
    request.push(RoleMessage::new(Role::User, String::from_str(text)));
    assert(messages(request@) =~= request_of(middle, text@));
    (Some(request), ops)
}

} // verus!
