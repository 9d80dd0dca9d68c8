//! Messages and the transcript log: the text in which the messages of one
//! session are kept on disk, one after the other.
//!
//! A message is written as its role tag, the delimiter, its content and the
//! delimiter again. Nothing is escaped: a content that is empty or holds the
//! delimiter cannot be read back as it was written.

use vstd::prelude::*;
use vstd::string::*;
use crate::role::{role_from_json, role_json, tags_read_back, Role};
use crate::text::{
    chars_of,
    cut,
    fields,
    free_of,
    lemma_fields_after,
    lemma_fields_whole,
    split_fields,
    Separator,
};

verus! {

/// One message of a conversation.
#[derive(Clone, Debug, PartialEq, Eq)]
pub struct RoleMessage {
    pub role: Role,
    pub content: String,
}

/// A message as contracts see it: its role and the characters of its content.
pub type Message = (Role, Seq<char>);

impl View for RoleMessage {
    type V = Message;

    open spec fn view(&self) -> Message {
        (self.role, self.content@)
    }
}

/// A list of messages as contracts see it.
pub open spec fn messages(list: Seq<RoleMessage>) -> Seq<Message> {
    Seq::new(list.len(), |k: int| list[k]@)
}

/// The text that one message adds to a transcript log.
pub open spec fn record_text(message: Message) -> Seq<char> {
    role_json(message.0) + Separator::Delimiter.text() + message.1 + Separator::Delimiter.text()
}

/// The transcript log of a list of messages.
pub open spec fn transcript_text(list: Seq<Message>) -> Seq<char>
    decreases list.len(),
{
    if list.len() == 0 {
        Seq::empty()
    } else {
        record_text(list[0]) + transcript_text(list.drop_first())
    }
}

/// One more message adds its record at the end of the transcript log.
pub proof fn lemma_transcript_push(list: Seq<Message>, message: Message)
    ensures
        transcript_text(list.push(message)) == transcript_text(list) + record_text(message),
    decreases list.len(),
{
    let longer = list.push(message);
    if list.len() == 0 {
        assert(longer.drop_first() == Seq::<Message>::empty());
        assert(transcript_text(Seq::<Message>::empty()) == Seq::<char>::empty());
        assert(transcript_text(longer) =~= transcript_text(list) + record_text(message));
    } else {
        lemma_transcript_push(list.drop_first(), message);
        assert(longer.drop_first() == list.drop_first().push(message));
        assert(transcript_text(longer) =~= transcript_text(list) + record_text(message));
    }
}

/// The messages that a transcript log holds: its fields, taken two by two as
/// a role tag and a content. `None` where a field is left over or a tag is not
/// read as a role.
pub open spec fn read_transcript(text: Seq<char>) -> Option<Seq<Message>> {
    let f = fields(text, Separator::Delimiter);
    if f.len() % 2 == 0 && (forall|k: int|
        0 <= k < f.len() / 2 ==> (#[trigger] role_from_json(f[2 * k])) is Some) {
        Some(Seq::new((f.len() / 2) as nat, |k: int| (role_from_json(f[2 * k])->0, f[2 * k + 1])))
    } else {
        None
    }
}

/// Whether a message can be read back from a transcript log: its content is
/// not empty and holds no delimiter.
pub open spec fn is_legible(message: Message) -> bool {
    message.1.len() > 0 && free_of(message.1, Separator::Delimiter)
}

/// The fields of the transcript log of a list of messages: for each message
/// its role tag and its content.
pub open spec fn transcript_fields(list: Seq<Message>) -> Seq<Seq<char>> {
    Seq::new(
        2 * list.len(),
        |j: int|
            if j % 2 == 0 {
                role_json(list[j / 2].0)
            } else {
                list[j / 2].1
            },
    )
}

/// A role tag is not empty and holds no delimiter.
pub proof fn lemma_tag_is_one_field(role: Role)
    ensures
        role_json(role).len() > 0,
        free_of(role_json(role), Separator::Delimiter),
{
    reveal_strlit("\"system\"");
    reveal_strlit("\"user\"");
    reveal_strlit("\"assistant\"");
    reveal_strlit("\"tool\"");
    reveal_strlit("\"function\"");
    let tag = role_json(role);
    assert forall|j: int| !#[trigger] Separator::Delimiter.at(tag, j) by {
        if 0 <= j && j + 4 <= tag.len() {
            assert(tag[j + 3] != '\n');
        }
    }
}

/// The transcript log of legible messages divides into their role tags and
/// contents.
pub proof fn lemma_transcript_fields(list: Seq<Message>)
    requires
        forall|k: int| 0 <= k < list.len() ==> is_legible(#[trigger] list[k]),
    ensures
        fields(transcript_text(list), Separator::Delimiter) == transcript_fields(list),
    decreases list.len(),
{
    let sep = Separator::Delimiter;
    if list.len() == 0 {
        lemma_fields_whole(Seq::<char>::empty(), sep);
        assert(transcript_fields(list) =~= Seq::<Seq<char>>::empty());
    } else {
        let rest = list.drop_first();
        let (role, content) = list[0];
        let tag = role_json(role);
        let tail = transcript_text(rest);
        assert forall|k: int| 0 <= k < rest.len() implies is_legible(#[trigger] rest[k]) by {
            assert(rest[k] == list[k + 1]);
        }
        lemma_transcript_fields(rest);
        lemma_tag_is_one_field(role);
        assert(is_legible(list[0]));
        lemma_fields_after(content, sep, tail);
        lemma_fields_after(tag, sep, content + sep.text() + tail);
        assert(transcript_text(list) =~= tag + sep.text() + (content + sep.text() + tail));
        let f = transcript_fields(list);
        let g = seq![tag] + (seq![content] + transcript_fields(rest));
        assert(f =~= g) by {
            assert(f.len() == g.len());
            assert forall|j: int| 0 <= j < f.len() implies f[j] == g[j] by {
                if j >= 2 {
                    assert(g[j] == transcript_fields(rest)[j - 2]);
                    assert((j - 2) / 2 == j / 2 - 1);
                    assert(rest[(j - 2) / 2] == list[j / 2]);
                }
            }
        }
    }
}

/// The transcript log of legible messages is read back as those messages,
/// given that the role tags are read back.
pub proof fn lemma_transcript_reads_back(list: Seq<Message>)
    requires
        forall|k: int| 0 <= k < list.len() ==> is_legible(#[trigger] list[k]),
        tags_read_back(),
    ensures
        read_transcript(transcript_text(list)) == Some(list),
{
    lemma_transcript_fields(list);
    let f = fields(transcript_text(list), Separator::Delimiter);
    assert forall|k: int| 0 <= k < f.len() / 2 implies (#[trigger] role_from_json(
        f[2 * k],
    )) is Some by {
        assert(f[2 * k] == role_json(list[k].0));
    }
    let read = read_transcript(transcript_text(list))->0;
    assert(read =~= list) by {
        assert forall|k: int| 0 <= k < list.len() implies read[k] == list[k] by {
            assert(f[2 * k] == role_json(list[k].0));
            assert(f[2 * k + 1] == list[k].1);
        }
    }
}

impl RoleMessage {
    /// The message in which `role` says `content`.
    pub fn new(role: Role, content: String) -> (message: RoleMessage)
        ensures
            message@ == (role, content@),
    {
        RoleMessage { role, content }
    }

    /// A copy of the message.
    pub fn duplicate(&self) -> (copy: RoleMessage)
        ensures
            copy@ == self@,
    {
        RoleMessage { role: self.role, content: self.content.clone() }
    }

    /// The text that appending this message adds to the transcript log.
    pub fn record(&self) -> (text: String)
        ensures
            text@ == record_text(self@),
    {
        proof {
            reveal_strlit("***\n");
        }
        let mut text = self.role.to_json();
        text.append("***\n");
        text.append(self.content.as_str());
        text.append("***\n");
        assert(text@ =~= record_text(self@));
        text
    }
}

/// A copy of a list of messages.
pub fn duplicate_all(list: &Vec<RoleMessage>) -> (copy: Vec<RoleMessage>)
    ensures
        messages(copy@) == messages(list@),
{
    let mut copy: Vec<RoleMessage> = Vec::new();
    let mut k: usize = 0;
    while k < list.len()
        invariant
            k <= list.len(),
            copy.len() == k,
            forall|j: int| 0 <= j < k ==> copy[j]@ == list[j]@,
        decreases list.len() - k,
    {
        copy.push(list[k].duplicate());
        k = k + 1;
    }
    assert(messages(copy@) =~= messages(list@));
    copy
}

/// The transcript log of a list of messages, written in one piece.
pub fn transcript_log(list: &Vec<RoleMessage>) -> (text: String)
    ensures
        text@ == transcript_text(messages(list@)),
{
    let mut text = String::new();
    let mut k: usize = 0;
    assert(messages(list@).take(0) =~= Seq::<Message>::empty());
    while k < list.len()
        invariant
            k <= list.len(),
            text@ == transcript_text(messages(list@).take(k as int)),
        decreases list.len() - k,
    {
        let record = list[k].record();
        proof {
            let done = messages(list@).take(k as int);
            lemma_transcript_push(done, list[k as int]@);
            assert(done.push(list[k as int]@) =~= messages(list@).take(k + 1));
        }
        text.append(record.as_str());
        k = k + 1;
    }
    assert(messages(list@).take(k as int) =~= messages(list@));
    text
}

/// Reads a transcript log. `None` where the log is corrupt: a field is left
/// over, or a role tag is not read as a role.
pub fn parse_transcript(text: &str) -> (list: Option<Vec<RoleMessage>>)
    ensures
        (match list {
            Some(l) => read_transcript(text@) == Some(messages(l@)),
            None => read_transcript(text@) is None,
        }),
{
    let chars = chars_of(text);
    let ranges = split_fields(&chars, 0, chars.len(), Separator::Delimiter);
    let ghost f = fields(text@, Separator::Delimiter);
    assert(chars@.subrange(0, chars.len() as int) == text@);
    assert(f.len() == ranges.len());
    if ranges.len() % 2 != 0 {
        return None;
    }
    let count: usize = ranges.len() / 2;
    let mut list: Vec<RoleMessage> = Vec::new();
    let mut k: usize = 0;
    while k < count
        invariant
            k <= count,
            count * 2 == ranges.len(),
            chars@ == text@,
            f == fields(text@, Separator::Delimiter),
            f == cut(chars@, ranges@),
            forall|j: int| 0 <= j < ranges.len() ==> (#[trigger] ranges[j]).0 < ranges[j].1
                <= chars.len(),
            list.len() == k,
            forall|j: int|
                0 <= j < k ==> role_from_json(f[2 * j]) == Some((#[trigger] list[j]).role)
                    && list[j].content@ == f[2 * j + 1],
        decreases count - k,
    {
        let tag = ranges[2 * k];
        let body = ranges[2 * k + 1];
        assert(f[2 * k] == text@.subrange(tag.0 as int, tag.1 as int));
        assert(f[2 * k + 1] == text@.subrange(body.0 as int, body.1 as int));
        match Role::from_json(text.substring_char(tag.0, tag.1)) {
            Some(role) => {
                let content = String::from_str(text.substring_char(body.0, body.1));
                list.push(RoleMessage { role, content });
            },
            None => {
                assert(role_from_json(f[2 * k as int]) is None);
                return None;
            },
        }
        k = k + 1;
    }
    proof {
        assert forall|j: int| 0 <= j < f.len() / 2 implies (#[trigger] role_from_json(
            f[2 * j],
        )) is Some by {
            assert(role_from_json(f[2 * j]) == Some(list[j].role));
        }
        assert(read_transcript(text@)->0 =~= messages(list@));
    }
    Some(list)
}

} // verus!
