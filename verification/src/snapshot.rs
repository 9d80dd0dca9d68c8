//! The index snapshot: one line for each session, its identifier and its
//! marker in decimal with a blank between them. The marker is zero for a
//! session that is not confirmed, else the time of its last activity.

use vstd::prelude::*;
use vstd::string::*;
use crate::decimal::{
    i64_of_text,
    int_text,
    is_digit,
    lemma_i64_round_trip,
    lemma_int_text_chars,
    lemma_nat_text,
    lemma_u64_round_trip,
    nat_text,
    push_i64,
    push_u64,
    read_i64,
    read_u64,
    u64_of_text,
};
use crate::error::CorruptState;
use crate::text::{
    chars_of,
    cut,
    fields,
    free_of,
    lemma_fields_after,
    lemma_fields_whole,
    split_fields,
    Separator,
};

verus! {

/// An identifier and its marker.
pub type Entry = (i64, u64);

/// The line that an entry takes in the snapshot.
pub open spec fn line_text(entry: Entry) -> Seq<char> {
    int_text(entry.0 as int) + seq![' '] + nat_text(entry.1 as nat) + seq!['\n']
}

/// The snapshot that holds the given entries, one line each, in their order.
pub open spec fn snapshot_text(entries: Seq<Entry>) -> Seq<char>
    decreases entries.len(),
{
    if entries.len() == 0 {
        Seq::empty()
    } else {
        line_text(entries[0]) + snapshot_text(entries.drop_first())
    }
}

/// What a line says: its first two words, read as an identifier and a marker.
/// Words after them do not count.
pub open spec fn read_line(line: Seq<char>) -> Option<Entry> {
    let words = fields(line, Separator::WhiteSpace);
    if words.len() >= 2 {
        match (i64_of_text(words[0]), u64_of_text(words[1])) {
            (Some(id), Some(marker)) => Some((id, marker)),
            _ => None,
        }
    } else {
        None
    }
}

/// What a list of lines says, or the first line that says nothing.
pub open spec fn read_lines(lines: Seq<Seq<char>>) -> Result<Seq<Entry>, CorruptState>
    decreases lines.len(),
{
    if lines.len() == 0 {
        Ok(Seq::empty())
    } else {
        match read_lines(lines.drop_last()) {
            Err(e) => Err(e),
            Ok(entries) => match read_line(lines.last()) {
                Some(entry) => Ok(entries.push(entry)),
                None => Err(CorruptState::Snapshot { line: (lines.len() - 1) as usize }),
            },
        }
    }
}

/// The entries of a snapshot, in the order of its non-empty lines.
pub open spec fn read_snapshot(text: Seq<char>) -> Result<Seq<Entry>, CorruptState> {
    read_lines(fields(text, Separator::LineFeed))
}

/// The sessions that a snapshot lists as confirmed, in its order: those whose
/// transcript logs are read when the table is loaded.
pub open spec fn logged_ids(entries: Seq<Entry>) -> Seq<i64>
    decreases entries.len(),
{
    if entries.len() == 0 {
        Seq::empty()
    } else if entries.last().1 != 0 {
        logged_ids(entries.drop_last()).push(entries.last().0)
    } else {
        logged_ids(entries.drop_last())
    }
}

/// Appends the line of one entry.
pub fn push_line(out: &mut String, id: i64, marker: u64)
    ensures
        final(out)@ == old(out)@ + line_text((id, marker)),
{
    proof {
        reveal_strlit(" ");
        reveal_strlit("\n");
    }
    push_i64(out, id);
    out.append(" ");
    push_u64(out, marker);
    out.append("\n");
    assert(out@ =~= old(out)@ + line_text((id, marker)));
}

/// Reads the line `chars[lo..hi]`.
fn parse_line(chars: &Vec<char>, lo: usize, hi: usize) -> (entry: Option<Entry>)
    requires
        lo <= hi <= chars.len(),
    ensures
        entry == read_line(chars@.subrange(lo as int, hi as int)),
{
    let words = split_fields(chars, lo, hi, Separator::WhiteSpace);
    if words.len() < 2 {
        return None;
    }
    let first = words[0];
    let second = words[1];
    assert(cut(chars@, words@)[0] == chars@.subrange(first.0 as int, first.1 as int));
    assert(cut(chars@, words@)[1] == chars@.subrange(second.0 as int, second.1 as int));
    match (read_i64(chars, first.0, first.1), read_u64(chars, second.0, second.1)) {
        (Some(id), Some(marker)) => Some((id, marker)),
        _ => None,
    }
}

/// Reads an index snapshot. Fails at the first non-empty line that lacks an
/// identifier or a marker.
pub fn parse_snapshot(text: &str) -> (entries: Result<Vec<Entry>, CorruptState>)
    ensures
        (match entries {
            Ok(list) => read_snapshot(text@) == Ok::<Seq<Entry>, CorruptState>(list@),
            Err(e) => read_snapshot(text@) == Err::<Seq<Entry>, CorruptState>(e),
        }),
{
    let chars = chars_of(text);
    let lines = split_fields(&chars, 0, chars.len(), Separator::LineFeed);
    let ghost all = fields(text@, Separator::LineFeed);
    assert(chars@.subrange(0, chars.len() as int) == text@);
    let mut list: Vec<Entry> = Vec::new();
    let mut k: usize = 0;
    assert(all.take(0) == Seq::<Seq<char>>::empty());
    while k < lines.len()
        invariant
            k <= lines.len(),
            all == fields(text@, Separator::LineFeed),
            all == cut(chars@, lines@),
            forall|j: int| 0 <= j < lines.len() ==> (#[trigger] lines[j]).0 < lines[j].1
                <= chars.len(),
            read_lines(all.take(k as int)) == Ok::<Seq<Entry>, CorruptState>(list@),
        decreases lines.len() - k,
    {
        let line = lines[k];
        proof {
            let longer = all.take(k + 1);
            assert(longer.drop_last() == all.take(k as int));
            assert(longer.last() == chars@.subrange(line.0 as int, line.1 as int));
        }
        match parse_line(&chars, line.0, line.1) {
            Some(entry) => {
                list.push(entry);
            },
            None => {
                proof {
                    lemma_read_lines_fails(all, k as int);
                }
                return Err(CorruptState::Snapshot { line: k });
            },
        }
        k = k + 1;
    }
    assert(all.take(k as int) == all);
    Ok(list)
}

/// The sessions whose transcript logs are to be read before the table can be
/// loaded from a snapshot.
pub fn logs_wanted(snapshot: &str) -> (ids: Result<Vec<i64>, CorruptState>)
    ensures
        (match ids {
            Ok(list) => read_snapshot(snapshot@) is Ok && list@ == logged_ids(
                read_snapshot(snapshot@)->Ok_0,
            ),
            Err(e) => read_snapshot(snapshot@) == Err::<Seq<Entry>, CorruptState>(e),
        }),
{
    let entries = match parse_snapshot(snapshot) {
        Ok(entries) => entries,
        Err(e) => {
            return Err(e);
        },
    };
    let mut list: Vec<i64> = Vec::new();
    let mut k: usize = 0;
    assert(entries@.take(0) == Seq::<Entry>::empty());
    while k < entries.len()
        invariant
            k <= entries.len(),
            list@ == logged_ids(entries@.take(k as int)),
        decreases entries.len() - k,
    {
        let entry = entries[k];
        proof {
            let longer = entries@.take(k + 1);
            assert(longer.drop_last() == entries@.take(k as int));
            assert(longer.last() == entry);
        }
        if entry.1 != 0 {
            list.push(entry.0);
        }
        k = k + 1;
    }
    assert(entries@.take(k as int) == entries@);
    Ok(list)
}

/// The line of an entry without the line feed that ends it.
pub open spec fn line_body(entry: Entry) -> Seq<char> {
    int_text(entry.0 as int) + seq![' '] + nat_text(entry.1 as nat)
}

/// A text of digits and minus signs holds no white space.
pub proof fn lemma_number_is_one_word(s: Seq<char>)
    requires
        forall|i: int| 0 <= i < s.len() ==> is_digit(#[trigger] s[i]) || s[i] == '-',
    ensures
        free_of(s, Separator::WhiteSpace),
        free_of(s, Separator::LineFeed),
{
    assert forall|j: int| !#[trigger] Separator::WhiteSpace.at(s, j) by {
        if 0 <= j < s.len() {
            assert(is_digit(s[j]) || s[j] == '-');
        }
    }
    assert forall|j: int| !#[trigger] Separator::LineFeed.at(s, j) by {
        if 0 <= j < s.len() {
            assert(is_digit(s[j]) || s[j] == '-');
        }
    }
}

/// The line of an entry is read back as that entry, and holds no line feed
/// before its end.
pub proof fn lemma_line_reads_back(entry: Entry)
    ensures
        read_line(line_body(entry)) == Some(entry),
        free_of(line_body(entry), Separator::LineFeed),
        line_body(entry).len() > 0,
        line_text(entry) == line_body(entry) + Separator::LineFeed.text(),
{
    let id = int_text(entry.0 as int);
    let mark = nat_text(entry.1 as nat);
    let body = line_body(entry);
    lemma_int_text_chars(entry.0 as int);
    lemma_nat_text(entry.1 as nat);
    lemma_number_is_one_word(id);
    lemma_number_is_one_word(mark);
    lemma_fields_after(id, Separator::WhiteSpace, mark);
    lemma_fields_whole(mark, Separator::WhiteSpace);
    assert(Separator::WhiteSpace.text() == seq![' ']);
    let words = fields(body, Separator::WhiteSpace);
    assert(words == seq![id] + seq![mark]);
    assert(words[0] == id);
    assert(words[1] == mark);
    lemma_i64_round_trip(entry.0);
    lemma_u64_round_trip(entry.1);
    assert forall|j: int| !#[trigger] Separator::LineFeed.at(body, j) by {
        if 0 <= j < body.len() {
            if j < id.len() {
                assert(body[j] == id[j]);
            } else if j == id.len() {
                assert(body[j] == ' ');
            } else {
                assert(body[j] == mark[j - id.len() - 1]);
                assert(is_digit(mark[j - id.len() - 1]));
            }
        }
    }
    assert(line_text(entry) =~= body + Separator::LineFeed.text());
}

/// The lines of a snapshot, as `fields` finds them.
pub open spec fn line_bodies(entries: Seq<Entry>) -> Seq<Seq<char>> {
    Seq::new(entries.len(), |k: int| line_body(entries[k]))
}

/// The non-empty lines of a snapshot are the lines of its entries.
pub proof fn lemma_snapshot_lines(entries: Seq<Entry>)
    ensures
        fields(snapshot_text(entries), Separator::LineFeed) == line_bodies(entries),
    decreases entries.len(),
{
    if entries.len() == 0 {
        lemma_fields_whole(Seq::<char>::empty(), Separator::LineFeed);
        assert(line_bodies(entries) =~= Seq::<Seq<char>>::empty());
    } else {
        let rest = entries.drop_first();
        lemma_snapshot_lines(rest);
        lemma_line_reads_back(entries[0]);
        lemma_fields_after(line_body(entries[0]), Separator::LineFeed, snapshot_text(rest));
        assert(snapshot_text(entries) =~= line_body(entries[0]) + Separator::LineFeed.text()
            + snapshot_text(rest));
        assert(line_bodies(entries) =~= seq![line_body(entries[0])] + line_bodies(rest));
    }
}

/// A snapshot is read back as the entries that it was written from.
pub proof fn lemma_snapshot_reads_back(entries: Seq<Entry>)
    ensures
        read_snapshot(snapshot_text(entries)) == Ok::<Seq<Entry>, CorruptState>(entries),
{
    lemma_snapshot_lines(entries);
    lemma_lines_read_back(entries);
}

/// The lines of entries are read back as those entries.
pub proof fn lemma_lines_read_back(entries: Seq<Entry>)
    ensures
        read_lines(line_bodies(entries)) == Ok::<Seq<Entry>, CorruptState>(entries),
    decreases entries.len(),
{
    let lines = line_bodies(entries);
    if entries.len() == 0 {
        assert(entries =~= Seq::<Entry>::empty());
    } else {
        let front = entries.drop_last();
        lemma_lines_read_back(front);
        lemma_line_reads_back(entries.last());
        assert(lines.drop_last() =~= line_bodies(front));
        assert(lines.last() == line_body(entries.last()));
        assert(front.push(entries.last()) =~= entries);
    }
}

/// One more entry adds its line at the end of the snapshot.
pub proof fn lemma_snapshot_push(entries: Seq<Entry>, entry: Entry)
    ensures
        snapshot_text(entries.push(entry)) == snapshot_text(entries) + line_text(entry),
    decreases entries.len(),
{
    let longer = entries.push(entry);
    if entries.len() == 0 {
        assert(longer.drop_first() == Seq::<Entry>::empty());
        assert(snapshot_text(Seq::<Entry>::empty()) == Seq::<char>::empty());
        assert(snapshot_text(longer) =~= snapshot_text(entries) + line_text(entry));
    } else {
        lemma_snapshot_push(entries.drop_first(), entry);
        assert(longer.drop_first() == entries.drop_first().push(entry));
        assert(snapshot_text(longer) =~= snapshot_text(entries) + line_text(entry));
    }
}

/// Where a list of lines fails, every longer list fails in the same way.
pub proof fn lemma_read_lines_fails(lines: Seq<Seq<char>>, k: int)
    requires
        0 <= k < lines.len(),
        read_lines(lines.take(k + 1)) is Err,
    ensures
        read_lines(lines) == read_lines(lines.take(k + 1)),
    decreases lines.len(),
{
    if k + 1 == lines.len() {
        assert(lines.take(k + 1) == lines);
    } else {
        let front = lines.drop_last();
        assert(front.take(k + 1) == lines.take(k + 1));
        lemma_read_lines_fails(front, k);
    }
}

} // verus!
