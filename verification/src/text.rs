//! Text as a sequence of characters, and its division into fields.

use vstd::prelude::*;

verus! {

/// The characters that Unicode classes as white space.
pub open spec fn is_space(c: char) -> bool {
    let u = c as u32;
    ||| 0x09 <= u <= 0x0d
    ||| u == 0x20
    ||| u == 0x85
    ||| u == 0xa0
    ||| u == 0x1680
    ||| 0x2000 <= u <= 0x200a
    ||| u == 0x2028
    ||| u == 0x2029
    ||| u == 0x202f
    ||| u == 0x205f
    ||| u == 0x3000
}

/// What divides a text into fields.
#[derive(Clone, Copy, Debug, PartialEq, Eq, Structural)]
pub enum Separator {
    /// A line feed: the fields are the lines of an index snapshot.
    LineFeed,
    /// One white-space character: the fields are the words of a line.
    WhiteSpace,
    /// Three asterisks and a line feed: the fields are the role tags and the
    /// message contents of a transcript log.
    Delimiter,
    /// A hyphen: it parts the verb of a callback payload from its identifier.
    Hyphen,
}

impl Separator {
    /// How many characters the separator takes.
    pub open spec fn width(self) -> nat {
        match self {
            Separator::Delimiter => 4,
            _ => 1,
        }
    }

    /// Whether the separator stands in `s` at index `i`.
    pub open spec fn at(self, s: Seq<char>, i: int) -> bool {
        &&& 0 <= i
        &&& i + self.width() <= s.len()
        &&& match self {
            Separator::LineFeed => s[i] == '\n',
            Separator::WhiteSpace => is_space(s[i]),
            Separator::Delimiter => s[i] == '*' && s[i + 1] == '*' && s[i + 2] == '*' && s[i + 3]
                == '\n',
            Separator::Hyphen => s[i] == '-',
        }
    }

    /// The separator written out; for white space, a blank.
    pub open spec fn text(self) -> Seq<char> {
        match self {
            Separator::LineFeed => seq!['\n'],
            Separator::WhiteSpace => seq![' '],
            Separator::Delimiter => seq!['*', '*', '*', '\n'],
            Separator::Hyphen => seq!['-'],
        }
    }
}

/// Where the first separator stands in `s`; the length of `s` where it holds
/// none.
pub open spec fn first_separator(s: Seq<char>, sep: Separator) -> int
    decreases s.len(),
{
    if s.len() == 0 || sep.at(s, 0) {
        0
    } else {
        1 + first_separator(s.skip(1), sep)
    }
}

/// The fields of `s`: the stretches between separators, found from the left,
/// without the empty ones.
pub open spec fn fields(s: Seq<char>, sep: Separator) -> Seq<Seq<char>>
    decreases s.len(),
{
    let n = first_separator(s, sep);
    let head = if n > 0 {
        seq![s.take(n)]
    } else {
        seq![]
    };
    if 0 <= n && n + sep.width() <= s.len() {
        head + fields(s.skip(n + sep.width()), sep)
    } else {
        head
    }
}

/// The stretches of `chars` that a list of index pairs marks.
pub open spec fn cut(chars: Seq<char>, ranges: Seq<(usize, usize)>) -> Seq<Seq<char>> {
    Seq::new(ranges.len(), |k: int| chars.subrange(ranges[k].0 as int, ranges[k].1 as int))
}

/// The first separator stands at the least index at which one stands.
pub proof fn lemma_first_separator(s: Seq<char>, sep: Separator)
    ensures
        0 <= first_separator(s, sep) <= s.len(),
        forall|j: int| 0 <= j < first_separator(s, sep) ==> !sep.at(s, j),
        first_separator(s, sep) < s.len() ==> sep.at(s, first_separator(s, sep)),
    decreases s.len(),
{
    if s.len() == 0 || sep.at(s, 0) {
    } else {
        let rest = s.skip(1);
        lemma_first_separator(rest, sep);
        let n = first_separator(rest, sep);
        assert forall|j: int| 0 <= j < n + 1 implies !sep.at(s, j) by {
            if j > 0 {
                assert(!sep.at(rest, j - 1));
            }
        }
        if n < rest.len() {
            assert(sep.at(rest, n));
        }
    }
}

/// An index with no separator before it, and one at it unless it is the end,
/// is where the first separator stands.
pub proof fn lemma_first_separator_is(s: Seq<char>, sep: Separator, n: int)
    requires
        0 <= n <= s.len(),
        forall|j: int| 0 <= j < n ==> !sep.at(s, j),
        n < s.len() ==> sep.at(s, n),
    ensures
        first_separator(s, sep) == n,
{
    lemma_first_separator(s, sep);
    let m = first_separator(s, sep);
    if m < n {
        assert(sep.at(s, m));
    } else if n < m {
        assert(sep.at(s, n));
    }
}

/// Whether `s` holds no separator.
pub open spec fn free_of(s: Seq<char>, sep: Separator) -> bool {
    forall|j: int| !#[trigger] sep.at(s, j)
}

/// After a stretch that holds no separator, the separator written out is
/// where the first separator stands.
pub proof fn lemma_first_separator_after(p: Seq<char>, sep: Separator, rest: Seq<char>)
    requires
        free_of(p, sep),
    ensures
        first_separator(p + sep.text() + rest, sep) == p.len(),
{
    let s = p + sep.text() + rest;
    let n = p.len() as int;
    assert forall|j: int| 0 <= j < n implies !sep.at(s, j) by {
        if sep.at(s, j) {
            assert(!sep.at(p, j));
            assert(s[j] == p[j]);
            if sep == Separator::Delimiter {
                if j + 4 <= n {
                    assert(s[j + 1] == p[j + 1]);
                    assert(s[j + 2] == p[j + 2]);
                    assert(s[j + 3] == p[j + 3]);
                } else {
                    assert(s[j + 3] == sep.text()[j + 3 - n]);
                }
            }
        }
    }
    assert(sep.at(s, n)) by {
        assert(s[n] == sep.text()[0]);
        if sep == Separator::Delimiter {
            assert(s[n + 1] == sep.text()[1]);
            assert(s[n + 2] == sep.text()[2]);
            assert(s[n + 3] == sep.text()[3]);
        }
    }
    lemma_first_separator_is(s, sep, n);
}

/// A stretch that holds no separator, followed by the separator, is the first
/// field of a text, unless it is empty.
pub proof fn lemma_fields_after(p: Seq<char>, sep: Separator, rest: Seq<char>)
    requires
        free_of(p, sep),
    ensures
        fields(p + sep.text() + rest, sep) == (if p.len() > 0 {
            seq![p]
        } else {
            Seq::<Seq<char>>::empty()
        }) + fields(rest, sep),
{
    let s = p + sep.text() + rest;
    let n = p.len() as int;
    lemma_first_separator_after(p, sep, rest);
    assert(s.take(n) == p);
    assert(s.skip(n + sep.width()) == rest);
}

/// A text that holds no separator is one field, unless it is empty.
pub proof fn lemma_fields_whole(p: Seq<char>, sep: Separator)
    requires
        free_of(p, sep),
    ensures
        fields(p, sep) == (if p.len() > 0 {
            seq![p]
        } else {
            Seq::<Seq<char>>::empty()
        }),
{
    lemma_first_separator_is(p, sep, p.len() as int);
    assert(p.take(p.len() as int) == p);
}

/// The characters of a text, for indexing in constant time.
pub fn chars_of(text: &str) -> (chars: Vec<char>)
    ensures
        chars@ == text@,
{
    let mut chars: Vec<char> = Vec::new();
    for c in it: text.chars()
        invariant
            chars@ == it.seq().take(it.index() as int),
            it.seq() == text@,
    {
        chars.push(c);
    }
    chars
}

/// Whether a character is white space.
pub fn is_white_space(c: char) -> (yes: bool)
    ensures
        yes == is_space(c),
{
    let u: u32 = c as u32;
    (0x09 <= u && u <= 0x0d) || u == 0x20 || u == 0x85 || u == 0xa0 || u == 0x1680 || (0x2000 <= u
        && u <= 0x200a) || u == 0x2028 || u == 0x2029 || u == 0x202f || u == 0x205f || u == 0x3000
}

/// Whether `sep` stands at index `i` of `chars[..hi]`.
fn stands_at(chars: &Vec<char>, i: usize, hi: usize, sep: Separator) -> (yes: bool)
    requires
        i <= hi <= chars.len(),
    ensures
        yes == (i < hi && sep.at(chars@.subrange(0, hi as int), i as int)),
{
    match sep {
        Separator::LineFeed => i < hi && chars[i] == '\n',
        Separator::WhiteSpace => i < hi && is_white_space(chars[i]),
        Separator::Delimiter => hi - i >= 4 && chars[i] == '*' && chars[i + 1] == '*' && chars[i
            + 2] == '*' && chars[i + 3] == '\n',
        Separator::Hyphen => i < hi && chars[i] == '-',
    }
}

/// Finds the first separator in `chars[from..hi]`.
pub fn find_separator(chars: &Vec<char>, from: usize, hi: usize, sep: Separator) -> (end: usize)
    requires
        from <= hi <= chars.len(),
    ensures
        from <= end <= hi,
        end - from == first_separator(chars@.subrange(from as int, hi as int), sep),
{
    let ghost s = chars@.subrange(from as int, hi as int);
    let mut j: usize = from;
    while j < hi && !stands_at(chars, j, hi, sep)
        invariant
            from <= j <= hi <= chars.len(),
            s == chars@.subrange(from as int, hi as int),
            forall|k: int| 0 <= k < j - from ==> !sep.at(s, k),
        decreases hi - j,
    {
        proof {
            lemma_at_shifted(chars@.subrange(0, hi as int), sep, from as int, j as int);
        }
        j = j + 1;
    }
    proof {
        if j < hi {
            lemma_at_shifted(chars@.subrange(0, hi as int), sep, from as int, j as int);
        }
        lemma_first_separator_is(s, sep, j - from);
    }
    j
}

/// A separator stands at an index of a text just when it stands at the
/// matching index of a tail of the text.
pub proof fn lemma_at_shifted(s: Seq<char>, sep: Separator, from: int, j: int)
    requires
        0 <= from <= j <= s.len(),
    ensures
        sep.at(s, j) == sep.at(s.skip(from), j - from),
{
}

/// Divides `chars[lo..hi]` into its fields, each given by the indices at
/// which it starts and ends.
pub fn split_fields(chars: &Vec<char>, lo: usize, hi: usize, sep: Separator) -> (ranges: Vec<
    (usize, usize),
>)
    requires
        lo <= hi <= chars.len(),
    ensures
        cut(chars@, ranges@) == fields(chars@.subrange(lo as int, hi as int), sep),
        forall|k: int| 0 <= k < ranges.len() ==> lo <= (#[trigger] ranges[k]).0 < ranges[k].1 <= hi,
{
    let ghost s = chars@.subrange(lo as int, hi as int);
    let mut ranges: Vec<(usize, usize)> = Vec::new();
    let mut p: usize = lo;
    let mut more = true;
    assert(s.skip(0) == s);
    assert(cut(chars@, ranges@) + fields(s, sep) == fields(s, sep));
    while more
        invariant
            lo <= p <= hi <= chars.len(),
            s == chars@.subrange(lo as int, hi as int),
            forall|k: int|
                0 <= k < ranges.len() ==> lo <= (#[trigger] ranges[k]).0 < ranges[k].1 <= hi,
            fields(s, sep) == cut(chars@, ranges@) + (if more {
                fields(s.skip(p - lo), sep)
            } else {
                Seq::<Seq<char>>::empty()
            }),
        decreases hi - p + (if more { 1int } else { 0int }),
    {
        let ghost rest = s.skip(p - lo);
        let ghost before = ranges@;
        assert(rest == chars@.subrange(p as int, hi as int));
        let end: usize = find_separator(chars, p, hi, sep);
        if end > p {
            ranges.push((p, end));
            assert(rest.take(end - p) == chars@.subrange(p as int, end as int));
            assert(cut(chars@, ranges@) == cut(chars@, before) + seq![rest.take(end - p)]);
        }
        let width: usize = match sep {
            Separator::Delimiter => 4,
            _ => 1,
        };
        if hi - end >= width {
            assert(rest.skip(end - p + width) == s.skip(end + width - lo));
            p = end + width;
        } else {
            more = false;
        }
    }
    ranges
}

} // verus!
