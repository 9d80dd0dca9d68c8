//! Decimal text of integers: how identifiers and markers are written into the
//! index snapshot and into file names, and how they are read back.

use vstd::prelude::*;
use vstd::string::*;

verus! {

pub open spec fn is_digit(c: char) -> bool {
    '0' <= c <= '9'
}

/// The digit that stands for a number below ten.
pub open spec fn digit(d: int) -> char {
    (d + 48) as u8 as char
}

pub open spec fn digit_value(c: char) -> int {
    c as int - 48
}

pub open spec fn all_digits(s: Seq<char>) -> bool {
    forall|i: int| 0 <= i < s.len() ==> is_digit(#[trigger] s[i])
}

/// The number that a run of digits denotes, most significant digit first.
pub open spec fn digits_value(s: Seq<char>) -> nat
    decreases s.len(),
{
    if s.len() == 0 {
        0
    } else {
        (digits_value(s.drop_last()) * 10 + digit_value(s.last())) as nat
    }
}

/// The shortest run of digits that denotes `n`.
pub open spec fn nat_text(n: nat) -> Seq<char>
    decreases n,
{
    if n < 10 {
        seq![digit(n as int)]
    } else {
        nat_text(n / 10).push(digit((n % 10) as int))
    }
}

/// The decimal text of an integer: a minus sign for a negative one, then its
/// magnitude without leading zeros.
pub open spec fn int_text(n: int) -> Seq<char> {
    if n < 0 {
        seq!['-'] + nat_text((-n) as nat)
    } else {
        nat_text(n as nat)
    }
}

/// What a text denotes when read as an unsigned decimal number: an optional
/// plus sign, then one or more digits and nothing else.
pub open spec fn unsigned_value(s: Seq<char>) -> Option<nat> {
    let body = if s.len() > 0 && s[0] == '+' {
        s.skip(1)
    } else {
        s
    };
    if body.len() > 0 && all_digits(body) {
        Some(digits_value(body))
    } else {
        None
    }
}

/// What a text denotes when read as a signed decimal number: an optional plus
/// or minus sign, then one or more digits and nothing else.
pub open spec fn signed_value(s: Seq<char>) -> Option<int> {
    if s.len() > 0 && s[0] == '-' {
        let body = s.skip(1);
        if body.len() > 0 && all_digits(body) {
            Some(-(digits_value(body) as int))
        } else {
            None
        }
    } else {
        match unsigned_value(s) {
            Some(v) => Some(v as int),
            None => None,
        }
    }
}

/// The `u64` that a text denotes; `None` where it denotes no number or one
/// that does not fit.
pub open spec fn u64_of_text(s: Seq<char>) -> Option<u64> {
    match unsigned_value(s) {
        Some(v) => if v <= u64::MAX {
            Some(v as u64)
        } else {
            None
        },
        None => None,
    }
}

/// The `i64` that a text denotes; `None` where it denotes no number or one
/// that does not fit.
pub open spec fn i64_of_text(s: Seq<char>) -> Option<i64> {
    match signed_value(s) {
        Some(v) => if i64::MIN <= v <= i64::MAX {
            Some(v as i64)
        } else {
            None
        },
        None => None,
    }
}

/// A run of digits denotes at least what any of its prefixes denotes.
pub proof fn lemma_prefix_value(s: Seq<char>, k: int)
    requires
        all_digits(s),
        0 <= k <= s.len(),
    ensures
        digits_value(s.take(k)) <= digits_value(s),
    decreases s.len() - k,
{
    if k == s.len() {
        assert(s.take(k) == s);
    } else {
        let front = s.drop_last();
        assert(front.take(k) == s.take(k));
        assert(is_digit(s.last()));
        lemma_prefix_value(front, k);
    }
}

/// The text of a number is made of digits, denotes that number, and starts
/// with a zero only where the number is zero.
pub proof fn lemma_nat_text(n: nat)
    ensures
        nat_text(n).len() > 0,
        all_digits(nat_text(n)),
        digits_value(nat_text(n)) == n,
        nat_text(n)[0] == '0' ==> n == 0,
    decreases n,
{
    if n < 10 {
        let s = nat_text(n);
        assert(s.drop_last().len() == 0);
        assert(digits_value(s.drop_last()) == 0);
    } else {
        lemma_nat_text(n / 10);
        let front = nat_text(n / 10);
        let s = nat_text(n);
        assert(s.drop_last() == front);
        assert(s.last() == digit((n % 10) as int));
        assert(s[0] == front[0]);
    }
}

/// The text of an integer is not empty and holds digits and, for a negative
/// one, a minus sign; never white space.
pub proof fn lemma_int_text_chars(n: int)
    ensures
        int_text(n).len() > 0,
        forall|i: int|
            0 <= i < int_text(n).len() ==> is_digit(#[trigger] int_text(n)[i]) || int_text(n)[i]
                == '-',
{
    if n < 0 {
        lemma_nat_text((-n) as nat);
        let digits = nat_text((-n) as nat);
        assert forall|i: int| 0 <= i < int_text(n).len() implies is_digit(
            #[trigger] int_text(n)[i],
        ) || int_text(n)[i] == '-' by {
            if i > 0 {
                assert(int_text(n)[i] == digits[i - 1]);
            }
        }
    } else {
        lemma_nat_text(n as nat);
    }
}

/// Reading the text of a `u64` gives the number back.
pub proof fn lemma_u64_round_trip(n: u64)
    ensures
        u64_of_text(nat_text(n as nat)) == Some(n),
{
    lemma_nat_text(n as nat);
    let s = nat_text(n as nat);
    assert(is_digit(s[0]));
}

/// Reading the text of an `i64` gives the number back.
pub proof fn lemma_i64_round_trip(n: i64)
    ensures
        i64_of_text(int_text(n as int)) == Some(n),
{
    if n < 0 {
        let m = (-n) as nat;
        lemma_nat_text(m);
        let s = int_text(n as int);
        assert(s.skip(1) == nat_text(m));
    } else {
        lemma_nat_text(n as nat);
        let s = nat_text(n as nat);
        assert(is_digit(s[0]));
    }
}

fn digit_str(d: u64) -> (text: &'static str)
    requires
        d < 10,
    ensures
        text@ == seq![digit(d as int)],
{
    proof {
        reveal_strlit("0");
        reveal_strlit("1");
        reveal_strlit("2");
        reveal_strlit("3");
        reveal_strlit("4");
        reveal_strlit("5");
        reveal_strlit("6");
        reveal_strlit("7");
        reveal_strlit("8");
        reveal_strlit("9");
    }
    let text = if d == 0 {
        "0"
    } else if d == 1 {
        "1"
    } else if d == 2 {
        "2"
    } else if d == 3 {
        "3"
    } else if d == 4 {
        "4"
    } else if d == 5 {
        "5"
    } else if d == 6 {
        "6"
    } else if d == 7 {
        "7"
    } else if d == 8 {
        "8"
    } else {
        "9"
    };
    assert(text@ =~= seq![digit(d as int)]);
    text
}

/// Appends the decimal text of `n`.
pub fn push_u64(out: &mut String, n: u64)
    ensures
        final(out)@ == old(out)@ + nat_text(n as nat),
    decreases n,
{
    if n >= 10 {
        push_u64(out, n / 10);
    }
    out.append(digit_str(n % 10));
    assert(out@ =~= old(out)@ + nat_text(n as nat));
}

/// Appends the decimal text of `n`.
pub fn push_i64(out: &mut String, n: i64)
    ensures
        final(out)@ == old(out)@ + int_text(n as int),
{
    if n < 0 {
        proof {
            reveal_strlit("-");
        }
        out.append("-");
        let magnitude: u64 = if n == i64::MIN {
            9223372036854775808
        } else {
            (-n) as u64
        };
        push_u64(out, magnitude);
        assert(out@ =~= old(out)@ + int_text(n as int));
    } else {
        push_u64(out, n as u64);
    }
}

/// Reads the digits `chars[lo..hi]` as a number that is at most `limit`.
fn read_digits(chars: &Vec<char>, lo: usize, hi: usize, limit: u64) -> (value: Option<u64>)
    requires
        lo <= hi <= chars.len(),
    ensures
        value == ({
            let s = chars@.subrange(lo as int, hi as int);
            if s.len() > 0 && all_digits(s) && digits_value(s) <= limit {
                Some(digits_value(s) as u64)
            } else {
                None
            }
        }),
{
    let ghost s = chars@.subrange(lo as int, hi as int);
    if lo == hi {
        return None;
    }
    let mut acc: u64 = 0;
    let mut i: usize = lo;
    while i < hi
        invariant
            lo <= i <= hi <= chars.len(),
            s == chars@.subrange(lo as int, hi as int),
            all_digits(s.take(i - lo)),
            acc == digits_value(s.take(i - lo)),
            acc <= limit,
        decreases hi - i,
    {
        let c = chars[i];
        assert(c == s[i - lo]);
        if c < '0' || c > '9' {
            return None;
        }
        let d: u64 = (c as u64) - 48;
        let next: u128 = (acc as u128) * 10 + (d as u128);
        proof {
            let longer = s.take(i - lo + 1);
            assert(longer.drop_last() == s.take(i - lo));
            assert(longer.last() == c);
            assert(all_digits(longer));
            assert(digits_value(longer) == next);
            if all_digits(s) {
                lemma_prefix_value(s, i - lo + 1);
            }
        }
        if next > limit as u128 {
            return None;
        }
        acc = next as u64;
        i = i + 1;
    }
    assert(s.take(i - lo) == s);
    Some(acc)
}

/// Reads `chars[lo..hi]` as a `u64`: an optional plus sign, then digits.
pub fn read_u64(chars: &Vec<char>, lo: usize, hi: usize) -> (value: Option<u64>)
    requires
        lo <= hi <= chars.len(),
    ensures
        value == u64_of_text(chars@.subrange(lo as int, hi as int)),
{
    let ghost s = chars@.subrange(lo as int, hi as int);
    let start: usize = if lo < hi && chars[lo] == '+' {
        lo + 1
    } else {
        lo
    };
    proof {
        if start > lo {
            assert(s.skip(1) == chars@.subrange(start as int, hi as int));
        }
    }
    read_digits(chars, start, hi, u64::MAX)
}

/// Reads `chars[lo..hi]` as an `i64`: an optional sign, then digits.
pub fn read_i64(chars: &Vec<char>, lo: usize, hi: usize) -> (value: Option<i64>)
    requires
        lo <= hi <= chars.len(),
    ensures
        value == i64_of_text(chars@.subrange(lo as int, hi as int)),
{
    let ghost s = chars@.subrange(lo as int, hi as int);
    if lo < hi && chars[lo] == '-' {
        assert(s.skip(1) == chars@.subrange(lo + 1, hi as int));
        match read_digits(chars, lo + 1, hi, 9223372036854775808) {
            Some(magnitude) => if magnitude == 9223372036854775808 {
                Some(i64::MIN)
            } else {
                Some(-(magnitude as i64))
            },
            None => None,
        }
    } else {
        let start: usize = if lo < hi && chars[lo] == '+' {
            lo + 1
        } else {
            lo
        };
        proof {
            if start > lo {
                assert(s.skip(1) == chars@.subrange(start as int, hi as int));
            }
        }
        match read_digits(chars, start, hi, 9223372036854775807) {
            Some(magnitude) => Some(magnitude as i64),
            None => None,
        }
    }
}

} // verus!
