//! Reading the outcome ranges that an author types when writing a move:
//! `6` (at most 6), `7-9` (7 to 9) and `10+` (at least 10).

use vstd::prelude::*;
use crate::moves::Matcher;
use crate::text::{all_digits, digits_value, is_digit};

verus! {

/// How many decimal digits `s` starts with.
pub open spec fn lead_len(s: Seq<char>) -> nat
    decreases s.len(),
{
    if s.len() == 0 || !is_digit(s[0]) {
        0
    } else {
        1 + lead_len(s.drop_first())
    }
}

/// The number that `s` starts with (0 where it starts with no digit; the
/// largest `i32` where it is larger), and the text after it.
pub open spec fn read_num(s: Seq<char>) -> (int, Seq<char>) {
    let v = digits_value(s.take(lead_len(s) as int));
    (
        if v > i32::MAX {
            i32::MAX as int
        } else {
            v
        },
        s.skip(lead_len(s) as int),
    )
}

/// The band that a range text stands for.
pub open spec fn matcher_of(s: Seq<char>) -> Matcher {
    let (first, rest) = read_num(s);
    if rest.len() > 0 && rest[0] == '+' {
        Matcher::AtLeast(first as i32)
    } else if rest.len() > 1 {
        Matcher::Between(first as i32, read_num(rest.drop_first()).0 as i32)
    } else {
        Matcher::AtMost(first as i32)
    }
}

proof fn lemma_lead_len(s: Seq<char>, i: int)
    requires
        0 <= i <= s.len(),
        all_digits(s.take(i)),
        i == s.len() || !is_digit(s[i]),
    ensures
        lead_len(s) == i,
    decreases i,
{
    if i > 0 {
        let t = s.drop_first();
        assert(s.take(i)[0] == s[0]);
        assert(all_digits(t.take(i - 1))) by {
            assert forall|j: int| 0 <= j < i - 1 implies is_digit(#[trigger] t.take(i - 1)[j]) by {
                assert(t.take(i - 1)[j] == s.take(i)[j + 1]);
            }
        }
        if i < s.len() {
            assert(t[i - 1] == s[i]);
        }
        lemma_lead_len(t, i - 1);
    }
}

/// Reads the number that `line` starts with, and returns the text after it.
pub fn num(line: &str) -> (r: (i32, &str))
    ensures
        r.0 as int == read_num(line@).0,
        r.1@ == read_num(line@).1,
{
    let n = line.unicode_len();
    let mut acc: i64 = 0;
    let mut i: usize = 0;
    let ghost s = line@;
    assert(s.take(0) =~= Seq::<char>::empty());
    while i < n && '0' <= line.get_char(i) && line.get_char(i) <= '9'
        invariant
            s == line@,
            n == s.len(),
            i <= n,
            all_digits(s.take(i as int)),
            0 <= digits_value(s.take(i as int)),
            0 <= acc <= i32::MAX + 1,
            acc == if digits_value(s.take(i as int)) > i32::MAX {
                i32::MAX + 1
            } else {
                digits_value(s.take(i as int))
            },
        decreases n - i,
    {
        let c = line.get_char(i);
        let ghost prev = s.take(i as int);
        let ghost next = s.take(i + 1);
        assert(next.drop_last() =~= prev);
        assert(next.last() == c);
        assert(all_digits(next)) by {
            assert forall|j: int| 0 <= j < next.len() implies is_digit(#[trigger] next[j]) by {
                if j < prev.len() {
                    assert(next[j] == prev[j]);
                }
            }
        }
        assert(digits_value(next) == digits_value(prev) * 10 + (c as u32) - ('0' as u32));
        let v: i64 = acc * 10 + ((c as u32) as i64 - ('0' as u32) as i64);
        acc = if v > i32::MAX as i64 {
            i32::MAX as i64 + 1
        } else {
            v
        };
        i = i + 1;
    }
    proof {
        if i < n {
            assert(!is_digit(s[i as int]));
        }
        lemma_lead_len(s, i as int);
    }
    let value: i32 = if acc > i32::MAX as i64 {
        i32::MAX
    } else {
        acc as i32
    };
    assert(s.subrange(i as int, n as int) =~= s.skip(i as int));
    (value, line.substring_char(i, n))
}

/// Reads a range text: a number followed by `+` is a lower bound, one
/// followed by a separator and a second number is a range, and a number
/// alone (or followed by one character) is an upper bound.
pub fn matcher(line: &str) -> (r: Matcher)
    ensures
        r == matcher_of(line@),
{
    let (first, rest) = num(line);
    let len = rest.unicode_len();
    if len > 0 && rest.get_char(0) == '+' {
        Matcher::AtLeast(first)
    } else if len > 1 {
        let tail = rest.substring_char(1, len);
        assert(tail@ =~= rest@.drop_first());
        let (second, _) = num(tail);
        Matcher::Between(first, second)
    } else {
        Matcher::AtMost(first)
    }
}

/// The stat a move adds by default, as an author types it: `-Stat`
/// subtracts it, `+Stat` or a bare `Stat` adds it.
pub open spec fn stat_choice_of(s: Seq<char>) -> (Seq<char>, i32) {
    if s.len() > 0 && s[0] == '-' {
        (s.drop_first(), -1i32)
    } else if s.len() > 0 && s[0] == '+' {
        (s.drop_first(), 1i32)
    } else {
        (s, 1i32)
    }
}

/// Reads the stat a move adds by default.
pub fn stat_choice(text: &str) -> (r: (String, i32))
    ensures
        r.0@ == stat_choice_of(text@).0,
        r.1 == stat_choice_of(text@).1,
{
    let n = text.unicode_len();
    if n > 0 && text.get_char(0) == '-' {
        let rest = text.substring_char(1, n);
        assert(rest@ =~= text@.drop_first());
        (rest.to_owned(), -1)
    } else if n > 0 && text.get_char(0) == '+' {
        let rest = text.substring_char(1, n);
        assert(rest@ =~= text@.drop_first());
        (rest.to_owned(), 1)
    } else {
        (text.to_owned(), 1)
    }
}

} // verus!
