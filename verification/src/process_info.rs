//! Reading the output of `pgrep -P <pid>` and `ps -o comm=`, which tell
//! whether a shell has a foreground child and what it is called.

use vstd::prelude::*;

use crate::text::{
    all_ascii_digits, char_position, decimal, lemma_decimal_spells, digits_number, find_char, is_ascii_digit, parse_unsigned,
    parse_unsigned_range, str_chars, trim, trim_range, unsigned_digits,
};

verus! {

broadcast use vstd::string::group_string_axioms;

/// `str::parse::<i32>`: an optional sign, then at least one ASCII digit and
/// nothing else, with a value in range.
pub open spec fn parse_i32(s: Seq<char>) -> Option<i32> {
    if s.len() > 0 && s[0] == '-' {
        let digits = s.drop_first();
        if digits.len() == 0 || !all_ascii_digits(digits) || digits_number(digits) > 0x8000_0000 {
            None
        } else {
            Some((0 - digits_number(digits)) as i32)
        }
    } else {
        match parse_unsigned(s, i32::MAX as int) {
            Some(v) => Some(v as i32),
            None => None,
        }
    }
}

/// The first line of `s` (`str::lines`: up to the first `\n`, without a
/// `\r` before it), if `s` is not empty.
pub open spec fn first_line(s: Seq<char>) -> Option<Seq<char>> {
    if s.len() == 0 {
        None
    } else {
        let line = s.take(char_position(s, '\n'));
        Some(
            if line.len() > 0 && line.last() == '\r' {
                line.drop_last()
            } else {
                line
            },
        )
    }
}

/// The child PID that `pgrep -P` printed first, if any.
pub open spec fn first_child_pid(stdout: Seq<char>) -> Option<i32> {
    match first_line(stdout) {
        Some(line) => parse_i32(trim(line)),
        None => None,
    }
}

/// The process name `ps -o comm=` printed, if it printed one.
pub open spec fn process_name(stdout: Seq<char>) -> Option<Seq<char>> {
    if trim(stdout).len() == 0 {
        None
    } else {
        Some(trim(stdout))
    }
}

/// `str::parse::<i32>` on `chars[lo..hi]`, with the error dropped.
pub fn parse_i32_range(chars: &Vec<char>, lo: usize, hi: usize) -> (r: Option<i32>)
    requires
        lo <= hi <= chars@.len(),
    ensures
        r == parse_i32(chars@.subrange(lo as int, hi as int)),
{
    let ghost s = chars@.subrange(lo as int, hi as int);
    if hi > lo && chars[lo] == '-' {
        proof {
            assert(s[0] == chars@[lo as int]);
            assert(s.drop_first() =~= chars@.subrange(lo + 1, hi as int));
        }
        if hi - lo == 1 {
            return None;
        }
        if chars[lo + 1] == '+' {
            proof {
                assert(s.drop_first()[0] == chars@[lo + 1]);
                assert(!is_ascii_digit(s.drop_first()[0]));
            }
            return None;
        }
        proof {
            assert(s.drop_first()[0] == chars@[lo + 1]);
            assert(unsigned_digits(s.drop_first()) == s.drop_first());
        }
        match parse_unsigned_range(chars, lo + 1, hi, 0x8000_0000) {
            Some(v) => {
                let r = (0 - (v as i64)) as i32;
                Some(r)
            },
            None => None,
        }
    } else {
        proof {
            if hi > lo {
                assert(s[0] == chars@[lo as int]);
            }
        }
        match parse_unsigned_range(chars, lo, hi, i32::MAX as u64) {
            Some(v) => Some(v as i32),
            None => None,
        }
    }
}

/// The child PID in `pgrep -P` output: its first line, trimmed, as a number.
pub fn parse_child_pid(stdout: &str) -> (r: Option<i32>)
    ensures
        r == first_child_pid(stdout@),
{
    let chars = str_chars(stdout);
    let n = chars.len();
    if n == 0 {
        return None;
    }
    let end = find_char(&chars, 0, n, '\n');
    proof {
        assert(chars@.subrange(0, n as int) =~= stdout@);
        assert(stdout@.take(char_position(stdout@, '\n')) =~= chars@.subrange(
            0,
            end as int,
        ));
    }
    let line_end = if end > 0 && chars[end - 1] == '\r' {
        end - 1
    } else {
        end
    };
    proof {
        let line = chars@.subrange(0, end as int);
        if end > 0 {
            assert(line.last() == chars@[end - 1]);
            assert(line.drop_last() =~= chars@.subrange(0, end - 1));
        }
    }
    let (a, b) = trim_range(&chars, 0, line_end);
    parse_i32_range(&chars, a, b)
}

/// The process name in `ps -o comm=` output: the output trimmed, if it is
/// not empty.
pub fn parse_process_name(stdout: &str) -> (r: Option<String>)
    ensures
        match r {
            Some(name) => process_name(stdout@) == Some(name@),
            None => process_name(stdout@) is None,
        },
{
    let chars = str_chars(stdout);
    let n = chars.len();
    let (a, b) = trim_range(&chars, 0, n);
    proof {
        assert(chars@.subrange(0, n as int) =~= stdout@);
    }
    if a == b {
        None
    } else {
        Some(String::from_str(stdout.substring_char(a, b)))
    }
}

/// Parsing the decimal text of a number gives the number back, with a
/// leading `-` its negation, within the range of `i32`.
pub proof fn lemma_parse_i32_decimal(n: nat)
    ensures
        n <= i32::MAX ==> parse_i32(decimal(n)) == Some(n as i32),
        1 <= n <= 0x8000_0000 ==> parse_i32(seq!['-'] + decimal(n)) == Some((0 - n) as i32),
{
    lemma_decimal_spells(n);
    let d = decimal(n);
    assert(d[0] != '-') by {
        assert(is_ascii_digit(d[0]));
    }
    assert(unsigned_digits(d) == d) by {
        assert(d[0] != '+') by {
            assert(is_ascii_digit(d[0]));
        }
    }
    let m = seq!['-'] + d;
    assert(m.drop_first() =~= d);
}

} // verus!
