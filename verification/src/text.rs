//! Text helpers over character sequences: splitting, trimming, decimal
//! numbers, and the characters of a `&str`.

use vstd::prelude::*;

verus! {

broadcast use vstd::string::group_string_axioms;

/// Unicode `White_Space` (what `char::is_whitespace` accepts).
pub open spec fn is_whitespace(c: char) -> bool {
    ||| c == '\t'
    ||| c == '\n'
    ||| c == '\u{0B}'
    ||| c == '\u{0C}'
    ||| c == '\r'
    ||| c == ' '
    ||| c == '\u{85}'
    ||| c == '\u{A0}'
    ||| c == '\u{1680}'
    ||| ('\u{2000}' <= c && c <= '\u{200A}')
    ||| c == '\u{2028}'
    ||| c == '\u{2029}'
    ||| c == '\u{202F}'
    ||| c == '\u{205F}'
    ||| c == '\u{3000}'
}

/// `s` without its leading whitespace.
pub open spec fn trim_start(s: Seq<char>) -> Seq<char>
    decreases s.len(),
{
    if s.len() > 0 && is_whitespace(s[0]) {
        trim_start(s.drop_first())
    } else {
        s
    }
}

/// `s` without its trailing whitespace.
pub open spec fn trim_end(s: Seq<char>) -> Seq<char>
    decreases s.len(),
{
    if s.len() > 0 && is_whitespace(s.last()) {
        trim_end(s.drop_last())
    } else {
        s
    }
}

/// `s` without leading and trailing whitespace (`str::trim`).
pub open spec fn trim(s: Seq<char>) -> Seq<char> {
    trim_end(trim_start(s))
}

/// The pieces of `s` between occurrences of `sep` (`str::split` with a
/// character pattern): one more piece than there are separators.
pub open spec fn split_chars(s: Seq<char>, sep: char) -> Seq<Seq<char>>
    decreases s.len(),
{
    if s.len() == 0 {
        seq![Seq::empty()]
    } else {
        let prev = split_chars(s.drop_last(), sep);
        if s.last() == sep {
            prev.push(Seq::empty())
        } else {
            prev.update(prev.len() - 1, prev.last().push(s.last()))
        }
    }
}

/// Index of the first `c` in `s`, or `s.len()` when there is none.
pub open spec fn char_position(s: Seq<char>, c: char) -> int
    decreases s.len(),
{
    if s.len() == 0 {
        0
    } else if s[0] == c {
        0
    } else {
        1 + char_position(s.drop_first(), c)
    }
}

/// What comes before the first `sep` (all of `s` when there is none).
pub open spec fn before_first(s: Seq<char>, sep: char) -> Seq<char> {
    s.take(char_position(s, sep))
}

/// What comes after the first `sep` (nothing when there is none).
pub open spec fn after_first(s: Seq<char>, sep: char) -> Seq<char> {
    if char_position(s, sep) < s.len() {
        s.skip(char_position(s, sep) + 1)
    } else {
        Seq::empty()
    }
}

pub open spec fn is_ascii_digit(c: char) -> bool {
    '0' <= c && c <= '9'
}

/// Value of a sequence of decimal digits.
pub open spec fn digits_number(s: Seq<char>) -> int
    decreases s.len(),
{
    if s.len() == 0 {
        0
    } else {
        digits_number(s.drop_last()) * 10 + (s.last() as int - '0' as int)
    }
}

/// The digits of an unsigned number: all but a leading `+`.
pub open spec fn unsigned_digits(s: Seq<char>) -> Seq<char> {
    if s.len() > 0 && s[0] == '+' {
        s.drop_first()
    } else {
        s
    }
}

pub open spec fn all_ascii_digits(s: Seq<char>) -> bool {
    forall|i: int| 0 <= i < s.len() ==> is_ascii_digit(#[trigger] s[i])
}

/// What `str::parse` gives for an unsigned integer type whose largest value
/// is `max`: an optional `+`, then at least one ASCII digit and nothing else,
/// with a value that fits.
pub open spec fn parse_unsigned(s: Seq<char>, max: int) -> Option<int> {
    let digits = unsigned_digits(s);
    if digits.len() == 0 || !all_ascii_digits(digits) {
        None
    } else if digits_number(digits) <= max {
        Some(digits_number(digits))
    } else {
        None
    }
}

/// `str::parse::<u32>`, with the error dropped.
pub open spec fn parse_u32(s: Seq<char>) -> Option<u32> {
    match parse_unsigned(s, u32::MAX as int) {
        Some(v) => Some(v as u32),
        None => None,
    }
}

/// `str::parse::<usize>`, with the error dropped.
pub open spec fn parse_usize(s: Seq<char>) -> Option<usize> {
    match parse_unsigned(s, usize::MAX as int) {
        Some(v) => Some(v as usize),
        None => None,
    }
}

/// `str::parse::<u8>`, with the error dropped.
pub open spec fn parse_u8(s: Seq<char>) -> Option<u8> {
    match parse_unsigned(s, u8::MAX as int) {
        Some(v) => Some(v as u8),
        None => None,
    }
}

// ---------------------------------------------------------------------------
// Lemmas
// ---------------------------------------------------------------------------

pub proof fn lemma_split_nonempty(s: Seq<char>, sep: char)
    ensures
        split_chars(s, sep).len() >= 1,
    decreases s.len(),
{
    if s.len() > 0 {
        lemma_split_nonempty(s.drop_last(), sep);
    }
}

proof fn lemma_digits_number_monotone(s: Seq<char>, i: int)
    requires
        0 <= i <= s.len(),
        forall|k: int| 0 <= k < s.len() ==> is_ascii_digit(#[trigger] s[k]),
    ensures
        0 <= digits_number(s.take(i)) <= digits_number(s),
    decreases s.len() - i,
{
    if i < s.len() {
        lemma_digits_number_monotone(s, i + 1);
        assert(s.take(i + 1).drop_last() =~= s.take(i));
        assert(is_ascii_digit(s[i]));
    } else {
        assert(s.take(i) =~= s);
        lemma_digits_number_nonneg(s);
    }
}

proof fn lemma_digits_number_nonneg(s: Seq<char>)
    requires
        forall|k: int| 0 <= k < s.len() ==> is_ascii_digit(#[trigger] s[k]),
    ensures
        0 <= digits_number(s),
    decreases s.len(),
{
    if s.len() > 0 {
        lemma_digits_number_nonneg(s.drop_last());
        assert(is_ascii_digit(s[s.len() - 1]));
    }
}

proof fn lemma_char_position(s: Seq<char>, c: char)
    ensures
        0 <= char_position(s, c) <= s.len(),
        char_position(s, c) < s.len() ==> s[char_position(s, c)] == c,
        forall|k: int| 0 <= k < char_position(s, c) ==> s[k] != c,
    decreases s.len(),
{
    if s.len() > 0 && s[0] != c {
        lemma_char_position(s.drop_first(), c);
        assert forall|k: int| 0 <= k < char_position(s, c) implies s[k] != c by {
            if k > 0 {
                assert(s[k] == s.drop_first()[k - 1]);
            }
        }
    }
}

// ---------------------------------------------------------------------------
// Executable helpers
// ---------------------------------------------------------------------------

/// The characters of `s`.
pub fn str_chars(s: &str) -> (r: Vec<char>)
    ensures
        r@ == s@,
{
    let mut out: Vec<char> = Vec::new();
    for c in it: s.chars()
        invariant
            it.seq() == s@,
            out@ == s@.take(it.index()),
    {
        proof {
            assert(s@.take(it.index() + 1) =~= out@.push(c));
        }
        out.push(c);
    }
    proof {
        assert(out@ =~= s@);
    }
    out
}

/// Whether `c` is whitespace (`char::is_whitespace`).
pub fn char_is_whitespace(c: char) -> (r: bool)
    ensures
        r == is_whitespace(c),
{
    c == '\t' || c == '\n' || c == '\u{0B}' || c == '\u{0C}' || c == '\r' || c == ' ' || c
        == '\u{85}' || c == '\u{A0}' || c == '\u{1680}' || ('\u{2000}' <= c && c <= '\u{200A}')
        || c == '\u{2028}' || c == '\u{2029}' || c == '\u{202F}' || c == '\u{205F}' || c
        == '\u{3000}'
}

/// Bounds of `chars[lo..hi]` trimmed of whitespace.
pub fn trim_range(chars: &Vec<char>, lo: usize, hi: usize) -> (r: (usize, usize))
    requires
        lo <= hi <= chars@.len(),
    ensures
        lo <= r.0 <= r.1 <= hi,
        chars@.subrange(r.0 as int, r.1 as int) == trim(chars@.subrange(lo as int, hi as int)),
{
    let ghost whole = chars@.subrange(lo as int, hi as int);
    let mut a = lo;
    while a < hi && char_is_whitespace(chars[a])
        invariant
            lo <= a <= hi <= chars@.len(),
            trim_start(chars@.subrange(a as int, hi as int)) == trim_start(whole),
        decreases hi - a,
    {
        proof {
            assert(chars@.subrange(a as int, hi as int).drop_first() =~= chars@.subrange(
                a + 1,
                hi as int,
            ));
        }
        a = a + 1;
    }
    let ghost started = chars@.subrange(a as int, hi as int);
    proof {
        if a < hi {
            assert(started[0] == chars@[a as int]);
        }
        assert(trim_start(started) == started);
    }
    let mut b = hi;
    while b > a && char_is_whitespace(chars[b - 1])
        invariant
            lo <= a <= b <= hi <= chars@.len(),
            started == chars@.subrange(a as int, hi as int),
            trim_end(chars@.subrange(a as int, b as int)) == trim_end(started),
        decreases b - a,
    {
        proof {
            assert(chars@.subrange(a as int, b as int).drop_last() =~= chars@.subrange(
                a as int,
                b - 1,
            ));
        }
        b = b - 1;
    }
    proof {
        let done = chars@.subrange(a as int, b as int);
        if b > a {
            assert(done.last() == chars@[b - 1]);
        }
        assert(trim_end(done) == done);
    }
    (a, b)
}

/// Position of the first `c` in `chars[lo..hi]`, or `hi` when there is none.
pub fn find_char(chars: &Vec<char>, lo: usize, hi: usize, c: char) -> (r: usize)
    requires
        lo <= hi <= chars@.len(),
    ensures
        lo <= r <= hi,
        r == lo + char_position(chars@.subrange(lo as int, hi as int), c),
{
    let ghost s = chars@.subrange(lo as int, hi as int);
    proof {
        lemma_char_position(s, c);
    }
    let mut i = lo;
    while i < hi && chars[i] != c
        invariant
            lo <= i <= hi <= chars@.len(),
            s == chars@.subrange(lo as int, hi as int),
            forall|k: int| lo <= k < i ==> chars@[k] != c,
            0 <= char_position(s, c) <= s.len(),
            char_position(s, c) < s.len() ==> s[char_position(s, c)] == c,
            forall|k: int| 0 <= k < char_position(s, c) ==> s[k] != c,
        decreases hi - i,
    {
        i = i + 1;
    }
    proof {
        let p = char_position(s, c);
        if lo + p < i {
            assert(s[p] == chars@[lo + p]);
        }
        if i < lo + p {
            assert(s[i - lo] == chars@[i as int]);
        }
    }
    i
}

/// `str::parse` for an unsigned type whose largest value is `max`, on
/// `chars[lo..hi]`.
pub fn parse_unsigned_range(chars: &Vec<char>, lo: usize, hi: usize, max: u64) -> (r: Option<u64>)
    requires
        lo <= hi <= chars@.len(),
        max >= 9,
    ensures
        match r {
            Some(v) => parse_unsigned(chars@.subrange(lo as int, hi as int), max as int) == Some(
                v as int,
            ),
            None => parse_unsigned(chars@.subrange(lo as int, hi as int), max as int).is_none(),
        },
        r matches Some(v) ==> v <= max,
{
    let ghost s = chars@.subrange(lo as int, hi as int);
    let mut start = lo;
    if hi > lo && chars[lo] == '+' {
        start = lo + 1;
    }
    let ghost digits = chars@.subrange(start as int, hi as int);
    proof {
        if s.len() > 0 && s[0] == '+' {
            assert(digits =~= s.drop_first());
        } else {
            assert(digits =~= s);
        }
    }
    if start == hi {
        return None;
    }
    let mut value: u64 = 0;
    let mut i = start;
    while i < hi
        invariant
            lo <= start <= i <= hi <= chars@.len(),
            digits == chars@.subrange(start as int, hi as int),
            s == chars@.subrange(lo as int, hi as int),
            digits == unsigned_digits(s),
            digits.len() > 0,
            forall|k: int| start <= k < i ==> is_ascii_digit(#[trigger] chars@[k]),
            value == digits_number(digits.take(i - start)),
            value <= max,
            max >= 9,
        decreases hi - i,
    {
        let c = chars[i];
        if !('0' <= c && c <= '9') {
            proof {
                assert(digits[i - start] == chars@[i as int]);
                assert(!is_ascii_digit(digits[i - start]));
                assert(parse_unsigned(s, max as int).is_none());
            }
            return None;
        }
        let d = (c as u32 - '0' as u32) as u64;
        proof {
            assert(digits.take(i - start + 1).drop_last() =~= digits.take(i - start));
            assert(digits.take(i - start + 1).last() == c);
        }
        if value > (max - d) / 10 {
            // The digits so far already exceed `max`; more digits only add.
            proof {
                assert(value * 10 + d > max) by (nonlinear_arith)
                    requires
                        value > (max - d) / 10,
                        d <= 9,
                        max >= 9,
                ;
                assert(digits[i - start] == c);
                assert(digits_number(digits.take(i - start + 1)) == value * 10 + d);
                if all_ascii_digits(digits) {
                    lemma_digits_number_monotone(digits, i - start + 1);
                    assert(digits_number(digits) > max);
                }
            }
            return None;
        }
        proof {
            assert(value * 10 + d <= max) by (nonlinear_arith)
                requires
                    value <= (max - d) / 10,
                    d <= max,
            ;
        }
        value = value * 10 + d;
        i = i + 1;
    }
    proof {
        assert(digits.take(hi - start) =~= digits);
    }
    Some(value)
}

/// `str::parse::<u32>` on `chars[lo..hi]`, with the error dropped.
pub fn parse_u32_range(chars: &Vec<char>, lo: usize, hi: usize) -> (r: Option<u32>)
    requires
        lo <= hi <= chars@.len(),
    ensures
        r == parse_u32(chars@.subrange(lo as int, hi as int)),
{
    let parsed = parse_unsigned_range(chars, lo, hi, u32::MAX as u64);
    match parsed {
        Some(v) => {
            Some(v as u32)
        },
        None => None,
    }
}

/// `str::parse::<usize>` on `chars[lo..hi]`, with the error dropped.
pub fn parse_usize_range(chars: &Vec<char>, lo: usize, hi: usize) -> (r: Option<usize>)
    requires
        lo <= hi <= chars@.len(),
    ensures
        r == parse_usize(chars@.subrange(lo as int, hi as int)),
{
    let parsed = parse_unsigned_range(chars, lo, hi, usize::MAX as u64);
    match parsed {
        Some(v) => {
            Some(v as usize)
        },
        None => None,
    }
}

/// `str::parse::<u8>` on `chars[lo..hi]`, with the error dropped.
pub fn parse_u8_range(chars: &Vec<char>, lo: usize, hi: usize) -> (r: Option<u8>)
    requires
        lo <= hi <= chars@.len(),
    ensures
        r == parse_u8(chars@.subrange(lo as int, hi as int)),
{
    let parsed = parse_unsigned_range(chars, lo, hi, 255);
    match parsed {
        Some(v) => {
            Some(v as u8)
        },
        None => None,
    }
}

/// Whether `s` begins with `p`.
pub open spec fn has_prefix(s: Seq<char>, p: Seq<char>) -> bool {
    s.len() >= p.len() && s.take(p.len() as int) == p
}

/// Whether `s` ends with `p`.
pub open spec fn has_suffix(s: Seq<char>, p: Seq<char>) -> bool {
    s.len() >= p.len() && s.skip(s.len() - p.len()) == p
}

/// Index of the last `c` in `s`, if any (`str::rfind` counted in characters).
pub open spec fn last_char_position(s: Seq<char>, c: char) -> Option<int>
    decreases s.len(),
{
    if s.len() == 0 {
        None
    } else if s.last() == c {
        Some(s.len() - 1)
    } else {
        last_char_position(s.drop_last(), c)
    }
}

/// `last_char_position` finds an occurrence, and no later one exists.
pub proof fn lemma_last_char_position(s: Seq<char>, c: char)
    ensures
        match last_char_position(s, c) {
            Some(i) => 0 <= i < s.len() && s[i] == c && forall|k: int| i < k < s.len() ==> s[k] != c,
            None => forall|k: int| 0 <= k < s.len() ==> s[k] != c,
        },
    decreases s.len(),
{
    if s.len() > 0 {
        lemma_last_char_position(s.drop_last(), c);
        if s.last() != c {
            assert forall|k: int| 0 <= k < s.len() - 1 implies s[k] == s.drop_last()[k] by {}
        }
    }
}

/// Whether `chars[lo..hi]` equals `lit`.
pub fn range_equals(chars: &Vec<char>, lo: usize, hi: usize, lit: &Vec<char>) -> (r: bool)
    requires
        lo <= hi <= chars@.len(),
    ensures
        r == (chars@.subrange(lo as int, hi as int) == lit@),
{
    let ghost s = chars@.subrange(lo as int, hi as int);
    if hi - lo != lit.len() {
        return false;
    }
    let mut i: usize = 0;
    while i < lit.len()
        invariant
            lo <= hi <= chars@.len(),
            hi - lo == lit@.len(),
            s == chars@.subrange(lo as int, hi as int),
            i <= lit@.len(),
            forall|k: int| 0 <= k < i ==> s[k] == lit@[k],
        decreases lit@.len() - i,
    {
        if chars[lo + i] != lit[i] {
            proof {
                assert(s[i as int] != lit@[i as int]);
            }
            return false;
        }
        i = i + 1;
    }
    proof {
        assert(s =~= lit@);
    }
    true
}

/// Position of the last `c` in `chars[lo..hi]`, if any.
pub fn rfind_char(chars: &Vec<char>, lo: usize, hi: usize, c: char) -> (r: Option<usize>)
    requires
        lo <= hi <= chars@.len(),
    ensures
        match r {
            Some(i) => lo <= i < hi && last_char_position(chars@.subrange(lo as int, hi as int), c)
                == Some(i - lo),
            None => last_char_position(chars@.subrange(lo as int, hi as int), c) is None,
        },
{
    let ghost s = chars@.subrange(lo as int, hi as int);
    let mut j = hi;
    while j > lo
        invariant
            lo <= j <= hi <= chars@.len(),
            s == chars@.subrange(lo as int, hi as int),
            last_char_position(s, c) == last_char_position(chars@.subrange(lo as int, j as int), c),
        decreases j - lo,
    {
        let ghost cur = chars@.subrange(lo as int, j as int);
        proof {
            assert(cur.last() == chars@[j - 1]);
            assert(cur.drop_last() =~= chars@.subrange(lo as int, j - 1));
        }
        if chars[j - 1] == c {
            return Some(j - 1);
        }
        j = j - 1;
    }
    None
}


/// Whether `chars[lo..hi]` is the text `lit`.
pub fn range_is_str(chars: &Vec<char>, lo: usize, hi: usize, lit: &str) -> (r: bool)
    requires
        lo <= hi <= chars@.len(),
    ensures
        r == (chars@.subrange(lo as int, hi as int) == lit@),
{
    let lit_chars = str_chars(lit);
    range_equals(chars, lo, hi, &lit_chars)
}

/// The length of `prefix` when `chars` begins with it (`str::strip_prefix`).
pub fn strip_prefix_len(chars: &Vec<char>, prefix: &str) -> (r: Option<usize>)
    ensures
        match r {
            Some(k) => k == prefix@.len() && has_prefix(chars@, prefix@),
            None => !has_prefix(chars@, prefix@),
        },
{
    let p = str_chars(prefix);
    if chars.len() < p.len() {
        return None;
    }
    if range_equals(chars, 0, p.len(), &p) {
        proof {
            assert(chars@.subrange(0, p@.len() as int) =~= chars@.take(p@.len() as int));
        }
        Some(p.len())
    } else {
        proof {
            assert(chars@.subrange(0, p@.len() as int) =~= chars@.take(p@.len() as int));
        }
        None
    }
}


/// A sequence begins with what was put in front of it, and the rest is what followed.
pub proof fn lemma_prefix_concat(p: Seq<char>, s: Seq<char>)
    ensures
        has_prefix(p + s, p),
        (p + s).skip(p.len() as int) == s,
{
    assert((p + s).take(p.len() as int) =~= p);
    assert((p + s).skip(p.len() as int) =~= s);
}

/// The last `c` of `a + [c] + b` is the one between them when `b` holds none.
pub proof fn lemma_last_char_position_after(a: Seq<char>, c: char, b: Seq<char>)
    requires
        forall|k: int| 0 <= k < b.len() ==> b[k] != c,
    ensures
        last_char_position(a + seq![c] + b, c) == Some(a.len() as int),
    decreases b.len(),
{
    let s = a + seq![c] + b;
    if b.len() == 0 {
        assert(s.last() == c);
        assert(s.len() == a.len() + 1);
    } else {
        assert(s.last() == b.last());
        assert(s.drop_last() =~= a + seq![c] + b.drop_last());
        lemma_last_char_position_after(a, c, b.drop_last());
    }
}


// ---------------------------------------------------------------------------
// Replacing and rendering
// ---------------------------------------------------------------------------

/// `s` with every occurrence of `pat` replaced by `to`, matching from left
/// to right without overlaps (`str::replace`, for a non-empty pattern).
pub open spec fn replace_all(s: Seq<char>, pat: Seq<char>, to: Seq<char>) -> Seq<char>
    decreases s.len(),
{
    if s.len() == 0 {
        s
    } else if pat.len() > 0 && has_prefix(s, pat) {
        to + replace_all(s.skip(pat.len() as int), pat, to)
    } else {
        seq![s[0]] + replace_all(s.drop_first(), pat, to)
    }
}

/// The decimal digits.
pub open spec fn digit_chars() -> Seq<char> {
    seq!['0', '1', '2', '3', '4', '5', '6', '7', '8', '9']
}

/// The decimal representation of `n` (`usize::to_string`).
pub open spec fn decimal(n: nat) -> Seq<char>
    decreases n,
{
    if n < 10 {
        seq![digit_chars()[n as int]]
    } else {
        decimal(n / 10).push(digit_chars()[(n % 10) as int])
    }
}

/// `s` with every occurrence of `pat` replaced by `to` (`str::replace`).
pub fn replace_str(s: &str, pat: &str, to: &str) -> (r: String)
    requires
        pat@.len() > 0,
    ensures
        r@ == replace_all(s@, pat@, to@),
{
    let chars = str_chars(s);
    let p = str_chars(pat);
    let n = chars.len();
    let plen = p.len();
    let mut out = String::new();
    let mut seg: usize = 0;
    let mut i: usize = 0;
    proof {
        assert(chars@.skip(0) =~= s@);
        assert(Seq::<char>::empty() + chars@.subrange(0, 0) + s@ =~= s@);
    }
    while i < n
        invariant
            chars@ == s@,
            p@ == pat@,
            plen == pat@.len() > 0,
            n == s@.len(),
            seg <= i <= n,
            replace_all(s@, pat@, to@) == out@ + chars@.subrange(seg as int, i as int) + replace_all(
                s@.skip(i as int),
                pat@,
                to@,
            ),
        decreases n - i,
    {
        let ghost rest = s@.skip(i as int);
        let matched = plen <= n - i && range_equals(&chars, i, i + plen, &p);
        proof {
            if plen <= n - i {
                assert(rest.take(plen as int) =~= chars@.subrange(i as int, i + plen));
            }
        }
        if matched {
            proof {
                assert(rest.skip(plen as int) =~= s@.skip(i + plen));
            }
            let ghost before = out@;
            let piece = s.substring_char(seg, i);
            out.append(piece);
            out.append(to);
            proof {
                let later = replace_all(s@.skip(i + plen), pat@, to@);
                assert(replace_all(rest, pat@, to@) == to@ + later);
                assert(before + chars@.subrange(seg as int, i as int) + (to@ + later) =~= out@
                    + chars@.subrange((i + plen) as int, (i + plen) as int) + later);
            }
            i = i + plen;
            seg = i;
        } else {
            proof {
                assert(rest.drop_first() =~= s@.skip(i + 1));
                assert(rest[0] == chars@[i as int]);
                let later = replace_all(s@.skip(i + 1), pat@, to@);
                assert(replace_all(rest, pat@, to@) == seq![chars@[i as int]] + later);
                assert(out@ + chars@.subrange(seg as int, i as int) + (seq![chars@[i as int]]
                    + later) =~= out@ + chars@.subrange(seg as int, i + 1) + later);
            }
            i = i + 1;
        }
    }
    let tail = s.substring_char(seg, n);
    let ghost before = out@;
    out.append(tail);
    proof {
        assert(s@.skip(n as int) =~= Seq::<char>::empty());
        assert(before + chars@.subrange(seg as int, n as int) + Seq::<char>::empty() =~= out@);
    }
    out
}


/// The one-character text of decimal digit `d`.
fn digit_str(d: usize) -> (r: &'static str)
    requires
        d < 10,
    ensures
        r@ == seq![digit_chars()[d as int]],
{
    proof {
        reveal_strlit("0");
        reveal_strlit("1");
        reveal_strlit("2");
        reveal_strlit("3");
        reveal_strlit("4");
        reveal_strlit("5");
        reveal_strlit("6");
        reveal_strlit("7");
        reveal_strlit("8");
        reveal_strlit("9");
    }
    let r = if d == 0 {
        "0"
    } else if d == 1 {
        "1"
    } else if d == 2 {
        "2"
    } else if d == 3 {
        "3"
    } else if d == 4 {
        "4"
    } else if d == 5 {
        "5"
    } else if d == 6 {
        "6"
    } else if d == 7 {
        "7"
    } else if d == 8 {
        "8"
    } else {
        "9"
    };
    proof {
        assert(r@ =~= seq![digit_chars()[d as int]]);
    }
    r
}

/// Append the decimal representation of `n` to `out`.
pub fn push_decimal(out: &mut String, n: usize)
    ensures
        final(out)@ == old(out)@ + decimal(n as nat),
    decreases n,
{
    if n >= 10 {
        push_decimal(out, n / 10);
    }
    out.append(digit_str(n % 10));
    proof {
        assert(out@ =~= old(out)@ + decimal(n as nat));
    }
}

/// The decimal representation of `n` (`usize::to_string`).
pub fn usize_to_string(n: usize) -> (r: String)
    ensures
        r@ == decimal(n as nat),
{
    let mut out = String::new();
    push_decimal(&mut out, n);
    proof {
        assert(Seq::<char>::empty() + decimal(n as nat) =~= decimal(n as nat));
    }
    out
}


/// The pieces joined in order with `sep` between them (`[T]::join`).
pub open spec fn joined_with(pieces: Seq<Seq<char>>, sep: char) -> Seq<char>
    decreases pieces.len(),
{
    if pieces.len() == 0 {
        Seq::empty()
    } else if pieces.len() == 1 {
        pieces[0]
    } else {
        joined_with(pieces.drop_last(), sep) + seq![sep] + pieces.last()
    }
}

/// Whether `p` occurs in `s` (`str::contains`).
pub open spec fn contains_text(s: Seq<char>, p: Seq<char>) -> bool {
    exists|i: int| 0 <= i && i + p.len() <= s.len() && #[trigger] s.subrange(i, i + p.len()) == p
}

/// Whether `lit` occurs in `chars`.
pub fn chars_contain(chars: &Vec<char>, lit: &str) -> (r: bool)
    ensures
        r == contains_text(chars@, lit@),
{
    let p = str_chars(lit);
    let n = chars.len();
    let m = p.len();
    if m > n {
        return false;
    }
    let last = n - m;
    let mut i: usize = 0;
    loop
        invariant
            p@ == lit@,
            m == lit@.len(),
            n == chars@.len(),
            m <= n,
            last == n - m,
            i <= last,
            forall|k: int| 0 <= k < i ==> #[trigger] chars@.subrange(k, k + m) != lit@,
        decreases last - i,
    {
        if range_equals(chars, i, i + m, &p) {
            return true;
        }
        if i == last {
            return false;
        }
        i = i + 1;
    }
}

/// `String::push`, which std documents as appending the character to the
/// end of the string.
#[verifier::external_body]
pub(crate) fn push_char(s: &mut String, c: char)
    ensures
        final(s)@ == old(s)@.push(c),
{
    s.push(c);
}

/// The string of `chars[lo..hi]`.
pub fn string_of_range(chars: &Vec<char>, lo: usize, hi: usize) -> (r: String)
    requires
        lo <= hi <= chars@.len(),
    ensures
        r@ == chars@.subrange(lo as int, hi as int),
{
    let mut out = String::new();
    let mut i = lo;
    while i < hi
        invariant
            lo <= i <= hi <= chars@.len(),
            out@ == chars@.subrange(lo as int, i as int),
        decreases hi - i,
    {
        push_char(&mut out, chars[i]);
        proof {
            assert(out@ =~= chars@.subrange(lo as int, i + 1));
        }
        i = i + 1;
    }
    out
}

/// The decimal text of `n` is made of ASCII digits, has no leading zero,
/// and spells `n`.
pub proof fn lemma_decimal_spells(n: nat)
    ensures
        decimal(n).len() > 0,
        all_ascii_digits(decimal(n)),
        n > 0 ==> decimal(n)[0] != '0',
        digits_number(decimal(n)) == n,
    decreases n,
{
    let d = decimal(n);
    if n >= 10 {
        lemma_decimal_spells(n / 10);
        assert(d.drop_last() =~= decimal(n / 10));
        assert(n == (n / 10) * 10 + n % 10);
        assert(digit_chars()[(n % 10) as int] as int - '0' as int == n % 10);
        assert forall|i: int| 0 <= i < d.len() implies is_ascii_digit(#[trigger] d[i]) by {
            if i < d.len() - 1 {
                assert(d[i] == decimal(n / 10)[i]);
            }
        }
        assert(d[0] == decimal(n / 10)[0]);
        assert(d.last() == digit_chars()[(n % 10) as int]);
        assert(digits_number(d) == digits_number(d.drop_last()) * 10 + (d.last() as int - '0' as int));
    } else {
        assert(d =~= seq![digit_chars()[n as int]]);
        assert(d.drop_last() =~= Seq::<char>::empty());
        assert(digit_chars()[n as int] as int - '0' as int == n);
        assert(digits_number(Seq::<char>::empty()) == 0);
        assert(digits_number(d) == digits_number(d.drop_last()) * 10 + (d.last() as int - '0' as int));
    }
}

} // verus!
