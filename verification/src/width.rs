//! Display widths of characters and strings, from the `unicode-width` crate.

use unicode_width::UnicodeWidthChar;
use vstd::prelude::*;

verus! {

/// What `UnicodeWidthChar::width` gives for `c` (ambiguous width counted as
/// narrow).
pub uninterp spec fn unicode_width(c: char) -> Option<usize>;

/// What `UnicodeWidthChar::width_cjk` gives for `c` (ambiguous width
/// counted as wide).
pub uninterp spec fn unicode_width_cjk(c: char) -> Option<usize>;

/// Printable ASCII.
pub open spec fn is_printable_ascii(c: char) -> bool {
    '\u{20}' <= c && c < '\u{7F}'
}

/// The C0 and C1 control characters (and DEL).
pub open spec fn is_control_char(c: char) -> bool {
    c < '\u{20}' || ('\u{7F}' <= c && c < '\u{A0}')
}

/// `UnicodeWidthChar::width`. The width tables are the crate's and are named
/// by `unicode_width`; the contract adds only what the crate's lookup code
/// (`single_char_width_generic`) shows: printable ASCII is one column wide,
/// control characters have no width, and every other character has one.
#[verifier::external_body]
fn unicode_char_width(c: char) -> (r: Option<usize>)
    ensures
        r == unicode_width(c),
        is_printable_ascii(c) ==> r == Some(1usize),
        is_control_char(c) ==> r is None,
        c >= '\u{A0}' ==> r is Some,
{
    UnicodeWidthChar::width(c)
}

/// `UnicodeWidthChar::width_cjk`. The width tables are the crate's and are
/// named by `unicode_width_cjk`; the contract adds only what the crate's
/// lookup code shows: printable ASCII is one column wide, control characters
/// have no width, and every other character has one.
#[verifier::external_body]
fn unicode_char_width_cjk(c: char) -> (r: Option<usize>)
    ensures
        r == unicode_width_cjk(c),
        is_printable_ascii(c) ==> r == Some(1usize),
        is_control_char(c) ==> r is None,
        c >= '\u{A0}' ==> r is Some,
{
    UnicodeWidthChar::width_cjk(c)
}

/// The number of cells `c` occupies: its Unicode width (ambiguous width
/// counted as wide when `cjk`), and 1 for characters without a width.
pub open spec fn display_width(c: char, cjk: bool) -> usize {
    let w = if cjk {
        unicode_width_cjk(c)
    } else {
        unicode_width(c)
    };
    match w {
        Some(n) => n,
        None => 1,
    }
}

/// Calculate the display width of a character, respecting CJK ambiguous width.
///
/// When `cjk` is true, characters with East Asian Width "Ambiguous" are treated
/// as 2-cell wide (standard CJK terminal behavior). Otherwise they are 1-cell wide.
pub fn char_width(c: char, cjk: bool) -> (w: usize)
    ensures
        w == display_width(c, cjk),
        is_printable_ascii(c) ==> w == 1,
        is_control_char(c) ==> w == 1,
{
    let r = if cjk {
        unicode_char_width_cjk(c)
    } else {
        unicode_char_width(c)
    };
    match r {
        Some(n) => n,
        None => 1,
    }
}

/// The zero-width combining code points that do not occupy a cell.
pub open spec fn zero_width_combining(c: char) -> bool {
    let cp = c as u32;
    ||| 0xFE00 <= cp <= 0xFE0F  // Variation selectors
    ||| cp == 0x200D  // ZWJ (Zero Width Joiner)
    ||| 0x200B <= cp <= 0x200F  // Zero-width space, ZWNJ, ZWJ, LRM, RLM
    ||| 0x1F3FB <= cp <= 0x1F3FF  // Skin tone modifiers
    ||| 0xE0020 <= cp <= 0xE007F  // Tag characters (flag subdivisions)
    ||| cp == 0xE0001  // Language tag
    ||| cp == 0x20E3  // Combining enclosing keycap
    ||| 0x2060 <= cp <= 0x2064  // Word joiner, invisible separators
    ||| cp == 0xFEFF  // BOM / zero-width no-break space
}

/// Returns true for zero-width combining codepoints that should not occupy a cell.
pub fn is_zero_width_combining(c: char) -> (r: bool)
    ensures
        r == zero_width_combining(c),
{
    let cp = c as u32;
    (0xFE00 <= cp && cp <= 0xFE0F) || cp == 0x200D || (0x200B <= cp && cp <= 0x200F) || (0x1F3FB
        <= cp && cp <= 0x1F3FF) || (0xE0020 <= cp && cp <= 0xE007F) || cp == 0xE0001 || cp
        == 0x20E3 || (0x2060 <= cp && cp <= 0x2064) || cp == 0xFEFF
}

/// The number of cells a string occupies: the sum of its characters' widths.
pub open spec fn str_width(s: Seq<char>, cjk: bool) -> int
    decreases s.len(),
{
    if s.len() == 0 {
        0
    } else {
        str_width(s.drop_last(), cjk) + display_width(s.last(), cjk)
    }
}

/// A prefix is never wider than the whole string.
proof fn lemma_str_width_prefix(s: Seq<char>, cjk: bool, i: int)
    requires
        0 <= i <= s.len(),
    ensures
        0 <= str_width(s.take(i), cjk) <= str_width(s, cjk),
    decreases s.len(),
{
    if s.len() > 0 {
        if i == s.len() {
            assert(s.take(i) =~= s);
            lemma_str_width_prefix(s.drop_last(), cjk, i - 1);
            assert(s.drop_last().take(i - 1) =~= s.take(i - 1));
        } else {
            lemma_str_width_prefix(s.drop_last(), cjk, i);
            assert(s.drop_last().take(i) =~= s.take(i));
            assert(s.drop_last().take(s.len() - 1) =~= s.drop_last());
            lemma_str_width_prefix(s.drop_last(), cjk, s.len() - 1);
        }
    }
}

/// The width of two strings side by side is the sum of their widths.
pub proof fn lemma_str_width_concat(a: Seq<char>, b: Seq<char>, cjk: bool)
    ensures
        str_width(a + b, cjk) == str_width(a, cjk) + str_width(b, cjk),
    decreases b.len(),
{
    if b.len() == 0 {
        assert(a + b =~= a);
    } else {
        assert((a + b).drop_last() =~= a + b.drop_last());
        lemma_str_width_concat(a, b.drop_last(), cjk);
    }
}

/// Display width of a string in cells.
pub fn str_display_width(s: &str, cjk: bool) -> (w: usize)
    requires
        str_width(s@, cjk) <= usize::MAX,
    ensures
        w == str_width(s@, cjk),
{
    let mut total: usize = 0;
    for c in it: s.chars()
        invariant
            it.seq() == s@,
            str_width(s@, cjk) <= usize::MAX,
            total == str_width(s@.take(it.index()), cjk),
    {
        let w = char_width(c, cjk);
        proof {
            let k = it.index();
            assert(s@.take(k + 1).drop_last() =~= s@.take(k));
            assert(s@.take(k + 1).last() == c);
            lemma_str_width_prefix(s@, cjk, k + 1);
        }
        total = total + w;
    }
    proof {
        assert(s@.take(s@.len() as int) =~= s@);
    }
    total
}

} // verus!
