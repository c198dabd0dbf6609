//! Tab titles from a user format string with variables and fallback chains.

use vstd::prelude::*;

use crate::path::{file_name_bounds, path_file_name};
use crate::text::{
    decimal, digit_chars, has_prefix, lemma_split_nonempty, push_decimal, range_is_str, replace_all,
    replace_str, split_chars, str_chars, trim, trim_range, usize_to_string,
};

verus! {

broadcast use vstd::string::group_string_axioms;

/// The number of times `c` occurs in `s`.
pub open spec fn count_char(s: Seq<char>, c: char) -> nat
    decreases s.len(),
{
    if s.len() == 0 {
        0
    } else {
        count_char(s.drop_last(), c) + if s.last() == c {
            1nat
        } else {
            0nat
        }
    }
}

/// The last component of the directory `cwd`, or `fallback` when it has none.
pub open spec fn cwd_base_or(cwd: Seq<char>, fallback: Seq<char>) -> Seq<char> {
    match path_file_name(cwd) {
        Some(name) => name,
        None => fallback,
    }
}

/// `s` with its `{title}`, `{cwd}`, `{cwd_base}`, `{index}` and `{pid}`
/// placeholders expanded, in that order (`{cwd_base}` is `~` when the
/// directory has no last component).
pub open spec fn expanded(s: Seq<char>, title: Seq<char>, cwd: Seq<char>, index: usize, pid: u32) -> Seq<char> {
    let a = replace_all(s, "{title}"@, title);
    let b = replace_all(a, "{cwd}"@, cwd);
    let c = replace_all(b, "{cwd_base}"@, cwd_base_or(cwd, "~"@));
    let d = replace_all(c, "{index}"@, decimal(index as nat));
    replace_all(d, "{pid}"@, decimal(pid as nat))
}

/// The value of one variable name; anything else is a literal whose
/// placeholders are expanded.
pub open spec fn resolved(var: Seq<char>, title: Seq<char>, cwd: Seq<char>, index: usize, pid: u32) -> Seq<char> {
    if var == "title"@ {
        title
    } else if var == "cwd"@ {
        cwd
    } else if var == "cwd_base"@ {
        cwd_base_or(cwd, Seq::empty())
    } else if var == "index"@ {
        decimal(index as nat)
    } else if var == "pid"@ {
        decimal(pid as nat)
    } else {
        expanded(var, title, cwd, index, pid)
    }
}

/// The first alternative (trimmed) whose value is not empty.
pub open spec fn first_resolved(
    alts: Seq<Seq<char>>,
    title: Seq<char>,
    cwd: Seq<char>,
    index: usize,
    pid: u32,
) -> Option<Seq<char>>
    decreases alts.len(),
{
    if alts.len() == 0 {
        None
    } else {
        match first_resolved(alts.drop_last(), title, cwd, index, pid) {
            Some(r) => Some(r),
            None => {
                let r = resolved(trim(alts.last()), title, cwd, index, pid);
                if r.len() > 0 {
                    Some(r)
                } else {
                    None
                }
            },
        }
    }
}

/// How many more `{` than `}` there are in `s`.
pub open spec fn brace_depth(s: Seq<char>) -> int {
    count_char(s, '{') - count_char(s, '}')
}

/// Whether a trimmed format is one brace group spanning the whole format,
/// which may hold nested placeholders such as `{index}`.
pub open spec fn is_nested_group(t: Seq<char>) -> bool {
    &&& t.len() >= 2
    &&& t[0] == '{'
    &&& t.last() == '}'
    &&& forall|k: int| 1 <= k < t.len() ==> brace_depth(#[trigger] t.take(k)) > 0
    &&& brace_depth(t) == 0
}

/// Whether a trimmed format is one `{a|b|c}` fallback chain: it starts with
/// `{` and ends with `}`, and either holds no other `{` or is one brace
/// group with nested placeholders such as `{index}`.
pub open spec fn is_fallback_chain(t: Seq<char>) -> bool {
    &&& t.len() >= 2
    &&& t[0] == '{'
    &&& t.last() == '}'
    &&& (count_char(t, '{') == 1 || is_nested_group(t))
}

/// The title a format gives: for a single `{a|b|c}` chain, the first
/// alternative with a non-empty value, else `Tab <index>`; for any other
/// format, the format with its placeholders expanded.
pub open spec fn tab_title(format: Seq<char>, title: Seq<char>, cwd: Seq<char>, index: usize, pid: u32) -> Seq<
    char,
> {
    let t = trim(format);
    if is_fallback_chain(t) {
        match first_resolved(split_chars(t.subrange(1, t.len() - 1), '|'), title, cwd, index, pid) {
            Some(r) => r,
            None => "Tab "@ + decimal(index as nat),
        }
    } else {
        expanded(format, title, cwd, index, pid)
    }
}

/// The last component of `cwd`, or `fallback` when it has none.
fn cwd_base(cwd: &str, fallback: &str) -> (r: String)
    ensures
        r@ == cwd_base_or(cwd@, fallback@),
{
    match file_name_bounds(cwd) {
        Some((a, b)) => String::from_str(cwd.substring_char(a, b)),
        None => String::from_str(fallback),
    }
}

/// Expand `{variable}` placeholders in a string.
pub fn expand_variables(s: &str, title: &str, cwd: &str, index: usize, pid: u32) -> (r: String)
    ensures
        r@ == expanded(s@, title@, cwd@, index, pid),
{
    proof {
        reveal_strlit("{title}");
        reveal_strlit("{cwd}");
        reveal_strlit("{cwd_base}");
        reveal_strlit("{index}");
        reveal_strlit("{pid}");
    }
    let base = cwd_base(cwd, "~");
    let index_text = usize_to_string(index);
    let pid_text = usize_to_string(pid as usize);
    let a = replace_str(s, "{title}", title);
    let b = replace_str(a.as_str(), "{cwd}", cwd);
    let c = replace_str(b.as_str(), "{cwd_base}", base.as_str());
    let d = replace_str(c.as_str(), "{index}", index_text.as_str());
    replace_str(d.as_str(), "{pid}", pid_text.as_str())
}

/// Resolve a single variable name to its value.
pub fn resolve_variable(var: &str, title: &str, cwd: &str, index: usize, pid: u32) -> (r: String)
    ensures
        r@ == resolved(var@, title@, cwd@, index, pid),
{
    let chars = str_chars(var);
    let n = chars.len();
    proof {
        assert(chars@.subrange(0, n as int) =~= var@);
        reveal_strlit("");
    }
    if range_is_str(&chars, 0, n, "title") {
        String::from_str(title)
    } else if range_is_str(&chars, 0, n, "cwd") {
        String::from_str(cwd)
    } else if range_is_str(&chars, 0, n, "cwd_base") {
        cwd_base(cwd, "")
    } else if range_is_str(&chars, 0, n, "index") {
        usize_to_string(index)
    } else if range_is_str(&chars, 0, n, "pid") {
        usize_to_string(pid as usize)
    } else {
        // Could be a literal with embedded variables, e.g. "Tab {index}".
        expand_variables(var, title, cwd, index, pid)
    }
}

/// Whether `chars[lo..hi]` is one brace group spanning the whole range.
fn is_single_group(chars: &Vec<char>, lo: usize, hi: usize) -> (r: bool)
    requires
        lo <= hi <= chars@.len(),
    ensures
        r == is_nested_group(chars@.subrange(lo as int, hi as int)),
{
    let ghost t = chars@.subrange(lo as int, hi as int);
    if hi - lo < 2 || chars[lo] != '{' || chars[hi - 1] != '}' {
        proof {
            if t.len() >= 2 {
                assert(t[0] == chars@[lo as int]);
                assert(t.last() == chars@[hi - 1]);
            }
        }
        return false;
    }
    proof {
        assert(t[0] == chars@[lo as int]);
        assert(t.last() == chars@[hi - 1]);
        assert(t.take(0) =~= Seq::<char>::empty());
    }
    let mut depth: usize = 0;
    let mut i = lo;
    while i < hi
        invariant
            lo <= i <= hi <= chars@.len(),
            hi - lo >= 2,
            t == chars@.subrange(lo as int, hi as int),
            chars@[lo as int] == '{',
            depth as int == brace_depth(t.take(i - lo)),
            depth <= i - lo,
            lo < i < hi ==> depth > 0,
            forall|k: int| 1 <= k <= i - lo && k < t.len() ==> brace_depth(#[trigger] t.take(k)) > 0,
        decreases hi - i,
    {
        proof {
            assert(t.take(i - lo + 1).drop_last() =~= t.take(i - lo));
            assert(t.take(i - lo + 1).last() == chars@[i as int]);
        }
        if chars[i] == '{' {
            depth = depth + 1;
        } else if chars[i] == '}' {
            depth = depth - 1;
        }
        i = i + 1;
        if depth == 0 && i < hi {
            // The first group closes before the end of the format.
            return false;
        }
    }
    proof {
        assert(t.take(hi - lo) =~= t);
    }
    depth == 0
}

/// Whether `chars[lo..hi]` holds exactly one `{`.
fn one_open_brace(chars: &Vec<char>, lo: usize, hi: usize) -> (r: bool)
    requires
        lo <= hi <= chars@.len(),
    ensures
        r == (count_char(chars@.subrange(lo as int, hi as int), '{') == 1),
{
    let ghost t = chars@.subrange(lo as int, hi as int);
    let mut count: usize = 0;
    let mut i = lo;
    proof {
        assert(t.take(0) =~= Seq::<char>::empty());
    }
    while i < hi
        invariant
            lo <= i <= hi <= chars@.len(),
            t == chars@.subrange(lo as int, hi as int),
            count as int == count_char(t.take(i - lo), '{'),
            count <= i - lo,
        decreases hi - i,
    {
        proof {
            assert(t.take(i - lo + 1).drop_last() =~= t.take(i - lo));
            assert(t.take(i - lo + 1).last() == chars@[i as int]);
        }
        if chars[i] == '{' {
            count = count + 1;
        }
        i = i + 1;
    }
    proof {
        assert(t.take(hi - lo) =~= t);
    }
    count == 1
}

/// Whether `chars[lo..hi]` is one fallback chain.
fn is_chain(chars: &Vec<char>, lo: usize, hi: usize) -> (r: bool)
    requires
        lo <= hi <= chars@.len(),
    ensures
        r == is_fallback_chain(chars@.subrange(lo as int, hi as int)),
{
    let ghost t = chars@.subrange(lo as int, hi as int);
    if hi - lo < 2 || chars[lo] != '{' || chars[hi - 1] != '}' {
        proof {
            if t.len() >= 2 {
                assert(t[0] == chars@[lo as int]);
                assert(t.last() == chars@[hi - 1]);
            }
        }
        return false;
    }
    proof {
        assert(t[0] == chars@[lo as int]);
        assert(t.last() == chars@[hi - 1]);
    }
    one_open_brace(chars, lo, hi) || is_single_group(chars, lo, hi)
}

/// The value of the alternative `format[a..b]` (trimmed).
fn resolve_piece(
    format: &str,
    chars: &Vec<char>,
    a: usize,
    b: usize,
    title: &str,
    cwd: &str,
    index: usize,
    pid: u32,
) -> (r: String)
    requires
        chars@ == format@,
        a <= b <= chars@.len(),
    ensures
        r@ == resolved(trim(chars@.subrange(a as int, b as int)), title@, cwd@, index, pid),
{
    let (x, y) = trim_range(chars, a, b);
    resolve_variable(format.substring_char(x, y), title, cwd, index, pid)
}

/// Format a tab title using the user's format string with fallback chains.
///
/// The format string supports `|`-separated fallback chains within `{}`.
/// For example, `"{title|cwd_base|Tab {index}}"` tries `title` first,
/// then `cwd_base`, then the literal `"Tab {index}"` (with `{index}` expanded).
pub fn format_tab_title(format: &str, title: &str, cwd: &str, index: usize, pid: u32) -> (r: String)
    ensures
        r@ == tab_title(format@, title@, cwd@, index, pid),
{
    let chars = str_chars(format);
    let n = chars.len();
    let (tlo, thi) = trim_range(&chars, 0, n);
    let ghost t = chars@.subrange(tlo as int, thi as int);
    proof {
        assert(chars@.subrange(0, n as int) =~= format@);
    }
    // Check if the format is a single `{...}` group (common case).
    let single = is_chain(&chars, tlo, thi);
    if !single {
        // General case: expand variables in the format string.
        return expand_variables(format, title, cwd, index, pid);
    }
    // Simple fallback chain: {a|b|c}
    let lo = tlo + 1;
    let hi = thi - 1;
    proof {
        assert(t.subrange(1, t.len() - 1) =~= chars@.subrange(lo as int, hi as int));
    }
    let mut found: Option<String> = None;
    let mut start = lo;
    let mut i = lo;
    let ghost mut done: Seq<Seq<char>> = Seq::empty();
    proof {
        assert(chars@.subrange(lo as int, lo as int) =~= Seq::<char>::empty());
        assert(done.push(chars@.subrange(lo as int, lo as int)) =~= seq![Seq::<char>::empty()]);
    }
    while i < hi
        invariant
            chars@ == format@,
            lo <= start <= i <= hi <= chars@.len(),
            split_chars(chars@.subrange(lo as int, i as int), '|') == done.push(
                chars@.subrange(start as int, i as int),
            ),
            match found {
                Some(r) => first_resolved(done, title@, cwd@, index, pid) == Some(r@),
                None => first_resolved(done, title@, cwd@, index, pid) is None,
            },
        decreases hi - i,
    {
        proof {
            assert(chars@.subrange(lo as int, i + 1).drop_last() =~= chars@.subrange(
                lo as int,
                i as int,
            ));
            assert(chars@.subrange(lo as int, i + 1).last() == chars@[i as int]);
        }
        if chars[i] == '|' {
            if found.is_none() {
                let resolved = resolve_piece(format, &chars, start, i, title, cwd, index, pid);
                if !resolved.as_str().is_empty() {
                    found = Some(resolved);
                }
            }
            proof {
                assert(done.push(chars@.subrange(start as int, i as int)).drop_last() =~= done);
                done = done.push(chars@.subrange(start as int, i as int));
                assert(chars@.subrange(i + 1, i + 1) =~= Seq::<char>::empty());
            }
            start = i + 1;
        } else {
            proof {
                let prev = done.push(chars@.subrange(start as int, i as int));
                assert(chars@.subrange(start as int, i as int).push(chars@[i as int])
                    =~= chars@.subrange(start as int, i + 1));
                assert(prev.update(prev.len() - 1, prev.last().push(chars@[i as int])) =~= done.push(
                    chars@.subrange(start as int, i + 1),
                ));
            }
        }
        i = i + 1;
    }
    if found.is_none() {
        let resolved = resolve_piece(format, &chars, start, hi, title, cwd, index, pid);
        if !resolved.as_str().is_empty() {
            found = Some(resolved);
        }
    }
    proof {
        assert(done.push(chars@.subrange(start as int, hi as int)).drop_last() =~= done);
    }
    match found {
        Some(r) => r,
        None => {
            // All alternatives empty.
            let mut s = String::from_str("Tab ");
            push_decimal(&mut s, index);
            s
        },
    }
}

/// The default tab title format.
pub fn default_tab_format() -> (f: String)
    ensures
        f@ == default_format(),
{
    String::from_str("{title|cwd_base|Tab {index}}")
}

/// The default tab bar position.
pub fn default_tab_position() -> (p: String)
    ensures
        p@ == "top"@,
{
    String::from_str("top")
}


/// The default format, `{title|cwd_base|Tab {index}}`, as characters.
pub open spec fn default_format() -> Seq<char> {
    "{title|cwd_base|Tab {index}}"@
}

/// Adding a character to a prefix changes the brace depth by its kind.
proof fn lemma_brace_depth_step(s: Seq<char>, k: int)
    requires
        0 <= k < s.len(),
    ensures
        brace_depth(s.take(k + 1)) == brace_depth(s.take(k)) + (if s[k] == '{' {
            1int
        } else if s[k] == '}' {
            -1int
        } else {
            0int
        }),
{
    assert(s.take(k + 1).drop_last() =~= s.take(k));
}

/// The default format is one fallback chain.
proof fn lemma_default_format_is_chain()
    ensures
        trim(default_format()) == default_format(),
        is_fallback_chain(default_format()),
{
    reveal_strlit("{title|cwd_base|Tab {index}}");
    let f = default_format();
    assert(f =~= seq!['{', 't', 'i', 't', 'l', 'e', '|', 'c', 'w', 'd', '_', 'b', 'a', 's', 'e', '|', 'T', 'a', 'b', ' ', '{', 'i', 'n', 'd', 'e', 'x', '}', '}']);
    assert(f.take(0) =~= Seq::<char>::empty());
    lemma_brace_depth_step(f, 0);
    lemma_brace_depth_step(f, 1);
    lemma_brace_depth_step(f, 2);
    lemma_brace_depth_step(f, 3);
    lemma_brace_depth_step(f, 4);
    lemma_brace_depth_step(f, 5);
    lemma_brace_depth_step(f, 6);
    lemma_brace_depth_step(f, 7);
    lemma_brace_depth_step(f, 8);
    lemma_brace_depth_step(f, 9);
    lemma_brace_depth_step(f, 10);
    lemma_brace_depth_step(f, 11);
    lemma_brace_depth_step(f, 12);
    lemma_brace_depth_step(f, 13);
    lemma_brace_depth_step(f, 14);
    lemma_brace_depth_step(f, 15);
    lemma_brace_depth_step(f, 16);
    lemma_brace_depth_step(f, 17);
    lemma_brace_depth_step(f, 18);
    lemma_brace_depth_step(f, 19);
    lemma_brace_depth_step(f, 20);
    lemma_brace_depth_step(f, 21);
    lemma_brace_depth_step(f, 22);
    lemma_brace_depth_step(f, 23);
    lemma_brace_depth_step(f, 24);
    lemma_brace_depth_step(f, 25);
    lemma_brace_depth_step(f, 26);
    lemma_brace_depth_step(f, 27);
    assert(brace_depth(f.take(0)) == 0);
    assert(brace_depth(f.take(1)) == 1);
    assert(brace_depth(f.take(2)) == 1);
    assert(brace_depth(f.take(3)) == 1);
    assert(brace_depth(f.take(4)) == 1);
    assert(brace_depth(f.take(5)) == 1);
    assert(brace_depth(f.take(6)) == 1);
    assert(brace_depth(f.take(7)) == 1);
    assert(brace_depth(f.take(8)) == 1);
    assert(brace_depth(f.take(9)) == 1);
    assert(brace_depth(f.take(10)) == 1);
    assert(brace_depth(f.take(11)) == 1);
    assert(brace_depth(f.take(12)) == 1);
    assert(brace_depth(f.take(13)) == 1);
    assert(brace_depth(f.take(14)) == 1);
    assert(brace_depth(f.take(15)) == 1);
    assert(brace_depth(f.take(16)) == 1);
    assert(brace_depth(f.take(17)) == 1);
    assert(brace_depth(f.take(18)) == 1);
    assert(brace_depth(f.take(19)) == 1);
    assert(brace_depth(f.take(20)) == 1);
    assert(brace_depth(f.take(21)) == 2);
    assert(brace_depth(f.take(22)) == 2);
    assert(brace_depth(f.take(23)) == 2);
    assert(brace_depth(f.take(24)) == 2);
    assert(brace_depth(f.take(25)) == 2);
    assert(brace_depth(f.take(26)) == 2);
    assert(brace_depth(f.take(27)) == 1);
    assert(brace_depth(f.take(28)) == 0);
    assert(f.take(28) =~= f);
    assert forall|k: int| 1 <= k < f.len() implies brace_depth(#[trigger] f.take(k)) > 0 by {
        assert(k == 1 || k == 2 || k == 3 || k == 4 || k == 5 || k == 6 || k == 7 || k == 8 || k == 9 || k == 10 || k == 11 || k == 12 || k == 13 || k == 14 || k == 15 || k == 16 || k == 17 || k == 18 || k == 19 || k == 20 || k == 21 || k == 22 || k == 23 || k == 24 || k == 25 || k == 26 || k == 27);
    }
}



/// A sequence whose `j`-th element differs from the pattern's does not
/// start with the pattern.
proof fn lemma_no_prefix_at(x: Seq<char>, p: Seq<char>, j: int)
    requires
        0 <= j < p.len(),
        j < x.len(),
        x[j] != p[j],
    ensures
        !has_prefix(x, p),
{
    if x.len() >= p.len() {
        assert(x.take(p.len() as int)[j] == x[j]);
    }
}

/// Where the pattern does not start at the first character, that character
/// stays and replacing goes on with the rest.
proof fn lemma_replace_step(s: Seq<char>, pat: Seq<char>, to: Seq<char>)
    requires
        s.len() > 0,
        !has_prefix(s, pat),
    ensures
        replace_all(s, pat, to) == seq![s[0]] + replace_all(s.drop_first(), pat, to),
{
}


/// A piece without separators splits into itself.
proof fn lemma_split_single(a: Seq<char>, sep: char)
    requires
        forall|i: int| 0 <= i < a.len() ==> a[i] != sep,
    ensures
        split_chars(a, sep) == seq![a],
    decreases a.len(),
{
    if a.len() == 0 {
        assert(a =~= Seq::<char>::empty());
    } else {
        lemma_split_single(a.drop_last(), sep);
        assert(a[a.len() - 1] != sep);
        assert(a.drop_last().push(a.last()) =~= a);
        assert(seq![a.drop_last()].update(0, a) =~= seq![a]);
    }
}

/// Splitting `a`, a separator and `b` gives the pieces of `a`, then those
/// of `b`.
proof fn lemma_split_concat(a: Seq<char>, b: Seq<char>, sep: char)
    ensures
        split_chars(a + seq![sep] + b, sep) == split_chars(a, sep) + split_chars(b, sep),
    decreases b.len(),
{
    let s = a + seq![sep] + b;
    lemma_split_nonempty(a, sep);
    if b.len() == 0 {
        assert(s.drop_last() =~= a);
        assert(split_chars(a, sep).push(Seq::empty()) =~= split_chars(a, sep) + seq![Seq::<char>::empty()]);
    } else {
        lemma_split_concat(a, b.drop_last(), sep);
        lemma_split_nonempty(b.drop_last(), sep);
        assert(s.drop_last() =~= a + seq![sep] + b.drop_last());
        assert(s.last() == b.last());
        let pa = split_chars(a, sep);
        let pb = split_chars(b.drop_last(), sep);
        if b.last() == sep {
            assert((pa + pb).push(Seq::empty()) =~= pa + pb.push(Seq::empty()));
        } else {
            assert((pa + pb).update((pa + pb).len() - 1, (pa + pb).last().push(b.last())) =~= pa
                + pb.update(pb.len() - 1, pb.last().push(b.last())));
        }
    }
}

/// The alternatives of the default format.
proof fn lemma_default_alternatives()
    ensures
        split_chars(default_format().subrange(1, default_format().len() - 1), '|') == seq![
            seq!['t', 'i', 't', 'l', 'e'],
            seq!['c', 'w', 'd', '_', 'b', 'a', 's', 'e'],
            seq!['T', 'a', 'b', ' ', '{', 'i', 'n', 'd', 'e', 'x', '}'],
        ],
{
    reveal_strlit("{title|cwd_base|Tab {index}}");
    let f = default_format();
    let a0 = seq!['t', 'i', 't', 'l', 'e'];
    let a1 = seq!['c', 'w', 'd', '_', 'b', 'a', 's', 'e'];
    let a2 = seq!['T', 'a', 'b', ' ', '{', 'i', 'n', 'd', 'e', 'x', '}'];
    assert(f.subrange(1, f.len() - 1) =~= a0 + seq!['|'] + (a1 + seq!['|'] + a2));
    lemma_split_single(a0, '|');
    lemma_split_single(a1, '|');
    lemma_split_single(a2, '|');
    lemma_split_concat(a1, a2, '|');
    lemma_split_concat(a0, a1 + seq!['|'] + a2, '|');
    assert(seq![a0] + (seq![a1] + seq![a2]) =~= seq![a0, a1, a2]);
}

/// `Tab {index}` holds no `{title}`.
proof fn lemma_tab_has_no_title(to: Seq<char>)
    ensures
        replace_all(seq!['T', 'a', 'b', ' ', '{', 'i', 'n', 'd', 'e', 'x', '}'], seq!['{', 't', 'i', 't', 'l', 'e', '}'], to) == seq!['T', 'a', 'b', ' ', '{', 'i', 'n', 'd', 'e', 'x', '}'],
{
    let a2 = seq!['T', 'a', 'b', ' ', '{', 'i', 'n', 'd', 'e', 'x', '}'];
    let pat = seq!['{', 't', 'i', 't', 'l', 'e', '}'];
    assert(a2.skip(11) =~= Seq::<char>::empty());
    assert(a2.skip(10).len() == 1);
    assert(a2.skip(10)[0] == '}');
    assert(a2.skip(10).drop_first() =~= a2.skip(11));
    lemma_replace_step(a2.skip(10), pat, to);
    assert(replace_all(a2.skip(10), pat, to) =~= seq!['}']);
    assert(a2.skip(9).len() == 2);
    assert(a2.skip(9)[0] == 'x');
    assert(a2.skip(9).drop_first() =~= a2.skip(10));
    lemma_replace_step(a2.skip(9), pat, to);
    assert(replace_all(a2.skip(9), pat, to) =~= seq!['x', '}']);
    assert(a2.skip(8).len() == 3);
    assert(a2.skip(8)[0] == 'e');
    assert(a2.skip(8).drop_first() =~= a2.skip(9));
    lemma_replace_step(a2.skip(8), pat, to);
    assert(replace_all(a2.skip(8), pat, to) =~= seq!['e', 'x', '}']);
    assert(a2.skip(7).len() == 4);
    assert(a2.skip(7)[0] == 'd');
    assert(a2.skip(7).drop_first() =~= a2.skip(8));
    lemma_replace_step(a2.skip(7), pat, to);
    assert(replace_all(a2.skip(7), pat, to) =~= seq!['d', 'e', 'x', '}']);
    assert(a2.skip(6).len() == 5);
    assert(a2.skip(6)[0] == 'n');
    assert(a2.skip(6).drop_first() =~= a2.skip(7));
    lemma_replace_step(a2.skip(6), pat, to);
    assert(replace_all(a2.skip(6), pat, to) =~= seq!['n', 'd', 'e', 'x', '}']);
    assert(a2.skip(5).len() == 6);
    assert(a2.skip(5)[0] == 'i');
    assert(a2.skip(5).drop_first() =~= a2.skip(6));
    lemma_replace_step(a2.skip(5), pat, to);
    assert(replace_all(a2.skip(5), pat, to) =~= seq!['i', 'n', 'd', 'e', 'x', '}']);
    assert(a2.skip(4).len() == 7);
    assert(a2.skip(4)[0] == '{');
    lemma_no_prefix_at(a2.skip(4), pat, 1);
    assert(a2.skip(4).drop_first() =~= a2.skip(5));
    lemma_replace_step(a2.skip(4), pat, to);
    assert(replace_all(a2.skip(4), pat, to) =~= seq!['{', 'i', 'n', 'd', 'e', 'x', '}']);
    assert(a2.skip(3).len() == 8);
    assert(a2.skip(3)[0] == ' ');
    lemma_no_prefix_at(a2.skip(3), pat, 0);
    assert(a2.skip(3).drop_first() =~= a2.skip(4));
    lemma_replace_step(a2.skip(3), pat, to);
    assert(replace_all(a2.skip(3), pat, to) =~= seq![' ', '{', 'i', 'n', 'd', 'e', 'x', '}']);
    assert(a2.skip(2).len() == 9);
    assert(a2.skip(2)[0] == 'b');
    lemma_no_prefix_at(a2.skip(2), pat, 0);
    assert(a2.skip(2).drop_first() =~= a2.skip(3));
    lemma_replace_step(a2.skip(2), pat, to);
    assert(replace_all(a2.skip(2), pat, to) =~= seq!['b', ' ', '{', 'i', 'n', 'd', 'e', 'x', '}']);
    assert(a2.skip(1).len() == 10);
    assert(a2.skip(1)[0] == 'a');
    lemma_no_prefix_at(a2.skip(1), pat, 0);
    assert(a2.skip(1).drop_first() =~= a2.skip(2));
    lemma_replace_step(a2.skip(1), pat, to);
    assert(replace_all(a2.skip(1), pat, to) =~= seq!['a', 'b', ' ', '{', 'i', 'n', 'd', 'e', 'x', '}']);
    assert(a2.skip(0).len() == 11);
    assert(a2.skip(0)[0] == 'T');
    lemma_no_prefix_at(a2.skip(0), pat, 0);
    assert(a2.skip(0).drop_first() =~= a2.skip(1));
    lemma_replace_step(a2.skip(0), pat, to);
    assert(replace_all(a2.skip(0), pat, to) =~= seq!['T', 'a', 'b', ' ', '{', 'i', 'n', 'd', 'e', 'x', '}']);
    assert(a2.skip(0) =~= a2);
}


/// `Tab {index}` holds no `{cwd}`.
proof fn lemma_tab_has_no_cwd(to: Seq<char>)
    ensures
        replace_all(seq!['T', 'a', 'b', ' ', '{', 'i', 'n', 'd', 'e', 'x', '}'], seq!['{', 'c', 'w', 'd', '}'], to) == seq!['T', 'a', 'b', ' ', '{', 'i', 'n', 'd', 'e', 'x', '}'],
{
    let a2 = seq!['T', 'a', 'b', ' ', '{', 'i', 'n', 'd', 'e', 'x', '}'];
    let pat = seq!['{', 'c', 'w', 'd', '}'];
    assert(a2.skip(11) =~= Seq::<char>::empty());
    assert(a2.skip(10).len() == 1);
    assert(a2.skip(10)[0] == '}');
    assert(a2.skip(10).drop_first() =~= a2.skip(11));
    lemma_replace_step(a2.skip(10), pat, to);
    assert(replace_all(a2.skip(10), pat, to) =~= seq!['}']);
    assert(a2.skip(9).len() == 2);
    assert(a2.skip(9)[0] == 'x');
    assert(a2.skip(9).drop_first() =~= a2.skip(10));
    lemma_replace_step(a2.skip(9), pat, to);
    assert(replace_all(a2.skip(9), pat, to) =~= seq!['x', '}']);
    assert(a2.skip(8).len() == 3);
    assert(a2.skip(8)[0] == 'e');
    assert(a2.skip(8).drop_first() =~= a2.skip(9));
    lemma_replace_step(a2.skip(8), pat, to);
    assert(replace_all(a2.skip(8), pat, to) =~= seq!['e', 'x', '}']);
    assert(a2.skip(7).len() == 4);
    assert(a2.skip(7)[0] == 'd');
    assert(a2.skip(7).drop_first() =~= a2.skip(8));
    lemma_replace_step(a2.skip(7), pat, to);
    assert(replace_all(a2.skip(7), pat, to) =~= seq!['d', 'e', 'x', '}']);
    assert(a2.skip(6).len() == 5);
    assert(a2.skip(6)[0] == 'n');
    lemma_no_prefix_at(a2.skip(6), pat, 0);
    assert(a2.skip(6).drop_first() =~= a2.skip(7));
    lemma_replace_step(a2.skip(6), pat, to);
    assert(replace_all(a2.skip(6), pat, to) =~= seq!['n', 'd', 'e', 'x', '}']);
    assert(a2.skip(5).len() == 6);
    assert(a2.skip(5)[0] == 'i');
    lemma_no_prefix_at(a2.skip(5), pat, 0);
    assert(a2.skip(5).drop_first() =~= a2.skip(6));
    lemma_replace_step(a2.skip(5), pat, to);
    assert(replace_all(a2.skip(5), pat, to) =~= seq!['i', 'n', 'd', 'e', 'x', '}']);
    assert(a2.skip(4).len() == 7);
    assert(a2.skip(4)[0] == '{');
    lemma_no_prefix_at(a2.skip(4), pat, 1);
    assert(a2.skip(4).drop_first() =~= a2.skip(5));
    lemma_replace_step(a2.skip(4), pat, to);
    assert(replace_all(a2.skip(4), pat, to) =~= seq!['{', 'i', 'n', 'd', 'e', 'x', '}']);
    assert(a2.skip(3).len() == 8);
    assert(a2.skip(3)[0] == ' ');
    lemma_no_prefix_at(a2.skip(3), pat, 0);
    assert(a2.skip(3).drop_first() =~= a2.skip(4));
    lemma_replace_step(a2.skip(3), pat, to);
    assert(replace_all(a2.skip(3), pat, to) =~= seq![' ', '{', 'i', 'n', 'd', 'e', 'x', '}']);
    assert(a2.skip(2).len() == 9);
    assert(a2.skip(2)[0] == 'b');
    lemma_no_prefix_at(a2.skip(2), pat, 0);
    assert(a2.skip(2).drop_first() =~= a2.skip(3));
    lemma_replace_step(a2.skip(2), pat, to);
    assert(replace_all(a2.skip(2), pat, to) =~= seq!['b', ' ', '{', 'i', 'n', 'd', 'e', 'x', '}']);
    assert(a2.skip(1).len() == 10);
    assert(a2.skip(1)[0] == 'a');
    lemma_no_prefix_at(a2.skip(1), pat, 0);
    assert(a2.skip(1).drop_first() =~= a2.skip(2));
    lemma_replace_step(a2.skip(1), pat, to);
    assert(replace_all(a2.skip(1), pat, to) =~= seq!['a', 'b', ' ', '{', 'i', 'n', 'd', 'e', 'x', '}']);
    assert(a2.skip(0).len() == 11);
    assert(a2.skip(0)[0] == 'T');
    lemma_no_prefix_at(a2.skip(0), pat, 0);
    assert(a2.skip(0).drop_first() =~= a2.skip(1));
    lemma_replace_step(a2.skip(0), pat, to);
    assert(replace_all(a2.skip(0), pat, to) =~= seq!['T', 'a', 'b', ' ', '{', 'i', 'n', 'd', 'e', 'x', '}']);
    assert(a2.skip(0) =~= a2);
}


/// `Tab {index}` holds no `{cwd_base}`.
proof fn lemma_tab_has_no_cwd_base(to: Seq<char>)
    ensures
        replace_all(seq!['T', 'a', 'b', ' ', '{', 'i', 'n', 'd', 'e', 'x', '}'], seq!['{', 'c', 'w', 'd', '_', 'b', 'a', 's', 'e', '}'], to) == seq!['T', 'a', 'b', ' ', '{', 'i', 'n', 'd', 'e', 'x', '}'],
{
    let a2 = seq!['T', 'a', 'b', ' ', '{', 'i', 'n', 'd', 'e', 'x', '}'];
    let pat = seq!['{', 'c', 'w', 'd', '_', 'b', 'a', 's', 'e', '}'];
    assert(a2.skip(11) =~= Seq::<char>::empty());
    assert(a2.skip(10).len() == 1);
    assert(a2.skip(10)[0] == '}');
    assert(a2.skip(10).drop_first() =~= a2.skip(11));
    lemma_replace_step(a2.skip(10), pat, to);
    assert(replace_all(a2.skip(10), pat, to) =~= seq!['}']);
    assert(a2.skip(9).len() == 2);
    assert(a2.skip(9)[0] == 'x');
    assert(a2.skip(9).drop_first() =~= a2.skip(10));
    lemma_replace_step(a2.skip(9), pat, to);
    assert(replace_all(a2.skip(9), pat, to) =~= seq!['x', '}']);
    assert(a2.skip(8).len() == 3);
    assert(a2.skip(8)[0] == 'e');
    assert(a2.skip(8).drop_first() =~= a2.skip(9));
    lemma_replace_step(a2.skip(8), pat, to);
    assert(replace_all(a2.skip(8), pat, to) =~= seq!['e', 'x', '}']);
    assert(a2.skip(7).len() == 4);
    assert(a2.skip(7)[0] == 'd');
    assert(a2.skip(7).drop_first() =~= a2.skip(8));
    lemma_replace_step(a2.skip(7), pat, to);
    assert(replace_all(a2.skip(7), pat, to) =~= seq!['d', 'e', 'x', '}']);
    assert(a2.skip(6).len() == 5);
    assert(a2.skip(6)[0] == 'n');
    assert(a2.skip(6).drop_first() =~= a2.skip(7));
    lemma_replace_step(a2.skip(6), pat, to);
    assert(replace_all(a2.skip(6), pat, to) =~= seq!['n', 'd', 'e', 'x', '}']);
    assert(a2.skip(5).len() == 6);
    assert(a2.skip(5)[0] == 'i');
    assert(a2.skip(5).drop_first() =~= a2.skip(6));
    lemma_replace_step(a2.skip(5), pat, to);
    assert(replace_all(a2.skip(5), pat, to) =~= seq!['i', 'n', 'd', 'e', 'x', '}']);
    assert(a2.skip(4).len() == 7);
    assert(a2.skip(4)[0] == '{');
    assert(a2.skip(4).drop_first() =~= a2.skip(5));
    lemma_replace_step(a2.skip(4), pat, to);
    assert(replace_all(a2.skip(4), pat, to) =~= seq!['{', 'i', 'n', 'd', 'e', 'x', '}']);
    assert(a2.skip(3).len() == 8);
    assert(a2.skip(3)[0] == ' ');
    assert(a2.skip(3).drop_first() =~= a2.skip(4));
    lemma_replace_step(a2.skip(3), pat, to);
    assert(replace_all(a2.skip(3), pat, to) =~= seq![' ', '{', 'i', 'n', 'd', 'e', 'x', '}']);
    assert(a2.skip(2).len() == 9);
    assert(a2.skip(2)[0] == 'b');
    assert(a2.skip(2).drop_first() =~= a2.skip(3));
    lemma_replace_step(a2.skip(2), pat, to);
    assert(replace_all(a2.skip(2), pat, to) =~= seq!['b', ' ', '{', 'i', 'n', 'd', 'e', 'x', '}']);
    assert(a2.skip(1).len() == 10);
    assert(a2.skip(1)[0] == 'a');
    lemma_no_prefix_at(a2.skip(1), pat, 0);
    assert(a2.skip(1).drop_first() =~= a2.skip(2));
    lemma_replace_step(a2.skip(1), pat, to);
    assert(replace_all(a2.skip(1), pat, to) =~= seq!['a', 'b', ' ', '{', 'i', 'n', 'd', 'e', 'x', '}']);
    assert(a2.skip(0).len() == 11);
    assert(a2.skip(0)[0] == 'T');
    lemma_no_prefix_at(a2.skip(0), pat, 0);
    assert(a2.skip(0).drop_first() =~= a2.skip(1));
    lemma_replace_step(a2.skip(0), pat, to);
    assert(replace_all(a2.skip(0), pat, to) =~= seq!['T', 'a', 'b', ' ', '{', 'i', 'n', 'd', 'e', 'x', '}']);
    assert(a2.skip(0) =~= a2);
}


/// `Tab {index}` holds one `{index}`, at its end.
proof fn lemma_tab_index_expands(to: Seq<char>)
    ensures
        replace_all(seq!['T', 'a', 'b', ' ', '{', 'i', 'n', 'd', 'e', 'x', '}'], seq!['{', 'i', 'n', 'd', 'e', 'x', '}'], to) == seq!['T', 'a', 'b', ' '] + to,
{
    let a2 = seq!['T', 'a', 'b', ' ', '{', 'i', 'n', 'd', 'e', 'x', '}'];
    let pat = seq!['{', 'i', 'n', 'd', 'e', 'x', '}'];
    assert(a2.skip(11) =~= Seq::<char>::empty());
    assert(a2.skip(10).len() == 1);
    assert(a2.skip(10)[0] == '}');
    assert(a2.skip(10).drop_first() =~= a2.skip(11));
    lemma_replace_step(a2.skip(10), pat, to);
    assert(replace_all(a2.skip(10), pat, to) =~= seq!['}']);
    assert(a2.skip(9).len() == 2);
    assert(a2.skip(9)[0] == 'x');
    assert(a2.skip(9).drop_first() =~= a2.skip(10));
    lemma_replace_step(a2.skip(9), pat, to);
    assert(replace_all(a2.skip(9), pat, to) =~= seq!['x', '}']);
    assert(a2.skip(8).len() == 3);
    assert(a2.skip(8)[0] == 'e');
    assert(a2.skip(8).drop_first() =~= a2.skip(9));
    lemma_replace_step(a2.skip(8), pat, to);
    assert(replace_all(a2.skip(8), pat, to) =~= seq!['e', 'x', '}']);
    assert(a2.skip(7).len() == 4);
    assert(a2.skip(7)[0] == 'd');
    assert(a2.skip(7).drop_first() =~= a2.skip(8));
    lemma_replace_step(a2.skip(7), pat, to);
    assert(replace_all(a2.skip(7), pat, to) =~= seq!['d', 'e', 'x', '}']);
    assert(a2.skip(6).len() == 5);
    assert(a2.skip(6)[0] == 'n');
    assert(a2.skip(6).drop_first() =~= a2.skip(7));
    lemma_replace_step(a2.skip(6), pat, to);
    assert(replace_all(a2.skip(6), pat, to) =~= seq!['n', 'd', 'e', 'x', '}']);
    assert(a2.skip(5).len() == 6);
    assert(a2.skip(5)[0] == 'i');
    assert(a2.skip(5).drop_first() =~= a2.skip(6));
    lemma_replace_step(a2.skip(5), pat, to);
    assert(replace_all(a2.skip(5), pat, to) =~= seq!['i', 'n', 'd', 'e', 'x', '}']);
    assert(a2.skip(4).len() == 7);
    assert(a2.skip(4)[0] == '{');
    assert(a2.skip(4).take(7) =~= pat);
    assert(a2.skip(4).skip(7) =~= a2.skip(11));
    assert(replace_all(a2.skip(4), pat, to) =~= to);
    assert(a2.skip(3).len() == 8);
    assert(a2.skip(3)[0] == ' ');
    lemma_no_prefix_at(a2.skip(3), pat, 0);
    assert(a2.skip(3).drop_first() =~= a2.skip(4));
    lemma_replace_step(a2.skip(3), pat, to);
    assert(replace_all(a2.skip(3), pat, to) =~= seq![' '] + to);
    assert(a2.skip(2).len() == 9);
    assert(a2.skip(2)[0] == 'b');
    lemma_no_prefix_at(a2.skip(2), pat, 0);
    assert(a2.skip(2).drop_first() =~= a2.skip(3));
    lemma_replace_step(a2.skip(2), pat, to);
    assert(replace_all(a2.skip(2), pat, to) =~= seq!['b', ' '] + to);
    assert(a2.skip(1).len() == 10);
    assert(a2.skip(1)[0] == 'a');
    lemma_no_prefix_at(a2.skip(1), pat, 0);
    assert(a2.skip(1).drop_first() =~= a2.skip(2));
    lemma_replace_step(a2.skip(1), pat, to);
    assert(replace_all(a2.skip(1), pat, to) =~= seq!['a', 'b', ' '] + to);
    assert(a2.skip(0).len() == 11);
    assert(a2.skip(0)[0] == 'T');
    lemma_no_prefix_at(a2.skip(0), pat, 0);
    assert(a2.skip(0).drop_first() =~= a2.skip(1));
    lemma_replace_step(a2.skip(0), pat, to);
    assert(replace_all(a2.skip(0), pat, to) =~= seq!['T', 'a', 'b', ' '] + to);
    assert(a2.skip(0) =~= a2);
}


/// The decimal form of a number holds no `{`.
proof fn lemma_decimal_has_no_open(n: nat)
    ensures
        forall|i: int| 0 <= i < decimal(n).len() ==> decimal(n)[i] != '{',
    decreases n,
{
    let d = digit_chars();
    assert(d[0] == '0');
    assert(d[1] == '1');
    assert(d[2] == '2');
    assert(d[3] == '3');
    assert(d[4] == '4');
    assert(d[5] == '5');
    assert(d[6] == '6');
    assert(d[7] == '7');
    assert(d[8] == '8');
    assert(d[9] == '9');
    let k: int = if n < 10 {
        n as int
    } else {
        (n % 10) as int
    };
    assert(k == 0 || k == 1 || k == 2 || k == 3 || k == 4 || k == 5 || k == 6 || k == 7 || k == 8 || k == 9);
    assert(d[k] != '{');
    if n >= 10 {
        lemma_decimal_has_no_open(n / 10);
        let prev = decimal(n / 10);
        assert(decimal(n) == prev.push(d[k]));
        assert forall|i: int| 0 <= i < decimal(n).len() implies decimal(n)[i] != '{' by {
            if i < prev.len() {
                assert(decimal(n)[i] == prev[i]);
            }
        }
    } else {
        assert(decimal(n) == seq![d[k]]);
    }
}

/// A placeholder starting with `{` does not occur in text without `{`.
proof fn lemma_replace_without_open(s: Seq<char>, pat: Seq<char>, to: Seq<char>)
    requires
        pat.len() > 0,
        pat[0] == '{',
        forall|i: int| 0 <= i < s.len() ==> s[i] != '{',
    ensures
        replace_all(s, pat, to) == s,
    decreases s.len(),
{
    if s.len() > 0 {
        if s.len() >= pat.len() {
            assert(s.take(pat.len() as int)[0] == s[0]);
        }
        lemma_replace_without_open(s.drop_first(), pat, to);
        assert(seq![s[0]] + s.drop_first() =~= s);
    }
}

/// With the default format the title falls back in order: the title when it
/// is not empty, else the last component of the working directory, else
/// `Tab <index>`.
pub proof fn lemma_default_format_falls_back(title: Seq<char>, cwd: Seq<char>, index: usize, pid: u32)
    ensures
        tab_title(default_format(), title, cwd, index, pid) == (if title.len() > 0 {
            title
        } else if cwd_base_or(cwd, Seq::empty()).len() > 0 {
            cwd_base_or(cwd, Seq::empty())
        } else {
            "Tab "@ + decimal(index as nat)
        }),
{
    lemma_default_format_is_chain();
    lemma_default_alternatives();
    reveal_strlit("title");
    reveal_strlit("cwd");
    reveal_strlit("cwd_base");
    reveal_strlit("index");
    reveal_strlit("Tab ");
    reveal_strlit("{title}");
    reveal_strlit("{cwd}");
    reveal_strlit("{cwd_base}");
    reveal_strlit("{index}");
    reveal_strlit("~");
    let a0 = seq!['t', 'i', 't', 'l', 'e'];
    let a1 = seq!['c', 'w', 'd', '_', 'b', 'a', 's', 'e'];
    let a2 = seq!['T', 'a', 'b', ' ', '{', 'i', 'n', 'd', 'e', 'x', '}'];
    let alts = seq![a0, a1, a2];
    lemma_tab_has_no_title(title);
    lemma_tab_has_no_cwd(cwd);
    lemma_tab_has_no_cwd_base(cwd_base_or(cwd, "~"@));
    lemma_tab_index_expands(decimal(index as nat));
    assert(seq!['{', 't', 'i', 't', 'l', 'e', '}'] =~= "{title}"@);
    assert(seq!['{', 'c', 'w', 'd', '}'] =~= "{cwd}"@);
    assert(seq!['{', 'c', 'w', 'd', '_', 'b', 'a', 's', 'e', '}'] =~= "{cwd_base}"@);
    assert(seq!['{', 'i', 'n', 'd', 'e', 'x', '}'] =~= "{index}"@);
    assert(seq!['T', 'a', 'b', ' '] =~= "Tab "@);
    assert(trim(a0) == a0);
    assert(trim(a1) == a1);
    assert(trim(a2) == a2);
    assert(a0 =~= "title"@);
    assert(a1 =~= "cwd_base"@);
    assert(a1.len() != "title"@.len() && a1.len() != "cwd"@.len());
    assert(a2.len() != "title"@.len() && a2.len() != "cwd"@.len());
    assert(a2.len() != "cwd_base"@.len() && a2.len() != "index"@.len());
    assert(resolved(a0, title, cwd, index, pid) == title);
    assert(resolved(a1, title, cwd, index, pid) == cwd_base_or(cwd, Seq::empty()));
    reveal_strlit("pid");
    reveal_strlit("{pid}");
    lemma_decimal_has_no_open(index as nat);
    let e = "Tab "@ + decimal(index as nat);
    assert forall|i: int| 0 <= i < e.len() implies e[i] != '{' by {
        if i >= 4 {
            assert(e[i] == decimal(index as nat)[i - 4]);
        }
    }
    lemma_replace_without_open(e, "{pid}"@, decimal(pid as nat));
    assert(a0.len() != "pid"@.len() && a1.len() != "pid"@.len() && a2.len() != "pid"@.len());
    assert(resolved(a2, title, cwd, index, pid) == "Tab "@ + decimal(index as nat));
    reveal_with_fuel(first_resolved, 4);
    assert(alts.drop_last() =~= seq![a0, a1]);
    assert(alts.drop_last().drop_last() =~= seq![a0]);
    assert(alts.drop_last().drop_last().drop_last() =~= Seq::<Seq<char>>::empty());
}

/// The variables of a fallback chain: `title` is the title, `cwd` the
/// directory, `cwd_base` its last component (empty when it has none),
/// `index` and `pid` the tab number and the process ID in decimal.
pub proof fn lemma_tab_variables(title: Seq<char>, cwd: Seq<char>, index: usize, pid: u32)
    ensures
        resolved("title"@, title, cwd, index, pid) == title,
        resolved("cwd"@, title, cwd, index, pid) == cwd,
        resolved("cwd_base"@, title, cwd, index, pid) == (match path_file_name(cwd) {
            Some(name) => name,
            None => Seq::<char>::empty(),
        }),
        resolved("index"@, title, cwd, index, pid) == decimal(index as nat),
        resolved("pid"@, title, cwd, index, pid) == decimal(pid as nat),
{
    reveal_strlit("title");
    reveal_strlit("cwd");
    reveal_strlit("cwd_base");
    reveal_strlit("index");
    reveal_strlit("pid");
    assert("cwd"@ != "title"@) by { assert("cwd"@.len() != "title"@.len()); }
    assert("cwd_base"@ != "title"@ && "cwd_base"@ != "cwd"@) by {
        assert("cwd_base"@.len() != "title"@.len() && "cwd_base"@.len() != "cwd"@.len());
    }
    assert("index"@ != "title"@ && "index"@ != "cwd"@ && "index"@ != "cwd_base"@) by {
        assert("index"@[0] != "title"@[0] && "index"@.len() != "cwd"@.len() && "index"@.len()
            != "cwd_base"@.len());
    }
    assert("pid"@ != "title"@ && "pid"@ != "cwd"@ && "pid"@ != "cwd_base"@ && "pid"@ != "index"@) by {
        assert("pid"@.len() != "title"@.len() && "pid"@[0] != "cwd"@[0] && "pid"@.len()
            != "cwd_base"@.len() && "pid"@.len() != "index"@.len());
    }
}

/// A fallback chain takes the first alternative whose value is not empty:
/// `{title|cwd_base}` gives the title when there is one, and otherwise
/// the directory's last component.
pub proof fn lemma_first_nonempty_alternative(title: Seq<char>, cwd: Seq<char>, index: usize, pid: u32)
    ensures
        ({
            let alts = seq!["title"@, "cwd_base"@];
            let r = first_resolved(alts, title, cwd, index, pid);
            &&& title.len() > 0 ==> r == Some(title)
            &&& (title.len() == 0 && path_file_name(cwd) is Some && path_file_name(cwd)->0.len() > 0)
                ==> r == Some(path_file_name(cwd)->0)
        }),
{
    lemma_tab_variables(title, cwd, index, pid);
    let alts = seq!["title"@, "cwd_base"@];
    reveal_strlit("title");
    reveal_strlit("cwd_base");
    lemma_trim_word("title"@);
    lemma_trim_word("cwd_base"@);
    assert(alts.drop_last() =~= seq!["title"@]);
    assert(seq!["title"@].drop_last() =~= Seq::<Seq<char>>::empty());
    assert(first_resolved(Seq::<Seq<char>>::empty(), title, cwd, index, pid) is None);
    assert(seq!["title"@].last() == "title"@);
    let one = first_resolved(seq!["title"@], title, cwd, index, pid);
    assert(one == if title.len() > 0 { Some(title) } else { None::<Seq<char>> });
    assert(alts.last() == "cwd_base"@);
}

/// A word without whitespace at its ends is its own trim.
proof fn lemma_trim_word(w: Seq<char>)
    requires
        forall|i: int| 0 <= i < w.len() ==> 'a' <= #[trigger] w[i] <= 'z' || w[i] == '_',
    ensures
        trim(w) == w,
{
    if w.len() > 0 {
        assert('a' <= w[0] <= 'z' || w[0] == '_');
        assert('a' <= w.last() <= 'z' || w.last() == '_');
    }
}

} // verus!
