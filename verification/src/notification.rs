//! The AppleScript that shows a desktop notification.

use vstd::prelude::*;

use crate::text::{has_prefix, replace_all, replace_str};

verus! {

broadcast use vstd::string::group_string_axioms;

/// `s` escaped for an AppleScript string literal: backslashes doubled, then
/// double quotes preceded by a backslash.
pub open spec fn applescript_escaped(s: Seq<char>) -> Seq<char> {
    replace_all(replace_all(s, seq!['\\'], seq!['\\', '\\']), seq!['"'], seq!['\\', '"'])
}

/// The AppleScript command that shows a notification with `body` under
/// `title`, with the default sound when `sound`.
pub open spec fn notification_command(title: Seq<char>, body: Seq<char>, sound: bool) -> Seq<char> {
    let base = "display notification \""@ + applescript_escaped(body) + "\" with title \""@
        + applescript_escaped(title) + "\""@;
    if sound {
        base + " sound name \"default\""@
    } else {
        base
    }
}

/// Escape `s` for an AppleScript string literal.
pub fn escape_for_applescript(s: &str) -> (r: String)
    ensures
        r@ == applescript_escaped(s@),
{
    proof {
        reveal_strlit("\\");
        reveal_strlit("\\\\");
        reveal_strlit("\"");
        reveal_strlit("\\\"");
        assert("\\"@ =~= seq!['\\']);
        assert("\\\\"@ =~= seq!['\\', '\\']);
        assert("\""@ =~= seq!['"']);
        assert("\\\""@ =~= seq!['\\', '"']);
    }
    let doubled = replace_str(s, "\\", "\\\\");
    replace_str(doubled.as_str(), "\"", "\\\"")
}

/// The `osascript -e` script that shows a notification.
///
/// `title` — notification title (e.g. "termojinal").
/// `body`  — notification body text.
/// `sound` — if `true`, plays the default notification sound.
pub fn notification_script(title: &str, body: &str, sound: bool) -> (script: String)
    ensures
        script@ == notification_command(title@, body@, sound),
{
    let escaped_body = escape_for_applescript(body);
    let escaped_title = escape_for_applescript(title);
    let mut script = String::from_str("display notification \"");
    script.append(escaped_body.as_str());
    script.append("\" with title \"");
    script.append(escaped_title.as_str());
    script.append("\"");
    if sound {
        script.append(" sound name \"default\"");
    }
    script
}


// ---------------------------------------------------------------------------
// Escaping reads back
// ---------------------------------------------------------------------------

/// The contents of an AppleScript string literal whose body is `t`: a
/// backslash stands for the character after it.
pub open spec fn applescript_unescaped(t: Seq<char>) -> Seq<char>
    decreases t.len(),
{
    if t.len() == 0 {
        t
    } else if t[0] == '\\' && t.len() >= 2 {
        seq![t[1]] + applescript_unescaped(t.skip(2))
    } else {
        seq![t[0]] + applescript_unescaped(t.drop_first())
    }
}

/// Whether `t` can stand between the quotes of an AppleScript string
/// literal: every backslash escapes a following character and no double
/// quote stands alone.
pub open spec fn well_escaped(t: Seq<char>) -> bool
    decreases t.len(),
{
    if t.len() == 0 {
        true
    } else if t[0] == '\\' {
        t.len() >= 2 && well_escaped(t.skip(2))
    } else {
        t[0] != '"' && well_escaped(t.drop_first())
    }
}

/// Every `p` in `s` replaced by `to`, one character at a time.
spec fn replace_char(s: Seq<char>, p: char, to: Seq<char>) -> Seq<char>
    decreases s.len(),
{
    if s.len() == 0 {
        s
    } else {
        (if s[0] == p {
            to
        } else {
            seq![s[0]]
        }) + replace_char(s.drop_first(), p, to)
    }
}

/// One character escaped.
spec fn escape_char(c: char) -> Seq<char> {
    if c == '\\' || c == '"' {
        seq!['\\', c]
    } else {
        seq![c]
    }
}

/// Escaping character by character.
spec fn escape_each(s: Seq<char>) -> Seq<char>
    decreases s.len(),
{
    if s.len() == 0 {
        s
    } else {
        escape_char(s[0]) + escape_each(s.drop_first())
    }
}

proof fn lemma_replace_single(s: Seq<char>, p: char, to: Seq<char>)
    ensures
        replace_all(s, seq![p], to) == replace_char(s, p, to),
    decreases s.len(),
{
    if s.len() > 0 {
        lemma_replace_single(s.drop_first(), p, to);
        assert(has_prefix(s, seq![p]) <==> s[0] == p) by {
            if s[0] == p {
                assert(s.take(1) =~= seq![p]);
            }
            if has_prefix(s, seq![p]) {
                assert(s.take(1)[0] == s[0]);
            }
        }
        assert(s.skip(1) =~= s.drop_first());
    }
}

proof fn lemma_replace_char_concat(a: Seq<char>, b: Seq<char>, p: char, to: Seq<char>)
    ensures
        replace_char(a + b, p, to) == replace_char(a, p, to) + replace_char(b, p, to),
    decreases a.len(),
{
    if a.len() == 0 {
        assert(a + b =~= b);
        assert(Seq::<char>::empty() + replace_char(b, p, to) =~= replace_char(b, p, to));
    } else {
        assert((a + b).drop_first() =~= a.drop_first() + b);
        assert((a + b)[0] == a[0]);
        lemma_replace_char_concat(a.drop_first(), b, p, to);
        let head = if a[0] == p {
            to
        } else {
            seq![a[0]]
        };
        assert(head + (replace_char(a.drop_first(), p, to) + replace_char(b, p, to)) =~= (head
            + replace_char(a.drop_first(), p, to)) + replace_char(b, p, to));
    }
}

proof fn lemma_escaped_each(s: Seq<char>)
    ensures
        applescript_escaped(s) == escape_each(s),
{
    lemma_replace_single(s, '\\', seq!['\\', '\\']);
    let doubled = replace_char(s, '\\', seq!['\\', '\\']);
    lemma_replace_single(doubled, '"', seq!['\\', '"']);
    lemma_escape_pipeline(s);
}

proof fn lemma_escape_pipeline(s: Seq<char>)
    ensures
        replace_char(replace_char(s, '\\', seq!['\\', '\\']), '"', seq!['\\', '"']) == escape_each(s),
    decreases s.len(),
{
    if s.len() > 0 {
        let c = s[0];
        let head = if c == '\\' {
            seq!['\\', '\\']
        } else {
            seq![c]
        };
        let rest = replace_char(s.drop_first(), '\\', seq!['\\', '\\']);
        lemma_replace_char_concat(head, rest, '"', seq!['\\', '"']);
        lemma_escape_pipeline(s.drop_first());
        reveal_with_fuel(replace_char, 3);
        if c == '\\' {
            assert(head.drop_first() =~= seq!['\\']);
            assert(head.drop_first().drop_first() =~= Seq::<char>::empty());
            assert(replace_char(head, '"', seq!['\\', '"']) =~= seq!['\\', '\\']);
        } else {
            assert(head.drop_first() =~= Seq::<char>::empty());
            assert(replace_char(head, '"', seq!['\\', '"']) =~= escape_char(c));
        }
    }
}

proof fn lemma_escape_each_reads_back(s: Seq<char>)
    ensures
        well_escaped(escape_each(s)),
        applescript_unescaped(escape_each(s)) == s,
    decreases s.len(),
{
    if s.len() > 0 {
        let c = s[0];
        let rest = escape_each(s.drop_first());
        lemma_escape_each_reads_back(s.drop_first());
        let t = escape_char(c) + rest;
        if c == '\\' || c == '"' {
            assert(t.skip(2) =~= rest);
            assert(t[1] == c);
        } else {
            assert(t.drop_first() =~= rest);
        }
        assert(seq![c] + s.drop_first() =~= s);
    }
}

/// Escaped text can stand between the quotes of an AppleScript string
/// literal, and reading that literal gives back the original text.
pub proof fn lemma_applescript_escape_round_trip(s: Seq<char>)
    ensures
        well_escaped(applescript_escaped(s)),
        applescript_unescaped(applescript_escaped(s)) == s,
{
    lemma_escaped_each(s);
    lemma_escape_each_reads_back(s);
}

/// The notification command shows the escaped body after `display
/// notification`, then the escaped title after `with title`; asking for a
/// sound only appends `sound name "default"` to the same command.
pub proof fn lemma_notification_layout(title: Seq<char>, body: Seq<char>)
    ensures
        notification_command(title, body, false) == "display notification \""@ + applescript_escaped(
            body,
        ) + "\" with title \""@ + applescript_escaped(title) + "\""@,
        notification_command(title, body, true) == notification_command(title, body, false)
            + " sound name \"default\""@,
{
}

} // verus!
