//! OSC (Operating System Command) sequences: what each one asks the
//! terminal to do.

use vstd::prelude::*;
use vstd::utf8::{decode_utf8, valid_utf8};

use crate::codec::{base64_standard_decoding, decode_base64};
use crate::process_info::{parse_i32, parse_i32_range};
use crate::text::{
    after_first, before_first, char_position, chars_contain, contains_text, find_char, has_prefix,
    joined_with, last_char_position, range_is_str, rfind_char, split_chars, str_chars,
    strip_prefix_len,
};

verus! {

broadcast use vstd::string::group_string_axioms;

// ---------------------------------------------------------------------------
// Text of parameters
// ---------------------------------------------------------------------------

/// The text `bytes` encode, when they are valid UTF-8.
pub open spec fn utf8_text(bytes: Seq<u8>) -> Option<Seq<char>> {
    if valid_utf8(bytes) {
        Some(decode_utf8(bytes))
    } else {
        None
    }
}

/// What `String::from_utf8_lossy` makes of `bytes`.
pub uninterp spec fn utf8_lossy(bytes: Seq<u8>) -> Seq<char>;

/// `std::str::from_utf8`, with the error dropped: the text of valid UTF-8,
/// nothing otherwise (validity and decoding as vstd's UTF-8 model states
/// them).
#[verifier::external_body]
fn str_from_utf8(bytes: &[u8]) -> (r: Option<&str>)
    ensures
        match r {
            Some(s) => utf8_text(bytes@) == Some(s@),
            None => utf8_text(bytes@) is None,
        },
{
    std::str::from_utf8(bytes).ok()
}

/// `String::from_utf8_lossy`: invalid sequences become U+FFFD, which the
/// contract names (`utf8_lossy`); for valid UTF-8 it claims only what the
/// documentation says, that the text is the decoded bytes.
#[verifier::external_body]
fn lossy_text(bytes: &[u8]) -> (r: String)
    ensures
        r@ == utf8_lossy(bytes@),
        valid_utf8(bytes@) ==> r@ == decode_utf8(bytes@),
{
    String::from_utf8_lossy(bytes).into_owned()
}

/// The text of parameter `i`, if it exists and is valid UTF-8.
pub open spec fn param(params: Seq<Seq<u8>>, i: int) -> Option<Seq<char>> {
    if 0 <= i < params.len() {
        utf8_text(params[i])
    } else {
        None
    }
}

/// The texts of the parameters that are valid UTF-8, in order.
pub open spec fn valid_texts(params: Seq<Seq<u8>>) -> Seq<Seq<char>>
    decreases params.len(),
{
    if params.len() == 0 {
        Seq::empty()
    } else {
        match utf8_text(params.last()) {
            Some(t) => valid_texts(params.drop_last()).push(t),
            None => valid_texts(params.drop_last()),
        }
    }
}

// ---------------------------------------------------------------------------
// Actions
// ---------------------------------------------------------------------------

/// A shell-integration mark (OSC 133).
#[derive(Debug, Clone, Copy, PartialEq, Eq, Structural)]
pub enum ShellMark {
    /// `A`: a prompt starts.
    PromptStart,
    /// `B`: the command line starts.
    CommandStart,
    /// `C`: the command runs.
    CommandExecuted,
    /// `D`: the command finished, with its exit code when one was given.
    CommandFinished(Option<i32>),
}

/// What an OSC sequence asks of the terminal.
#[derive(Debug)]
pub enum OscAction {
    /// Nothing.
    Ignore,
    /// OSC 0/2: set the window title.
    SetTitle(String),
    /// OSC 10/11/12 queries: send this report back to the application.
    Reply(Vec<u8>),
    /// OSC 7: the shell's working directory, as sent and as a path.
    SetCwd { uri: String, path: String },
    /// OSC 9/99/777: show a notification.
    Notify(String),
    /// OSC 133: a shell-integration mark.
    Mark(ShellMark),
    /// OSC 8: start a hyperlink to the URI, or end the current one.
    Hyperlink(Option<String>),
    /// OSC 52 with `?`: report the clipboard selection.
    ClipboardQuery { selection: String },
    /// OSC 52: set the clipboard selection.
    ClipboardSet { selection: String, data: String },
    /// OSC 1337 `File=` with `inline=1`: an inline image payload.
    InlineImage(String),
    /// OSC 1337 `File=` otherwise: a file sent to the terminal.
    FileTransfer { name: String, data: Vec<u8> },
    /// OSC 1337 `MultipartFile=`: a multipart image begins.
    MultipartBegin(String),
    /// OSC 1337 `FilePart=`: a chunk of a multipart image.
    MultipartPart(String),
    /// OSC 1337 `FileEnd`: the multipart image is complete.
    MultipartEnd,
}

/// An OSC action as plain values.
pub enum OscEffect {
    Ignore,
    SetTitle(Seq<char>),
    Reply(Seq<u8>),
    SetCwd { uri: Seq<char>, path: Seq<char> },
    Notify(Seq<char>),
    Mark(ShellMark),
    Hyperlink(Option<Seq<char>>),
    ClipboardQuery { selection: Seq<char> },
    ClipboardSet { selection: Seq<char>, data: Seq<char> },
    InlineImage(Seq<char>),
    FileTransfer { name: Seq<char>, data: Seq<u8> },
    MultipartBegin(Seq<char>),
    MultipartPart(Seq<char>),
    MultipartEnd,
}

impl View for OscAction {
    type V = OscEffect;

    open spec fn view(&self) -> OscEffect {
        match self {
            OscAction::Ignore => OscEffect::Ignore,
            OscAction::SetTitle(t) => OscEffect::SetTitle(t@),
            OscAction::Reply(r) => OscEffect::Reply(r@),
            OscAction::SetCwd { uri, path } => OscEffect::SetCwd { uri: uri@, path: path@ },
            OscAction::Notify(m) => OscEffect::Notify(m@),
            OscAction::Mark(m) => OscEffect::Mark(*m),
            OscAction::Hyperlink(u) => OscEffect::Hyperlink(
                match u {
                    Some(s) => Some(s@),
                    None => None,
                },
            ),
            OscAction::ClipboardQuery { selection } => OscEffect::ClipboardQuery {
                selection: selection@,
            },
            OscAction::ClipboardSet { selection, data } => OscEffect::ClipboardSet {
                selection: selection@,
                data: data@,
            },
            OscAction::InlineImage(p) => OscEffect::InlineImage(p@),
            OscAction::FileTransfer { name, data } => OscEffect::FileTransfer {
                name: name@,
                data: data@,
            },
            OscAction::MultipartBegin(p) => OscEffect::MultipartBegin(p@),
            OscAction::MultipartPart(p) => OscEffect::MultipartPart(p@),
            OscAction::MultipartEnd => OscEffect::MultipartEnd,
        }
    }
}

// ---------------------------------------------------------------------------
// What each sequence means
// ---------------------------------------------------------------------------

/// The report `ESC ] <code> ; <body> ESC \`.
pub open spec fn osc_reply(code: Seq<u8>, body: Seq<u8>) -> Seq<u8> {
    seq![0x1bu8, 0x5du8] + code + seq![0x3bu8] + body + seq![0x1bu8, 0x5cu8]
}

/// `rgb:cccc/cccc/cccc`, the default foreground and cursor colour.
pub open spec fn light_gray_body() -> Seq<u8> {
    seq![
        0x72u8, 0x67u8, 0x62u8, 0x3au8,
        0x63u8, 0x63u8, 0x63u8, 0x63u8, 0x2fu8,
        0x63u8, 0x63u8, 0x63u8, 0x63u8, 0x2fu8,
        0x63u8, 0x63u8, 0x63u8, 0x63u8,
    ]
}

/// `rgb:1e1e/1e1e/2e2e`, the default background colour.
pub open spec fn dark_blue_body() -> Seq<u8> {
    seq![
        0x72u8, 0x67u8, 0x62u8, 0x3au8,
        0x31u8, 0x65u8, 0x31u8, 0x65u8, 0x2fu8,
        0x31u8, 0x65u8, 0x31u8, 0x65u8, 0x2fu8,
        0x32u8, 0x65u8, 0x32u8, 0x65u8,
    ]
}

/// OSC 10/11/12: a `?` asks for the colour; setting one is not applied.
pub open spec fn color_query(params: Seq<Seq<u8>>, code: Seq<u8>, body: Seq<u8>) -> OscEffect {
    match param(params, 1) {
        Some(s) => if s == seq!['?'] {
            OscEffect::Reply(osc_reply(code, body))
        } else {
            OscEffect::Ignore
        },
        None => OscEffect::Ignore,
    }
}

/// The directory path an OSC 7 URI names: for `file://host/path`, the part
/// from the first `/` after the scheme; anything else as it is.
pub open spec fn cwd_path(uri: Seq<char>) -> Seq<char> {
    if has_prefix(uri, "file://"@) {
        let rest = uri.skip(7);
        let i = char_position(rest, '/');
        if i < rest.len() {
            rest.skip(i)
        } else {
            uri
        }
    } else {
        uri
    }
}

/// The mark an OSC 133 parameter gives: by its first character; `D;<n>`
/// carries the exit code `n`.
pub open spec fn shell_mark(s: Seq<char>) -> Option<ShellMark> {
    if s.len() == 0 {
        None
    } else if s[0] == 'A' {
        Some(ShellMark::PromptStart)
    } else if s[0] == 'B' {
        Some(ShellMark::CommandStart)
    } else if s[0] == 'C' {
        Some(ShellMark::CommandExecuted)
    } else if s[0] == 'D' {
        Some(
            ShellMark::CommandFinished(
                if has_prefix(s, seq!['D', ';']) {
                    parse_i32(s.skip(2))
                } else {
                    None
                },
            ),
        )
    } else {
        None
    }
}

/// OSC 52: `?` queries the selection (default `c`); anything else is base64
/// text for it, ignored when it does not decode.
pub open spec fn clipboard_effect(params: Seq<Seq<u8>>) -> OscEffect {
    let selection = match param(params, 1) {
        Some(t) => t,
        None => seq!['c'],
    };
    let raw = match param(params, 2) {
        Some(t) => t,
        None => Seq::empty(),
    };
    if raw == seq!['?'] {
        OscEffect::ClipboardQuery { selection }
    } else {
        match base64_standard_decoding(raw) {
            Some(bytes) => OscEffect::ClipboardSet { selection, data: utf8_lossy(bytes) },
            None => OscEffect::Ignore,
        }
    }
}

/// The file name a `name=` value gives: base64 of UTF-8 text, empty when it
/// is not.
pub open spec fn decoded_name(value: Seq<char>) -> Seq<char> {
    match base64_standard_decoding(value) {
        Some(bytes) => match utf8_text(bytes) {
            Some(t) => t,
            None => Seq::empty(),
        },
        None => Seq::empty(),
    }
}

/// The file name of a transfer: that of its last `name=` parameter.
pub open spec fn file_name_param(kvs: Seq<Seq<char>>) -> Seq<char>
    decreases kvs.len(),
{
    if kvs.len() == 0 {
        Seq::empty()
    } else if before_first(kvs.last(), '=') == "name"@ {
        decoded_name(after_first(kvs.last(), '='))
    } else {
        file_name_param(kvs.drop_last())
    }
}

/// A non-inline `File=<params>:<base64>` payload: a file transfer, when
/// there is a `:` and the data decodes.
pub open spec fn file_transfer(payload: Seq<char>) -> OscEffect {
    let rest = payload.skip(5);
    match last_char_position(rest, ':') {
        Some(idx) => match base64_standard_decoding(rest.skip(idx + 1)) {
            Some(data) => OscEffect::FileTransfer {
                name: file_name_param(split_chars(rest.take(idx), ';')),
                data,
            },
            None => OscEffect::Ignore,
        },
        None => OscEffect::Ignore,
    }
}

/// What an OSC 1337 payload (its parameters joined again with `;`) asks.
pub open spec fn iterm2_effect(payload: Seq<char>) -> OscEffect {
    if has_prefix(payload, "File="@) {
        if contains_text(payload, "inline=1"@) {
            OscEffect::InlineImage(payload)
        } else if contains_text(payload, "inline=0"@) || !contains_text(payload, "inline="@) {
            file_transfer(payload)
        } else {
            OscEffect::Ignore
        }
    } else if has_prefix(payload, "MultipartFile="@) {
        OscEffect::MultipartBegin(payload)
    } else if has_prefix(payload, "FilePart="@) {
        OscEffect::MultipartPart(payload)
    } else if payload == "FileEnd"@ {
        OscEffect::MultipartEnd
    } else {
        OscEffect::Ignore
    }
}

/// A notification with the text of one parameter, if it is valid UTF-8.
pub open spec fn notify_with(text: Option<Seq<char>>) -> OscEffect {
    match text {
        Some(t) => OscEffect::Notify(t),
        None => OscEffect::Ignore,
    }
}

/// What an OSC sequence with parameters `params` asks of the terminal. The
/// first parameter is the command number.
pub open spec fn osc_effect(params: Seq<Seq<u8>>) -> OscEffect {
    if params.len() == 0 {
        OscEffect::Ignore
    } else {
        let code = params[0];
        if code == seq![0x30u8] || code == seq![0x32u8] {
            match param(params, 1) {
                Some(t) => OscEffect::SetTitle(t),
                None => OscEffect::Ignore,
            }
        } else if code == seq![0x31u8, 0x30u8] {
            color_query(params, code, light_gray_body())
        } else if code == seq![0x31u8, 0x31u8] {
            color_query(params, code, dark_blue_body())
        } else if code == seq![0x31u8, 0x32u8] {
            color_query(params, code, light_gray_body())
        } else if code == seq![0x37u8] {
            match param(params, 1) {
                Some(s) => OscEffect::SetCwd { uri: s, path: cwd_path(s) },
                None => OscEffect::Ignore,
            }
        } else if code == seq![0x39u8] {
            notify_with(param(params, 1))
        } else if code == seq![0x39u8, 0x39u8] {
            notify_with(utf8_text(params.last()))
        } else if code == seq![0x31u8, 0x33u8, 0x33u8] {
            match param(params, 1) {
                Some(s) => match shell_mark(s) {
                    Some(m) => OscEffect::Mark(m),
                    None => OscEffect::Ignore,
                },
                None => OscEffect::Ignore,
            }
        } else if code == seq![0x38u8] {
            match param(params, 2) {
                Some(uri) => if uri.len() == 0 {
                    OscEffect::Hyperlink(None)
                } else {
                    OscEffect::Hyperlink(Some(uri))
                },
                None => OscEffect::Hyperlink(None),
            }
        } else if code == seq![0x35u8, 0x32u8] {
            clipboard_effect(params)
        } else if code == seq![0x37u8, 0x37u8, 0x37u8] {
            notify_with(param(params, 2))
        } else if code == seq![0x31u8, 0x33u8, 0x33u8, 0x37u8] {
            if params.len() < 2 {
                OscEffect::Ignore
            } else {
                iterm2_effect(joined_with(valid_texts(params.skip(1)), ';'))
            }
        } else {
            OscEffect::Ignore
        }
    }
}


// ---------------------------------------------------------------------------
// Deciding
// ---------------------------------------------------------------------------

/// The parameters as byte sequences.
pub open spec fn param_bytes(params: &[&[u8]]) -> Seq<Seq<u8>> {
    params@.map_values(|p: &[u8]| p@)
}

/// Whether `p` is the first `n` of the bytes `a b c d`.
fn is_code(p: &[u8], n: usize, a: u8, b: u8, c: u8, d: u8) -> (r: bool)
    requires
        1 <= n <= 4,
    ensures
        r == (p@ == seq![a, b, c, d].take(n as int)),
{
    let r = p.len() == n && p[0] == a && (n < 2 || p[1] == b) && (n < 3 || p[2] == c) && (n < 4
        || p[3] == d);
    proof {
        let code = seq![a, b, c, d].take(n as int);
        if p@ == code {
            assert(p@[0] == code[0]);
            if n >= 2 {
                assert(p@[1] == code[1]);
            }
            if n >= 3 {
                assert(p@[2] == code[2]);
            }
            if n >= 4 {
                assert(p@[3] == code[3]);
            }
        }
        if r {
            assert(p@ =~= code);
        }
    }
    r
}

/// The text of parameter `i`, if it exists and is valid UTF-8.
fn param_text<'a>(params: &[&'a [u8]], i: usize) -> (r: Option<&'a str>)
    ensures
        match r {
            Some(s) => param(param_bytes(params), i as int) == Some(s@),
            None => param(param_bytes(params), i as int) is None,
        },
{
    if i < params.len() {
        str_from_utf8(params[i])
    } else {
        None
    }
}

/// Whether `s` is the text `lit`.
fn text_is(s: &str, lit: &str) -> (r: bool)
    ensures
        r == (s@ == lit@),
{
    let chars = str_chars(s);
    proof {
        assert(chars@.subrange(0, chars@.len() as int) =~= s@);
    }
    range_is_str(&chars, 0, chars.len(), lit)
}

/// The report `ESC ] <code> ; rgb:... ESC \` for a colour query.
fn color_reply(code_third: u8, dark: bool) -> (r: Vec<u8>)
    ensures
        r@ == osc_reply(
            seq![0x31u8, code_third],
            if dark {
                dark_blue_body()
            } else {
                light_gray_body()
            },
        ),
{
    let r = if dark {
        vec![
            0x1bu8, 0x5du8, 0x31u8, code_third, 0x3bu8,
            0x72u8, 0x67u8, 0x62u8, 0x3au8,
            0x31u8, 0x65u8, 0x31u8, 0x65u8, 0x2fu8,
            0x31u8, 0x65u8, 0x31u8, 0x65u8, 0x2fu8,
            0x32u8, 0x65u8, 0x32u8, 0x65u8,
            0x1bu8, 0x5cu8,
        ]
    } else {
        vec![
            0x1bu8, 0x5du8, 0x31u8, code_third, 0x3bu8,
            0x72u8, 0x67u8, 0x62u8, 0x3au8,
            0x63u8, 0x63u8, 0x63u8, 0x63u8, 0x2fu8,
            0x63u8, 0x63u8, 0x63u8, 0x63u8, 0x2fu8,
            0x63u8, 0x63u8, 0x63u8, 0x63u8,
            0x1bu8, 0x5cu8,
        ]
    };
    proof {
        let body = if dark {
            dark_blue_body()
        } else {
            light_gray_body()
        };
        assert(r@ =~= osc_reply(seq![0x31u8, code_third], body));
    }
    r
}

/// OSC 10/11/12.
fn color_query_action(params: &[&[u8]], code_third: u8, dark: bool) -> (r: OscAction)
    ensures
        r@ == color_query(
            param_bytes(params),
            seq![0x31u8, code_third],
            if dark {
                dark_blue_body()
            } else {
                light_gray_body()
            },
        ),
{
    proof {
        reveal_strlit("?");
        assert("?"@ =~= seq!['?']);
    }
    match param_text(params, 1) {
        Some(s) => if text_is(s, "?") {
            OscAction::Reply(color_reply(code_third, dark))
        } else {
            OscAction::Ignore
        },
        None => OscAction::Ignore,
    }
}

/// The directory path of an OSC 7 URI.
fn cwd_path_of(uri: &str) -> (r: String)
    ensures
        r@ == cwd_path(uri@),
{
    let chars = str_chars(uri);
    let n = chars.len();
    proof {
        reveal_strlit("file://");
    }
    match strip_prefix_len(&chars, "file://") {
        Some(k) => {
            let slash = find_char(&chars, k, n, '/');
            proof {
                assert(chars@.subrange(k as int, n as int) =~= uri@.skip(7));
            }
            if slash < n {
                proof {
                    assert(uri@.skip(7).skip(slash - 7) =~= chars@.subrange(slash as int, n as int));
                }
                String::from_str(uri.substring_char(slash, n))
            } else {
                String::from_str(uri)
            }
        },
        None => String::from_str(uri),
    }
}

/// The mark an OSC 133 parameter gives.
fn shell_mark_of(s: &str) -> (r: Option<ShellMark>)
    ensures
        r == shell_mark(s@),
{
    let chars = str_chars(s);
    let n = chars.len();
    if n == 0 {
        return None;
    }
    let c = chars[0];
    if c == 'A' {
        Some(ShellMark::PromptStart)
    } else if c == 'B' {
        Some(ShellMark::CommandStart)
    } else if c == 'C' {
        Some(ShellMark::CommandExecuted)
    } else if c == 'D' {
        let code = if n >= 2 && chars[1] == ';' {
            proof {
                assert(s@.take(2) =~= seq!['D', ';']);
                assert(chars@.subrange(2, n as int) =~= s@.skip(2));
            }
            parse_i32_range(&chars, 2, n)
        } else {
            proof {
                if n >= 2 {
                    assert(s@.take(2)[1] == s@[1]);
                }
            }
            None
        };
        Some(ShellMark::CommandFinished(code))
    } else {
        None
    }
}

/// OSC 52.
fn clipboard_action(params: &[&[u8]]) -> (r: OscAction)
    ensures
        r@ == clipboard_effect(param_bytes(params)),
{
    proof {
        reveal_strlit("?");
        reveal_strlit("c");
        reveal_strlit("");
        assert("?"@ =~= seq!['?']);
        assert("c"@ =~= seq!['c']);
        assert(""@ =~= Seq::<char>::empty());
    }
    let selection = match param_text(params, 1) {
        Some(t) => String::from_str(t),
        None => String::from_str("c"),
    };
    let raw = match param_text(params, 2) {
        Some(t) => t,
        None => "",
    };
    if text_is(raw, "?") {
        OscAction::ClipboardQuery { selection }
    } else {
        match decode_base64(raw) {
            Some(bytes) => OscAction::ClipboardSet { selection, data: lossy_text(bytes.as_slice()) },
            None => OscAction::Ignore,
        }
    }
}

/// The file name a `name=` value gives.
fn decoded_name_of(value: &str) -> (r: String)
    ensures
        r@ == decoded_name(value@),
{
    match decode_base64(value) {
        Some(bytes) => match str_from_utf8(bytes.as_slice()) {
            Some(t) => String::from_str(t),
            None => String::new(),
        },
        None => String::new(),
    }
}

/// The file name after the pair `text[a..b]`: its decoded value when the
/// key is `name`, else `name`.
fn name_after_pair(text: &str, chars: &Vec<char>, a: usize, b: usize, name: String) -> (r: String)
    requires
        chars@ == text@,
        a <= b <= chars@.len(),
    ensures
        ({
            let kv = chars@.subrange(a as int, b as int);
            r@ == if before_first(kv, '=') == "name"@ {
                decoded_name(after_first(kv, '='))
            } else {
                name@
            }
        }),
{
    let ghost kv = chars@.subrange(a as int, b as int);
    let eq = find_char(chars, a, b, '=');
    proof {
        assert(kv.take(char_position(kv, '=')) =~= chars@.subrange(a as int, eq as int));
        if eq < b {
            assert(kv.skip(char_position(kv, '=') + 1) =~= chars@.subrange(eq + 1, b as int));
        } else {
            assert(chars@.subrange(b as int, b as int) =~= Seq::<char>::empty());
        }
    }
    if range_is_str(chars, a, eq, "name") {
        let value = if eq < b {
            text.substring_char(eq + 1, b)
        } else {
            text.substring_char(b, b)
        };
        decoded_name_of(value)
    } else {
        name
    }
}

/// The file name among the parameters `text[lo..hi]`: that of the last
/// `name=` pair.
fn file_name_in(text: &str, chars: &Vec<char>, lo: usize, hi: usize) -> (r: String)
    requires
        chars@ == text@,
        lo <= hi <= chars@.len(),
    ensures
        r@ == file_name_param(split_chars(chars@.subrange(lo as int, hi as int), ';')),
{
    let mut name = String::new();
    let mut start = lo;
    let mut i = lo;
    let ghost mut done: Seq<Seq<char>> = Seq::empty();
    proof {
        assert(chars@.subrange(lo as int, lo as int) =~= Seq::<char>::empty());
        assert(done.push(chars@.subrange(lo as int, lo as int)) =~= seq![Seq::<char>::empty()]);
    }
    while i < hi
        invariant
            chars@ == text@,
            lo <= start <= i <= hi <= chars@.len(),
            split_chars(chars@.subrange(lo as int, i as int), ';') == done.push(
                chars@.subrange(start as int, i as int),
            ),
            name@ == file_name_param(done),
        decreases hi - i,
    {
        proof {
            assert(chars@.subrange(lo as int, i + 1).drop_last() =~= chars@.subrange(
                lo as int,
                i as int,
            ));
            assert(chars@.subrange(lo as int, i + 1).last() == chars@[i as int]);
        }
        if chars[i] == ';' {
            name = name_after_pair(text, chars, start, i, name);
            proof {
                assert(done.push(chars@.subrange(start as int, i as int)).drop_last() =~= done);
                done = done.push(chars@.subrange(start as int, i as int));
                assert(chars@.subrange(i + 1, i + 1) =~= Seq::<char>::empty());
            }
            start = i + 1;
        } else {
            proof {
                let prev = done.push(chars@.subrange(start as int, i as int));
                assert(chars@.subrange(start as int, i as int).push(chars@[i as int])
                    =~= chars@.subrange(start as int, i + 1));
                assert(prev.update(prev.len() - 1, prev.last().push(chars@[i as int])) =~= done.push(
                    chars@.subrange(start as int, i + 1),
                ));
            }
        }
        i = i + 1;
    }
    proof {
        assert(done.push(chars@.subrange(start as int, hi as int)).drop_last() =~= done);
    }
    name_after_pair(text, chars, start, hi, name)
}

/// A non-inline `File=` payload.
fn file_transfer_action(payload: &str) -> (r: OscAction)
    requires
        has_prefix(payload@, "File="@),
    ensures
        r@ == file_transfer(payload@),
{
    let chars = str_chars(payload);
    let n = chars.len();
    proof {
        reveal_strlit("File=");
    }
    let ghost rest = payload@.skip(5);
    proof {
        assert(chars@.subrange(5, n as int) =~= rest);
    }
    let idx = match rfind_char(&chars, 5, n, ':') {
        Some(i) => i,
        None => {
            return OscAction::Ignore;
        },
    };
    proof {
        assert(chars@.subrange(5, idx as int) =~= rest.take(idx - 5));
        assert(chars@.subrange(idx + 1, n as int) =~= rest.skip(idx - 5 + 1));
    }
    let b64 = payload.substring_char(idx + 1, n);
    match decode_base64(b64) {
        Some(data) => {
            let name = file_name_in(payload, &chars, 5, idx);
            OscAction::FileTransfer { name, data }
        },
        None => OscAction::Ignore,
    }
}

/// What an OSC 1337 payload asks.
fn iterm2_action(payload: String) -> (r: OscAction)
    ensures
        r@ == iterm2_effect(payload@),
{
    let chars = str_chars(payload.as_str());
    let n = chars.len();
    proof {
        assert(chars@.subrange(0, n as int) =~= payload@);
    }
    if strip_prefix_len(&chars, "File=").is_some() {
        if chars_contain(&chars, "inline=1") {
            OscAction::InlineImage(payload)
        } else if chars_contain(&chars, "inline=0") || !chars_contain(&chars, "inline=") {
            file_transfer_action(payload.as_str())
        } else {
            OscAction::Ignore
        }
    } else if strip_prefix_len(&chars, "MultipartFile=").is_some() {
        OscAction::MultipartBegin(payload)
    } else if strip_prefix_len(&chars, "FilePart=").is_some() {
        OscAction::MultipartPart(payload)
    } else if range_is_str(&chars, 0, n, "FileEnd") {
        OscAction::MultipartEnd
    } else {
        OscAction::Ignore
    }
}

/// The parameters after the command, joined again with `;` (those that are
/// not valid UTF-8 left out).
fn rejoined_payload(params: &[&[u8]]) -> (r: String)
    requires
        params@.len() >= 2,
    ensures
        r@ == joined_with(valid_texts(param_bytes(params).skip(1)), ';'),
{
    let ghost ps = param_bytes(params);
    let mut out = String::new();
    let mut first = true;
    let mut i: usize = 1;
    proof {
        assert(ps.subrange(1, 1) =~= Seq::<Seq<u8>>::empty());
        reveal_strlit(";");
        assert(";"@ =~= seq![';']);
    }
    while i < params.len()
        invariant
            ps == param_bytes(params),
            1 <= i <= params@.len(),
            ";"@ == seq![';'],
            out@ == joined_with(valid_texts(ps.subrange(1, i as int)), ';'),
            first == (valid_texts(ps.subrange(1, i as int)).len() == 0),
        decreases params@.len() - i,
    {
        proof {
            assert(ps.subrange(1, i + 1).drop_last() =~= ps.subrange(1, i as int));
            assert(ps.subrange(1, i + 1).last() == params@[i as int]@);
        }
        match str_from_utf8(params[i]) {
            Some(t) => {
                let ghost before = out@;
                if !first {
                    out.append(";");
                }
                out.append(t);
                first = false;
                proof {
                    let prev = valid_texts(ps.subrange(1, i as int));
                    assert(prev.push(t@).drop_last() =~= prev);
                    if prev.len() == 0 {
                        assert(out@ =~= t@);
                    } else {
                        assert(out@ =~= before + seq![';'] + t@);
                    }
                }
            },
            None => {},
        }
        i = i + 1;
    }
    proof {
        assert(ps.subrange(1, params@.len() as int) =~= ps.skip(1));
    }
    out
}

/// Decide what an OSC sequence asks of the terminal; `params` are its
/// `;`-separated parameters, the first being the command number.
pub fn osc_dispatch(params: &[&[u8]]) -> (r: OscAction)
    ensures
        r@ == osc_effect(param_bytes(params)),
{
    if params.len() == 0 {
        return OscAction::Ignore;
    }
    let code = params[0];
    proof {
        assert(param_bytes(params)[0] == code@);
        assert(seq![0x30u8, 0u8, 0u8, 0u8].take(1) =~= seq![0x30u8]);
        assert(seq![0x32u8, 0u8, 0u8, 0u8].take(1) =~= seq![0x32u8]);
        assert(seq![0x31u8, 0x30u8, 0u8, 0u8].take(2) =~= seq![0x31u8, 0x30u8]);
        assert(seq![0x31u8, 0x31u8, 0u8, 0u8].take(2) =~= seq![0x31u8, 0x31u8]);
        assert(seq![0x31u8, 0x32u8, 0u8, 0u8].take(2) =~= seq![0x31u8, 0x32u8]);
        assert(seq![0x37u8, 0u8, 0u8, 0u8].take(1) =~= seq![0x37u8]);
        assert(seq![0x39u8, 0u8, 0u8, 0u8].take(1) =~= seq![0x39u8]);
        assert(seq![0x39u8, 0x39u8, 0u8, 0u8].take(2) =~= seq![0x39u8, 0x39u8]);
        assert(seq![0x31u8, 0x33u8, 0x33u8, 0u8].take(3) =~= seq![0x31u8, 0x33u8, 0x33u8]);
        assert(seq![0x38u8, 0u8, 0u8, 0u8].take(1) =~= seq![0x38u8]);
        assert(seq![0x35u8, 0x32u8, 0u8, 0u8].take(2) =~= seq![0x35u8, 0x32u8]);
        assert(seq![0x37u8, 0x37u8, 0x37u8, 0u8].take(3) =~= seq![0x37u8, 0x37u8, 0x37u8]);
        assert(seq![0x31u8, 0x33u8, 0x33u8, 0x37u8].take(4) =~= seq![
            0x31u8,
            0x33u8,
            0x33u8,
            0x37u8,
        ]);
    }
    if is_code(code, 1, 0x30, 0, 0, 0) || is_code(code, 1, 0x32, 0, 0, 0) {
        match param_text(params, 1) {
            Some(t) => OscAction::SetTitle(String::from_str(t)),
            None => OscAction::Ignore,
        }
    } else if is_code(code, 2, 0x31, 0x30, 0, 0) {
        color_query_action(params, 0x30, false)
    } else if is_code(code, 2, 0x31, 0x31, 0, 0) {
        color_query_action(params, 0x31, true)
    } else if is_code(code, 2, 0x31, 0x32, 0, 0) {
        color_query_action(params, 0x32, false)
    } else if is_code(code, 1, 0x37, 0, 0, 0) {
        match param_text(params, 1) {
            Some(s) => OscAction::SetCwd { uri: String::from_str(s), path: cwd_path_of(s) },
            None => OscAction::Ignore,
        }
    } else if is_code(code, 1, 0x39, 0, 0, 0) {
        match param_text(params, 1) {
            Some(s) => OscAction::Notify(String::from_str(s)),
            None => OscAction::Ignore,
        }
    } else if is_code(code, 2, 0x39, 0x39, 0, 0) {
        proof {
            assert(param_bytes(params).last() == params@[params@.len() - 1]@);
        }
        match str_from_utf8(params[params.len() - 1]) {
            Some(s) => OscAction::Notify(String::from_str(s)),
            None => OscAction::Ignore,
        }
    } else if is_code(code, 3, 0x31, 0x33, 0x33, 0) {
        match param_text(params, 1) {
            Some(s) => match shell_mark_of(s) {
                Some(m) => OscAction::Mark(m),
                None => OscAction::Ignore,
            },
            None => OscAction::Ignore,
        }
    } else if is_code(code, 1, 0x38, 0, 0, 0) {
        match param_text(params, 2) {
            Some(uri) => if uri.is_empty() {
                OscAction::Hyperlink(None)
            } else {
                OscAction::Hyperlink(Some(String::from_str(uri)))
            },
            None => OscAction::Hyperlink(None),
        }
    } else if is_code(code, 2, 0x35, 0x32, 0, 0) {
        clipboard_action(params)
    } else if is_code(code, 3, 0x37, 0x37, 0x37, 0) {
        match param_text(params, 2) {
            Some(s) => OscAction::Notify(String::from_str(s)),
            None => OscAction::Ignore,
        }
    } else if is_code(code, 4, 0x31, 0x33, 0x33, 0x37) {
        if params.len() < 2 {
            OscAction::Ignore
        } else {
            iterm2_action(rejoined_payload(params))
        }
    } else {
        OscAction::Ignore
    }
}

/// The first `/` in `host + path` is where `path` starts, when the host
/// holds none and the path starts with one.
proof fn lemma_slash_after_host(host: Seq<char>, path: Seq<char>)
    requires
        forall|i: int| 0 <= i < host.len() ==> host[i] != '/',
        path.len() > 0,
        path[0] == '/',
    ensures
        char_position(host + path, '/') == host.len(),
    decreases host.len(),
{
    if host.len() > 0 {
        assert((host + path).drop_first() =~= host.drop_first() + path);
        lemma_slash_after_host(host.drop_first(), path);
    } else {
        assert(host + path =~= path);
    }
}

/// OSC 7 sends `file://host/path`: the working directory is the path,
/// from its `/` on, whatever the host; a URI of another scheme is taken
/// as the path itself.
pub proof fn lemma_cwd_from_file_uri(host: Seq<char>, path: Seq<char>, other: Seq<char>)
    requires
        forall|i: int| 0 <= i < host.len() ==> host[i] != '/',
        path.len() > 0,
        path[0] == '/',
        !has_prefix(other, "file://"@),
    ensures
        cwd_path("file://"@ + host + path) == path,
        cwd_path(other) == other,
{
    reveal_strlit("file://");
    let uri = "file://"@ + host + path;
    assert(uri.take(7) =~= "file://"@);
    assert(uri.skip(7) =~= host + path);
    lemma_slash_after_host(host, path);
    assert((host + path).skip(host.len() as int) =~= path);
}

/// OSC 133 marks by their first character: `A` a prompt, `B` the command
/// line, `C` the command running, `D` its end; `D;<n>` carries exit code
/// `n`, a bare `D` none.
pub proof fn lemma_shell_marks(rest: Seq<char>)
    ensures
        shell_mark(seq!['A'] + rest) == Some(ShellMark::PromptStart),
        shell_mark(seq!['B'] + rest) == Some(ShellMark::CommandStart),
        shell_mark(seq!['C'] + rest) == Some(ShellMark::CommandExecuted),
        shell_mark(seq!['D']) == Some(ShellMark::CommandFinished(None)),
        shell_mark(seq!['D', ';'] + rest) == Some(
            ShellMark::CommandFinished(parse_i32(rest)),
        ),
{
    assert((seq!['D', ';'] + rest).take(2) =~= seq!['D', ';']);
    assert((seq!['D', ';'] + rest).skip(2) =~= rest);
}

/// The OSC commands by number, for a second parameter `t` that is valid
/// text: 0 and 2 set the title to `t`; 10, 11 and 12 queried with `?`
/// reply `ESC ] n ; rgb:cccc/cccc/cccc ESC \` (foreground and cursor) or
/// `rgb:1e1e/1e1e/2e2e` (background); 7 sets the directory; 9 notifies
/// with `t`.
pub proof fn lemma_osc_commands(b1: Seq<u8>, t: Seq<char>)
    requires
        utf8_text(b1) == Some(t),
    ensures
        osc_effect(seq![seq![0x30u8], b1]) == OscEffect::SetTitle(t),
        osc_effect(seq![seq![0x32u8], b1]) == OscEffect::SetTitle(t),
        osc_effect(seq![seq![0x39u8], b1]) == OscEffect::Notify(t),
        osc_effect(seq![seq![0x37u8], b1]) == (OscEffect::SetCwd { uri: t, path: cwd_path(t) }),
        t == seq!['?'] ==> osc_effect(seq![seq![0x31u8, 0x30u8], b1]) == OscEffect::Reply(
            seq![0x1bu8, 0x5du8, 0x31u8, 0x30u8, 0x3bu8, 0x72u8, 0x67u8, 0x62u8, 0x3au8, 0x63u8,
            0x63u8, 0x63u8, 0x63u8, 0x2fu8, 0x63u8, 0x63u8, 0x63u8, 0x63u8, 0x2fu8, 0x63u8, 0x63u8,
            0x63u8, 0x63u8, 0x1bu8, 0x5cu8],
        ),
        t == seq!['?'] ==> osc_effect(seq![seq![0x31u8, 0x31u8], b1]) == OscEffect::Reply(
            seq![0x1bu8, 0x5du8, 0x31u8, 0x31u8, 0x3bu8, 0x72u8, 0x67u8, 0x62u8, 0x3au8, 0x31u8,
            0x65u8, 0x31u8, 0x65u8, 0x2fu8, 0x31u8, 0x65u8, 0x31u8, 0x65u8, 0x2fu8, 0x32u8, 0x65u8,
            0x32u8, 0x65u8, 0x1bu8, 0x5cu8],
        ),
        t == seq!['?'] ==> osc_effect(seq![seq![0x31u8, 0x32u8], b1]) == OscEffect::Reply(
            seq![0x1bu8, 0x5du8, 0x31u8, 0x32u8, 0x3bu8, 0x72u8, 0x67u8, 0x62u8, 0x3au8, 0x63u8,
            0x63u8, 0x63u8, 0x63u8, 0x2fu8, 0x63u8, 0x63u8, 0x63u8, 0x63u8, 0x2fu8, 0x63u8, 0x63u8,
            0x63u8, 0x63u8, 0x1bu8, 0x5cu8],
        ),
        t != seq!['?'] ==> osc_effect(seq![seq![0x31u8, 0x30u8], b1]) == OscEffect::Ignore,
{
    assert(seq![0x32u8] != seq![0x30u8]) by {
        assert(seq![0x32u8][0] != seq![0x30u8][0]);
    }
    assert(seq![0x37u8] != seq![0x30u8] && seq![0x37u8] != seq![0x32u8]) by {
        assert(seq![0x37u8][0] != seq![0x30u8][0] && seq![0x37u8][0] != seq![0x32u8][0]);
    }
    assert(seq![0x39u8] != seq![0x30u8] && seq![0x39u8] != seq![0x32u8] && seq![0x39u8]
        != seq![0x37u8]) by {
        assert(seq![0x39u8][0] != seq![0x30u8][0] && seq![0x39u8][0] != seq![0x32u8][0]
            && seq![0x39u8][0] != seq![0x37u8][0]);
    }
    assert(seq![0x31u8, 0x31u8] != seq![0x31u8, 0x30u8]) by {
        assert(seq![0x31u8, 0x31u8][1] != seq![0x31u8, 0x30u8][1]);
    }
    assert(seq![0x31u8, 0x32u8] != seq![0x31u8, 0x30u8] && seq![0x31u8, 0x32u8] != seq![
        0x31u8,
        0x31u8,
    ]) by {
        assert(seq![0x31u8, 0x32u8][1] != seq![0x31u8, 0x30u8][1] && seq![0x31u8, 0x32u8][1]
            != seq![0x31u8, 0x31u8][1]);
    }
    assert(osc_reply(seq![0x31u8, 0x30u8], light_gray_body()) =~= seq![0x1bu8, 0x5du8, 0x31u8,
        0x30u8, 0x3bu8, 0x72u8, 0x67u8, 0x62u8, 0x3au8, 0x63u8, 0x63u8, 0x63u8, 0x63u8, 0x2fu8,
        0x63u8, 0x63u8, 0x63u8, 0x63u8, 0x2fu8, 0x63u8, 0x63u8, 0x63u8, 0x63u8, 0x1bu8, 0x5cu8]);
    assert(osc_reply(seq![0x31u8, 0x31u8], dark_blue_body()) =~= seq![0x1bu8, 0x5du8, 0x31u8,
        0x31u8, 0x3bu8, 0x72u8, 0x67u8, 0x62u8, 0x3au8, 0x31u8, 0x65u8, 0x31u8, 0x65u8, 0x2fu8,
        0x31u8, 0x65u8, 0x31u8, 0x65u8, 0x2fu8, 0x32u8, 0x65u8, 0x32u8, 0x65u8, 0x1bu8, 0x5cu8]);
    assert(osc_reply(seq![0x31u8, 0x32u8], light_gray_body()) =~= seq![0x1bu8, 0x5du8, 0x31u8,
        0x32u8, 0x3bu8, 0x72u8, 0x67u8, 0x62u8, 0x3au8, 0x63u8, 0x63u8, 0x63u8, 0x63u8, 0x2fu8,
        0x63u8, 0x63u8, 0x63u8, 0x63u8, 0x2fu8, 0x63u8, 0x63u8, 0x63u8, 0x63u8, 0x1bu8, 0x5cu8]);
}

/// OSC 52: data `?` queries the selection named by the second parameter
/// (`c` when there is none); other data is base64 text for it, set when it
/// decodes and ignored when it does not.
pub proof fn lemma_clipboard_requests(sel: Seq<u8>, sel_text: Seq<char>, data: Seq<u8>, data_text: Seq<char>)
    requires
        utf8_text(sel) == Some(sel_text),
        utf8_text(data) == Some(data_text),
    ensures
        data_text == seq!['?'] ==> clipboard_effect(seq![seq![0x35u8, 0x32u8], sel, data])
            == (OscEffect::ClipboardQuery { selection: sel_text }),
        (data_text != seq!['?'] && base64_standard_decoding(data_text) is Some) ==> clipboard_effect(
            seq![seq![0x35u8, 0x32u8], sel, data],
        ) == (OscEffect::ClipboardSet {
            selection: sel_text,
            data: utf8_lossy(base64_standard_decoding(data_text)->0),
        }),
        (data_text != seq!['?'] && base64_standard_decoding(data_text) is None) ==> clipboard_effect(
            seq![seq![0x35u8, 0x32u8], sel, data],
        ) == OscEffect::Ignore,
        base64_standard_decoding(Seq::empty()) is Some ==> clipboard_effect(
            seq![seq![0x35u8, 0x32u8]],
        ) == (OscEffect::ClipboardSet {
            selection: seq!['c'],
            data: utf8_lossy(base64_standard_decoding(Seq::empty())->0),
        }),
{
    let only = seq![seq![0x35u8, 0x32u8]];
    assert(param(only, 1) is None);
    assert(param(only, 2) is None);
    assert(Seq::<char>::empty() != seq!['?']) by {
        assert(Seq::<char>::empty().len() != seq!['?'].len());
    }
    let full = seq![seq![0x35u8, 0x32u8], sel, data];
    assert(param(full, 1) == Some(sel_text));
    assert(param(full, 2) == Some(data_text));
}

/// OSC 1337 payloads by their start: `File=` with `inline=1` is an inline
/// image, `MultipartFile=` begins a multipart image, `FilePart=` adds a
/// chunk, `FileEnd` completes it; the payload is handed on whole.
pub proof fn lemma_iterm2_routing(rest: Seq<char>)
    ensures
        iterm2_effect("File=inline=1"@ + rest) == OscEffect::InlineImage("File=inline=1"@ + rest),
        iterm2_effect("MultipartFile="@ + rest) == OscEffect::MultipartBegin("MultipartFile="@ + rest),
        iterm2_effect("FilePart="@ + rest) == OscEffect::MultipartPart("FilePart="@ + rest),
        iterm2_effect("FileEnd"@) == OscEffect::MultipartEnd,
{
    reveal_strlit("File=inline=1");
    reveal_strlit("File=");
    reveal_strlit("inline=1");
    reveal_strlit("MultipartFile=");
    reveal_strlit("FilePart=");
    reveal_strlit("FileEnd");
    let a = "File=inline=1"@ + rest;
    assert(a.take(5) =~= "File="@);
    assert(a.subrange(5, 5 + "inline=1"@.len() as int) =~= "inline=1"@);
    assert(contains_text(a, "inline=1"@));
    let b = "MultipartFile="@ + rest;
    assert(b.take(14) =~= "MultipartFile="@);
    assert(b.take(5) != "File="@) by { assert(b.take(5)[0] != "File="@[0]); }
    let c = "FilePart="@ + rest;
    assert(c.take(9) =~= "FilePart="@);
    assert(c.take(5) != "File="@) by { assert(c.take(5)[4] != "File="@[4]); }
    assert(c.take(14) != "MultipartFile="@ || c.len() < 14) by {
        if c.len() >= 14 {
            assert(c.take(14)[0] != "MultipartFile="@[0]);
        }
    }
    let d = "FileEnd"@;
    assert(d.take(5) != "File="@) by { assert(d.take(5)[4] != "File="@[4]); }
    assert(d.len() < 14);
    assert(d.take(9) != "FilePart="@ || d.len() < 9);
}

} // verus!
