use termojinal::terminal::{ClipboardEvent, TerminalState};
use base64::Engine as _;
use termojinal::osc::{osc_dispatch, OscAction, ShellMark};

fn b64(bytes: &[u8]) -> String {
    base64::engine::general_purpose::STANDARD.encode(bytes)
}

#[test]
fn osc_title_and_icon() {
    match osc_dispatch(&[b"2", b"my title"]) {
        OscAction::SetTitle(t) => assert_eq!(t, "my title"),
        other => panic!("unexpected {other:?}"),
    }
    assert!(matches!(osc_dispatch(&[b"0", b"t"]), OscAction::SetTitle(_)));
    assert!(matches!(osc_dispatch(&[b"1", b"icon"]), OscAction::Ignore));
    assert!(matches!(osc_dispatch(&[b"2", b"\xff"]), OscAction::Ignore));
    assert!(matches!(osc_dispatch(&[b"2"]), OscAction::Ignore));
    assert!(matches!(osc_dispatch(&[]), OscAction::Ignore));
    assert!(matches!(osc_dispatch(&[b"\xff", b"x"]), OscAction::Ignore));
}

#[test]
fn test_osc10_color_query() {
    let mut term = TerminalState::new(80, 24);
    let action = osc_dispatch(&[b"10", b"?"]);
    term.osc(&action, String::new(), 0);
    assert!(term.has_pending_responses());
    let responses = term.drain_responses();
    assert_eq!(responses.len(), 1);
    let resp = std::str::from_utf8(&responses[0]).expect("valid utf8");
    assert!(resp.contains("]10;rgb:"));
    assert_eq!(responses[0], b"\x1b]10;rgb:cccc/cccc/cccc\x1b\\".to_vec());
}

#[test]
fn test_osc11_color_query() {
    match osc_dispatch(&[b"11", b"?"]) {
        OscAction::Reply(r) => assert_eq!(r, b"\x1b]11;rgb:1e1e/1e1e/2e2e\x1b\\".to_vec()),
        other => panic!("unexpected {other:?}"),
    }
}

#[test]
fn test_osc12_color_query() {
    match osc_dispatch(&[b"12", b"?"]) {
        OscAction::Reply(r) => assert_eq!(r, b"\x1b]12;rgb:cccc/cccc/cccc\x1b\\".to_vec()),
        other => panic!("unexpected {other:?}"),
    }
}

#[test]
fn test_osc10_set_color_no_response() {
    assert!(matches!(osc_dispatch(&[b"10", b"rgb:ffff/0000/0000"]), OscAction::Ignore));
    assert!(matches!(osc_dispatch(&[b"11"]), OscAction::Ignore));
}

#[test]
fn osc7_working_directory() {
    match osc_dispatch(&[b"7", b"file://host.local/Users/me/src"]) {
        OscAction::SetCwd { uri, path } => {
            assert_eq!(uri, "file://host.local/Users/me/src");
            assert_eq!(path, "/Users/me/src");
        }
        other => panic!("unexpected {other:?}"),
    }
    match osc_dispatch(&[b"7", b"file://hostonly"]) {
        OscAction::SetCwd { path, .. } => assert_eq!(path, "file://hostonly"),
        other => panic!("unexpected {other:?}"),
    }
    match osc_dispatch(&[b"7", b"/plain/path"]) {
        OscAction::SetCwd { path, .. } => assert_eq!(path, "/plain/path"),
        other => panic!("unexpected {other:?}"),
    }
}

#[test]
fn osc_notifications() {
    match osc_dispatch(&[b"9", b"build done"]) {
        OscAction::Notify(m) => assert_eq!(m, "build done"),
        other => panic!("unexpected {other:?}"),
    }
    match osc_dispatch(&[b"99", b"i=1", b"last part"]) {
        OscAction::Notify(m) => assert_eq!(m, "last part"),
        other => panic!("unexpected {other:?}"),
    }
    match osc_dispatch(&[b"777", b"notify", b"title"]) {
        OscAction::Notify(m) => assert_eq!(m, "title"),
        other => panic!("unexpected {other:?}"),
    }
    assert!(matches!(osc_dispatch(&[b"777", b"notify"]), OscAction::Ignore));
}

#[test]
fn osc133_marks() {
    let mark = |p: &[u8]| match osc_dispatch(&[b"133", p]) {
        OscAction::Mark(m) => Some(m),
        _ => None,
    };
    assert_eq!(mark(b"A"), Some(ShellMark::PromptStart));
    assert_eq!(mark(b"B"), Some(ShellMark::CommandStart));
    assert_eq!(mark(b"C"), Some(ShellMark::CommandExecuted));
    assert_eq!(mark(b"D"), Some(ShellMark::CommandFinished(None)));
    assert_eq!(mark(b"D;2"), Some(ShellMark::CommandFinished(Some(2))));
    assert_eq!(mark(b"D;-1"), Some(ShellMark::CommandFinished(Some(-1))));
    assert_eq!(mark(b"D;x"), Some(ShellMark::CommandFinished(None)));
    assert_eq!(mark(b"E"), None);
    assert_eq!(mark(b""), None);
}

#[test]
fn osc8_hyperlink_start_and_end() {
    match osc_dispatch(&[b"8", b"id=1", b"https://example.com"]) {
        OscAction::Hyperlink(Some(u)) => assert_eq!(u, "https://example.com"),
        other => panic!("unexpected {other:?}"),
    }
    assert!(matches!(osc_dispatch(&[b"8", b"", b""]), OscAction::Hyperlink(None)));
    assert!(matches!(osc_dispatch(&[b"8"]), OscAction::Hyperlink(None)));
}

#[test]
fn test_osc52_set_clipboard() {
    let mut term = TerminalState::new(80, 24);
    assert_eq!(term.take_clipboard_event(), None);
    // "hello" in base64 is "aGVsbG8="
    term.osc(&osc_dispatch(&[b"52", b"c", b"aGVsbG8="]), String::new(), 0);
    match term.take_clipboard_event() {
        Some(ClipboardEvent::Write { selection, data }) => {
            assert_eq!(selection, "c");
            assert_eq!(data, "hello");
        }
        other => panic!("unexpected {other:?}"),
    }
    assert_eq!(term.take_clipboard_event(), None);
}

#[test]
fn test_osc52_query_clipboard() {
    let mut term = TerminalState::new(80, 24);
    term.osc(&osc_dispatch(&[b"52", b"c", b"?"]), String::new(), 0);
    match term.take_clipboard_event() {
        Some(ClipboardEvent::Query { selection }) => assert_eq!(selection, "c"),
        other => panic!("unexpected {other:?}"),
    }
}

#[test]
fn test_osc52_primary_selection() {
    let mut term = TerminalState::new(80, 24);
    // "test" base64 = "dGVzdA=="
    term.osc(&osc_dispatch(&[b"52", b"p", b"dGVzdA=="]), String::new(), 0);
    match term.take_clipboard_event() {
        Some(ClipboardEvent::Write { selection, data }) => {
            assert_eq!(selection, "p");
            assert_eq!(data, "test");
        }
        other => panic!("unexpected {other:?}"),
    }
}

#[test]
fn test_osc52_invalid_base64() {
    let mut term = TerminalState::new(80, 24);
    let action = osc_dispatch(&[b"52", b"c", b"!!!invalid!!!"]);
    assert!(matches!(action, OscAction::Ignore));
    term.osc(&action, String::new(), 0);
    assert_eq!(term.take_clipboard_event(), None);
}

#[test]
fn osc52_defaults_and_lossy_text() {
    let data = b64(b"a\xffb");
    match osc_dispatch(&[b"52", b"\xfe", data.as_bytes()]) {
        OscAction::ClipboardSet { selection, data } => {
            assert_eq!(selection, "c");
            assert_eq!(data, "a\u{FFFD}b");
        }
        other => panic!("unexpected {other:?}"),
    }
}

#[test]
fn osc1337_inline_image_and_multipart() {
    match osc_dispatch(&[b"1337", b"File=inline=1", b"size=3:QUJD"]) {
        OscAction::InlineImage(p) => assert_eq!(p, "File=inline=1;size=3:QUJD"),
        other => panic!("unexpected {other:?}"),
    }
    match osc_dispatch(&[b"1337", b"MultipartFile=inline=1"]) {
        OscAction::MultipartBegin(p) => assert_eq!(p, "MultipartFile=inline=1"),
        other => panic!("unexpected {other:?}"),
    }
    match osc_dispatch(&[b"1337", b"FilePart=QUJD"]) {
        OscAction::MultipartPart(p) => assert_eq!(p, "FilePart=QUJD"),
        other => panic!("unexpected {other:?}"),
    }
    assert!(matches!(osc_dispatch(&[b"1337", b"FileEnd"]), OscAction::MultipartEnd));
    assert!(matches!(osc_dispatch(&[b"1337", b"SetMark"]), OscAction::Ignore));
    assert!(matches!(osc_dispatch(&[b"1337"]), OscAction::Ignore));
}

#[test]
fn osc1337_file_transfer() {
    let name = b64(b"notes.txt");
    let body = b64(b"file body");
    let second = format!("size=9:{body}");
    let first = format!("File=name={name}");
    match osc_dispatch(&[b"1337", first.as_bytes(), second.as_bytes()]) {
        OscAction::FileTransfer { name, data } => {
            assert_eq!(name, "notes.txt");
            assert_eq!(data, b"file body".to_vec());
        }
        other => panic!("unexpected {other:?}"),
    }
    // Explicitly not inline, with a name that is not base64.
    match osc_dispatch(&[b"1337", b"File=inline=0;name=???:QUJD"]) {
        OscAction::FileTransfer { name, data } => {
            assert_eq!(name, "");
            assert_eq!(data, b"ABC".to_vec());
        }
        other => panic!("unexpected {other:?}"),
    }
    // inline=2 is neither inline nor a transfer.
    assert!(matches!(osc_dispatch(&[b"1337", b"File=inline=2:QUJD"]), OscAction::Ignore));
    // No data separator, or data that does not decode.
    assert!(matches!(osc_dispatch(&[b"1337", b"File=name=eA=="]), OscAction::Ignore));
    assert!(matches!(osc_dispatch(&[b"1337", b"File=inline=0:@@"]), OscAction::Ignore));
}

#[test]
fn osc1337_drops_invalid_utf8_params() {
    match osc_dispatch(&[b"1337", b"File=inline=1", b"\xff", b"x:QUJD"]) {
        OscAction::InlineImage(p) => assert_eq!(p, "File=inline=1;x:QUJD"),
        other => panic!("unexpected {other:?}"),
    }
}
