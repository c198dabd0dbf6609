use termojinal::status_line::{git_stash_text, git_status_text, ports_text, shorten_home, user_and_host};

fn uh(uri: Option<&str>, ssh_user: &str, ssh_host: &str) -> (String, String) {
    user_and_host(uri, "me", "laptop", ssh_user, ssh_host)
}

#[test]
fn user_and_host_from_osc7_uri() {
    assert_eq!(uh(Some("file://alice@server/home/alice"), "", ""), ("alice".into(), "server".into()));
    assert_eq!(uh(Some("file://box/tmp"), "", ""), ("me".into(), "box".into()));
    assert_eq!(uh(Some("file://@/x"), "bob", "remote"), ("me".into(), "laptop".into()));
    assert_eq!(uh(Some("file://alice@/x"), "", ""), ("alice".into(), "laptop".into()));
    assert_eq!(uh(Some("file://@host/x"), "", ""), ("me".into(), "host".into()));
}

#[test]
fn user_and_host_fall_back_to_ssh_then_cache() {
    assert_eq!(uh(Some("file:///home/me"), "bob", "remote"), ("bob".into(), "remote".into()));
    assert_eq!(uh(Some("/home/me"), "", "remote"), ("me".into(), "remote".into()));
    assert_eq!(uh(Some("file://nohost"), "", ""), ("me".into(), "laptop".into()));
    assert_eq!(uh(None, "bob", "remote"), ("me".into(), "laptop".into()));
}

#[test]
fn home_is_shortened() {
    assert_eq!(shorten_home("/Users/me/src", Some("/Users/me")), "~/src");
    assert_eq!(shorten_home("/Users/me", Some("/Users/me")), "~");
    assert_eq!(shorten_home("/tmp", Some("/Users/me")), "/tmp");
    assert_eq!(shorten_home("/tmp", None), "/tmp");
    assert_eq!(shorten_home("/Users/meadow", Some("/Users/me")), "~adow");
}

#[test]
fn git_summaries() {
    assert_eq!(git_status_text(0, 0, 0, 0), "");
    assert_eq!(git_status_text(2, 0, 1, 0), "\u{21E1}2 !1");
    assert_eq!(git_status_text(1, 3, 12, 4), "\u{21E1}1 \u{21E3}3 !12 ?4");
    assert_eq!(git_status_text(0, 0, 0, 7), "?7");
    assert_eq!(git_stash_text(0), "");
    assert_eq!(git_stash_text(3), "3");
}

#[test]
fn ports_are_listed() {
    assert_eq!(ports_text(&[]), "");
    assert_eq!(ports_text(&[3000]), ":3000");
    assert_eq!(ports_text(&[3000, 8080, 5]), ":3000 :8080 :5");
}
