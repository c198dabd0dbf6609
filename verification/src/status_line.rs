//! The values the status bar shows that are computed rather than looked up:
//! user and host from the focused pane's OSC 7 URI, the working directory
//! with the home directory shortened to `~`, and the git summaries.

use vstd::prelude::*;
use crate::text::{
    after_first, before_first, char_position, decimal, find_char, has_prefix, joined_with,
    push_decimal, str_chars, strip_prefix_len,
};

verus! {

/// The authority of a `file://` URI: what stands between `file://` and the
/// first `/` after it; `None` when the URI is not of that form.
pub open spec fn uri_authority(uri: Seq<char>) -> Option<Seq<char>> {
    if has_prefix(uri, "file://"@) {
        let rest = uri.skip(7);
        let i = char_position(rest, '/');
        if i < rest.len() {
            Some(rest.take(i))
        } else {
            None
        }
    } else {
        None
    }
}

/// The user and host the status bar shows. Without a focused pane, the
/// cached `user` and `host`. With one, a non-empty authority of its OSC 7
/// URI decides: `user@host` gives each non-empty part (the cached value
/// stands for an empty one), an authority without `@` gives the host. When
/// the URI has no authority, the host (and, when known, the user) of a
/// detected SSH session takes the place of the cached ones.
pub open spec fn status_user_host(
    focused_uri: Option<Seq<char>>,
    user: Seq<char>,
    host: Seq<char>,
    ssh_user: Seq<char>,
    ssh_host: Seq<char>,
) -> (Seq<char>, Seq<char>) {
    match focused_uri {
        None => (user, host),
        Some(uri) => {
            let auth = uri_authority(uri);
            if auth is Some && auth->0.len() > 0 {
                let a = auth->0;
                if char_position(a, '@') < a.len() {
                    let pu = before_first(a, '@');
                    let ph = after_first(a, '@');
                    (
                        if pu.len() > 0 {
                            pu
                        } else {
                            user
                        },
                        if ph.len() > 0 {
                            ph
                        } else {
                            host
                        },
                    )
                } else {
                    (user, a)
                }
            } else if ssh_host.len() > 0 {
                (
                    if ssh_user.len() > 0 {
                        ssh_user
                    } else {
                        user
                    },
                    ssh_host,
                )
            } else {
                (user, host)
            }
        },
    }
}

/// The view of an optional string.
pub open spec fn opt_str(o: Option<&str>) -> Option<Seq<char>> {
    match o {
        Some(s) => Some(s@),
        None => None,
    }
}

/// The user and host the status bar shows (see `status_user_host`).
pub fn user_and_host(
    focused_uri: Option<&str>,
    user: &str,
    host: &str,
    ssh_user: &str,
    ssh_host: &str,
) -> (r: (String, String))
    ensures
        (r.0@, r.1@) == status_user_host(opt_str(focused_uri), user@, host@, ssh_user@, ssh_host@),
{
    let uri = match focused_uri {
        None => {
            return (String::from_str(user), String::from_str(host));
        },
        Some(u) => u,
    };
    let chars = str_chars(uri);
    let n = chars.len();
    proof {
        reveal_strlit("file://");
    }
    let mut authority: Option<(usize, usize)> = None;
    if let Some(k) = strip_prefix_len(&chars, "file://") {
        let slash = find_char(&chars, k, n, '/');
        proof {
            assert(chars@.subrange(k as int, n as int) =~= uri@.skip(7));
        }
        if slash < n && slash > k {
            authority = Some((k, slash));
        }
        proof {
            if slash < n {
                assert(uri@.skip(7).take(slash - 7) =~= chars@.subrange(k as int, slash as int));
            }
        }
    }
    match authority {
        Some((a, b)) => {
            let at = find_char(&chars, a, b, '@');
            let ghost auth = chars@.subrange(a as int, b as int);
            if at < b {
                proof {
                    assert(before_first(auth, '@') =~= chars@.subrange(a as int, at as int));
                    assert(after_first(auth, '@') =~= chars@.subrange(at + 1, b as int));
                }
                let u = if at > a {
                    String::from_str(uri.substring_char(a, at))
                } else {
                    String::from_str(user)
                };
                let h = if b > at + 1 {
                    String::from_str(uri.substring_char(at + 1, b))
                } else {
                    String::from_str(host)
                };
                (u, h)
            } else {
                (String::from_str(user), String::from_str(uri.substring_char(a, b)))
            }
        },
        None => {
            if ssh_host.unicode_len() > 0 {
                let u = if ssh_user.unicode_len() > 0 {
                    String::from_str(ssh_user)
                } else {
                    String::from_str(user)
                };
                (u, String::from_str(ssh_host))
            } else {
                (String::from_str(user), String::from_str(host))
            }
        },
    }
}

/// `cwd` with a leading `home` replaced by `~` (unchanged without a home
/// directory or outside it).
pub open spec fn short_cwd(cwd: Seq<char>, home: Option<Seq<char>>) -> Seq<char> {
    match home {
        Some(h) => if has_prefix(cwd, h) {
            seq!['~'] + cwd.skip(h.len() as int)
        } else {
            cwd
        },
        None => cwd,
    }
}

/// The working directory as the status bar shows it.
pub fn shorten_home(cwd: &str, home: Option<&str>) -> (r: String)
    ensures
        r@ == short_cwd(cwd@, opt_str(home)),
{
    match home {
        None => String::from_str(cwd),
        Some(h) => {
            let chars = str_chars(cwd);
            match strip_prefix_len(&chars, h) {
                Some(k) => {
                    let n = chars.len();
                    let mut out = String::from_str("~");
                    proof {
                        reveal_strlit("~");
                    }
                    out.append(cwd.substring_char(k, n));
                    proof {
                        assert(out@ =~= seq!['~'] + cwd@.skip(h@.len() as int));
                    }
                    out
                },
                None => String::from_str(cwd),
            }
        },
    }
}

/// `mark` followed by the decimal form of `n`.
pub open spec fn counted(mark: char, n: nat) -> Seq<char> {
    seq![mark] + decimal(n)
}

/// The counts that are not zero, each after its mark: `⇡` commits ahead,
/// `⇣` behind, `!` modified files, `?` untracked files.
pub open spec fn git_status_parts(ahead: nat, behind: nat, dirty: nat, untracked: nat) -> Seq<
    Seq<char>,
> {
    let p0: Seq<Seq<char>> = Seq::empty();
    let p1 = if ahead > 0 {
        p0.push(counted('\u{21E1}', ahead))
    } else {
        p0
    };
    let p2 = if behind > 0 {
        p1.push(counted('\u{21E3}', behind))
    } else {
        p1
    };
    let p3 = if dirty > 0 {
        p2.push(counted('!', dirty))
    } else {
        p2
    };
    if untracked > 0 {
        p3.push(counted('?', untracked))
    } else {
        p3
    }
}

/// Append `part` to `out`, with a space before it when `out` already holds
/// a part.
fn push_part(out: &mut String, first: bool, mark: char, n: usize, ghost_parts: Ghost<Seq<Seq<char>>>)
    requires
        mark == '\u{21E1}' || mark == '\u{21E3}' || mark == '!' || mark == '?',
        first <==> ghost_parts@.len() == 0,
        old(out)@ == joined_with(ghost_parts@, ' '),
    ensures
        final(out)@ == joined_with(ghost_parts@.push(counted(mark, n as nat)), ' '),
{
    let ghost parts = ghost_parts@;
    let ghost new_parts = parts.push(counted(mark, n as nat));
    if !first {
        out.append(" ");
    }
    let mut m = String::new();
    push_mark(&mut m, mark);
    push_decimal(&mut m, n);
    out.append(m.as_str());
    proof {
        reveal_strlit(" ");
        assert(new_parts.drop_last() =~= parts);
        if first {
            assert(out@ =~= counted(mark, n as nat));
        } else {
            assert(out@ =~= joined_with(parts, ' ') + seq![' '] + counted(mark, n as nat));
        }
    }
}

/// Append a mark character.
fn push_mark(out: &mut String, mark: char)
    requires
        mark == '\u{21E1}' || mark == '\u{21E3}' || mark == '!' || mark == '?',
    ensures
        final(out)@ == old(out)@ + seq![mark],
{
    if mark == '\u{21E1}' {
        out.append("\u{21E1}");
        proof {
            reveal_strlit("\u{21E1}");
        }
    } else if mark == '\u{21E3}' {
        out.append("\u{21E3}");
        proof {
            reveal_strlit("\u{21E3}");
        }
    } else if mark == '!' {
        out.append("!");
        proof {
            reveal_strlit("!");
        }
    } else {
        out.append("?");
        proof {
            reveal_strlit("?");
        }
    }
}

/// The git summary of the status bar: the non-zero counts, each after its
/// mark, separated by spaces (`⇡2 !1`, empty when all are zero).
pub fn git_status_text(ahead: usize, behind: usize, dirty: usize, untracked: usize) -> (r: String)
    ensures
        r@ == joined_with(
            git_status_parts(ahead as nat, behind as nat, dirty as nat, untracked as nat),
            ' ',
        ),
{
    let mut out = String::new();
    let ghost mut parts: Seq<Seq<char>> = Seq::empty();
    let mut first = true;
    proof {
        assert(out@ =~= joined_with(parts, ' '));
    }
    if ahead > 0 {
        push_part(&mut out, first, '\u{21E1}', ahead, Ghost(parts));
        proof {
            parts = parts.push(counted('\u{21E1}', ahead as nat));
        }
        first = false;
    }
    if behind > 0 {
        push_part(&mut out, first, '\u{21E3}', behind, Ghost(parts));
        proof {
            parts = parts.push(counted('\u{21E3}', behind as nat));
        }
        first = false;
    }
    if dirty > 0 {
        push_part(&mut out, first, '!', dirty, Ghost(parts));
        proof {
            parts = parts.push(counted('!', dirty as nat));
        }
        first = false;
    }
    if untracked > 0 {
        push_part(&mut out, first, '?', untracked, Ghost(parts));
        proof {
            parts = parts.push(counted('?', untracked as nat));
        }
    }
    proof {
        assert(parts =~= git_status_parts(ahead as nat, behind as nat, dirty as nat, untracked as nat));
    }
    out
}

/// The stash count, empty when there is none.
pub fn git_stash_text(stash: usize) -> (r: String)
    ensures
        r@ == (if stash > 0 {
            decimal(stash as nat)
        } else {
            Seq::empty()
        }),
{
    let mut out = String::new();
    if stash > 0 {
        push_decimal(&mut out, stash);
        proof {
            assert(out@ =~= decimal(stash as nat));
        }
    }
    out
}

/// `:port` for each listening port, separated by spaces.
pub open spec fn port_pieces(ports: Seq<u16>) -> Seq<Seq<char>> {
    ports.map_values(|p: u16| seq![':'] + decimal(p as nat))
}

/// The ports of the workspace as the status bar shows them.
pub fn ports_text(ports: &[u16]) -> (r: String)
    ensures
        r@ == joined_with(port_pieces(ports@), ' '),
{
    let mut out = String::new();
    let mut i: usize = 0;
    proof {
        reveal_strlit(":");
        reveal_strlit(" ");
        assert(port_pieces(ports@.take(0)) =~= Seq::<Seq<char>>::empty());
    }
    while i < ports.len()
        invariant
            i <= ports@.len(),
            out@ == joined_with(port_pieces(ports@.take(i as int)), ' '),
        decreases ports@.len() - i,
    {
        let ghost before = port_pieces(ports@.take(i as int));
        proof {
            reveal_strlit(":");
            reveal_strlit(" ");
        }
        if i > 0 {
            out.append(" ");
        }
        out.append(":");
        push_decimal(&mut out, ports[i] as usize);
        proof {
            let after = port_pieces(ports@.take(i + 1));
            assert(after.drop_last() =~= before);
            assert(after.last() == seq![':'] + decimal(ports@[i as int] as nat));
            if i == 0 {
                assert(out@ =~= after.last());
            } else {
                assert(out@ =~= joined_with(before, ' ') + seq![' '] + after.last());
            }
        }
        i = i + 1;
    }
    proof {
        assert(ports@.take(ports@.len() as int) =~= ports@);
    }
    out
}

/// The git status shows the non-zero counts in the order ahead (`⇡`),
/// behind (`⇣`), modified (`!`), untracked (`?`), each mark followed by its
/// count; a count of zero shows nothing.
pub proof fn lemma_git_status_order(ahead: nat, behind: nat, dirty: nat, untracked: nat)
    ensures
        git_status_parts(ahead + 1, behind + 1, dirty + 1, untracked + 1) == seq![
            seq!['\u{21E1}'] + decimal(ahead + 1),
            seq!['\u{21E3}'] + decimal(behind + 1),
            seq!['!'] + decimal(dirty + 1),
            seq!['?'] + decimal(untracked + 1),
        ],
        git_status_parts(0, 0, 0, 0) == Seq::<Seq<char>>::empty(),
        git_status_parts(ahead + 1, 0, 0, 0) == seq![seq!['\u{21E1}'] + decimal(ahead + 1)],
        git_status_parts(0, behind + 1, 0, 0) == seq![seq!['\u{21E3}'] + decimal(behind + 1)],
        git_status_parts(0, 0, dirty + 1, 0) == seq![seq!['!'] + decimal(dirty + 1)],
        git_status_parts(0, 0, 0, untracked + 1) == seq![seq!['?'] + decimal(untracked + 1)],
{
    assert(git_status_parts(ahead + 1, behind + 1, dirty + 1, untracked + 1) =~= seq![
        seq!['\u{21E1}'] + decimal(ahead + 1),
        seq!['\u{21E3}'] + decimal(behind + 1),
        seq!['!'] + decimal(dirty + 1),
        seq!['?'] + decimal(untracked + 1),
    ]);
    assert(git_status_parts(ahead + 1, 0, 0, 0) =~= seq![seq!['\u{21E1}'] + decimal(ahead + 1)]);
    assert(git_status_parts(0, behind + 1, 0, 0) =~= seq![seq!['\u{21E3}'] + decimal(behind + 1)]);
    assert(git_status_parts(0, 0, dirty + 1, 0) =~= seq![seq!['!'] + decimal(dirty + 1)]);
    assert(git_status_parts(0, 0, 0, untracked + 1) =~= seq![seq!['?'] + decimal(untracked + 1)]);
}

/// A directory under the home directory shows as `~` and the rest of its
/// path; without a home directory it shows as it is.
pub proof fn lemma_home_shortened(home: Seq<char>, rest: Seq<char>, cwd: Seq<char>)
    ensures
        short_cwd(home + rest, Some(home)) == seq!['~'] + rest,
        short_cwd(cwd, None) == cwd,
{
    assert((home + rest).take(home.len() as int) =~= home);
    assert((home + rest).skip(home.len() as int) =~= rest);
}

} // verus!
