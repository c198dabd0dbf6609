//! Replies of the session daemon's text protocol.

use vstd::prelude::*;

use crate::text::{joined_with, range_is_str, str_chars, trim, trim_range};

verus! {

broadcast use vstd::string::group_string_axioms;

/// The reply to a request: `list` gives the session IDs one per line (or
/// `no sessions`), `ping` gives `pong`, anything else is reported as an
/// unknown command; every reply ends with a newline. The request is read
/// without surrounding whitespace.
pub open spec fn ipc_reply(request: Seq<char>, ids: Seq<Seq<char>>) -> Seq<char> {
    let r = trim(request);
    if r == "list"@ {
        if ids.len() == 0 {
            "no sessions\n"@
        } else {
            joined_with(ids, '\n') + seq!['\n']
        }
    } else if r == "ping"@ {
        "pong\n"@
    } else {
        "unknown command: "@ + r + seq!['\n']
    }
}

/// The reply to one text request, given the IDs of the live sessions.
pub fn ipc_response(request: &str, session_ids: &Vec<String>) -> (reply: String)
    ensures
        reply@ == ipc_reply(request@, session_ids@.map_values(|id: String| id@)),
{
    let ghost ids = session_ids@.map_values(|id: String| id@);
    let chars = str_chars(request);
    let n = chars.len();
    let (lo, hi) = trim_range(&chars, 0, n);
    proof {
        assert(chars@.subrange(0, n as int) =~= request@);
        reveal_strlit("\n");
        assert("\n"@ =~= seq!['\n']);
    }
    if range_is_str(&chars, lo, hi, "list") {
        if session_ids.len() == 0 {
            return String::from_str("no sessions\n");
        }
        let mut out = String::new();
        let mut i: usize = 0;
        while i < session_ids.len()
            invariant
                ids == session_ids@.map_values(|id: String| id@),
                0 <= i <= session_ids@.len(),
                session_ids@.len() > 0,
                out@ == if i == 0 {
                    Seq::<char>::empty()
                } else {
                    joined_with(ids.take(i as int), '\n')
                },
            decreases session_ids@.len() - i,
        {
            proof {
                assert(ids.take(i + 1).drop_last() =~= ids.take(i as int));
                assert(ids.take(i + 1).last() == session_ids@[i as int]@);
                reveal_strlit("\n");
                assert("\n"@ =~= seq!['\n']);
            }
            let ghost before = out@;
            if i > 0 {
                out.append("\n");
            }
            out.append(session_ids[i].as_str());
            proof {
                if i == 0 {
                    assert(ids.take(1) =~= seq![session_ids@[0]@]);
                    assert(Seq::<char>::empty() + session_ids@[0]@ =~= session_ids@[0]@);
                } else {
                    assert(out@ =~= before + seq!['\n'] + session_ids@[i as int]@);
                }
            }
            i = i + 1;
        }
        proof {
            assert(ids.take(session_ids@.len() as int) =~= ids);
        }
        out.append("\n");
        out
    } else if range_is_str(&chars, lo, hi, "ping") {
        String::from_str("pong\n")
    } else {
        let mut out = String::from_str("unknown command: ");
        out.append(request.substring_char(lo, hi));
        out.append("\n");
        out
    }
}

} // verus!
