//! APC sequence extraction (pre-processor for the VT parser).
//!
//! The vte crate (0.13) does not dispatch APC content — it enters
//! `SosPmApcString` and ignores all bytes until ST. We pre-scan the stream
//! and extract APC payloads (used by Kitty Graphics Protocol) before passing
//! the remaining bytes to vte.

use vstd::prelude::*;

verus! {

/// Scanner state between bytes.
#[derive(Debug, PartialEq, Eq, Clone, Copy)]
pub enum ApcState {
    /// Normal pass-through.
    Ground,
    /// Saw ESC (0x1B), waiting for `_` (0x5F) to start APC.
    Escape,
    /// Inside APC body, accumulating until ST.
    InApc,
    /// Inside APC body, saw ESC — waiting for `\` to end (ESC \).
    InApcEscape,
}

/// Everything the scanner holds and has produced after a run over some bytes.
pub struct ApcScan {
    pub state: ApcState,
    /// The body of the APC sequence that is still open.
    pub buffer: Seq<u8>,
    /// Bytes for the VT parser.
    pub passthrough: Seq<u8>,
    /// Completed APC payloads, in order.
    pub payloads: Seq<Seq<u8>>,
}

/// The scan after one more byte.
pub open spec fn apc_step(s: ApcScan, byte: u8) -> ApcScan {
    match s.state {
        ApcState::Ground => if byte == 0x1B {
            ApcScan { state: ApcState::Escape, ..s }
        } else {
            ApcScan { passthrough: s.passthrough.push(byte), ..s }
        },
        ApcState::Escape => if byte == 0x5F {
            // Start of APC.
            ApcScan { state: ApcState::InApc, buffer: Seq::empty(), ..s }
        } else {
            // Not APC — the ESC and this byte pass through.
            ApcScan { state: ApcState::Ground, passthrough: s.passthrough.push(0x1B).push(byte), ..s }
        },
        ApcState::InApc => if byte == 0x1B {
            ApcScan { state: ApcState::InApcEscape, ..s }
        } else if byte == 0x9C {
            // ST (single byte C1 form).
            ApcScan {
                state: ApcState::Ground,
                buffer: Seq::empty(),
                payloads: s.payloads.push(s.buffer),
                ..s
            }
        } else {
            ApcScan { buffer: s.buffer.push(byte), ..s }
        },
        ApcState::InApcEscape => if byte == 0x5C {
            // ESC \ = ST — end of APC.
            ApcScan {
                state: ApcState::Ground,
                buffer: Seq::empty(),
                payloads: s.payloads.push(s.buffer),
                ..s
            }
        } else {
            // Not ST — the ESC was part of the APC body.
            ApcScan { state: ApcState::InApc, buffer: s.buffer.push(0x1B).push(byte), ..s }
        },
    }
}

/// The scan after all of `data`, starting from `s`.
pub open spec fn apc_scan(s: ApcScan, data: Seq<u8>) -> ApcScan
    decreases data.len(),
{
    if data.len() == 0 {
        s
    } else {
        apc_step(apc_scan(s, data.drop_last()), data.last())
    }
}

/// The contents of extracted payloads.
pub open spec fn payload_views(v: Seq<Vec<u8>>) -> Seq<Seq<u8>> {
    v.map_values(|p: Vec<u8>| p@)
}

/// A scanner in `state` holding `buffer`, with nothing produced yet.
pub open spec fn apc_start(state: ApcState, buffer: Seq<u8>) -> ApcScan {
    ApcScan { state, buffer, passthrough: Seq::empty(), payloads: Seq::empty() }
}

/// State for extracting APC sequences from a byte stream before vte processing.
#[derive(Debug)]
pub struct ApcExtractor {
    state: ApcState,
    buffer: Vec<u8>,
}

/// Result of processing bytes through the APC extractor.
pub struct ApcExtractResult {
    /// Bytes that should be fed to the vte parser (APC sequences stripped out).
    pub passthrough: Vec<u8>,
    /// Complete APC payloads that were extracted.
    pub apc_payloads: Vec<Vec<u8>>,
}

impl ApcExtractor {
    /// The scanner state.
    pub closed spec fn scan_state(self) -> ApcState {
        self.state
    }

    /// The body of the APC sequence that is still open.
    pub closed spec fn pending(self) -> Seq<u8> {
        self.buffer@
    }

    pub fn new() -> (r: Self)
        ensures
            r.scan_state() == ApcState::Ground,
            r.pending() == Seq::<u8>::empty(),
    {
        Self { state: ApcState::Ground, buffer: Vec::new() }
    }

    /// Process a chunk of bytes, extracting any APC sequences.
    ///
    /// Returns the bytes to pass through to vte and any complete APC payloads.
    pub fn process(&mut self, data: &[u8]) -> (r: ApcExtractResult)
        ensures
            ({
                let scan = apc_scan(apc_start(old(self).scan_state(), old(self).pending()), data@);
                &&& final(self).scan_state() == scan.state
                &&& final(self).pending() == scan.buffer
                &&& r.passthrough@ == scan.passthrough
                &&& payload_views(r.apc_payloads@) == scan.payloads
            }),
    {
        let ghost start = apc_start(self.state, self.buffer@);
        let mut passthrough: Vec<u8> = Vec::new();
        let mut apc_payloads: Vec<Vec<u8>> = Vec::new();
        let n = data.len();
        for i in 0..n
            invariant
                n == data@.len(),
                ({
                    let scan = apc_scan(start, data@.take(i as int));
                    &&& self.state == scan.state
                    &&& self.buffer@ == scan.buffer
                    &&& passthrough@ == scan.passthrough
                    &&& payload_views(apc_payloads@) == scan.payloads
                }),
        {
            let byte = data[i];
            proof {
                assert(data@.take(i + 1).drop_last() =~= data@.take(i as int));
                assert(data@.take(i + 1).last() == byte);
            }
            let ghost before = payload_views(apc_payloads@);
            match self.state {
                ApcState::Ground => {
                    if byte == 0x1B {
                        self.state = ApcState::Escape;
                    } else {
                        passthrough.push(byte);
                    }
                },
                ApcState::Escape => {
                    if byte == 0x5F {
                        // Start of APC.
                        self.state = ApcState::InApc;
                        self.buffer.clear();
                    } else {
                        // Not APC — pass the ESC and this byte through.
                        passthrough.push(0x1B);
                        passthrough.push(byte);
                        self.state = ApcState::Ground;
                    }
                },
                ApcState::InApc => {
                    if byte == 0x1B {
                        self.state = ApcState::InApcEscape;
                    } else if byte == 0x9C {
                        // ST (single byte C1 form).
                        let mut payload: Vec<u8> = Vec::new();
                        std::mem::swap(&mut payload, &mut self.buffer);
                        apc_payloads.push(payload);
                        proof {
                            assert(payload_views(apc_payloads@) =~= before.push(payload@));
                        }
                        self.state = ApcState::Ground;
                    } else {
                        self.buffer.push(byte);
                    }
                },
                ApcState::InApcEscape => {
                    if byte == 0x5C {
                        // ESC \ = ST — end of APC.
                        let mut payload: Vec<u8> = Vec::new();
                        std::mem::swap(&mut payload, &mut self.buffer);
                        apc_payloads.push(payload);
                        proof {
                            assert(payload_views(apc_payloads@) =~= before.push(payload@));
                        }
                        self.state = ApcState::Ground;
                    } else {
                        // Not ST — the ESC was part of the APC body.
                        self.buffer.push(0x1B);
                        self.buffer.push(byte);
                        self.state = ApcState::InApc;
                    }
                },
            }
        }
        proof {
            assert(data@.take(n as int) =~= data@);
        }
        ApcExtractResult { passthrough, apc_payloads }
    }

    /// Reset the extractor state (e.g., on terminal reset).
    pub fn reset(&mut self)
        ensures
            final(self).scan_state() == ApcState::Ground,
            final(self).pending() == Seq::<u8>::empty(),
    {
        self.state = ApcState::Ground;
        self.buffer.clear();
    }
}

impl Default for ApcExtractor {
    fn default() -> (r: Self)
        ensures
            r.scan_state() == ApcState::Ground,
            r.pending() == Seq::<u8>::empty(),
    {
        Self::new()
    }
}

/// Feeding a stream in two chunks gives what feeding it at once gives: the
/// second chunk continues from the state the first one left, and the outputs
/// of the two calls concatenate to the output of the single call.
pub proof fn lemma_apc_chunks_compose(state: ApcState, buffer: Seq<u8>, a: Seq<u8>, b: Seq<u8>)
    ensures
        ({
            let whole = apc_scan(apc_start(state, buffer), a + b);
            let first = apc_scan(apc_start(state, buffer), a);
            let second = apc_scan(apc_start(first.state, first.buffer), b);
            &&& whole.state == second.state
            &&& whole.buffer == second.buffer
            &&& whole.passthrough == first.passthrough + second.passthrough
            &&& whole.payloads == first.payloads + second.payloads
        }),
    decreases b.len(),
{
    let first = apc_scan(apc_start(state, buffer), a);
    lemma_apc_scan_offset(first, apc_start(first.state, first.buffer), b);
    lemma_apc_scan_split(apc_start(state, buffer), a, b);
}

/// Running from a state with earlier output only prepends that output.
proof fn lemma_apc_scan_offset(s: ApcScan, t: ApcScan, data: Seq<u8>)
    requires
        s.state == t.state,
        s.buffer == t.buffer,
        t.passthrough == Seq::<u8>::empty(),
        t.payloads == Seq::<Seq<u8>>::empty(),
    ensures
        apc_scan(s, data).state == apc_scan(t, data).state,
        apc_scan(s, data).buffer == apc_scan(t, data).buffer,
        apc_scan(s, data).passthrough == s.passthrough + apc_scan(t, data).passthrough,
        apc_scan(s, data).payloads == s.payloads + apc_scan(t, data).payloads,
    decreases data.len(),
{
    if data.len() > 0 {
        lemma_apc_scan_offset(s, t, data.drop_last());
        let ps = apc_scan(s, data.drop_last());
        let pt = apc_scan(t, data.drop_last());
        assert(ps.passthrough.push(0x1B) =~= s.passthrough + pt.passthrough.push(0x1B));
        assert(ps.passthrough.push(0x1B).push(data.last()) =~= s.passthrough + pt.passthrough.push(
            0x1B,
        ).push(data.last()));
        assert(ps.passthrough.push(data.last()) =~= s.passthrough + pt.passthrough.push(
            data.last(),
        ));
        assert(ps.payloads.push(ps.buffer) =~= s.payloads + pt.payloads.push(pt.buffer));
    } else {
        assert(s.passthrough + t.passthrough =~= s.passthrough);
        assert(s.payloads + t.payloads =~= s.payloads);
    }
}

/// Scanning `a + b` is scanning `b` after `a`.
proof fn lemma_apc_scan_split(s: ApcScan, a: Seq<u8>, b: Seq<u8>)
    ensures
        apc_scan(s, a + b) == apc_scan(apc_scan(s, a), b),
    decreases b.len(),
{
    if b.len() == 0 {
        assert(a + b =~= a);
    } else {
        assert((a + b).drop_last() =~= a + b.drop_last());
        assert((a + b).last() == b.last());
        lemma_apc_scan_split(s, a, b.drop_last());
    }
}

/// Bytes without an ESC pass through a scanner at ground level unchanged,
/// and no payload comes out.
pub proof fn lemma_apc_plain_text_passes(buffer: Seq<u8>, data: Seq<u8>)
    requires
        forall|i: int| 0 <= i < data.len() ==> data[i] != 0x1B,
    ensures
        apc_scan(apc_start(ApcState::Ground, buffer), data) == (ApcScan {
            state: ApcState::Ground,
            buffer,
            passthrough: data,
            payloads: Seq::empty(),
        }),
    decreases data.len(),
{
    if data.len() > 0 {
        lemma_apc_plain_text_passes(buffer, data.drop_last());
        assert(data.drop_last().push(data.last()) =~= data);
    } else {
        assert(data =~= Seq::<u8>::empty());
    }
}

/// Inside an APC body, bytes other than ESC and ST are collected and
/// nothing comes out.
proof fn lemma_apc_body_collects(s: ApcScan, body: Seq<u8>)
    requires
        s.state == ApcState::InApc,
        forall|i: int| 0 <= i < body.len() ==> body[i] != 0x1B && body[i] != 0x9C,
    ensures
        apc_scan(s, body) == (ApcScan { buffer: s.buffer + body, ..s }),
    decreases body.len(),
{
    if body.len() > 0 {
        lemma_apc_body_collects(s, body.drop_last());
        assert(s.buffer + body.drop_last() + seq![body.last()] =~= s.buffer + body);
        assert((s.buffer + body.drop_last()).push(body.last()) =~= s.buffer + body);
    } else {
        assert(s.buffer + body =~= s.buffer);
    }
}

/// An APC sequence `ESC _ body ESC \` between plain text is taken out
/// whole: its body is the one payload, and the text before and after it
/// passes through joined, as if the sequence had not been there.
pub proof fn lemma_apc_extracts_payload(t: Seq<u8>, body: Seq<u8>, u: Seq<u8>)
    requires
        forall|i: int| 0 <= i < t.len() ==> t[i] != 0x1B,
        forall|i: int| 0 <= i < u.len() ==> u[i] != 0x1B,
        forall|i: int| 0 <= i < body.len() ==> body[i] != 0x1B && body[i] != 0x9C,
    ensures
        apc_scan(
            apc_start(ApcState::Ground, Seq::empty()),
            t + seq![0x1Bu8, 0x5Fu8] + body + seq![0x1Bu8, 0x5Cu8] + u,
        ) == (ApcScan {
            state: ApcState::Ground,
            buffer: Seq::empty(),
            passthrough: t + u,
            payloads: seq![body],
        }),
{
    let s0 = apc_start(ApcState::Ground, Seq::empty());
    let open = seq![0x1Bu8, 0x5Fu8];
    let close = seq![0x1Bu8, 0x5Cu8];
    lemma_apc_plain_text_passes(Seq::empty(), t);
    let s1 = apc_scan(s0, t);
    lemma_apc_scan_split(s0, t, open);
    let s2 = apc_scan(s1, open);
    assert(open.drop_last() =~= seq![0x1Bu8]);
    assert(seq![0x1Bu8].drop_last() =~= Seq::<u8>::empty());
    assert(apc_scan(s1, Seq::<u8>::empty()) == s1);
    assert(apc_scan(s1, seq![0x1Bu8]) == apc_step(s1, 0x1B));
    assert(s2 == apc_step(apc_step(s1, 0x1B), 0x5F));
    assert(s2 == (ApcScan { state: ApcState::InApc, buffer: Seq::empty(), ..s1 }));
    lemma_apc_scan_split(s0, t + open, body);
    lemma_apc_body_collects(s2, body);
    let s3 = apc_scan(s2, body);
    assert(Seq::<u8>::empty() + body =~= body);
    lemma_apc_scan_split(s0, t + open + body, close);
    assert(close.drop_last() =~= seq![0x1Bu8]);
    let s4 = apc_scan(s3, close);
    assert(apc_scan(s3, Seq::<u8>::empty()) == s3);
    assert(apc_scan(s3, seq![0x1Bu8]) == apc_step(s3, 0x1B));
    assert(s4 == apc_step(apc_step(s3, 0x1B), 0x5C));
    assert(s4 == (ApcScan {
        state: ApcState::Ground,
        buffer: Seq::empty(),
        passthrough: t,
        payloads: seq![body],
    })) by {
        assert(Seq::<Seq<u8>>::empty().push(body) =~= seq![body]);
    }
    lemma_apc_scan_split(s0, t + open + body + close, u);
    lemma_apc_scan_offset(s4, apc_start(ApcState::Ground, Seq::empty()), u);
    lemma_apc_plain_text_passes(Seq::empty(), u);
    assert(seq![body] + Seq::<Seq<u8>>::empty() =~= seq![body]);
}

} // verus!
