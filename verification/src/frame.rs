//! The frame extractor: a finite-state byte scanner that pulls delimited,
//! hex-encoded frames out of an unbounded untrusted byte stream.
//!
//! Frames open with three repeated open-delimiter bytes and close with
//! three repeated close-delimiter bytes; the interior is pairs of digits,
//! each pair one decoded byte. Any byte that does not fit the expected
//! class resets the scanner to its idle state, so garbled input is
//! abandoned and scanning resynchronizes on the next marker. A decoded
//! payload reaching the cap abandons the frame, bounding memory.

use vstd::prelude::*;
use crate::hex::nibble;
use crate::hex::spec_nibble;

verus! {

/// The byte that, repeated three times, opens a frame.
pub const OPEN_BYTE: u8 = 123;

/// The byte that, repeated three times, closes a frame.
pub const CLOSE_BYTE: u8 = 125;

/// A decoded payload reaching this many bytes abandons the frame.
pub const FRAME_CAP: usize = 500;

/// Where the scanner stands in a frame.
#[derive(Clone, Copy, Debug, PartialEq, Eq, Structural)]
pub enum ScanState {
    /// Scanning for the first open-marker byte.
    Interstitial,
    /// One open-marker byte seen.
    Open1,
    /// Two open-marker bytes seen.
    Open2,
    /// Inside a frame, expecting a pair's first digit or a close marker.
    Nibble1,
    /// Inside a frame, expecting a pair's second digit.
    Nibble2,
    /// One close-marker byte seen.
    Close1,
    /// Two close-marker bytes seen.
    Close2,
}

/// The extractor's abstract state: the scanner state, the bytes decoded
/// so far for the open frame, and the pending high nibble.
pub ghost struct Model {
    pub state: ScanState,
    pub buf: Seq<u8>,
    pub hi: u8,
}

/// The byte a digit pair decodes to, exactly as the scanner combines it.
pub open spec fn combine(hi: u8, lo: u8) -> u8 {
    (hi << 4) | lo
}

/// The extractor's idle state.
pub open spec fn initial_model() -> Model {
    Model { state: ScanState::Interstitial, buf: Seq::empty(), hi: 0 }
}

/// In any state that can still deliver the open frame, the decoded
/// buffer stays below the cap.
pub open spec fn model_wf(m: Model) -> bool {
    (m.state == ScanState::Nibble1 || m.state == ScanState::Nibble2 || m.state
        == ScanState::Close1 || m.state == ScanState::Close2) ==> m.buf.len() < FRAME_CAP
}

/// One scanner transition: the next abstract state and the frame
/// delivered by this byte, if any.
pub open spec fn spec_step(m: Model, b: u8) -> (Model, Option<Seq<u8>>) {
    match m.state {
        ScanState::Interstitial => (
            Model {
                state: if b == OPEN_BYTE {
                    ScanState::Open1
                } else {
                    ScanState::Interstitial
                },
                buf: m.buf,
                hi: m.hi,
            },
            None,
        ),
        ScanState::Open1 => (
            Model {
                state: if b == OPEN_BYTE {
                    ScanState::Open2
                } else {
                    ScanState::Interstitial
                },
                buf: m.buf,
                hi: m.hi,
            },
            None,
        ),
        ScanState::Open2 => if b == OPEN_BYTE {
            (Model { state: ScanState::Nibble1, buf: Seq::empty(), hi: m.hi }, None)
        } else {
            (Model { state: ScanState::Interstitial, buf: m.buf, hi: m.hi }, None)
        },
        ScanState::Nibble1 => match spec_nibble(b) {
            Some(n) => (Model { state: ScanState::Nibble2, buf: m.buf, hi: n }, None),
            None => (
                Model {
                    state: if b == CLOSE_BYTE {
                        ScanState::Close1
                    } else {
                        ScanState::Interstitial
                    },
                    buf: m.buf,
                    hi: m.hi,
                },
                None,
            ),
        },
        ScanState::Nibble2 => match spec_nibble(b) {
            Some(n) => (
                Model {
                    state: if m.buf.len() + 1 < FRAME_CAP {
                        ScanState::Nibble1
                    } else {
                        ScanState::Interstitial
                    },
                    buf: m.buf.push(combine(m.hi, n)),
                    hi: m.hi,
                },
                None,
            ),
            None => (Model { state: ScanState::Interstitial, buf: m.buf, hi: m.hi }, None),
        },
        ScanState::Close1 => (
            Model {
                state: if b == CLOSE_BYTE {
                    ScanState::Close2
                } else {
                    ScanState::Interstitial
                },
                buf: m.buf,
                hi: m.hi,
            },
            None,
        ),
        ScanState::Close2 => if b == CLOSE_BYTE {
            (Model { state: ScanState::Interstitial, buf: Seq::empty(), hi: m.hi }, Some(m.buf))
        } else {
            (Model { state: ScanState::Interstitial, buf: m.buf, hi: m.hi }, None)
        },
    }
}

/// The frames delivered by one transition, as a sequence.
pub open spec fn emit_of(e: Option<Seq<u8>>) -> Seq<Seq<u8>> {
    match e {
        Some(f) => seq![f],
        None => Seq::empty(),
    }
}

/// Runs the scanner over a byte sequence: the final abstract state and
/// every frame delivered, in order.
pub open spec fn spec_run(m: Model, bytes: Seq<u8>) -> (Model, Seq<Seq<u8>>)
    decreases bytes.len(),
{
    if bytes.len() == 0 {
        (m, Seq::empty())
    } else {
        let first = spec_step(m, bytes[0]);
        let rest = spec_run(first.0, bytes.drop_first());
        (rest.0, emit_of(first.1) + rest.1)
    }
}

/// One transition keeps the extractor well formed, and any frame it
/// delivers is below the cap.
pub proof fn lemma_step_wf(m: Model, b: u8)
    requires
        model_wf(m),
    ensures
        model_wf(spec_step(m, b).0),
        spec_step(m, b).1 is Some ==> spec_step(m, b).1.unwrap().len() < FRAME_CAP,
{
}

/// Law: however hostile the stream, every frame the scanner delivers
/// stays below the cap; an over-long frame is abandoned, never delivered.
pub proof fn lemma_run_cap(m: Model, bytes: Seq<u8>)
    requires
        model_wf(m),
    ensures
        model_wf(spec_run(m, bytes).0),
        forall|j: int|
            0 <= j < spec_run(m, bytes).1.len() ==> (#[trigger] spec_run(m, bytes).1[j]).len()
                < FRAME_CAP,
    decreases bytes.len(),
{
    if bytes.len() > 0 {
        let first = spec_step(m, bytes[0]);
        lemma_step_wf(m, bytes[0]);
        lemma_run_cap(first.0, bytes.drop_first());
    }
}

/// Running over concatenated input is running over each part in turn,
/// delivering the two parts' frames in order.
pub proof fn lemma_run_append(m: Model, a: Seq<u8>, b: Seq<u8>)
    ensures
        spec_run(m, a + b).0 == spec_run(spec_run(m, a).0, b).0,
        spec_run(m, a + b).1 == spec_run(m, a).1 + spec_run(spec_run(m, a).0, b).1,
    decreases a.len(),
{
    if a.len() == 0 {
        assert(a + b =~= b);
        assert(spec_run(m, a).1 + spec_run(spec_run(m, a).0, b).1 =~= spec_run(m, b).1);
    } else {
        let first = spec_step(m, a[0]);
        assert((a + b)[0] == a[0]);
        assert((a + b).drop_first() =~= a.drop_first() + b);
        lemma_run_append(first.0, a.drop_first(), b);
        assert(spec_run(m, a + b).1 =~= spec_run(m, a).1 + spec_run(spec_run(m, a).0, b).1);
    }
}

/// The pair of digits at a payload position is accepted and combines to
/// the payload byte there.
pub open spec fn digit_pair_ok(d: Seq<u8>, p: Seq<u8>, i: int) -> bool {
    &&& spec_nibble(d[2 * i]) is Some
    &&& spec_nibble(d[2 * i + 1]) is Some
    &&& combine(spec_nibble(d[2 * i]).unwrap(), spec_nibble(d[2 * i + 1]).unwrap()) == p[i]
}

/// A digit sequence encodes a payload: twice as long, and each pair of
/// accepted digits combines to the payload byte.
pub open spec fn pairs_encode(d: Seq<u8>, p: Seq<u8>) -> bool {
    &&& d.len() == 2 * p.len()
    &&& forall|i: int| 0 <= i < p.len() ==> #[trigger] digit_pair_ok(d, p, i)
}

/// From the in-frame state, a digit sequence encoding a payload that
/// fits under the cap is consumed whole: the payload lands in the
/// buffer, the scanner stays in frame, and nothing is delivered.
pub proof fn lemma_consume_pairs(m: Model, d: Seq<u8>, p: Seq<u8>)
    requires
        m.state == ScanState::Nibble1,
        pairs_encode(d, p),
        m.buf.len() + p.len() < FRAME_CAP,
    ensures
        spec_run(m, d).0.state == ScanState::Nibble1,
        spec_run(m, d).0.buf == m.buf + p,
        spec_run(m, d).1 == Seq::<Seq<u8>>::empty(),
    decreases p.len(),
{
    if p.len() == 0 {
        assert(d.len() == 0);
        assert(m.buf + p =~= m.buf);
    } else {
        reveal_with_fuel(spec_run, 3);
        assert(digit_pair_ok(d, p, 0));
        assert(spec_nibble(d[0]) is Some && spec_nibble(d[1]) is Some && combine(
            spec_nibble(d[0]).unwrap(),
            spec_nibble(d[1]).unwrap(),
        ) == p[0]);
        let m1 = spec_step(m, d[0]).0;
        let m2 = spec_step(m1, d[1]).0;
        assert(m1.state == ScanState::Nibble2 && m1.buf == m.buf);
        assert(m2.state == ScanState::Nibble1 && m2.buf == m.buf.push(p[0]));
        let d2 = d.skip(2);
        let p2 = p.drop_first();
        assert(pairs_encode(d2, p2)) by {
            assert forall|i: int| 0 <= i < p2.len() implies #[trigger] digit_pair_ok(
                d2,
                p2,
                i,
            ) by {
                assert(digit_pair_ok(d, p, i + 1));
                assert(p2[i] == p[i + 1]);
                assert(d2[2 * i] == d[2 * (i + 1)]);
                assert(d2[2 * i + 1] == d[2 * (i + 1) + 1]);
            }
        }
        lemma_consume_pairs(m2, d2, p2);
        assert(d.drop_first()[0] == d[1]);
        assert(d.drop_first().drop_first() =~= d2);
        assert(spec_run(m, d).0 == spec_run(m2, d2).0);
        assert(m.buf.push(p[0]) + p2 =~= m.buf + p);
        assert(spec_run(m, d).1 =~= Seq::<Seq<u8>>::empty());
    }
}

/// A byte sequence is a well-formed frame for a payload: three open
/// markers, the payload's digit encoding, three close markers, with the
/// payload below the cap.
pub open spec fn frame_encodes(f: Seq<u8>, p: Seq<u8>) -> bool {
    &&& f.len() == 2 * p.len() + 6
    &&& p.len() < FRAME_CAP
    &&& f[0] == OPEN_BYTE && f[1] == OPEN_BYTE && f[2] == OPEN_BYTE
    &&& f[f.len() - 3] == CLOSE_BYTE && f[f.len() - 2] == CLOSE_BYTE && f[f.len() - 1] == CLOSE_BYTE
    &&& pairs_encode(f.subrange(3, f.len() - 3), p)
}

/// From the idle state, a well-formed frame is extracted whole: exactly
/// its payload is delivered and the scanner returns to idle.
pub proof fn lemma_frame_extracted(m: Model, f: Seq<u8>, p: Seq<u8>)
    requires
        m.state == ScanState::Interstitial,
        frame_encodes(f, p),
    ensures
        spec_run(m, f).1 == seq![p],
        spec_run(m, f).0.state == ScanState::Interstitial,
    decreases f.len(),
{
    reveal_with_fuel(spec_run, 5);
    let opens = f.subrange(0, 3);
    let digits = f.subrange(3, f.len() - 3);
    let closes = f.subrange(f.len() - 3, f.len() as int);
    assert(f =~= opens + (digits + closes));

    let m1 = spec_step(m, OPEN_BYTE).0;
    let m2 = spec_step(m1, OPEN_BYTE).0;
    let m3 = spec_step(m2, OPEN_BYTE).0;
    assert(m3.state == ScanState::Nibble1 && m3.buf =~= Seq::<u8>::empty());
    assert(spec_run(m, opens).0 == m3 && spec_run(m, opens).1 =~= Seq::<Seq<u8>>::empty()) by {
        assert(opens[0] == OPEN_BYTE);
        assert(opens.drop_first()[0] == OPEN_BYTE);
        assert(opens.drop_first().drop_first()[0] == OPEN_BYTE);
        assert(opens.drop_first().drop_first().drop_first() =~= Seq::<u8>::empty());
    }

    lemma_consume_pairs(m3, digits, p);
    let m4 = spec_run(m3, digits).0;
    assert(m4.state == ScanState::Nibble1 && m4.buf =~= p);

    assert(spec_nibble(CLOSE_BYTE) is None);
    let m5 = spec_step(m4, CLOSE_BYTE).0;
    let m6 = spec_step(m5, CLOSE_BYTE).0;
    assert(m5.state == ScanState::Close1 && m5.buf == m4.buf);
    assert(m6.state == ScanState::Close2 && m6.buf == m4.buf);
    assert(spec_step(m6, CLOSE_BYTE).1 == Some(m4.buf));
    let m7 = spec_step(m6, CLOSE_BYTE).0;
    assert(m7.state == ScanState::Interstitial);
    assert(spec_run(m4, closes).0 == m7 && spec_run(m4, closes).1 =~= seq![p]) by {
        assert(closes[0] == CLOSE_BYTE);
        assert(closes.drop_first()[0] == CLOSE_BYTE);
        assert(closes.drop_first().drop_first()[0] == CLOSE_BYTE);
        assert(closes.drop_first().drop_first().drop_first() =~= Seq::<u8>::empty());
    }

    lemma_run_append(m, opens, digits + closes);
    lemma_run_append(m3, digits, closes);
    assert(spec_run(m, f).1 =~= seq![p]);
}

/// The byte sequence holds no run of three open markers.
pub open spec fn no_marker_triple(g: Seq<u8>) -> bool {
    forall|i: int|
        0 <= i && i + 3 <= g.len() ==> !((#[trigger] g[i]) == OPEN_BYTE && g[i + 1] == OPEN_BYTE
            && g[i + 2] == OPEN_BYTE)
}

/// The scanner state that garbage without a marker triple leaves behind:
/// idle, except for marker bytes at the very end.
pub open spec fn tail_state(g: Seq<u8>) -> ScanState {
    if g.len() >= 2 && g[g.len() - 1] == OPEN_BYTE && g[g.len() - 2] == OPEN_BYTE {
        ScanState::Open2
    } else if g.len() >= 1 && g[g.len() - 1] == OPEN_BYTE {
        ScanState::Open1
    } else {
        ScanState::Interstitial
    }
}

/// From the idle state, input without a marker triple never opens a
/// frame: nothing is delivered, the buffer is untouched, and the scanner
/// ends idle except for trailing marker bytes.
pub proof fn lemma_scan_garbage(m: Model, g: Seq<u8>)
    requires
        m.state == ScanState::Interstitial,
        no_marker_triple(g),
    ensures
        spec_run(m, g).1 == Seq::<Seq<u8>>::empty(),
        spec_run(m, g).0.state == tail_state(g),
        spec_run(m, g).0.buf == m.buf,
    decreases g.len(),
{
    if g.len() > 0 {
        let g0 = g.drop_last();
        let b = g.last();
        assert(no_marker_triple(g0)) by {
            assert(forall|i: int| 0 <= i < g0.len() ==> #[trigger] g0[i] == g[i]);
        }
        reveal_with_fuel(spec_run, 3);
        lemma_scan_garbage(m, g0);
        lemma_run_append(m, g0, seq![b]);
        assert(g =~= g0 + seq![b]);
        let mid = spec_run(m, g0).0;
        assert(spec_run(mid, seq![b]).0 == spec_step(mid, b).0 && spec_run(mid, seq![b]).1
            == emit_of(spec_step(mid, b).1)) by {
            assert(seq![b][0] == b);
            assert(seq![b].drop_first() =~= Seq::<u8>::empty());
            assert(emit_of(spec_step(mid, b).1) + Seq::<Seq<u8>>::empty() =~= emit_of(
                spec_step(mid, b).1,
            ));
        }
        if mid.state == ScanState::Open2 && b == OPEN_BYTE {
            assert(g0.len() >= 2 && g0[g0.len() - 1] == OPEN_BYTE && g0[g0.len() - 2] == OPEN_BYTE);
            assert(g[g.len() - 3] == OPEN_BYTE && g[g.len() - 2] == OPEN_BYTE && g[g.len() - 1]
                == OPEN_BYTE);
            assert(false);
        }
        assert(spec_run(m, g).1 =~= Seq::<Seq<u8>>::empty());
    }
}

/// Law: around one well-formed frame, garbage without a spurious marker
/// triple — and not itself ending in marker bytes — is discarded whole:
/// the scanner delivers exactly the frame's payload and nothing else.
pub proof fn lemma_resync(m: Model, g1: Seq<u8>, f: Seq<u8>, p: Seq<u8>, g2: Seq<u8>)
    requires
        m.state == ScanState::Interstitial,
        no_marker_triple(g1),
        tail_state(g1) == ScanState::Interstitial,
        frame_encodes(f, p),
        no_marker_triple(g2),
    ensures
        spec_run(m, g1 + f + g2).1 == seq![p],
{
    lemma_scan_garbage(m, g1);
    let m1 = spec_run(m, g1).0;
    lemma_frame_extracted(m1, f, p);
    let m2 = spec_run(m1, f).0;
    lemma_scan_garbage(m2, g2);
    lemma_run_append(m, g1, f + g2);
    lemma_run_append(m1, f, g2);
    assert(g1 + f + g2 =~= g1 + (f + g2));
    assert(spec_run(m, g1 + f + g2).1 =~= seq![p]);
}

/// The frame extractor: feeds one byte at a time, delivering each
/// completed frame's decoded payload.
pub struct FrameExtractor {
    state: ScanState,
    buf: Vec<u8>,
    hi: u8,
}

impl View for FrameExtractor {
    type V = Model;

    closed spec fn view(&self) -> Model {
        Model { state: self.state, buf: self.buf@, hi: self.hi }
    }
}

impl FrameExtractor {
    /// An extractor in the idle state.
    pub fn new() -> (r: Self)
        ensures
            r@ == initial_model(),
    {
        let r = FrameExtractor { state: ScanState::Interstitial, buf: Vec::new(), hi: 0 };
        proof {
            assert(r@ == initial_model());
        }
        r
    }

    /// Consumes one stream byte, delivering a decoded payload when this
    /// byte completes a frame; the transition is exactly the abstract
    /// scanner's.
    pub fn step(&mut self, b: u8) -> (out: Option<Vec<u8>>)
        requires
            model_wf(old(self)@),
        ensures
            model_wf(final(self)@),
            final(self)@ == spec_step(old(self)@, b).0,
            out is Some <==> spec_step(old(self)@, b).1 is Some,
            out is Some ==> out.unwrap()@ == spec_step(old(self)@, b).1.unwrap()
                && out.unwrap()@.len() < FRAME_CAP,
    {
        proof {
            lemma_step_wf(old(self)@, b);
        }
        match self.state {
            ScanState::Interstitial => {
                if b == OPEN_BYTE {
                    self.state = ScanState::Open1;
                }
                None
            },
            ScanState::Open1 => {
                self.state = if b == OPEN_BYTE {
                    ScanState::Open2
                } else {
                    ScanState::Interstitial
                };
                None
            },
            ScanState::Open2 => {
                if b == OPEN_BYTE {
                    self.buf = Vec::new();
                    self.state = ScanState::Nibble1;
                } else {
                    self.state = ScanState::Interstitial;
                }
                None
            },
            ScanState::Nibble1 => {
                match nibble(b) {
                    Some(n) => {
                        self.hi = n;
                        self.state = ScanState::Nibble2;
                    },
                    None => {
                        self.state = if b == CLOSE_BYTE {
                            ScanState::Close1
                        } else {
                            ScanState::Interstitial
                        };
                    },
                }
                None
            },
            ScanState::Nibble2 => {
                match nibble(b) {
                    Some(n) => {
                        self.buf.push((self.hi << 4) | n);
                        self.state = if self.buf.len() < FRAME_CAP {
                            ScanState::Nibble1
                        } else {
                            ScanState::Interstitial
                        };
                    },
                    None => {
                        self.state = ScanState::Interstitial;
                    },
                }
                None
            },
            ScanState::Close1 => {
                self.state = if b == CLOSE_BYTE {
                    ScanState::Close2
                } else {
                    ScanState::Interstitial
                };
                None
            },
            ScanState::Close2 => {
                self.state = ScanState::Interstitial;
                if b == CLOSE_BYTE {
                    let mut emitted: Vec<u8> = Vec::new();
                    core::mem::swap(&mut emitted, &mut self.buf);
                    Some(emitted)
                } else {
                    None
                }
            },
        }
    }
}

} // verus!
