//! Stream synchronizer: a byte-at-a-time state machine that recovers frame
//! boundaries from a continuous, possibly noisy byte stream. Every complete
//! candidate frame is handed out for frame decoding; garbage bytes outside a
//! frame are dropped and never block a later valid frame.
use vstd::prelude::*;

use crate::packet::RawPacketView;
use crate::packet::SYNC_ONE;
use crate::packet::SYNC_TWO;
use crate::packet::spec_packet_bytes;
use crate::packet::spec_parse_packet;

verus! {

/// Scanner state: which part of a frame the next byte belongs to. `Data`
/// counts the payload and checksum bytes that remain after the length byte.
#[derive(Clone, Copy, Debug, PartialEq, Eq, Structural)]
pub enum SyncState {
    SyncOne,
    SyncTwo,
    Descriptor,
    PayloadLength,
    Data { length: u16 },
}

/// One step of the scanner: from a state and buffer, a consumed byte gives
/// the next state, the next buffer, and possibly a complete candidate frame.
pub open spec fn spec_sync_step(s: SyncState, buf: Seq<u8>, b: u8) -> (
    SyncState,
    Seq<u8>,
    Option<Seq<u8>>,
) {
    match s {
        SyncState::SyncOne => {
            if b == SYNC_ONE {
                (SyncState::SyncTwo, buf.push(b), None)
            } else {
                (SyncState::SyncOne, Seq::empty(), None)
            }
        },
        SyncState::SyncTwo => {
            if b == SYNC_TWO {
                (SyncState::Descriptor, buf.push(b), None)
            } else {
                (SyncState::SyncOne, Seq::empty(), None)
            }
        },
        SyncState::Descriptor => (SyncState::PayloadLength, buf.push(b), None),
        SyncState::PayloadLength => (
            SyncState::Data { length: (b + 1) as u16 },
            buf.push(b),
            None,
        ),
        SyncState::Data { length } => {
            if length == 0 {
                (SyncState::SyncOne, Seq::empty(), Some(buf.push(b)))
            } else {
                (SyncState::Data { length: (length - 1) as u16 }, buf.push(b), None)
            }
        },
    }
}

/// Run the scanner over a whole input: final state, final buffer, and every
/// candidate frame completed along the way, in order.
pub open spec fn spec_run(s: SyncState, buf: Seq<u8>, input: Seq<u8>) -> (
    SyncState,
    Seq<u8>,
    Seq<Seq<u8>>,
)
    decreases input.len(),
{
    if input.len() == 0 {
        (s, buf, Seq::empty())
    } else {
        let step = spec_sync_step(s, buf, input.first());
        let rest = spec_run(step.0, step.1, input.drop_first());
        let frames = match step.2 {
            Some(f) => seq![f] + rest.2,
            None => rest.2,
        };
        (rest.0, rest.1, frames)
    }
}

/// Mathematical model of a `Synchronizer`.
#[verifier::ext_equal]
pub struct SynchronizerView {
    pub state: SyncState,
    pub buffer: Seq<u8>,
}

/// The frame-boundary scanner. It owns the scan state and the bytes of the
/// frame in progress; callers feed it bytes and receive complete candidate
/// frames.
#[derive(Clone, Debug, PartialEq, Eq)]
pub struct Synchronizer {
    state: SyncState,
    buffer: Vec<u8>,
}

impl View for Synchronizer {
    type V = SynchronizerView;

    closed spec fn view(&self) -> SynchronizerView {
        SynchronizerView { state: self.state, buffer: self.buffer@ }
    }
}

impl Synchronizer {
    /// A scanner awaiting the first sync byte, with nothing buffered.
    pub fn new() -> (r: Synchronizer)
        ensures
            r@.state == SyncState::SyncOne,
            r@.buffer == Seq::<u8>::empty(),
    {
        let s = Synchronizer { state: SyncState::SyncOne, buffer: Vec::new() };
        proof {
            assert(s@.buffer =~= Seq::<u8>::empty());
        }
        s
    }

    /// Consume one byte, returning a complete candidate frame if this byte
    /// finishes one.
    pub fn push_byte(&mut self, b: u8) -> (r: Option<Vec<u8>>)
        ensures
            ({
                let step = spec_sync_step(old(self)@.state, old(self)@.buffer, b);
                &&& final(self)@.state == step.0
                &&& final(self)@.buffer == step.1
                &&& match r {
                    Some(frame) => step.2 == Some(frame@),
                    None => step.2 is None,
                }
            }),
    {
        match self.state {
            SyncState::SyncOne => {
                if b == 0x75 {
                    self.state = SyncState::SyncTwo;
                    self.buffer.push(b);
                } else {
                    self.state = SyncState::SyncOne;
                    self.buffer.clear();
                    proof {
                        assert(self@.buffer =~= Seq::<u8>::empty());
                    }
                }
                None
            },
            SyncState::SyncTwo => {
                if b == 0x65 {
                    self.state = SyncState::Descriptor;
                    self.buffer.push(b);
                } else {
                    self.state = SyncState::SyncOne;
                    self.buffer.clear();
                    proof {
                        assert(self@.buffer =~= Seq::<u8>::empty());
                    }
                }
                None
            },
            SyncState::Descriptor => {
                self.state = SyncState::PayloadLength;
                self.buffer.push(b);
                None
            },
            SyncState::PayloadLength => {
                self.state = SyncState::Data { length: b as u16 + 1 };
                self.buffer.push(b);
                None
            },
            SyncState::Data { length } => {
                if length == 0 {
                    self.buffer.push(b);
                    let mut frame: Vec<u8> = Vec::new();
                    core::mem::swap(&mut frame, &mut self.buffer);
                    self.state = SyncState::SyncOne;
                    proof {
                        assert(self@.buffer =~= Seq::<u8>::empty());
                    }
                    Some(frame)
                } else {
                    self.state = SyncState::Data { length: length - 1 };
                    self.buffer.push(b);
                    None
                }
            },
        }
    }

    /// Consume a run of bytes, returning every candidate frame completed
    /// within it, in order.
    pub fn feed(&mut self, input: &[u8]) -> (frames: Vec<Vec<u8>>)
        ensures
            ({
                let run = spec_run(old(self)@.state, old(self)@.buffer, input@);
                &&& final(self)@.state == run.0
                &&& final(self)@.buffer == run.1
                &&& frames@.map_values(|f: Vec<u8>| f@) == run.2
            }),
    {
        let ghost s0 = self@.state;
        let ghost b0 = self@.buffer;
        let mut frames: Vec<Vec<u8>> = Vec::new();
        proof {
            assert(input@.skip(0) =~= input@);
            assert(frames@.map_values(|f: Vec<u8>| f@) =~= Seq::<Seq<u8>>::empty());
            assert(frames@.map_values(|f: Vec<u8>| f@) + spec_run(s0, b0, input@).2 =~= spec_run(
                s0,
                b0,
                input@,
            ).2);
        }
        let mut i: usize = 0;
        while i < input.len()
            invariant
                i <= input@.len(),
                ({
                    let run = spec_run(s0, b0, input@);
                    let rest = spec_run(self@.state, self@.buffer, input@.skip(i as int));
                    &&& run.0 == rest.0
                    &&& run.1 == rest.1
                    &&& run.2 == frames@.map_values(|f: Vec<u8>| f@) + rest.2
                }),
            decreases input@.len() - i,
        {
            proof {
                assert(input@.skip(i as int).first() == input@[i as int]);
                assert(input@.skip(i as int).drop_first() =~= input@.skip(i + 1));
            }
            let ghost frames_pre = frames@;
            match self.push_byte(input[i]) {
                Some(frame) => {
                    frames.push(frame);
                    proof {
                        assert(frames@.map_values(|f: Vec<u8>| f@) =~= frames_pre.map_values(
                            |f: Vec<u8>| f@,
                        ).push(frames@.last()@));
                        let rest = spec_run(self@.state, self@.buffer, input@.skip(i + 1));
                        assert(frames_pre.map_values(|f: Vec<u8>| f@) + (seq![frames@.last()@]
                            + rest.2) =~= frames@.map_values(|f: Vec<u8>| f@) + rest.2);
                    }
                },
                None => {},
            }
            i = i + 1;
        }
        proof {
            assert(input@.skip(input@.len() as int) =~= Seq::<u8>::empty());
            let run = spec_run(s0, b0, input@);
            assert(run.2 =~= frames@.map_values(|f: Vec<u8>| f@) + Seq::<Seq<u8>>::empty());
            assert(run.2 =~= frames@.map_values(|f: Vec<u8>| f@));
        }
        frames
    }
}

// ---------------------------------------------------------------------------
// Laws of the synchronizer.

/// While counting down a frame body, feeding exactly the remaining bytes
/// completes exactly one candidate: the buffer plus those bytes.
pub proof fn lemma_run_body(buf: Seq<u8>, n: u16, body: Seq<u8>)
    requires
        body.len() == n + 1,
    ensures
        spec_run(SyncState::Data { length: n }, buf, body) == (
            SyncState::SyncOne,
            Seq::<u8>::empty(),
            seq![buf + body],
        ),
    decreases body.len(),
{
    reveal_with_fuel(spec_run, 2);
    let b = body.first();
    if n == 0 {
        assert(body.drop_first() =~= Seq::<u8>::empty());
        assert(buf.push(b) =~= buf + body);
        assert(seq![buf.push(b)] + Seq::<Seq<u8>>::empty() =~= seq![buf + body]);
    } else {
        lemma_run_body(buf.push(b), (n - 1) as u16, body.drop_first());
        assert(buf.push(b) + body.drop_first() =~= buf + body);
        assert(seq![buf.push(b) + body.drop_first()] =~= seq![buf + body]);
    }
}

/// Resynchronization: one junk byte, then the bytes of one frame whose length
/// byte matches its size, yields exactly that frame as the one candidate, and
/// leaves the scanner reset. The junk byte neither blocks recovery nor makes
/// a spurious candidate.
pub proof fn lemma_resync(g: u8, f: Seq<u8>)
    requires
        g != SYNC_ONE,
        f.len() == f[3] + 6,
        f[0] == SYNC_ONE,
        f[1] == SYNC_TWO,
    ensures
        spec_run(SyncState::SyncOne, Seq::empty(), seq![g] + f) == (
            SyncState::SyncOne,
            Seq::<u8>::empty(),
            seq![f],
        ),
{
    reveal_with_fuel(spec_run, 6);
    let all = seq![g] + f;
    assert(all.first() == g);
    assert(all.drop_first() =~= f);
    // The junk byte leaves the scanner in its initial state with an empty
    // buffer.
    assert(spec_sync_step(SyncState::SyncOne, Seq::empty(), g) == (
        SyncState::SyncOne,
        Seq::<u8>::empty(),
        None::<Seq<u8>>,
    ));
    // The four header bytes walk the scanner into the body countdown.
    let f1 = f.drop_first();
    let f2 = f1.drop_first();
    let f3 = f2.drop_first();
    let body = f3.drop_first();
    assert(f1.first() == f[1]);
    assert(f2.first() == f[2]);
    assert(f3.first() == f[3]);
    assert(body =~= f.skip(4));
    assert(body.len() == f[3] + 2);
    lemma_run_body(
        Seq::empty().push(f[0]).push(f[1]).push(f[2]).push(f[3]),
        (f[3] + 1) as u16,
        body,
    );
    assert(Seq::empty().push(f[0]).push(f[1]).push(f[2]).push(f[3]) + body =~= f);
    assert(seq![Seq::empty().push(f[0]).push(f[1]).push(f[2]).push(f[3]) + body] =~= seq![f]);
}

/// Resynchronization, end to end: a junk byte followed by the encoding of a
/// well-formed frame that opens with the sync bytes yields exactly one
/// candidate, and that candidate decodes to exactly that frame.
pub proof fn lemma_resync_decodes(g: u8, p: RawPacketView)
    requires
        g != SYNC_ONE,
        p.wf(),
        p.header.sync_one == SYNC_ONE,
        p.header.sync_two == SYNC_TWO,
    ensures
        spec_run(SyncState::SyncOne, Seq::empty(), seq![g] + spec_packet_bytes(p)) == (
            SyncState::SyncOne,
            Seq::<u8>::empty(),
            seq![spec_packet_bytes(p)],
        ),
        spec_parse_packet(spec_packet_bytes(p)) == Ok::<
            RawPacketView,
            crate::error::ParsingError,
        >(p),
{
    let f = spec_packet_bytes(p);
    assert(f[0] == p.header.sync_one);
    assert(f[1] == p.header.sync_two);
    assert(f[3] == p.payload.length);
    assert(f.len() == p.payload.length + 6);
    lemma_resync(g, f);
    crate::packet::lemma_round_trip(p);
}

} // verus!
