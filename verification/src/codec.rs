//! The persisted replay layout.
//!
//! A replay is persisted as one ordered record: start seed, start time,
//! the startup-event block, and the frame list, every number little-endian
//! in eight bytes and every list length-prefixed.  The encoding is
//! canonical: decoding accepts exactly the byte strings the encoder
//! produces, so loading a record and saving it again reproduces it byte
//! for byte, and saving a log and loading it back yields the same log.

use crate::replay::Event;
use crate::replay::FrameV;
use crate::replay::Replay;
use crate::replay::ReplayFrame;
use crate::replay::ReplayV;
use vstd::prelude::*;

verus! {

/// `v` in little-endian order, eight bytes.
#[verifier::opaque]
pub open spec fn le64(v: u64) -> Seq<u8> {
    seq![
        (v & 0xff) as u8,
        ((v >> 8) & 0xff) as u8,
        ((v >> 16) & 0xff) as u8,
        ((v >> 24) & 0xff) as u8,
        ((v >> 32) & 0xff) as u8,
        ((v >> 40) & 0xff) as u8,
        ((v >> 48) & 0xff) as u8,
        ((v >> 56) & 0xff) as u8,
    ]
}

/// Reads one byte at `p`, or absence past the end.
pub open spec fn rd_byte(b: Seq<u8>, p: int) -> Option<(u8, int)> {
    if 0 <= p && p + 1 <= b.len() {
        Some((b[p], p + 1))
    } else {
        None
    }
}

/// Reads a little-endian 64-bit number at `p`, or absence past the end.
#[verifier::opaque]
pub open spec fn rd_le64(b: Seq<u8>, p: int) -> Option<(u64, int)> {
    if 0 <= p && p + 8 <= b.len() {
        Some(
            (
                (b[p] as u64) | (b[p + 1] as u64) << 8 | (b[p + 2] as u64) << 16 | (b[p + 3]
                    as u64) << 24 | (b[p + 4] as u64) << 32 | (b[p + 5] as u64) << 40 | (b[p + 6]
                    as u64) << 48 | (b[p + 7] as u64) << 56,
                p + 8,
            ),
        )
    } else {
        None
    }
}

/// A little-endian number is always eight bytes wide.
broadcast proof fn lemma_le64_len(v: u64)
    ensures
        (#[trigger] le64(v)).len() == 8,
{
    reveal(le64);
}

/// Reassembling the eight little-endian bytes of `v` gives `v` back.
proof fn lemma_le64_roundtrip(v: u64)
    ensures
        ((v & 0xff) as u8 as u64) | ((((v >> 8) & 0xff) as u8) as u64) << 8 | ((((v >> 16) & 0xff)
            as u8) as u64) << 16 | ((((v >> 24) & 0xff) as u8) as u64) << 24 | ((((v >> 32) & 0xff)
            as u8) as u64) << 32 | ((((v >> 40) & 0xff) as u8) as u64) << 40 | ((((v >> 48) & 0xff)
            as u8) as u64) << 48 | ((((v >> 56) & 0xff) as u8) as u64) << 56 == v,
{
    reveal(le64);
    assert(((v & 0xff) as u8 as u64) | ((((v >> 8) & 0xff) as u8) as u64) << 8 | ((((v >> 16)
        & 0xff) as u8) as u64) << 16 | ((((v >> 24) & 0xff) as u8) as u64) << 24 | ((((v >> 32)
        & 0xff) as u8) as u64) << 32 | ((((v >> 40) & 0xff) as u8) as u64) << 40 | ((((v >> 48)
        & 0xff) as u8) as u64) << 48 | ((((v >> 56) & 0xff) as u8) as u64) << 56 == v)
        by (bit_vector);
}

/// Eight bytes that reassemble to `v` are the little-endian bytes of `v`.
proof fn lemma_le64_bytes(b0: u8, b1: u8, b2: u8, b3: u8, b4: u8, b5: u8, b6: u8, b7: u8)
    ensures
        le64(
            (b0 as u64) | (b1 as u64) << 8 | (b2 as u64) << 16 | (b3 as u64) << 24 | (b4 as u64)
                << 32 | (b5 as u64) << 40 | (b6 as u64) << 48 | (b7 as u64) << 56,
        ) == seq![b0, b1, b2, b3, b4, b5, b6, b7],
{
    reveal(le64);
    let v = (b0 as u64) | (b1 as u64) << 8 | (b2 as u64) << 16 | (b3 as u64) << 24 | (b4 as u64)
        << 32 | (b5 as u64) << 40 | (b6 as u64) << 48 | (b7 as u64) << 56;
    assert({
        let w = (b0 as u64) | (b1 as u64) << 8 | (b2 as u64) << 16 | (b3 as u64) << 24 | (b4
            as u64) << 32 | (b5 as u64) << 40 | (b6 as u64) << 48 | (b7 as u64) << 56;
        (w & 0xff) as u8 == b0 && ((w >> 8) & 0xff) as u8 == b1 && ((w >> 16) & 0xff) as u8 == b2
            && ((w >> 24) & 0xff) as u8 == b3 && ((w >> 32) & 0xff) as u8 == b4 && ((w >> 40)
            & 0xff) as u8 == b5 && ((w >> 48) & 0xff) as u8 == b6 && ((w >> 56) & 0xff) as u8
            == b7
    }) by (bit_vector);
    assert(le64(v) =~= seq![b0, b1, b2, b3, b4, b5, b6, b7]);
}

/// Reading where the little-endian bytes of `v` lie yields `v`.
proof fn lemma_rd_le64_of_enc(b: Seq<u8>, p: int, v: u64)
    requires
        0 <= p,
        p + 8 <= b.len(),
        b.subrange(p, p + 8) == le64(v),
    ensures
        rd_le64(b, p) == Some((v, p + 8)),
{
    reveal(le64);
    reveal(rd_le64);
    assert(b[p] == le64(v)[0] && b[p + 1] == le64(v)[1] && b[p + 2] == le64(v)[2] && b[p + 3]
        == le64(v)[3] && b[p + 4] == le64(v)[4] && b[p + 5] == le64(v)[5] && b[p + 6]
        == le64(v)[6] && b[p + 7] == le64(v)[7]) by {
        assert(b.subrange(p, p + 8)[0] == b[p]);
        assert(b.subrange(p, p + 8)[1] == b[p + 1]);
        assert(b.subrange(p, p + 8)[2] == b[p + 2]);
        assert(b.subrange(p, p + 8)[3] == b[p + 3]);
        assert(b.subrange(p, p + 8)[4] == b[p + 4]);
        assert(b.subrange(p, p + 8)[5] == b[p + 5]);
        assert(b.subrange(p, p + 8)[6] == b[p + 6]);
        assert(b.subrange(p, p + 8)[7] == b[p + 7]);
    }
    lemma_le64_roundtrip(v);
}

/// A successful read ends eight on, and re-encodes to exactly the bytes
/// it covered.
proof fn lemma_rd_le64_canonical(b: Seq<u8>, p: int)
    requires
        rd_le64(b, p) is Some,
    ensures
        0 <= p,
        p + 8 <= b.len(),
        rd_le64(b, p)->Some_0.1 == p + 8,
        b.subrange(p, p + 8) == le64(rd_le64(b, p)->Some_0.0),
{
    reveal(le64);
    reveal(rd_le64);
    lemma_le64_bytes(b[p], b[p + 1], b[p + 2], b[p + 3], b[p + 4], b[p + 5], b[p + 6], b[p + 7]);
    assert(b.subrange(p, p + 8) =~= seq![
        b[p],
        b[p + 1],
        b[p + 2],
        b[p + 3],
        b[p + 4],
        b[p + 5],
        b[p + 6],
        b[p + 7],
    ]);
}

/// One event on the wire: a tag byte, then the payload.
pub open spec fn enc_event(e: Event) -> Seq<u8> {
    match e {
        Event::KeyPress(k) => seq![0u8, k],
        Event::KeyRelease(k) => seq![1u8, k],
        Event::MousePress(m) => seq![2u8, m],
        Event::MouseRelease(m) => seq![3u8, m],
        Event::MouseMove(x, y) => seq![4u8] + (le64(x as u32 as u64) + le64(y as u32 as u64)),
    }
}

/// An event list on the wire, in order (the count travels separately).
pub open spec fn enc_events(s: Seq<Event>) -> Seq<u8>
    decreases s.len(),
{
    if s.len() == 0 {
        Seq::empty()
    } else {
        enc_event(s.first()) + enc_events(s.drop_first())
    }
}

/// An optional reseed override on the wire.
pub open spec fn enc_opt_seed(o: Option<u64>) -> Seq<u8> {
    match o {
        None => seq![0u8],
        Some(v) => seq![1u8] + le64(v),
    }
}

/// An optional cursor override on the wire.
pub open spec fn enc_opt_mouse(o: Option<(i32, i32)>) -> Seq<u8> {
    match o {
        None => seq![0u8],
        Some(m) => seq![1u8] + (le64(m.0 as u32 as u64) + le64(m.1 as u32 as u64)),
    }
}

/// One recorded frame on the wire.
pub open spec fn enc_frame(f: FrameV) -> Seq<u8> {
    le64(f.speed as u64) + (enc_opt_seed(f.new_seed) + (enc_opt_mouse(f.new_mouse) + (le64(
        f.events.len() as u64,
    ) + enc_events(f.events))))
}

/// The frame list on the wire, in order.
pub open spec fn enc_frames(s: Seq<FrameV>) -> Seq<u8>
    decreases s.len(),
{
    if s.len() == 0 {
        Seq::empty()
    } else {
        enc_frame(s.first()) + enc_frames(s.drop_first())
    }
}

/// The whole persisted record: start seed, start time, the startup block
/// (set flag, count, events), and the frame list (count, frames).
pub open spec fn enc_replay(r: ReplayV) -> Seq<u8> {
    le64(r.seed) + (le64(r.start_time) + ((if r.startup_set {
        seq![1u8]
    } else {
        seq![0u8]
    }) + (le64(r.startup_events.len() as u64) + (enc_events(r.startup_events) + (le64(
        r.frames.len() as u64,
    ) + enc_frames(r.frames))))))
}

/// Reads one event at `p`, or absence on a bad tag or truncation.
pub open spec fn rd_event(b: Seq<u8>, p: int) -> Option<(Event, int)> {
    match rd_byte(b, p) {
        None => None,
        Some((tag, p1)) => if tag == 0 {
            match rd_byte(b, p1) {
                None => None,
                Some((k, p2)) => Some((Event::KeyPress(k), p2)),
            }
        } else if tag == 1 {
            match rd_byte(b, p1) {
                None => None,
                Some((k, p2)) => Some((Event::KeyRelease(k), p2)),
            }
        } else if tag == 2 {
            match rd_byte(b, p1) {
                None => None,
                Some((k, p2)) => Some((Event::MousePress(k), p2)),
            }
        } else if tag == 3 {
            match rd_byte(b, p1) {
                None => None,
                Some((k, p2)) => Some((Event::MouseRelease(k), p2)),
            }
        } else if tag == 4 {
            match rd_le64(b, p1) {
                None => None,
                Some((xv, p2)) => match rd_le64(b, p2) {
                    None => None,
                    Some((yv, p3)) => if xv <= 0xffffffff && yv <= 0xffffffff {
                        Some((Event::MouseMove(xv as u32 as i32, yv as u32 as i32), p3))
                    } else {
                        None
                    },
                },
            }
        } else {
            None
        },
    }
}

/// Reads `n` events at `p`, or absence when any of them fails.
pub open spec fn rd_events(b: Seq<u8>, p: int, n: nat) -> Option<(Seq<Event>, int)>
    decreases n,
{
    if n == 0 {
        Some((Seq::empty(), p))
    } else {
        match rd_event(b, p) {
            None => None,
            Some((e, p1)) => match rd_events(b, p1, (n - 1) as nat) {
                None => None,
                Some((s, p2)) => Some((seq![e] + s, p2)),
            },
        }
    }
}

/// Reads an optional reseed override at `p`.
pub open spec fn rd_opt_seed(b: Seq<u8>, p: int) -> Option<(Option<u64>, int)> {
    match rd_byte(b, p) {
        None => None,
        Some((tag, p1)) => if tag == 0 {
            Some((None, p1))
        } else if tag == 1 {
            match rd_le64(b, p1) {
                None => None,
                Some((v, p2)) => Some((Some(v), p2)),
            }
        } else {
            None
        },
    }
}

/// Reads an optional cursor override at `p`.
pub open spec fn rd_opt_mouse(b: Seq<u8>, p: int) -> Option<(Option<(i32, i32)>, int)> {
    match rd_byte(b, p) {
        None => None,
        Some((tag, p1)) => if tag == 0 {
            Some((None, p1))
        } else if tag == 1 {
            match rd_le64(b, p1) {
                None => None,
                Some((xv, p2)) => match rd_le64(b, p2) {
                    None => None,
                    Some((yv, p3)) => if xv <= 0xffffffff && yv <= 0xffffffff {
                        Some((Some((xv as u32 as i32, yv as u32 as i32)), p3))
                    } else {
                        None
                    },
                },
            }
        } else {
            None
        },
    }
}

/// Reads one frame at `p`.
pub open spec fn rd_frame(b: Seq<u8>, p: int) -> Option<(FrameV, int)> {
    match rd_le64(b, p) {
        None => None,
        Some((sv, p1)) => if sv <= 0xffffffff {
            match rd_opt_seed(b, p1) {
                None => None,
                Some((ns, p2)) => match rd_opt_mouse(b, p2) {
                    None => None,
                    Some((nm, p3)) => match rd_le64(b, p3) {
                        None => None,
                        Some((cnt, p4)) => match rd_events(b, p4, cnt as nat) {
                            None => None,
                            Some((ev, p5)) => Some(
                                (
                                    FrameV {
                                        speed: sv as u32,
                                        events: ev,
                                        new_seed: ns,
                                        new_mouse: nm,
                                    },
                                    p5,
                                ),
                            ),
                        },
                    },
                },
            }
        } else {
            None
        },
    }
}

/// Reads `n` frames at `p`.
pub open spec fn rd_frames(b: Seq<u8>, p: int, n: nat) -> Option<(Seq<FrameV>, int)>
    decreases n,
{
    if n == 0 {
        Some((Seq::empty(), p))
    } else {
        match rd_frame(b, p) {
            None => None,
            Some((f, p1)) => match rd_frames(b, p1, (n - 1) as nat) {
                None => None,
                Some((s, p2)) => Some((seq![f] + s, p2)),
            },
        }
    }
}

/// Parses a whole persisted record, absence unless the bytes are exactly
/// one canonical record with nothing trailing.
pub open spec fn dec_replay(b: Seq<u8>) -> Option<ReplayV> {
    match rd_le64(b, 0) {
        None => None,
        Some((seed, p1)) => match rd_le64(b, p1) {
            None => None,
            Some((time, p2)) => match rd_byte(b, p2) {
                None => None,
                Some((flag, p3)) => if flag == 0 || flag == 1 {
                    match rd_le64(b, p3) {
                        None => None,
                        Some((n1, p4)) => match rd_events(b, p4, n1 as nat) {
                            None => None,
                            Some((startup, p5)) => match rd_le64(b, p5) {
                                None => None,
                                Some((n2, p6)) => match rd_frames(b, p6, n2 as nat) {
                                    None => None,
                                    Some((frames, p7)) => if p7 == b.len() {
                                        Some(
                                            ReplayV {
                                                seed: seed,
                                                start_time: time,
                                                startup_events: startup,
                                                startup_set: flag == 1,
                                                frames: frames,
                                            },
                                        )
                                    } else {
                                        None
                                    },
                                },
                            },
                        },
                    }
                } else {
                    None
                },
            },
        },
    }
}

/// Peels a leading tag byte off a framed byte string.
proof fn lemma_peel_head(b: Seq<u8>, p: int, q: int, h: u8, rest: Seq<u8>)
    requires
        0 <= p,
        p + 1 + rest.len() == q,
        q <= b.len(),
        b.subrange(p, q) == seq![h] + rest,
    ensures
        b[p] == h,
        b.subrange(p + 1, q) == rest,
{
    assert(b.subrange(p, q)[0] == b[p]);
    assert forall|i: int| 0 <= i < rest.len() implies b.subrange(p + 1, q)[i] == rest[i] by {
        assert(b.subrange(p + 1, q)[i] == b[p + 1 + i]);
        assert(b.subrange(p, q)[i + 1] == b[p + 1 + i]);
    }
    assert(b.subrange(p + 1, q) =~= rest);
}

/// Splits a framed concatenation: where `x + y` lies, `x` lies, then `y`.
proof fn lemma_split(b: Seq<u8>, p: int, x: Seq<u8>, y: Seq<u8>)
    requires
        0 <= p,
        p + x.len() + y.len() <= b.len(),
        b.subrange(p, p + x.len() + y.len()) == x + y,
    ensures
        b.subrange(p, p + x.len()) == x,
        b.subrange(p + x.len(), p + x.len() + y.len()) == y,
{
    assert forall|i: int| 0 <= i < x.len() implies b.subrange(p, p + x.len())[i] == x[i] by {
        assert(b.subrange(p, p + x.len())[i] == b[p + i]);
        assert(b.subrange(p, p + x.len() + y.len())[i] == b[p + i]);
        assert((x + y)[i] == x[i]);
    }
    assert(b.subrange(p, p + x.len()) =~= x);
    assert forall|i: int|
        0 <= i < y.len() implies b.subrange(p + x.len(), p + x.len() + y.len())[i] == y[i] by {
        assert(b.subrange(p + x.len(), p + x.len() + y.len())[i] == b[p + x.len() + i]);
        assert(b.subrange(p, p + x.len() + y.len())[x.len() + i] == b[p + x.len() + i]);
        assert((x + y)[x.len() + i] == y[i]);
    }
    assert(b.subrange(p + x.len(), p + x.len() + y.len()) =~= y);
}

/// A 32-bit value carried in 64 bits survives the trip through `i32`.
proof fn lemma_u32_cast_roundtrip(v: u64)
    requires
        v <= 0xffffffff,
    ensures
        (v as u32 as i32) as u32 as u64 == v,
{
    assert((v as u32 as i32) as u32 as u64 == v) by (bit_vector)
        requires
            v <= 0xffffffff,
    ;
}

/// An `i32` survives the trip through its 64-bit wire form.
proof fn lemma_i32_cast_roundtrip(x: i32)
    ensures
        x as u32 as u64 <= 0xffffffff,
        (x as u32 as u64) as u32 as i32 == x,
{
    assert(x as u32 as u64 <= 0xffffffff && (x as u32 as u64) as u32 as i32 == x)
        by (bit_vector);
}

/// Reading where an encoded event lies yields that event.
proof fn lemma_rd_event_of_enc(b: Seq<u8>, p: int, e: Event)
    requires
        0 <= p,
        p + enc_event(e).len() <= b.len(),
        b.subrange(p, p + enc_event(e).len()) == enc_event(e),
    ensures
        rd_event(b, p) == Some((e, p + enc_event(e).len())),
{
    broadcast use lemma_le64_len;
    match e {
        Event::KeyPress(k) => {
            assert(b[p] == 0 && b[p + 1] == k) by {
                assert(b.subrange(p, p + 2)[0] == b[p]);
                assert(b.subrange(p, p + 2)[1] == b[p + 1]);
            }
        },
        Event::KeyRelease(k) => {
            assert(b[p] == 1 && b[p + 1] == k) by {
                assert(b.subrange(p, p + 2)[0] == b[p]);
                assert(b.subrange(p, p + 2)[1] == b[p + 1]);
            }
        },
        Event::MousePress(k) => {
            assert(b[p] == 2 && b[p + 1] == k) by {
                assert(b.subrange(p, p + 2)[0] == b[p]);
                assert(b.subrange(p, p + 2)[1] == b[p + 1]);
            }
        },
        Event::MouseRelease(k) => {
            assert(b[p] == 3 && b[p + 1] == k) by {
                assert(b.subrange(p, p + 2)[0] == b[p]);
                assert(b.subrange(p, p + 2)[1] == b[p + 1]);
            }
        },
        Event::MouseMove(x, y) => {
            let ex = le64(x as u32 as u64);
            let ey = le64(y as u32 as u64);
            assert(enc_event(e) == seq![4u8] + (ex + ey));
            lemma_peel_head(b, p, p + 17, 4, ex + ey);
            lemma_split(b, p + 1, ex, ey);
            lemma_rd_le64_of_enc(b, p + 1, x as u32 as u64);
            lemma_rd_le64_of_enc(b, p + 9, y as u32 as u64);
            lemma_i32_cast_roundtrip(x);
            lemma_i32_cast_roundtrip(y);
        },
    }
}

/// Reading where an encoded event list lies yields that list.
proof fn lemma_rd_events_of_enc(b: Seq<u8>, p: int, s: Seq<Event>)
    requires
        0 <= p,
        p + enc_events(s).len() <= b.len(),
        b.subrange(p, p + enc_events(s).len()) == enc_events(s),
    ensures
        rd_events(b, p, s.len()) == Some((s, p + enc_events(s).len())),
    decreases s.len(),
{
    broadcast use lemma_le64_len;
    if s.len() == 0 {
    } else {
        let x = enc_event(s.first());
        let y = enc_events(s.drop_first());
        assert(enc_events(s) == x + y);
        lemma_split(b, p, x, y);
        lemma_rd_event_of_enc(b, p, s.first());
        lemma_rd_events_of_enc(b, p + x.len(), s.drop_first());
        assert(seq![s.first()] + s.drop_first() =~= s);
    }
}

/// Reading where an encoded reseed override lies yields it.
proof fn lemma_rd_opt_seed_of_enc(b: Seq<u8>, p: int, o: Option<u64>)
    requires
        0 <= p,
        p + enc_opt_seed(o).len() <= b.len(),
        b.subrange(p, p + enc_opt_seed(o).len()) == enc_opt_seed(o),
    ensures
        rd_opt_seed(b, p) == Some((o, p + enc_opt_seed(o).len())),
{
    broadcast use lemma_le64_len;
    match o {
        None => {
            assert(b[p] == 0) by {
                assert(b.subrange(p, p + 1)[0] == b[p]);
            }
        },
        Some(v) => {
            lemma_peel_head(b, p, p + 9, 1, le64(v));
            lemma_rd_le64_of_enc(b, p + 1, v);
        },
    }
}

/// Reading where an encoded cursor override lies yields it.
proof fn lemma_rd_opt_mouse_of_enc(b: Seq<u8>, p: int, o: Option<(i32, i32)>)
    requires
        0 <= p,
        p + enc_opt_mouse(o).len() <= b.len(),
        b.subrange(p, p + enc_opt_mouse(o).len()) == enc_opt_mouse(o),
    ensures
        rd_opt_mouse(b, p) == Some((o, p + enc_opt_mouse(o).len())),
{
    broadcast use lemma_le64_len;
    match o {
        None => {
            assert(b[p] == 0) by {
                assert(b.subrange(p, p + 1)[0] == b[p]);
            }
        },
        Some(m) => {
            let ex = le64(m.0 as u32 as u64);
            let ey = le64(m.1 as u32 as u64);
            lemma_peel_head(b, p, p + 17, 1, ex + ey);
            lemma_split(b, p + 1, ex, ey);
            lemma_rd_le64_of_enc(b, p + 1, m.0 as u32 as u64);
            lemma_rd_le64_of_enc(b, p + 9, m.1 as u32 as u64);
            lemma_i32_cast_roundtrip(m.0);
            lemma_i32_cast_roundtrip(m.1);
            assert((m.0 as u32 as u64 as u32 as i32, m.1 as u32 as u64 as u32 as i32) == m);
        },
    }
}

/// The frame's event list is short enough for its count to travel in 64
/// bits.
pub open spec fn frame_enc_ok(f: FrameV) -> bool {
    f.events.len() < 0x10000000000000000
}

/// Every list in the record is short enough for its count to travel in 64
/// bits; true of anything an exec log can hold.
pub open spec fn replay_enc_ok(r: ReplayV) -> bool {
    &&& r.startup_events.len() < 0x10000000000000000
    &&& r.frames.len() < 0x10000000000000000
    &&& forall|i: int| 0 <= i < r.frames.len() ==> frame_enc_ok(#[trigger] r.frames[i])
}

/// Reading where an encoded frame lies yields that frame.
proof fn lemma_rd_frame_of_enc(b: Seq<u8>, p: int, f: FrameV)
    requires
        0 <= p,
        frame_enc_ok(f),
        p + enc_frame(f).len() <= b.len(),
        b.subrange(p, p + enc_frame(f).len()) == enc_frame(f),
    ensures
        rd_frame(b, p) == Some((f, p + enc_frame(f).len())),
{
    broadcast use lemma_le64_len;
    let s1 = le64(f.speed as u64);
    let s2 = enc_opt_seed(f.new_seed);
    let s3 = enc_opt_mouse(f.new_mouse);
    let s4 = le64(f.events.len() as u64);
    let s5 = enc_events(f.events);
    assert(enc_frame(f) == s1 + (s2 + (s3 + (s4 + s5))));
    let p1 = p + s1.len();
    let p2 = p1 + s2.len();
    let p3 = p2 + s3.len();
    let p4 = p3 + s4.len();
    let p5 = p4 + s5.len();
    lemma_split(b, p, s1, s2 + (s3 + (s4 + s5)));
    lemma_split(b, p1, s2, s3 + (s4 + s5));
    lemma_split(b, p2, s3, s4 + s5);
    lemma_split(b, p3, s4, s5);
    lemma_rd_le64_of_enc(b, p, f.speed as u64);
    lemma_rd_opt_seed_of_enc(b, p1, f.new_seed);
    lemma_rd_opt_mouse_of_enc(b, p2, f.new_mouse);
    lemma_rd_le64_of_enc(b, p3, f.events.len() as u64);
    lemma_rd_events_of_enc(b, p4, f.events);
    assert((f.events.len() as u64) as nat == f.events.len());
    assert(FrameV {
        speed: (f.speed as u64) as u32,
        events: f.events,
        new_seed: f.new_seed,
        new_mouse: f.new_mouse,
    } =~= f);
}

/// Reading where an encoded frame list lies yields that list.
proof fn lemma_rd_frames_of_enc(b: Seq<u8>, p: int, s: Seq<FrameV>)
    requires
        0 <= p,
        p + enc_frames(s).len() <= b.len(),
        b.subrange(p, p + enc_frames(s).len()) == enc_frames(s),
        forall|i: int| 0 <= i < s.len() ==> frame_enc_ok(#[trigger] s[i]),
    ensures
        rd_frames(b, p, s.len()) == Some((s, p + enc_frames(s).len())),
    decreases s.len(),
{
    broadcast use lemma_le64_len;
    if s.len() == 0 {
    } else {
        let x = enc_frame(s.first());
        let y = enc_frames(s.drop_first());
        assert(enc_frames(s) == x + y);
        lemma_split(b, p, x, y);
        assert(frame_enc_ok(s[0]));
        lemma_rd_frame_of_enc(b, p, s.first());
        assert(forall|i: int|
            0 <= i < s.drop_first().len() ==> frame_enc_ok(#[trigger] s.drop_first()[i]));
        lemma_rd_frames_of_enc(b, p + x.len(), s.drop_first());
        assert(seq![s.first()] + s.drop_first() =~= s);
    }
}

/// The parse of one framed record, segment by segment.
#[verifier::rlimit(100)]
#[verifier::spinoff_prover]
proof fn lemma_dec_segments(b: Seq<u8>, seed: u64, time: u64, flag: u8, startup: Seq<Event>, frames: Seq<FrameV>)
    requires
        flag == 0 || flag == 1,
        startup.len() < 0x10000000000000000,
        frames.len() < 0x10000000000000000,
        forall|i: int| 0 <= i < frames.len() ==> frame_enc_ok(#[trigger] frames[i]),
        b == le64(seed) + (le64(time) + (seq![flag] + (le64(startup.len() as u64) + (enc_events(
            startup,
        ) + (le64(frames.len() as u64) + enc_frames(frames)))))),
    ensures
        dec_replay(b) == Some(
            ReplayV {
                seed: seed,
                start_time: time,
                startup_events: startup,
                startup_set: flag == 1,
                frames: frames,
            },
        ),
{
    broadcast use lemma_le64_len;

    let s1 = le64(seed);
    let s2 = le64(time);
    let s3 = seq![flag];
    let s4 = le64(startup.len() as u64);
    let s5 = enc_events(startup);
    let s6 = le64(frames.len() as u64);
    let s7 = enc_frames(frames);
    let p1 = s1.len() as int;
    let p2 = p1 + s2.len();
    let p3 = p2 + s3.len();
    let p4 = p3 + s4.len();
    let p5 = p4 + s5.len();
    let p6 = p5 + s6.len();
    let p7 = p6 + s7.len();
    assert(b.subrange(0, p7) =~= b);
    lemma_split(b, 0, s1, s2 + (s3 + (s4 + (s5 + (s6 + s7)))));
    lemma_split(b, p1, s2, s3 + (s4 + (s5 + (s6 + s7))));
    lemma_split(b, p2, s3, s4 + (s5 + (s6 + s7)));
    lemma_split(b, p3, s4, s5 + (s6 + s7));
    lemma_split(b, p4, s5, s6 + s7);
    lemma_split(b, p5, s6, s7);
    lemma_rd_le64_of_enc(b, 0, seed);
    lemma_rd_le64_of_enc(b, p1, time);
    assert(b[p2] == flag) by {
        assert(b.subrange(p2, p3)[0] == b[p2]);
    }
    lemma_rd_le64_of_enc(b, p3, startup.len() as u64);
    lemma_rd_events_of_enc(b, p4, startup);
    assert((startup.len() as u64) as nat == startup.len());
    lemma_rd_le64_of_enc(b, p5, frames.len() as u64);
    lemma_rd_frames_of_enc(b, p6, frames);
    assert((frames.len() as u64) as nat == frames.len());
}

/// Saving a log and loading the bytes back yields the same log, exactly.
pub proof fn lemma_load_of_save(r: ReplayV)
    requires
        replay_enc_ok(r),
    ensures
        dec_replay(enc_replay(r)) == Some(r),
{
    let flag: u8 = if r.startup_set {
        1
    } else {
        0
    };
    lemma_dec_segments(
        enc_replay(r),
        r.seed,
        r.start_time,
        flag,
        r.startup_events,
        r.frames,
    );
    assert(ReplayV {
        seed: r.seed,
        start_time: r.start_time,
        startup_events: r.startup_events,
        startup_set: flag == 1,
        frames: r.frames,
    } =~= r);
}

/// Adjacent subranges concatenate to the enclosing one.
proof fn lemma_join(b: Seq<u8>, p: int, q: int, r: int)
    requires
        0 <= p <= q <= r <= b.len(),
    ensures
        b.subrange(p, r) == b.subrange(p, q) + b.subrange(q, r),
{
    assert(b.subrange(p, r) =~= b.subrange(p, q) + b.subrange(q, r));
}

/// A parsed event re-encodes to exactly the bytes it covered.
proof fn lemma_rd_event_canonical(b: Seq<u8>, p: int)
    requires
        rd_event(b, p) is Some,
    ensures
        ({
            let (e, p2) = rd_event(b, p)->Some_0;
            &&& 0 <= p
            &&& p2 == p + enc_event(e).len()
            &&& p2 <= b.len()
            &&& b.subrange(p, p2) == enc_event(e)
        }),
{
    broadcast use lemma_le64_len;

    let (e, p2) = rd_event(b, p)->Some_0;
    let tag = b[p];
    if tag == 0 || tag == 1 || tag == 2 || tag == 3 {
        assert(b.subrange(p, p + 2) =~= seq![b[p], b[p + 1]]);
        assert(b.subrange(p, p2) =~= enc_event(e));
    } else {
        let (xv, q2) = rd_le64(b, p + 1)->Some_0;
        let (yv, q3) = rd_le64(b, q2)->Some_0;
        lemma_rd_le64_canonical(b, p + 1);
        lemma_rd_le64_canonical(b, q2);
        lemma_u32_cast_roundtrip(xv);
        lemma_u32_cast_roundtrip(yv);
        assert(enc_event(e) == seq![4u8] + (le64(xv) + le64(yv)));
        lemma_join(b, p + 1, p + 9, p + 17);
        assert(b.subrange(p, p2) =~= seq![b[p]] + b.subrange(p + 1, p + 17));
        assert(seq![b[p]] + b.subrange(p + 1, p + 17) =~= enc_event(e));
    }
}

/// A parsed event list re-encodes to exactly the bytes it covered.
proof fn lemma_rd_events_canonical(b: Seq<u8>, p: int, n: nat)
    requires
        0 <= p <= b.len(),
        rd_events(b, p, n) is Some,
    ensures
        ({
            let (s, p2) = rd_events(b, p, n)->Some_0;
            &&& s.len() == n
            &&& p2 == p + enc_events(s).len()
            &&& p <= p2 <= b.len()
            &&& b.subrange(p, p2) == enc_events(s)
        }),
    decreases n,
{
    if n == 0 {
        assert(b.subrange(p, p) =~= Seq::<u8>::empty());
    } else {
        let (e, p1) = rd_event(b, p)->Some_0;
        lemma_rd_event_canonical(b, p);
        lemma_rd_events_canonical(b, p1, (n - 1) as nat);
        let (s1, p2) = rd_events(b, p1, (n - 1) as nat)->Some_0;
        let s = seq![e] + s1;
        assert(s.first() == e);
        assert(s.drop_first() =~= s1);
        assert(enc_events(s) == enc_event(e) + enc_events(s1));
        lemma_join(b, p, p1, p2);
    }
}

/// A parsed reseed override re-encodes to exactly the bytes it covered.
proof fn lemma_rd_opt_seed_canonical(b: Seq<u8>, p: int)
    requires
        rd_opt_seed(b, p) is Some,
    ensures
        ({
            let (o, p2) = rd_opt_seed(b, p)->Some_0;
            &&& 0 <= p
            &&& p2 == p + enc_opt_seed(o).len()
            &&& p2 <= b.len()
            &&& b.subrange(p, p2) == enc_opt_seed(o)
        }),
{
    broadcast use lemma_le64_len;

    let (o, p2) = rd_opt_seed(b, p)->Some_0;
    let tag = b[p];
    if tag == 0 {
        assert(b.subrange(p, p + 1) =~= seq![b[p]]);
    } else {
        let (v, q2) = rd_le64(b, p + 1)->Some_0;
        lemma_rd_le64_canonical(b, p + 1);
        assert(b.subrange(p, p2) =~= seq![b[p]] + b.subrange(p + 1, p + 9));
        assert(seq![b[p]] + b.subrange(p + 1, p + 9) =~= enc_opt_seed(o));
    }
}

/// A parsed cursor override re-encodes to exactly the bytes it covered.
proof fn lemma_rd_opt_mouse_canonical(b: Seq<u8>, p: int)
    requires
        rd_opt_mouse(b, p) is Some,
    ensures
        ({
            let (o, p2) = rd_opt_mouse(b, p)->Some_0;
            &&& 0 <= p
            &&& p2 == p + enc_opt_mouse(o).len()
            &&& p2 <= b.len()
            &&& b.subrange(p, p2) == enc_opt_mouse(o)
        }),
{
    broadcast use lemma_le64_len;

    let (o, p2) = rd_opt_mouse(b, p)->Some_0;
    let tag = b[p];
    if tag == 0 {
        assert(b.subrange(p, p + 1) =~= seq![b[p]]);
    } else {
        let (xv, q2) = rd_le64(b, p + 1)->Some_0;
        let (yv, q3) = rd_le64(b, q2)->Some_0;
        lemma_rd_le64_canonical(b, p + 1);
        lemma_rd_le64_canonical(b, q2);
        lemma_u32_cast_roundtrip(xv);
        lemma_u32_cast_roundtrip(yv);
        assert(enc_opt_mouse(o) == seq![1u8] + (le64(xv) + le64(yv)));
        lemma_join(b, p + 1, p + 9, p + 17);
        assert(b.subrange(p, p2) =~= seq![b[p]] + b.subrange(p + 1, p + 17));
        assert(seq![b[p]] + b.subrange(p + 1, p + 17) =~= enc_opt_mouse(o));
    }
}

/// A parsed frame re-encodes to exactly the bytes it covered.
proof fn lemma_rd_frame_canonical(b: Seq<u8>, p: int)
    requires
        rd_frame(b, p) is Some,
    ensures
        ({
            let (f, p2) = rd_frame(b, p)->Some_0;
            &&& 0 <= p
            &&& p2 == p + enc_frame(f).len()
            &&& p2 <= b.len()
            &&& b.subrange(p, p2) == enc_frame(f)
            &&& frame_enc_ok(f)
        }),
{
    broadcast use lemma_le64_len;

    let (f, p5) = rd_frame(b, p)->Some_0;
    let (sv, p1) = rd_le64(b, p)->Some_0;
    let (ns, p2) = rd_opt_seed(b, p1)->Some_0;
    let (nm, p3) = rd_opt_mouse(b, p2)->Some_0;
    let (cnt, p4) = rd_le64(b, p3)->Some_0;
    lemma_rd_le64_canonical(b, p);
    lemma_rd_opt_seed_canonical(b, p1);
    lemma_rd_opt_mouse_canonical(b, p2);
    lemma_rd_le64_canonical(b, p3);
    lemma_rd_events_canonical(b, p4, cnt as nat);
    assert((sv as u32) as u64 == sv);
    assert(f.events.len() as u64 == cnt);
    lemma_join(b, p4, p4 + enc_events(f.events).len(), p5);
    lemma_join(b, p3, p4, p5);
    lemma_join(b, p2, p3, p5);
    lemma_join(b, p1, p2, p5);
    lemma_join(b, p, p1, p5);
}

/// A parsed frame list re-encodes to exactly the bytes it covered.
proof fn lemma_rd_frames_canonical(b: Seq<u8>, p: int, n: nat)
    requires
        0 <= p <= b.len(),
        rd_frames(b, p, n) is Some,
    ensures
        ({
            let (s, p2) = rd_frames(b, p, n)->Some_0;
            &&& s.len() == n
            &&& p2 == p + enc_frames(s).len()
            &&& p <= p2 <= b.len()
            &&& b.subrange(p, p2) == enc_frames(s)
            &&& forall|i: int| 0 <= i < s.len() ==> frame_enc_ok(#[trigger] s[i])
        }),
    decreases n,
{
    if n == 0 {
        assert(b.subrange(p, p) =~= Seq::<u8>::empty());
    } else {
        let (f, p1) = rd_frame(b, p)->Some_0;
        lemma_rd_frame_canonical(b, p);
        lemma_rd_frames_canonical(b, p1, (n - 1) as nat);
        let (s1, p2) = rd_frames(b, p1, (n - 1) as nat)->Some_0;
        let s = seq![f] + s1;
        assert(s.first() == f);
        assert(s.drop_first() =~= s1);
        assert(enc_frames(s) == enc_frame(f) + enc_frames(s1));
        lemma_join(b, p, p1, p2);
        assert forall|i: int| 0 <= i < s.len() implies frame_enc_ok(#[trigger] s[i]) by {
            if i > 0 {
                assert(s[i] == s1[i - 1]);
            }
        }
    }
}

/// Loading a record and saving the result again reproduces the record byte
/// for byte: decoding succeeds only on exactly what the encoder writes.
#[verifier::rlimit(100)]
pub proof fn lemma_save_of_load(b: Seq<u8>)
    requires
        dec_replay(b) is Some,
    ensures
        replay_enc_ok(dec_replay(b)->0),
        enc_replay(dec_replay(b)->0) == b,
{
    broadcast use lemma_le64_len;

    let v = dec_replay(b)->0;
    let (seed, p1) = rd_le64(b, 0)->Some_0;
    let (time, p2) = rd_le64(b, p1)->Some_0;
    let (flag, p3) = rd_byte(b, p2)->Some_0;
    let (n1, p4) = rd_le64(b, p3)->Some_0;
    let (startup, p5) = rd_events(b, p4, n1 as nat)->Some_0;
    let (n2, p6) = rd_le64(b, p5)->Some_0;
    let (frames, p7) = rd_frames(b, p6, n2 as nat)->Some_0;
    lemma_rd_le64_canonical(b, 0);
    lemma_rd_le64_canonical(b, p1);
    lemma_rd_le64_canonical(b, p3);
    lemma_rd_events_canonical(b, p4, n1 as nat);
    lemma_rd_le64_canonical(b, p5);
    lemma_rd_frames_canonical(b, p6, n2 as nat);
    assert(v.startup_events.len() as u64 == n1);
    assert(v.frames.len() as u64 == n2);
    assert(b.subrange(p2, p3) =~= seq![flag]);
    assert((if v.startup_set {
        seq![1u8]
    } else {
        seq![0u8]
    }) == seq![flag]);
    lemma_join(b, p6, p6, p7);
    lemma_join(b, p5, p6, p7);
    lemma_join(b, p4, p5, p7);
    lemma_join(b, p3, p4, p7);
    lemma_join(b, p2, p3, p7);
    lemma_join(b, p1, p2, p7);
    lemma_join(b, 0, p1, p7);
    assert(b.subrange(0, p7) =~= b);
}

/// Appending one element encodes after the list encoded so far.
proof fn lemma_enc_events_push(s: Seq<Event>, e: Event)
    ensures
        enc_events(s.push(e)) == enc_events(s) + enc_event(e),
    decreases s.len(),
{
    reveal_with_fuel(enc_events, 3);
    if s.len() == 0 {
        assert(s.push(e).drop_first() =~= Seq::<Event>::empty());
        assert(s.push(e).first() == e);
        assert(enc_events(s.push(e)) =~= enc_events(s) + enc_event(e));
    } else {
        assert(s.push(e).first() == s.first());
        assert(s.push(e).drop_first() =~= s.drop_first().push(e));
        lemma_enc_events_push(s.drop_first(), e);
        assert(enc_events(s.push(e)) =~= enc_events(s) + enc_event(e));
    }
}

/// Appending one frame encodes after the list encoded so far.
proof fn lemma_enc_frames_push(s: Seq<FrameV>, f: FrameV)
    ensures
        enc_frames(s.push(f)) == enc_frames(s) + enc_frame(f),
    decreases s.len(),
{
    reveal_with_fuel(enc_frames, 3);
    if s.len() == 0 {
        assert(s.push(f).drop_first() =~= Seq::<FrameV>::empty());
        assert(s.push(f).first() == f);
        assert(enc_frames(s.push(f)) =~= enc_frames(s) + enc_frame(f));
    } else {
        assert(s.push(f).first() == s.first());
        assert(s.push(f).drop_first() =~= s.drop_first().push(f));
        lemma_enc_frames_push(s.drop_first(), f);
        assert(enc_frames(s.push(f)) =~= enc_frames(s) + enc_frame(f));
    }
}

/// Appends the little-endian bytes of `v`.
fn push_le64(out: &mut Vec<u8>, v: u64)
    ensures
        final(out)@ == old(out)@ + le64(v),
{
    proof {
        reveal(le64);
        assert((v & 0xff) <= 0xff && ((v >> 8) & 0xff) <= 0xff && ((v >> 16) & 0xff) <= 0xff && ((
        v >> 24) & 0xff) <= 0xff && ((v >> 32) & 0xff) <= 0xff && ((v >> 40) & 0xff) <= 0xff && ((
        v >> 48) & 0xff) <= 0xff && ((v >> 56) & 0xff) <= 0xff) by (bit_vector);
    }
    out.push((v & 0xff) as u8);
    out.push(((v >> 8) & 0xff) as u8);
    out.push(((v >> 16) & 0xff) as u8);
    out.push(((v >> 24) & 0xff) as u8);
    out.push(((v >> 32) & 0xff) as u8);
    out.push(((v >> 40) & 0xff) as u8);
    out.push(((v >> 48) & 0xff) as u8);
    out.push(((v >> 56) & 0xff) as u8);
    proof {
        reveal(le64);
        assert(out@ =~= old(out)@ + le64(v));
    }
}

/// Appends one event in its wire form.
fn push_event(out: &mut Vec<u8>, e: Event)
    ensures
        final(out)@ == old(out)@ + enc_event(e),
{
    match e {
        Event::KeyPress(k) => {
            out.push(0);
            out.push(k);
            proof {
                assert(out@ =~= old(out)@ + enc_event(e));
            }
        },
        Event::KeyRelease(k) => {
            out.push(1);
            out.push(k);
            proof {
                assert(out@ =~= old(out)@ + enc_event(e));
            }
        },
        Event::MousePress(k) => {
            out.push(2);
            out.push(k);
            proof {
                assert(out@ =~= old(out)@ + enc_event(e));
            }
        },
        Event::MouseRelease(k) => {
            out.push(3);
            out.push(k);
            proof {
                assert(out@ =~= old(out)@ + enc_event(e));
            }
        },
        Event::MouseMove(x, y) => {
            out.push(4);
            push_le64(out, (#[verifier::truncate] (x as u32)) as u64);
            push_le64(out, (#[verifier::truncate] (y as u32)) as u64);
            proof {
                assert(out@ =~= old(out)@ + enc_event(e));
            }
        },
    }
}

/// Appends a counted event block: the count, then the events in order.
fn push_events_block(out: &mut Vec<u8>, events: &Vec<Event>)
    ensures
        final(out)@ == old(out)@ + (le64(events@.len() as u64) + enc_events(events@)),
{
    push_le64(out, events.len() as u64);
    let ghost mid = out@;
    let n = events.len();
    for i in 0..n
        invariant
            n == events@.len(),
            out@ == mid + enc_events(events@.take(i as int)),
    {
        push_event(out, events[i]);
        proof {
            lemma_enc_events_push(events@.take(i as int), events@[i as int]);
            assert(events@.take(i + 1) =~= events@.take(i as int).push(events@[i as int]));
            assert(out@ =~= mid + enc_events(events@.take(i + 1)));
        }
    }
    proof {
        assert(events@.take(n as int) =~= events@);
        assert(out@ =~= old(out)@ + (le64(events@.len() as u64) + enc_events(events@)));
    }
}

/// Appends an optional reseed override.
fn push_opt_seed(out: &mut Vec<u8>, o: Option<u64>)
    ensures
        final(out)@ == old(out)@ + enc_opt_seed(o),
{
    match o {
        None => {
            out.push(0);
            proof {
                assert(out@ =~= old(out)@ + enc_opt_seed(o));
            }
        },
        Some(v) => {
            out.push(1);
            push_le64(out, v);
            proof {
                assert(out@ =~= old(out)@ + enc_opt_seed(o));
            }
        },
    }
}

/// Appends an optional cursor override.
fn push_opt_mouse(out: &mut Vec<u8>, o: Option<(i32, i32)>)
    ensures
        final(out)@ == old(out)@ + enc_opt_mouse(o),
{
    match o {
        None => {
            out.push(0);
            proof {
                assert(out@ =~= old(out)@ + enc_opt_mouse(o));
            }
        },
        Some(m) => {
            out.push(1);
            push_le64(out, (#[verifier::truncate] (m.0 as u32)) as u64);
            push_le64(out, (#[verifier::truncate] (m.1 as u32)) as u64);
            proof {
                assert(out@ =~= old(out)@ + enc_opt_mouse(o));
            }
        },
    }
}

/// Saves a replay log as its persisted byte record.
pub fn encode(replay: &Replay) -> (r: Vec<u8>)
    ensures
        r@ == enc_replay(replay@),
        replay_enc_ok(replay@),
{
    proof {
        replay.lemma_lens_bounded();
    }
    let mut out: Vec<u8> = Vec::new();
    push_le64(&mut out, replay.seed());
    push_le64(&mut out, replay.start_time());
    if replay.startup_recorded() {
        out.push(1);
    } else {
        out.push(0);
    }
    push_events_block(&mut out, replay.startup_events());
    let ghost mid0 = out@;
    push_le64(&mut out, replay.frame_count() as u64);
    let ghost mid = out@;
    let n = replay.frame_count();
    for i in 0..n
        invariant
            n == replay@.frames.len(),
            out@ == mid + enc_frames(replay@.frames.take(i as int)),
    {
        let frame = replay.get_frame(i);
        push_le64(&mut out, frame.speed as u64);
        push_opt_seed(&mut out, frame.new_seed);
        push_opt_mouse(&mut out, frame.new_mouse);
        push_events_block(&mut out, &frame.events);
        proof {
            lemma_enc_frames_push(replay@.frames.take(i as int), replay@.frames[i as int]);
            assert(replay@.frames.take(i + 1) =~= replay@.frames.take(i as int).push(
                replay@.frames[i as int],
            ));
            assert(out@ =~= mid + enc_frames(replay@.frames.take(i + 1)));
        }
    }
    proof {
        assert(replay@.frames.take(n as int) =~= replay@.frames);
        assert(out@ =~= enc_replay(replay@));
    }
    out
}

/// Reads one byte.
fn read_byte(b: &Vec<u8>, p: usize) -> (r: Option<(u8, usize)>)
    ensures
        match r {
            Some(pr) => rd_byte(b@, p as int) == Some((pr.0, pr.1 as int)),
            None => rd_byte(b@, p as int) is None,
        },
{
    if p < b.len() {
        Some((b[p], p + 1))
    } else {
        None
    }
}

/// Reads one little-endian 64-bit number.
fn read_le64(b: &Vec<u8>, p: usize) -> (r: Option<(u64, usize)>)
    ensures
        match r {
            Some(pr) => rd_le64(b@, p as int) == Some((pr.0, pr.1 as int)),
            None => rd_le64(b@, p as int) is None,
        },
{
    proof {
        reveal(rd_le64);
    }
    if p < b.len() && b.len() - p >= 8 {
        let v = (b[p] as u64) | (b[p + 1] as u64) << 8u64 | (b[p + 2] as u64) << 16u64 | (b[p + 3]
            as u64) << 24u64 | (b[p + 4] as u64) << 32u64 | (b[p + 5] as u64) << 40u64 | (b[p + 6]
            as u64) << 48u64 | (b[p + 7] as u64) << 56u64;
        Some((v, p + 8))
    } else {
        None
    }
}

/// Reads one event.
fn read_event(b: &Vec<u8>, p: usize) -> (r: Option<(Event, usize)>)
    ensures
        match r {
            Some(pr) => rd_event(b@, p as int) == Some((pr.0, pr.1 as int)),
            None => rd_event(b@, p as int) is None,
        },
{
    match read_byte(b, p) {
        None => None,
        Some((tag, p1)) => {
            if tag == 0 {
                match read_byte(b, p1) {
                    None => None,
                    Some((k, p2)) => Some((Event::KeyPress(k), p2)),
                }
            } else if tag == 1 {
                match read_byte(b, p1) {
                    None => None,
                    Some((k, p2)) => Some((Event::KeyRelease(k), p2)),
                }
            } else if tag == 2 {
                match read_byte(b, p1) {
                    None => None,
                    Some((k, p2)) => Some((Event::MousePress(k), p2)),
                }
            } else if tag == 3 {
                match read_byte(b, p1) {
                    None => None,
                    Some((k, p2)) => Some((Event::MouseRelease(k), p2)),
                }
            } else if tag == 4 {
                match read_le64(b, p1) {
                    None => None,
                    Some((xv, p2)) => match read_le64(b, p2) {
                        None => None,
                        Some((yv, p3)) => if xv <= 0xffffffff && yv <= 0xffffffff {
                            Some(
                                (
                                    Event::MouseMove(
                                        #[verifier::truncate] ((xv as u32) as i32),
                                        #[verifier::truncate] ((yv as u32) as i32),
                                    ),
                                    p3,
                                ),
                            )
                        } else {
                            None
                        },
                    },
                }
            } else {
                None
            }
        },
    }
}

/// Reads `n` events.
fn read_events(b: &Vec<u8>, p: usize, n: u64) -> (r: Option<(Vec<Event>, usize)>)
    ensures
        match r {
            Some(pr) => rd_events(b@, p as int, n as nat) == Some((pr.0@, pr.1 as int)),
            None => rd_events(b@, p as int, n as nat) is None,
        },
    decreases n,
{
    if n == 0 {
        let out: Vec<Event> = Vec::new();
        proof {
            assert(out@ =~= Seq::<Event>::empty());
        }
        Some((out, p))
    } else {
        match read_event(b, p) {
            None => None,
            Some((e, p1)) => match read_events(b, p1, n - 1) {
                None => None,
                Some((rest, p2)) => {
                    let mut rest = rest;
                    rest.insert(0, e);
                    proof {
                        assert(rest@ =~= seq![e] + rest@.subrange(1, rest@.len() as int));
                    }
                    Some((rest, p2))
                },
            },
        }
    }
}

/// Reads an optional reseed override.
fn read_opt_seed(b: &Vec<u8>, p: usize) -> (r: Option<(Option<u64>, usize)>)
    ensures
        match r {
            Some(pr) => rd_opt_seed(b@, p as int) == Some((pr.0, pr.1 as int)),
            None => rd_opt_seed(b@, p as int) is None,
        },
{
    match read_byte(b, p) {
        None => None,
        Some((tag, p1)) => {
            if tag == 0 {
                Some((None, p1))
            } else if tag == 1 {
                match read_le64(b, p1) {
                    None => None,
                    Some((v, p2)) => Some((Some(v), p2)),
                }
            } else {
                None
            }
        },
    }
}

/// Reads an optional cursor override.
fn read_opt_mouse(b: &Vec<u8>, p: usize) -> (r: Option<(Option<(i32, i32)>, usize)>)
    ensures
        match r {
            Some(pr) => rd_opt_mouse(b@, p as int) == Some((pr.0, pr.1 as int)),
            None => rd_opt_mouse(b@, p as int) is None,
        },
{
    match read_byte(b, p) {
        None => None,
        Some((tag, p1)) => {
            if tag == 0 {
                Some((None, p1))
            } else if tag == 1 {
                match read_le64(b, p1) {
                    None => None,
                    Some((xv, p2)) => match read_le64(b, p2) {
                        None => None,
                        Some((yv, p3)) => if xv <= 0xffffffff && yv <= 0xffffffff {
                            Some(
                                (
                                    Some(
                                        (
                                            #[verifier::truncate] ((xv as u32) as i32),
                                            #[verifier::truncate] ((yv as u32) as i32),
                                        ),
                                    ),
                                    p3,
                                ),
                            )
                        } else {
                            None
                        },
                    },
                }
            } else {
                None
            }
        },
    }
}

/// Reads one frame.
fn read_frame(b: &Vec<u8>, p: usize) -> (r: Option<(ReplayFrame, usize)>)
    ensures
        match r {
            Some(pr) => rd_frame(b@, p as int) == Some((pr.0@, pr.1 as int)),
            None => rd_frame(b@, p as int) is None,
        },
{
    match read_le64(b, p) {
        None => None,
        Some((sv, p1)) => {
            if sv <= 0xffffffff {
                match read_opt_seed(b, p1) {
                    None => None,
                    Some((ns, p2)) => match read_opt_mouse(b, p2) {
                        None => None,
                        Some((nm, p3)) => match read_le64(b, p3) {
                            None => None,
                            Some((cnt, p4)) => match read_events(b, p4, cnt) {
                                None => None,
                                Some((ev, p5)) => Some(
                                    (
                                        ReplayFrame {
                                            speed: sv as u32,
                                            events: ev,
                                            new_seed: ns,
                                            new_mouse: nm,
                                        },
                                        p5,
                                    ),
                                ),
                            },
                        },
                    },
                }
            } else {
                None
            }
        },
    }
}

/// Reads `n` frames.
fn read_frames(b: &Vec<u8>, p: usize, n: u64) -> (r: Option<(Vec<ReplayFrame>, usize)>)
    ensures
        match r {
            Some(pr) => rd_frames(b@, p as int, n as nat) == Some(
                (pr.0@.map_values(|f: ReplayFrame| f@), pr.1 as int),
            ),
            None => rd_frames(b@, p as int, n as nat) is None,
        },
    decreases n,
{
    if n == 0 {
        let out: Vec<ReplayFrame> = Vec::new();
        proof {
            assert(out@.map_values(|f: ReplayFrame| f@) =~= Seq::<FrameV>::empty());
        }
        Some((out, p))
    } else {
        match read_frame(b, p) {
            None => None,
            Some((f, p1)) => match read_frames(b, p1, n - 1) {
                None => None,
                Some((rest, p2)) => {
                    let ghost fv = f@;
                    let ghost restv = rest@.map_values(|fr: ReplayFrame| fr@);
                    let mut rest = rest;
                    rest.insert(0, f);
                    proof {
                        assert(rest@.map_values(|fr: ReplayFrame| fr@) =~= seq![fv] + restv);
                    }
                    Some((rest, p2))
                },
            },
        }
    }
}

/// Loads a replay log from its persisted byte record; absence unless the
/// bytes are exactly one canonical record.
pub fn decode(bytes: &Vec<u8>) -> (r: Option<Replay>)
    ensures
        match r {
            Some(rep) => dec_replay(bytes@) == Some(rep@),
            None => dec_replay(bytes@) is None,
        },
{
    match read_le64(bytes, 0) {
        None => None,
        Some((seed, p1)) => match read_le64(bytes, p1) {
            None => None,
            Some((time, p2)) => match read_byte(bytes, p2) {
                None => None,
                Some((flag, p3)) => {
                    if flag == 0 || flag == 1 {
                        match read_le64(bytes, p3) {
                            None => None,
                            Some((n1, p4)) => match read_events(bytes, p4, n1) {
                                None => None,
                                Some((startup, p5)) => match read_le64(bytes, p5) {
                                    None => None,
                                    Some((n2, p6)) => match read_frames(bytes, p6, n2) {
                                        None => None,
                                        Some((frames, p7)) => {
                                            if p7 == bytes.len() {
                                                Some(
                                                    Replay::assemble(
                                                        seed,
                                                        time,
                                                        startup,
                                                        flag == 1,
                                                        frames,
                                                    ),
                                                )
                                            } else {
                                                None
                                            }
                                        },
                                    },
                                },
                            },
                        }
                    } else {
                        None
                    }
                },
            },
        },
    }
}

} // verus!
