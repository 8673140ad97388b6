//! RTCP feedback packets: recognizing and synthesizing keyframe
//! requests.
//!
//! The core looks inside incoming RTCP only far enough to spot payload
//! specific feedback of two kinds — picture loss indications and full
//! intra requests — and synthesizes the same two kinds when it asks a
//! publisher for a keyframe. A compound packet is walked report by
//! report using each header's length field.

use vstd::prelude::*;

verus! {

/// The RTCP payload type for payload-specific feedback.
pub const PSFB: u8 = 206;

/// The feedback format number of a picture loss indication.
pub const PLI_FMT: u8 = 1;

/// The feedback format number of a full intra request.
pub const FIR_FMT: u8 = 4;

/// The bytes of a picture loss indication: version 2, format 1,
/// payload type 206, length 2 words, zero sender and media sources.
pub open spec fn spec_pli() -> Seq<u8> {
    seq![0x81u8, 206u8, 0u8, 2u8, 0u8, 0u8, 0u8, 0u8, 0u8, 0u8, 0u8, 0u8]
}

/// The bytes of a full intra request carrying a sequence number:
/// version 2, format 4, payload type 206, length 4 words, zero
/// sources, and the low byte of the sequence counter in the request.
pub open spec fn spec_fir(seq: u64) -> Seq<u8> {
    seq![
        0x84u8,
        206u8,
        0u8,
        4u8,
        0u8,
        0u8,
        0u8,
        0u8,
        0u8,
        0u8,
        0u8,
        0u8,
        0u8,
        0u8,
        0u8,
        0u8,
        (seq % 256) as u8,
        0u8,
        0u8,
        0u8,
    ]
}

/// Synthesize a picture loss indication.
pub fn gen_pli() -> (p: Vec<u8>)
    ensures
        p@ == spec_pli(),
{
    let mut p: Vec<u8> = Vec::new();
    p.push(0x81);
    p.push(206);
    p.push(0);
    p.push(2);
    let mut i: usize = 0;
    while i < 8
        invariant
            0 <= i <= 8,
            p@.len() == 4 + i,
            p@[0] == 0x81u8 && p@[1] == 206u8 && p@[2] == 0u8 && p@[3] == 2u8,
            forall|k: int| 4 <= k < p@.len() ==> p@[k] == 0u8,
        decreases 8 - i,
    {
        p.push(0);
        i += 1;
    }
    proof {
        assert(p@ =~= spec_pli());
    }
    p
}

/// Synthesize a full intra request with the given sequence counter.
pub fn gen_fir(seq: u64) -> (p: Vec<u8>)
    ensures
        p@ == spec_fir(seq),
{
    let mut p: Vec<u8> = Vec::new();
    p.push(0x84);
    p.push(206);
    p.push(0);
    p.push(4);
    let mut i: usize = 0;
    while i < 12
        invariant
            0 <= i <= 12,
            p@.len() == 4 + i,
            p@[0] == 0x84u8 && p@[1] == 206u8 && p@[2] == 0u8 && p@[3] == 4u8,
            forall|k: int| 4 <= k < p@.len() ==> p@[k] == 0u8,
        decreases 12 - i,
    {
        p.push(0);
        i += 1;
    }
    p.push((seq % 256) as u8);
    p.push(0);
    p.push(0);
    p.push(0);
    proof {
        assert(p@ =~= spec_fir(seq));
    }
    p
}

/// Whether a compound RTCP packet holds a payload-specific feedback
/// report of the given format. Reports are walked by their length
/// field; a truncated or version-less header ends the walk.
pub open spec fn spec_has_fb(p: Seq<u8>, fmt: u8) -> bool
    decreases p.len(),
{
    if p.len() < 4 {
        false
    } else if p[0] / 64 != 2 {
        false
    } else {
        let this = p[1] == PSFB && p[0] % 32 == fmt;
        let advance = (p[2] * 256 + p[3] + 1) * 4;
        if this {
            true
        } else if advance >= p.len() {
            false
        } else {
            spec_has_fb(p.skip(advance), fmt)
        }
    }
}

/// Whether the packet holds a picture loss indication.
pub open spec fn spec_has_pli(p: Seq<u8>) -> bool {
    spec_has_fb(p, PLI_FMT)
}

/// Whether the packet holds a full intra request.
pub open spec fn spec_has_fir(p: Seq<u8>) -> bool {
    spec_has_fb(p, FIR_FMT)
}

/// Look for a payload-specific feedback report of the given format.
fn has_fb(packet: &[u8], fmt: u8) -> (r: bool)
    ensures
        r == spec_has_fb(packet@, fmt),
{
    let len: usize = packet.len();
    let mut pos: usize = 0;
    proof {
        assert(packet@.skip(0) =~= packet@);
    }
    while pos < len
        invariant
            len == packet@.len(),
            0 <= pos <= len,
            spec_has_fb(packet@, fmt) == spec_has_fb(packet@.skip(pos as int), fmt),
        decreases len - pos,
    {
        let ghost rest = packet@.skip(pos as int);
        if len - pos < 4 {
            return false;
        }
        let b0 = packet[pos];
        proof {
            assert(rest[0] == packet@[pos as int]);
            assert(rest[1] == packet@[pos + 1]);
            assert(rest[2] == packet@[pos + 2]);
            assert(rest[3] == packet@[pos + 3]);
        }
        if b0 / 64 != 2 {
            return false;
        }
        if packet[pos + 1] == PSFB && b0 % 32 == fmt {
            return true;
        }
        let words: usize = (packet[pos + 2] as usize) * 256 + (packet[pos + 3] as usize);
        let advance: usize = (words + 1) * 4;
        proof {
            assert(advance == (rest[2] * 256 + rest[3] + 1) * 4);
        }
        if advance >= len - pos {
            return false;
        }
        proof {
            assert(packet@.skip(pos as int).skip(advance as int) =~= packet@.skip(
                pos + advance,
            ));
        }
        pos = pos + advance;
    }
    false
}

/// Whether the packet holds a picture loss indication.
pub fn has_pli(packet: &[u8]) -> (r: bool)
    ensures
        r == spec_has_pli(packet@),
{
    has_fb(packet, PLI_FMT)
}

/// Whether the packet holds a full intra request.
pub fn has_fir(packet: &[u8]) -> (r: bool)
    ensures
        r == spec_has_fir(packet@),
{
    has_fb(packet, FIR_FMT)
}

} // verus!
