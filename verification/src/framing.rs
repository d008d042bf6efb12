//! The framing that every nesting level uses: a four-byte tag, a 32-bit
//! big-endian length, and that many bytes of payload.

use vstd::prelude::*;
use vstd::slice::slice_subrange;
use crate::primitives::{be32, read_be32};

verus! {

/// ASCII codes of the letters that chunk tags are made of.
pub const UP_A: u8 = 0x41;

pub const UP_C: u8 = 0x43;

pub const UP_D: u8 = 0x44;

pub const UP_I: u8 = 0x49;

pub const UP_M: u8 = 0x4d;

pub const UP_N: u8 = 0x4e;

pub const UP_O: u8 = 0x4f;

pub const UP_P: u8 = 0x50;

pub const UP_R: u8 = 0x52;

pub const UP_T: u8 = 0x54;

pub const LO_A: u8 = 0x61;

pub const LO_P: u8 = 0x70;

pub const LO_Q: u8 = 0x71;

pub const LO_S: u8 = 0x73;

pub const LO_T: u8 = 0x74;

pub const LO_U: u8 = 0x75;

pub const LO_W: u8 = 0x77;

/// A framed chunk as a mathematical value: its tag and its payload.
pub struct Frame {
    pub tag: (u8, u8, u8, u8),
    pub payload: Seq<u8>,
}

impl Frame {
    /// Bytes that the chunk takes in its container: header and payload.
    pub open spec fn size(self) -> int {
        8 + self.payload.len() as int
    }
}

/// A framed chunk: its tag and the part of the input that is its payload.
pub struct Chunk<'a> {
    pub tag: (u8, u8, u8, u8),
    pub payload: &'a [u8],
}

impl<'a> Chunk<'a> {
    /// The chunk as a mathematical value.
    pub open spec fn frame(self) -> Frame {
        Frame { tag: self.tag, payload: self.payload@ }
    }
}

/// The chunk whose header starts at `pos`: present if the eight header bytes
/// and the declared number of payload bytes all lie inside `s`. Its payload is
/// exactly the declared number of bytes behind the header.
pub open spec fn frame_at(s: Seq<u8>, pos: int) -> Option<Frame> {
    if 0 <= pos && pos + 8 <= s.len() && pos + 8 + be32(s, pos + 4) <= s.len() {
        Some(
            Frame {
                tag: (s[pos], s[pos + 1], s[pos + 2], s[pos + 3]),
                payload: s.subrange(pos + 8, pos + 8 + be32(s, pos + 4)),
            },
        )
    } else {
        None
    }
}

/// The chunks that tile `s` from `pos` to its end, in order; `None` if the
/// bytes from `pos` on are not a whole number of well-framed chunks.
pub open spec fn frames(s: Seq<u8>, pos: int) -> Option<Seq<Frame>>
    decreases s.len() - pos,
{
    if pos >= s.len() {
        Some(Seq::empty())
    } else {
        match frame_at(s, pos) {
            None => None,
            Some(f) => match frames(s, pos + f.size()) {
                None => None,
                Some(rest) => Some(seq![f] + rest),
            },
        }
    }
}

/// Sum of the sizes of a list of chunks, headers included.
pub open spec fn total_size(fs: Seq<Frame>) -> int
    decreases fs.len(),
{
    if fs.len() == 0 {
        0
    } else {
        fs[0].size() + total_size(fs.drop_first())
    }
}

/// Chunks that tile a region take, headers and declared payload lengths
/// together, exactly the bytes of the region.
pub proof fn lemma_frames_cover(s: Seq<u8>, pos: int)
    requires
        0 <= pos <= s.len(),
        frames(s, pos) is Some,
    ensures
        pos + total_size(frames(s, pos).unwrap()) == s.len(),
    decreases s.len() - pos,
{
    if pos < s.len() {
        let f = frame_at(s, pos).unwrap();
        lemma_frames_cover(s, pos + f.size());
        let rest = frames(s, pos + f.size()).unwrap();
        assert((seq![f] + rest).drop_first() =~= rest);
    }
}

/// Reads the chunk whose header starts at `pos`: the chunk and the position
/// behind its payload.
pub fn next_chunk<'a>(data: &'a [u8], pos: usize) -> (r: Option<(Chunk<'a>, usize)>)
    ensures
        match r {
            Some((c, next)) => frame_at(data@, pos as int) == Some(c.frame()) && next == pos
                + c.frame().size() && next <= data@.len(),
            None => frame_at(data@, pos as int) is None,
        },
{
    let n = data.len();
    if n < 8 || pos > n - 8 {
        return None;
    }
    let len = read_be32(data, pos + 4) as usize;
    if len > n - 8 - pos {
        return None;
    }
    let start = pos + 8;
    let chunk = Chunk {
        tag: (data[pos], data[pos + 1], data[pos + 2], data[pos + 3]),
        payload: slice_subrange(data, start, start + len),
    };
    Some((chunk, start + len))
}

/// The frames of a list of chunks.
pub open spec fn frames_of(chunks: Seq<Chunk>) -> Seq<Frame> {
    chunks.map_values(|c: Chunk| c.frame())
}

/// Splits the bytes of `data` from `pos` on into the chunks that tile them.
pub fn split_chunks<'a>(data: &'a [u8], pos: usize) -> (r: Option<Vec<Chunk<'a>>>)
    requires
        pos <= data@.len(),
    ensures
        match r {
            Some(chunks) => frames(data@, pos as int) == Some(frames_of(chunks@)),
            None => frames(data@, pos as int) is None,
        },
{
    let mut out: Vec<Chunk<'a>> = Vec::new();
    let mut at: usize = pos;
    while at < data.len()
        invariant
            pos <= at <= data@.len(),
            frames(data@, pos as int) == match frames(data@, at as int) {
                None => None,
                Some(rest) => Some(frames_of(out@) + rest),
            },
        decreases data@.len() - at,
    {
        match next_chunk(data, at) {
            None => {
                return None;
            },
            Some((chunk, next)) => {
                proof {
                    let f = chunk.frame();
                    let old_fs = frames_of(out@);
                    assert(frames_of(out@.push(chunk)) =~= old_fs.push(f));
                    match frames(data@, next as int) {
                        None => {},
                        Some(rest) => {
                            assert(old_fs.push(f) + rest =~= old_fs + (seq![f] + rest));
                        },
                    }
                }
                out.push(chunk);
                at = next;
            },
        }
    }
    proof {
        assert(frames_of(out@) + Seq::<Frame>::empty() =~= frames_of(out@));
    }
    Some(out)
}

/// Whether a tag is the four given bytes.
pub fn tag_is(tag: (u8, u8, u8, u8), a: u8, b: u8, c: u8, d: u8) -> (r: bool)
    ensures
        r == (tag == (a, b, c, d)),
{
    tag.0 == a && tag.1 == b && tag.2 == c && tag.3 == d
}

/// Whether a tag starts with the three given bytes; its fourth byte then
/// numbers the chunk.
pub open spec fn tag_starts(tag: (u8, u8, u8, u8), a: u8, b: u8, c: u8) -> bool {
    tag.0 == a && tag.1 == b && tag.2 == c
}

/// Whether a tag starts with the three given bytes.
pub fn tag_has_prefix(tag: (u8, u8, u8, u8), a: u8, b: u8, c: u8) -> (r: bool)
    ensures
        r == tag_starts(tag, a, b, c),
{
    tag.0 == a && tag.1 == b && tag.2 == c
}

/// The payload of a chunk is exactly as many bytes as its header declares,
/// taken from right behind the header.
pub proof fn lemma_frame_payload(s: Seq<u8>, pos: int)
    requires
        frame_at(s, pos) is Some,
    ensures
        frame_at(s, pos).unwrap().payload.len() == be32(s, pos + 4),
        frame_at(s, pos).unwrap().payload == s.subrange(pos + 8, pos + 8 + be32(s, pos + 4)),
        pos + 8 + be32(s, pos + 4) <= s.len(),
{
}

/// Every chunk of a tiling is the chunk framed at some position of the input.
pub proof fn lemma_frames_are_framed(s: Seq<u8>, pos: int, i: int)
    requires
        0 <= pos,
        frames(s, pos) is Some,
        0 <= i < frames(s, pos).unwrap().len(),
    ensures
        exists|at: int| pos <= at && #[trigger] frame_at(s, at) == Some(frames(s, pos).unwrap()[i]),
    decreases s.len() - pos,
{
    let f = frame_at(s, pos).unwrap();
    if i == 0 {
        assert(frame_at(s, pos) == Some(frames(s, pos).unwrap()[0]));
    } else {
        let next = pos + f.size();
        lemma_frames_are_framed(s, next, i - 1);
        let at = choose|at: int| next <= at && #[trigger] frame_at(s, at) == Some(
            frames(s, next).unwrap()[i - 1],
        );
        assert(frame_at(s, at) == Some(frames(s, pos).unwrap()[i]));
    }
}

} // verus!
