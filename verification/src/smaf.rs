//! The file container (`MMMD`) and its top-level chunks.

use vstd::prelude::*;
use vstd::slice::slice_subrange;
use crate::content_info::{ContentsInfoChunk, OptionalDataChunk};
use crate::error::{ParseFailure, SmafError};
use crate::framing::{
    frame_at, frames, frames_of, lemma_frames_are_framed, lemma_frames_cover, split_chunks,
    tag_has_prefix, tag_is, tag_starts, total_size, Chunk, Frame, UP_A, UP_C, UP_D, UP_I, UP_M, UP_N,
    UP_O, UP_P, UP_R, UP_T,
};
use crate::pcm_audio_track::PCMAudioTrack;
use crate::primitives::{be16, be32, read_be16, read_be32};
use crate::score_track::ScoreTrack;

verus! {

/// A top-level chunk of a file.
pub enum SmafChunk<'a> {
    /// `CNTI`
    ContentsInfo(ContentsInfoChunk<'a>),
    /// `OPDA`
    OptionalData(OptionalDataChunk<'a>),
    /// `MTR*`, with the track's number.
    ScoreTrack(u8, ScoreTrack<'a>),
    /// `ATR*`, with the track's number.
    PCMAudioTrack(u8, PCMAudioTrack<'a>),
}

impl<'a> SmafChunk<'a> {
    /// Whether a chunk is a well-formed top-level chunk.
    pub open spec fn valid(f: Frame) -> bool {
        ||| f.tag == (UP_C, UP_N, UP_T, UP_I) && f.payload.len() >= 5
        ||| f.tag == (UP_O, UP_P, UP_D, UP_A)
        ||| tag_starts(f.tag, UP_M, UP_T, UP_R) && ScoreTrack::valid(f.payload)
        ||| tag_starts(f.tag, UP_A, UP_T, UP_R) && PCMAudioTrack::valid(f.payload)
    }

    /// Whether this top-level chunk is what the chunk `f` decodes to.
    pub open spec fn decodes(self, f: Frame) -> bool {
        SmafChunk::valid(f) && match self {
            SmafChunk::ContentsInfo(info) => f.tag == (UP_C, UP_N, UP_T, UP_I) && info.decodes(
                f.payload,
            ),
            SmafChunk::OptionalData(data) => f.tag == (UP_O, UP_P, UP_D, UP_A) && data.raw@
                == f.payload,
            SmafChunk::ScoreTrack(id, track) => tag_starts(f.tag, UP_M, UP_T, UP_R) && id
                == f.tag.3 && track.decodes(f.payload),
            SmafChunk::PCMAudioTrack(id, track) => tag_starts(f.tag, UP_A, UP_T, UP_R) && id
                == f.tag.3 && track.decodes(f.payload),
        }
    }

    /// Decodes one top-level chunk.
    pub fn parse(chunk: &Chunk<'a>) -> (r: Option<SmafChunk<'a>>)
        ensures
            match r {
                Some(c) => c.decodes(chunk.frame()),
                None => !SmafChunk::valid(chunk.frame()),
            },
    {
        if tag_is(chunk.tag, UP_C, UP_N, UP_T, UP_I) {
            match ContentsInfoChunk::new(chunk.payload) {
                Some(info) => Some(SmafChunk::ContentsInfo(info)),
                None => None,
            }
        } else if tag_is(chunk.tag, UP_O, UP_P, UP_D, UP_A) {
            Some(SmafChunk::OptionalData(OptionalDataChunk { raw: chunk.payload }))
        } else if tag_has_prefix(chunk.tag, UP_M, UP_T, UP_R) {
            match ScoreTrack::parse(chunk.payload) {
                Some(track) => Some(SmafChunk::ScoreTrack(chunk.tag.3, track)),
                None => None,
            }
        } else if tag_has_prefix(chunk.tag, UP_A, UP_T, UP_R) {
            match PCMAudioTrack::parse(chunk.payload) {
                Some(track) => Some(SmafChunk::PCMAudioTrack(chunk.tag.3, track)),
                None => None,
            }
        } else {
            None
        }
    }
}

/// A decoded file.
pub struct Smaf<'a> {
    /// The four magic bytes, `MMMD`.
    pub magic: &'a [u8],
    /// The declared length: the bytes of all chunks and of the checksum.
    pub length: u32,
    pub chunks: Vec<SmafChunk<'a>>,
    /// The checksum as stored; it is not checked.
    pub crc: u16,
}

/// The bytes of a file between its eight header bytes and its two checksum
/// bytes.
pub open spec fn chunk_region(file: Seq<u8>) -> Seq<u8> {
    file.subrange(8, file.len() - 2)
}

/// The index of the first chunk from the `i`th on that is no well-formed
/// top-level chunk; the number of chunks if there is none.
pub open spec fn first_invalid(fs: Seq<Frame>, i: int) -> int
    decreases fs.len() - i,
{
    if i < 0 || i >= fs.len() {
        fs.len() as int
    } else if !SmafChunk::valid(fs[i]) {
        i
    } else {
        first_invalid(fs, i + 1)
    }
}

/// From the `i`th chunk on the first that is not well-formed is where
/// `first_invalid` says, and all are well-formed if it says the end.
pub proof fn lemma_first_invalid(fs: Seq<Frame>, i: int)
    requires
        0 <= i <= fs.len(),
    ensures
        i <= first_invalid(fs, i) <= fs.len(),
        forall|k: int| i <= k < first_invalid(fs, i) ==> SmafChunk::valid(#[trigger] fs[k]),
        first_invalid(fs, i) < fs.len() ==> !SmafChunk::valid(fs[first_invalid(fs, i)]),
    decreases fs.len() - i,
{
    if i < fs.len() && SmafChunk::valid(fs[i]) {
        lemma_first_invalid(fs, i + 1);
    }
}

impl<'a> Smaf<'a> {
    /// Whether the bytes start with the magic, declare the length that they
    /// have behind the header, and leave room for the checksum.
    pub open spec fn envelope_valid(file: Seq<u8>) -> bool {
        &&& file.len() >= 10
        &&& file[0] == UP_M
        &&& file[1] == UP_M
        &&& file[2] == UP_M
        &&& file[3] == UP_D
        &&& 8 + be32(file, 4) == file.len()
    }

    /// Whether `file` is a SMAF file: a valid envelope around well-formed
    /// top-level chunks.
    pub open spec fn valid(file: Seq<u8>) -> bool {
        &&& Smaf::envelope_valid(file)
        &&& frames(chunk_region(file), 0) is Some
        &&& forall|i: int|
            0 <= i < frames(chunk_region(file), 0).unwrap().len() ==> SmafChunk::valid(
                #[trigger] frames(chunk_region(file), 0).unwrap()[i],
            )
    }

    /// Whether this tree is what `file` decodes to.
    pub open spec fn decodes(self, file: Seq<u8>) -> bool {
        &&& Smaf::valid(file)
        &&& self.magic@ == file.subrange(0, 4)
        &&& self.length == be32(file, 4)
        &&& self.crc == be16(file, file.len() - 2)
        &&& frames(chunk_region(file), 0) is Some
        &&& self.chunks@.len() == frames(chunk_region(file), 0).unwrap().len()
        &&& forall|i: int|
            0 <= i < self.chunks@.len() ==> (#[trigger] self.chunks@[i]).decodes(
                frames(chunk_region(file), 0).unwrap()[i],
            )
    }

    /// Where decoding `file` stops and what is expected there; `None` for a
    /// valid file. The envelope is looked at first, then the framing of the
    /// chunks, then the chunks in their order.
    pub open spec fn failure(file: Seq<u8>) -> Option<ParseFailure> {
        if !Smaf::envelope_valid(file) {
            Some(ParseFailure::Envelope)
        } else if frames(chunk_region(file), 0) is None {
            Some(ParseFailure::Framing)
        } else if first_invalid(frames(chunk_region(file), 0).unwrap(), 0) < frames(
            chunk_region(file),
            0,
        ).unwrap().len() {
            Some(
                ParseFailure::Chunk(
                    first_invalid(frames(chunk_region(file), 0).unwrap(), 0) as usize,
                ),
            )
        } else {
            None
        }
    }

    /// Decodes a file. It fails exactly on bytes that are not a valid file,
    /// and says where.
    pub fn parse(file: &'a [u8]) -> (r: Result<Smaf<'a>, SmafError>)
        ensures
            match r {
                Ok(smaf) => smaf.decodes(file@),
                Err(e) => !Smaf::valid(file@) && Smaf::failure(file@) is Some && e
                    == SmafError::ParseError(Smaf::failure(file@).unwrap()),
            },
    {
        let n = file.len();
        if n < 10 {
            return Err(SmafError::ParseError(ParseFailure::Envelope));
        }
        if file[0] != UP_M || file[1] != UP_M || file[2] != UP_M || file[3] != UP_D {
            return Err(SmafError::ParseError(ParseFailure::Envelope));
        }
        let length = read_be32(file, 4);
        if length as usize != n - 8 {
            return Err(SmafError::ParseError(ParseFailure::Envelope));
        }
        let crc = read_be16(file, n - 2);
        let region = slice_subrange(file, 8, n - 2);
        let chunks = match split_chunks(region, 0) {
            Some(chunks) => chunks,
            None => {
                return Err(SmafError::ParseError(ParseFailure::Framing));
            },
        };
        let mut out: Vec<SmafChunk<'a>> = Vec::new();
        let mut i: usize = 0;
        while i < chunks.len()
            invariant
                i <= chunks@.len(),
                Smaf::envelope_valid(file@),
                region@ == chunk_region(file@),
                frames(region@, 0) == Some(frames_of(chunks@)),
                out@.len() == i,
                forall|j: int| 0 <= j < i ==> (#[trigger] out@[j]).decodes(frames_of(chunks@)[j]),
                first_invalid(frames_of(chunks@), 0) == first_invalid(frames_of(chunks@), i as int),
            decreases chunks@.len() - i,
        {
            match SmafChunk::parse(&chunks[i]) {
                Some(c) => {
                    out.push(c);
                },
                None => {
                    assert(!SmafChunk::valid(frames(chunk_region(file@), 0).unwrap()[i as int]));
                    return Err(SmafError::ParseError(ParseFailure::Chunk(i)));
                },
            }
            i = i + 1;
        }
        assert forall|k: int|
            0 <= k < frames(chunk_region(file@), 0).unwrap().len() implies SmafChunk::valid(
            #[trigger] frames(chunk_region(file@), 0).unwrap()[k],
        ) by {
            assert(out@[k].decodes(frames_of(chunks@)[k]));
        }
        Ok(Smaf { magic: slice_subrange(file, 0, 4), length, chunks: out, crc })
    }
}

/// A file is valid exactly if decoding it stops nowhere.
pub proof fn lemma_valid_iff_no_failure(file: Seq<u8>)
    ensures
        Smaf::valid(file) <==> Smaf::failure(file) is None,
{
    if Smaf::envelope_valid(file) && frames(chunk_region(file), 0) is Some {
        lemma_first_invalid(frames(chunk_region(file), 0).unwrap(), 0);
    }
}

/// Whether `payload` is the payload of a chunk whose header starts at `at` in
/// `file`: exactly as many bytes as the header declares, right behind it.
pub open spec fn is_payload_at(file: Seq<u8>, at: int, payload: Seq<u8>) -> bool {
    &&& 0 <= at
    &&& at + 8 + be32(file, at + 4) <= file.len()
    &&& payload == file.subrange(at + 8, at + 8 + be32(file, at + 4))
}

/// The payload of every top-level chunk of a valid file is a part of the
/// file: the bytes that the chunk's header declares, between the file's header
/// and its checksum.
pub proof fn lemma_chunk_payload_is_in_file(file: Seq<u8>, i: int)
    requires
        Smaf::valid(file),
        0 <= i < frames(chunk_region(file), 0).unwrap().len(),
    ensures
        exists|at: int|
            8 <= at && at + 8 + frames(chunk_region(file), 0).unwrap()[i].payload.len()
                <= file.len() - 2 && #[trigger] is_payload_at(
                file,
                at,
                frames(chunk_region(file), 0).unwrap()[i].payload,
            ),
{
    let region = chunk_region(file);
    let f = frames(region, 0).unwrap()[i];
    lemma_frames_are_framed(region, 0, i);
    let inner = choose|inner: int| 0 <= inner && #[trigger] frame_at(region, inner) == Some(f);
    assert(be32(region, inner + 4) == be32(file, inner + 12));
    assert(f.payload =~= file.subrange(inner + 16, inner + 16 + be32(file, inner + 12)));
    assert(is_payload_at(file, inner + 8, f.payload));
}

/// In a valid file the eight header bytes, the chunks with their headers and
/// declared payload lengths, and the two checksum bytes add up to the length
/// of the file, and the declared length counts what follows the header.
pub proof fn lemma_file_is_covered(file: Seq<u8>)
    requires
        Smaf::valid(file),
    ensures
        8 + total_size(frames(chunk_region(file), 0).unwrap()) + 2 == file.len(),
        be32(file, 4) == total_size(frames(chunk_region(file), 0).unwrap()) + 2,
{
    lemma_frames_cover(chunk_region(file), 0);
}

} // verus!
