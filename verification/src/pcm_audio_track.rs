//! PCM audio tracks (`ATR*`): header, sequence events and wave chunks.

use vstd::prelude::*;
use vstd::slice::{slice_subrange, slice_to_vec};
use crate::constants::{BaseBit, Channel, PcmWaveFormat};
use crate::framing::{
    frames, frames_of, lemma_frames_cover, split_chunks, tag_has_prefix, tag_is, tag_starts,
    total_size, Chunk, Frame, LO_A, LO_P, LO_Q, LO_S, LO_T, LO_U, LO_W, UP_A, UP_I,
};
use crate::primitives::{
    be16, lemma_prepend_push, lemma_varint_advances, parse_timebase, prepend, read_be16,
    read_varint, timebase_of, varint_at,
};

verus! {

/// One event of a PCM audio track's sequence.
#[derive(Debug, Clone, PartialEq, Eq)]
#[allow(inconsistent_fields)]
pub enum PCMAudioSequenceEvent {
    WaveMessage { channel: u8, wave_number: u8, gate_time: u32 },
    PitchBend { channel: u8, value: u8 },
    Volume { channel: u8, value: u8 },
    Pan { channel: u8, value: u8 },
    Expression { channel: u8, value: u8 },
    Exclusive(Vec<u8>),
    Nop,
}

/// A PCM audio event as a mathematical value.
#[allow(inconsistent_fields)]
pub enum PcmEvent {
    WaveMessage { channel: u8, wave_number: u8, gate_time: u32 },
    PitchBend { channel: u8, value: u8 },
    Volume { channel: u8, value: u8 },
    Pan { channel: u8, value: u8 },
    Expression { channel: u8, value: u8 },
    Exclusive(Seq<u8>),
    Nop,
}

impl View for PCMAudioSequenceEvent {
    type V = PcmEvent;

    open spec fn view(&self) -> PcmEvent {
        match *self {
            PCMAudioSequenceEvent::WaveMessage { channel, wave_number, gate_time } => {
                PcmEvent::WaveMessage { channel, wave_number, gate_time }
            },
            PCMAudioSequenceEvent::PitchBend { channel, value } => {
                PcmEvent::PitchBend { channel, value }
            },
            PCMAudioSequenceEvent::Volume { channel, value } => PcmEvent::Volume { channel, value },
            PCMAudioSequenceEvent::Pan { channel, value } => PcmEvent::Pan { channel, value },
            PCMAudioSequenceEvent::Expression { channel, value } => {
                PcmEvent::Expression { channel, value }
            },
            PCMAudioSequenceEvent::Exclusive(data) => PcmEvent::Exclusive(data@),
            PCMAudioSequenceEvent::Nop => PcmEvent::Nop,
        }
    }
}

/// An event together with the ticks that pass between the event before it and
/// itself.
#[derive(Debug, Clone, PartialEq, Eq)]
pub struct PCMAudioSequenceData {
    pub duration: u32,
    pub event: PCMAudioSequenceEvent,
}

impl View for PCMAudioSequenceData {
    type V = (u32, PcmEvent);

    open spec fn view(&self) -> (u32, PcmEvent) {
        (self.duration, self.event@)
    }
}

/// The mathematical values of a list of timed events.
pub open spec fn pcm_steps_of(events: Seq<PCMAudioSequenceData>) -> Seq<(u32, PcmEvent)> {
    events.map_values(|d: PCMAudioSequenceData| d@)
}

/// The control event that the code `b` behind a zero byte selects, with its
/// operand, if it takes one, at `p`; and the position behind the event. The
/// channel is the code's top two bits, left in place. A pitch bend with operand
/// has `1101` in bits 5 to 2; any other code with bits 5 and 4 set is a short
/// pitch bend of eight times its low four bits; with bits 5 and 4 clear it is a
/// short expression of 31 times one less than its low four bits, which must be
/// 1 to 9.
pub open spec fn pcm_control(s: Seq<u8>, b: u8, p: int) -> Option<(PcmEvent, int)> {
    let channel = b & 0xc0;
    if b & 0x3c == 0x34 {
        if p < s.len() {
            Some((PcmEvent::PitchBend { channel, value: s[p] }, p + 1))
        } else {
            None
        }
    } else if b & 0x30 == 0x30 {
        Some((PcmEvent::PitchBend { channel, value: ((b & 0x0f) * 8) as u8 }, p))
    } else if b & 0x30 == 0x00 && 1 <= b & 0x0f <= 9 {
        Some((PcmEvent::Expression { channel, value: (((b & 0x0f) - 1) * 31) as u8 }, p))
    } else {
        None
    }
}

/// The event that the byte `first` starts, with what follows it from `p` on,
/// and the position behind the event.
pub open spec fn pcm_body(s: Seq<u8>, first: u8, p: int) -> Option<(PcmEvent, int)> {
    if first == 0x00 {
        if p < s.len() {
            pcm_control(s, s[p], p + 1)
        } else {
            None
        }
    } else if first == 0xff {
        if p < s.len() && s[p] == 0xf0 && p + 1 < s.len() && p + 2 + s[p + 1] <= s.len() {
            Some((PcmEvent::Exclusive(s.subrange(p + 2, p + 2 + s[p + 1])), p + 2 + s[p + 1]))
        } else if p < s.len() && s[p] == 0x00 {
            Some((PcmEvent::Nop, p + 1))
        } else {
            None
        }
    } else {
        match varint_at(s, p) {
            None => None,
            Some((gate_time, next)) => Some(
                (
                    PcmEvent::WaveMessage {
                        channel: first >> 6,
                        wave_number: first & 0x3f,
                        gate_time,
                    },
                    next,
                ),
            ),
        }
    }
}

/// The timed event that starts at `pos`, and the position behind it.
pub open spec fn pcm_event_at(s: Seq<u8>, pos: int) -> Option<((u32, PcmEvent), int)> {
    match varint_at(s, pos) {
        None => None,
        Some((duration, p)) => if p < s.len() {
            match pcm_body(s, s[p], p + 1) {
                None => None,
                Some((event, next)) => Some(((duration, event), next)),
            }
        } else {
            None
        },
    }
}

/// Whether exactly four bytes are left at `pos`, all zero: the end mark.
pub open spec fn pcm_end_mark(s: Seq<u8>, pos: int) -> bool {
    0 <= pos && pos + 4 == s.len() && s[pos] == 0 && s[pos + 1] == 0 && s[pos + 2] == 0 && s[pos
        + 3] == 0
}

/// An event takes at least one byte and ends inside the input.
pub proof fn lemma_pcm_event_advances(s: Seq<u8>, pos: int)
    requires
        pos >= 0,
        pcm_event_at(s, pos) is Some,
    ensures
        pos < pcm_event_at(s, pos).unwrap().1 <= s.len(),
{
    lemma_varint_advances(s, pos);
    let p = varint_at(s, pos).unwrap().1;
    let first = s[p];
    if first != 0x00 && first != 0xff {
        lemma_varint_advances(s, p + 1);
    }
}

/// The timed events from `pos` up to the end mark, four zero bytes that are
/// the last of the input and count as a last event that does nothing, after no
/// ticks. `None` if a byte is missing, a code is not defined, or the input does
/// not end with the mark.
pub open spec fn pcm_events(s: Seq<u8>, pos: int) -> Option<(Seq<(u32, PcmEvent)>, int)>
    decreases s.len() - pos,
    via pcm_events_decreases
{
    if pos < 0 {
        None
    } else if pcm_end_mark(s, pos) {
        Some((seq![(0u32, PcmEvent::Nop)], pos + 4))
    } else {
        match pcm_event_at(s, pos) {
            None => None,
            Some((step, next)) => prepend(seq![step], pcm_events(s, next)),
        }
    }
}

#[via_fn]
proof fn pcm_events_decreases(s: Seq<u8>, pos: int) {
    if pos >= 0 && pcm_event_at(s, pos) is Some {
        lemma_pcm_event_advances(s, pos);
    }
}

/// The low four bits of a byte are at most 15.
proof fn lemma_low_nibble(b: u8)
    by (bit_vector)
    ensures
        b & 0x0f <= 15,
{
}

/// Reads the control event that `b` selects.
fn read_pcm_control(data: &[u8], b: u8, p: usize) -> (r: Option<(PCMAudioSequenceEvent, usize)>)
    requires
        p <= data@.len(),
    ensures
        match r {
            Some((e, next)) => pcm_control(data@, b, p as int) == Some((e@, next as int)) && p
                <= next <= data@.len(),
            None => pcm_control(data@, b, p as int) is None,
        },
{
    let channel: u8 = b & 0xc0;
    let low: u8 = b & 0x0f;
    proof {
        lemma_low_nibble(b);
    }
    if b & 0x3c == 0x34 {
        if p >= data.len() {
            return None;
        }
        Some((PCMAudioSequenceEvent::PitchBend { channel, value: data[p] }, p + 1))
    } else if b & 0x30 == 0x30 {
        Some((PCMAudioSequenceEvent::PitchBend { channel, value: low * 8 }, p))
    } else if b & 0x30 == 0x00 && 1 <= low && low <= 9 {
        Some((PCMAudioSequenceEvent::Expression { channel, value: (low - 1) * 31 }, p))
    } else {
        None
    }
}

/// Reads the event at `pos`.
fn read_pcm_event(data: &[u8], pos: usize) -> (r: Option<(PCMAudioSequenceData, usize)>)
    ensures
        match r {
            Some((step, next)) => pcm_event_at(data@, pos as int) == Some((step@, next as int))
                && pos < next <= data@.len(),
            None => pcm_event_at(data@, pos as int) is None,
        },
{
    let n = data.len();
    let (duration, p) = match read_varint(data, pos) {
        Some(x) => x,
        None => {
            return None;
        },
    };
    if p >= n {
        return None;
    }
    let first: u8 = data[p];
    let p = p + 1;
    if first == 0x00 {
        if p >= n {
            return None;
        }
        match read_pcm_control(data, data[p], p + 1) {
            Some((event, next)) => Some((PCMAudioSequenceData { duration, event }, next)),
            None => None,
        }
    } else if first == 0xff {
        if p >= n {
            return None;
        }
        let second: u8 = data[p];
        if second == 0xf0 && n - p >= 2 && data[p + 1] as usize <= n - p - 2 {
            let start = p + 2;
            let end = start + data[p + 1] as usize;
            let bytes = slice_to_vec(slice_subrange(data, start, end));
            Some(
                (PCMAudioSequenceData { duration, event: PCMAudioSequenceEvent::Exclusive(bytes) }, end),
            )
        } else if second == 0x00 {
            Some((PCMAudioSequenceData { duration, event: PCMAudioSequenceEvent::Nop }, p + 1))
        } else {
            None
        }
    } else {
        match read_varint(data, p) {
            None => None,
            Some((gate_time, next)) => {
                let event = PCMAudioSequenceEvent::WaveMessage {
                    channel: first >> 6,
                    wave_number: first & 0x3f,
                    gate_time,
                };
                Some((PCMAudioSequenceData { duration, event }, next))
            },
        }
    }
}

impl PCMAudioSequenceData {
    /// Decodes the sequence of a PCM audio track from `input`, which it uses
    /// up: what is left (nothing), and the events.
    pub fn parse(input: &[u8]) -> (r: Option<(&[u8], Vec<PCMAudioSequenceData>)>)
        ensures
            match r {
                Some((rest, events)) => pcm_events(input@, 0) == Some(
                    (pcm_steps_of(events@), input@.len() as int),
                ) && rest@ == Seq::<u8>::empty(),
                None => pcm_events(input@, 0) is None,
            },
    {
        let n = input.len();
        let mut out: Vec<PCMAudioSequenceData> = Vec::new();
        let mut at: usize = 0;
        loop
            invariant
                n == input@.len(),
                at <= n,
                pcm_events(input@, 0) == prepend(pcm_steps_of(out@), pcm_events(input@, at as int)),
            decreases n - at,
        {
            if n - at == 4 && input[at] == 0 && input[at + 1] == 0 && input[at + 2] == 0 && input[at
                + 3] == 0 {
                let last = PCMAudioSequenceData { duration: 0, event: PCMAudioSequenceEvent::Nop };
                proof {
                    assert(pcm_steps_of(out@.push(last)) =~= pcm_steps_of(out@) + seq![last@]);
                }
                out.push(last);
                let rest = slice_subrange(input, n, n);
                assert(rest@ =~= Seq::<u8>::empty());
                return Some((rest, out));
            }
            match read_pcm_event(input, at) {
                None => {
                    return None;
                },
                Some((step, next)) => {
                    proof {
                        assert(pcm_steps_of(out@.push(step)) =~= pcm_steps_of(out@).push(step@));
                        lemma_prepend_push(pcm_steps_of(out@), step@, pcm_events(input@, next as int));
                    }
                    out.push(step);
                    at = next;
                },
            }
        }
    }
}

/// The events that the content of a sequence chunk decodes to.
pub open spec fn pcm_sequence_of(payload: Seq<u8>) -> Option<Seq<(u32, PcmEvent)>> {
    match pcm_events(payload, 0) {
        Some((events, end)) => Some(events),
        None => None,
    }
}

/// An inner chunk of a PCM audio track.
pub enum PCMAudioTrackChunk<'a> {
    /// `AspI`: seek and phrase information, kept as it is.
    SeekAndPhraseInfo(&'a [u8]),
    /// `Atsu`: setup data, kept as it is.
    SetupData(&'a [u8]),
    /// `Atsq`: the sequence of timed events.
    SequenceData(Vec<PCMAudioSequenceData>),
    /// `Awa*`: encoded samples and the number that events refer to them by.
    WaveData(u8, &'a [u8]),
}

impl<'a> PCMAudioTrackChunk<'a> {
    /// Whether a chunk is a well-formed inner chunk of a PCM audio track.
    pub open spec fn valid(f: Frame) -> bool {
        ||| f.tag == (UP_A, LO_S, LO_P, UP_I)
        ||| f.tag == (UP_A, LO_T, LO_S, LO_U)
        ||| f.tag == (UP_A, LO_T, LO_S, LO_Q) && pcm_sequence_of(f.payload) is Some
        ||| tag_starts(f.tag, UP_A, LO_W, LO_A)
    }

    /// Whether this inner chunk is what the chunk `f` decodes to.
    pub open spec fn decodes(self, f: Frame) -> bool {
        PCMAudioTrackChunk::valid(f) && match self {
            PCMAudioTrackChunk::SeekAndPhraseInfo(data) => f.tag == (UP_A, LO_S, LO_P, UP_I)
                && data@ == f.payload,
            PCMAudioTrackChunk::SetupData(data) => f.tag == (UP_A, LO_T, LO_S, LO_U) && data@
                == f.payload,
            PCMAudioTrackChunk::SequenceData(events) => f.tag == (UP_A, LO_T, LO_S, LO_Q)
                && pcm_sequence_of(f.payload) == Some(pcm_steps_of(events@)),
            PCMAudioTrackChunk::WaveData(id, data) => tag_starts(f.tag, UP_A, LO_W, LO_A) && id
                == f.tag.3 && data@ == f.payload,
        }
    }

    /// Decodes one inner chunk of a PCM audio track.
    pub fn parse(chunk: &Chunk<'a>) -> (r: Option<PCMAudioTrackChunk<'a>>)
        ensures
            match r {
                Some(c) => c.decodes(chunk.frame()),
                None => !PCMAudioTrackChunk::valid(chunk.frame()),
            },
    {
        if tag_is(chunk.tag, UP_A, LO_S, LO_P, UP_I) {
            Some(PCMAudioTrackChunk::SeekAndPhraseInfo(chunk.payload))
        } else if tag_is(chunk.tag, UP_A, LO_T, LO_S, LO_U) {
            Some(PCMAudioTrackChunk::SetupData(chunk.payload))
        } else if tag_is(chunk.tag, UP_A, LO_T, LO_S, LO_Q) {
            match PCMAudioSequenceData::parse(chunk.payload) {
                Some((_, events)) => Some(PCMAudioTrackChunk::SequenceData(events)),
                None => None,
            }
        } else if tag_has_prefix(chunk.tag, UP_A, LO_W, LO_A) {
            Some(PCMAudioTrackChunk::WaveData(chunk.tag.3, chunk.payload))
        } else {
            None
        }
    }
}

/// The sampling frequency in Hz that an index stands for.
pub open spec fn sampling_freq_of(index: u8) -> Option<u16> {
    if index == 0 {
        Some(4000u16)
    } else if index == 1 {
        Some(8000u16)
    } else if index == 2 {
        Some(11025u16)
    } else if index == 3 {
        Some(22050u16)
    } else if index == 4 {
        Some(44100u16)
    } else {
        None
    }
}

/// Decodes a sampling frequency index; `None` for one that is not defined.
pub fn parse_sampling_freq(index: u8) -> (r: Option<u16>)
    ensures
        r == sampling_freq_of(index),
{
    match index {
        0 => Some(4000),
        1 => Some(8000),
        2 => Some(11025),
        3 => Some(22050),
        4 => Some(44100),
        _ => None,
    }
}

/// A PCM audio track.
pub struct PCMAudioTrack<'a> {
    /// Always 0.
    pub format_type: u8,
    /// 0 for a stream sequence, 1 for a sub-sequence.
    pub sequence_type: u8,
    pub channel: Channel,
    pub format: PcmWaveFormat,
    /// Sampling frequency in Hz.
    pub sampling_freq: u16,
    pub base_bit: BaseBit,
    /// Milliseconds per tick of event durations.
    pub timebase_d: u8,
    /// Milliseconds per tick of gate times.
    pub timebase_g: u8,
    pub chunks: Vec<PCMAudioTrackChunk<'a>>,
}

/// The channel code of a packed wave type: bit 15.
pub open spec fn wave_channel_code(wave_type: u16) -> u8 {
    ((wave_type & 0x8000) >> 15) as u8
}

/// The format code of a packed wave type: bits 14 to 12.
pub open spec fn wave_format_code(wave_type: u16) -> u8 {
    ((wave_type & 0x7000) >> 12) as u8
}

/// The sampling frequency index of a packed wave type: bits 11 to 8.
pub open spec fn wave_freq_code(wave_type: u16) -> u8 {
    ((wave_type & 0x0f00) >> 8) as u8
}

/// The sample width code of a packed wave type: bits 7 to 4.
pub open spec fn wave_base_bit_code(wave_type: u16) -> u8 {
    ((wave_type & 0x00f0) >> 4) as u8
}

impl<'a> PCMAudioTrack<'a> {
    /// Whether the first six bytes of `payload` are a PCM audio track's
    /// header: format type 0 and defined codes in every packed field.
    pub open spec fn header_valid(payload: Seq<u8>) -> bool {
        &&& payload.len() >= 6
        &&& payload[0] == 0
        &&& Channel::of(wave_channel_code(be16(payload, 2) as u16)) is Some
        &&& PcmWaveFormat::of(wave_format_code(be16(payload, 2) as u16)) is Some
        &&& sampling_freq_of(wave_freq_code(be16(payload, 2) as u16)) is Some
        &&& BaseBit::of(wave_base_bit_code(be16(payload, 2) as u16)) is Some
        &&& timebase_of(payload[4]) is Some
        &&& timebase_of(payload[5]) is Some
    }

    /// Whether `payload` is a PCM audio track: a valid header and well-formed
    /// inner chunks up to its end.
    pub open spec fn valid(payload: Seq<u8>) -> bool {
        &&& PCMAudioTrack::header_valid(payload)
        &&& frames(payload, 6) is Some
        &&& forall|i: int|
            0 <= i < frames(payload, 6).unwrap().len() ==> PCMAudioTrackChunk::valid(
                #[trigger] frames(payload, 6).unwrap()[i],
            )
    }

    /// Whether this track is what `payload` decodes to.
    pub open spec fn decodes(self, payload: Seq<u8>) -> bool {
        &&& PCMAudioTrack::valid(payload)
        &&& self.format_type == payload[0]
        &&& self.sequence_type == payload[1]
        &&& Channel::of(wave_channel_code(be16(payload, 2) as u16)) == Some(self.channel)
        &&& PcmWaveFormat::of(wave_format_code(be16(payload, 2) as u16)) == Some(self.format)
        &&& sampling_freq_of(wave_freq_code(be16(payload, 2) as u16)) == Some(self.sampling_freq)
        &&& BaseBit::of(wave_base_bit_code(be16(payload, 2) as u16)) == Some(self.base_bit)
        &&& timebase_of(payload[4]) == Some(self.timebase_d)
        &&& timebase_of(payload[5]) == Some(self.timebase_g)
        &&& frames(payload, 6) is Some
        &&& self.chunks@.len() == frames(payload, 6).unwrap().len()
        &&& forall|i: int|
            0 <= i < self.chunks@.len() ==> (#[trigger] self.chunks@[i]).decodes(
                frames(payload, 6).unwrap()[i],
            )
    }

    /// Decodes the payload of a PCM audio track chunk.
    pub fn parse(payload: &'a [u8]) -> (r: Option<PCMAudioTrack<'a>>)
        ensures
            match r {
                Some(track) => track.decodes(payload@),
                None => !PCMAudioTrack::valid(payload@),
            },
    {
        if payload.len() < 6 {
            return None;
        }
        let format_type: u8 = payload[0];
        if format_type != 0 {
            return None;
        }
        let sequence_type: u8 = payload[1];
        let wave_type: u16 = read_be16(payload, 2);
        let channel = Channel::from_u8(((wave_type & 0x8000) >> 15) as u8)?;
        let format = PcmWaveFormat::from_u8(((wave_type & 0x7000) >> 12) as u8)?;
        let sampling_freq = parse_sampling_freq(((wave_type & 0x0f00) >> 8) as u8)?;
        let base_bit = BaseBit::from_u8(((wave_type & 0x00f0) >> 4) as u8)?;
        let timebase_d = parse_timebase(payload[4])?;
        let timebase_g = parse_timebase(payload[5])?;
        let chunks = split_chunks(payload, 6)?;
        let mut out: Vec<PCMAudioTrackChunk<'a>> = Vec::new();
        let mut i: usize = 0;
        while i < chunks.len()
            invariant
                i <= chunks@.len(),
                frames(payload@, 6) == Some(frames_of(chunks@)),
                out@.len() == i,
                forall|j: int| 0 <= j < i ==> (#[trigger] out@[j]).decodes(frames_of(chunks@)[j]),
            decreases chunks@.len() - i,
        {
            match PCMAudioTrackChunk::parse(&chunks[i]) {
                Some(c) => {
                    out.push(c);
                },
                None => {
                    assert(!PCMAudioTrackChunk::valid(frames(payload@, 6).unwrap()[i as int]));
                    return None;
                },
            }
            i = i + 1;
        }
        assert forall|k: int|
            0 <= k < frames(payload@, 6).unwrap().len() implies PCMAudioTrackChunk::valid(
            #[trigger] frames(payload@, 6).unwrap()[k],
        ) by {
            assert(out@[k].decodes(frames_of(chunks@)[k]));
        }
        Some(
            PCMAudioTrack {
                format_type,
                sequence_type,
                channel,
                format,
                sampling_freq,
                base_bit,
                timebase_d,
                timebase_g,
                chunks: out,
            },
        )
    }
}

/// In a valid PCM audio track the six header bytes and the inner chunks with
/// their headers and declared payload lengths add up to the length of the
/// track's payload.
pub proof fn lemma_pcm_track_is_covered(payload: Seq<u8>)
    requires
        PCMAudioTrack::valid(payload),
    ensures
        6 + total_size(frames(payload, 6).unwrap()) == payload.len(),
{
    lemma_frames_cover(payload, 6);
}

} // verus!
