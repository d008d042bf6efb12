//! Score tracks (`MTR*`): header, channel status table and inner chunks.

use vstd::prelude::*;
use vstd::slice::slice_subrange;
use crate::constants::{BaseBit, Channel, FormatType, StreamWaveFormat};
use crate::framing::{
    frames, frames_of, lemma_frames_cover, split_chunks, tag_has_prefix, tag_is, tag_starts,
    total_size, Chunk, Frame, LO_A, LO_P, LO_Q, LO_S, LO_T, LO_U, LO_W, UP_I, UP_M,
};
use crate::primitives::{be16, parse_timebase, read_be16, timebase_of};
use crate::score_sequence::{handy_events, mobile_events, steps_of, ScoreEvent, SequenceData};

verus! {

/// Encoded samples of one wave (`Mwa*`) with the parameters needed to play
/// them.
pub struct WaveData<'a> {
    pub channel: Channel,
    pub format: StreamWaveFormat,
    pub base_bit: BaseBit,
    /// Sampling frequency in Hz.
    pub sampling_freq: u16,
    pub wave_data: &'a [u8],
}

impl<'a> WaveData<'a> {
    /// Whether `payload` is a wave: three header bytes whose packed fields are
    /// all defined codes.
    pub open spec fn valid(payload: Seq<u8>) -> bool {
        &&& payload.len() >= 3
        &&& Channel::of((payload[0] & 0x80) >> 7) is Some
        &&& StreamWaveFormat::of((payload[0] & 0x70) >> 4) is Some
        &&& BaseBit::of(payload[0] & 0x0f) is Some
    }

    /// Whether this wave is what `payload` decodes to.
    pub open spec fn decodes(self, payload: Seq<u8>) -> bool {
        &&& WaveData::valid(payload)
        &&& Channel::of((payload[0] & 0x80) >> 7) == Some(self.channel)
        &&& StreamWaveFormat::of((payload[0] & 0x70) >> 4) == Some(self.format)
        &&& BaseBit::of(payload[0] & 0x0f) == Some(self.base_bit)
        &&& self.sampling_freq == be16(payload, 1)
        &&& self.wave_data@ == payload.subrange(3, payload.len() as int)
    }

    /// Decodes the payload of a wave chunk.
    pub fn parse(payload: &'a [u8]) -> (r: Option<WaveData<'a>>)
        ensures
            match r {
                Some(w) => w.decodes(payload@),
                None => !WaveData::valid(payload@),
            },
    {
        if payload.len() < 3 {
            return None;
        }
        let wave_type: u8 = payload[0];
        let channel = Channel::from_u8((wave_type & 0x80) >> 7)?;
        let format = StreamWaveFormat::from_u8((wave_type & 0x70) >> 4)?;
        let base_bit = BaseBit::from_u8(wave_type & 0x0f)?;
        let sampling_freq = read_be16(payload, 1);
        Some(
            WaveData {
                channel,
                format,
                base_bit,
                sampling_freq,
                wave_data: slice_subrange(payload, 3, payload.len()),
            },
        )
    }
}

/// An entry of a score track's PCM data chunk.
pub enum PCMDataChunk<'a> {
    /// A wave and the number that sequence events refer to it by.
    WaveData(u8, WaveData<'a>),
}

/// The same under its other spelling.
pub type PcmDataChunk<'a> = PCMDataChunk<'a>;

impl<'a> PCMDataChunk<'a> {
    /// Whether a chunk is a well-formed entry: tagged `Mwa` and a number, with
    /// a wave as its payload.
    pub open spec fn valid(f: Frame) -> bool {
        tag_starts(f.tag, UP_M, LO_W, LO_A) && WaveData::valid(f.payload)
    }

    /// Whether this entry is what the chunk `f` decodes to.
    pub open spec fn decodes(self, f: Frame) -> bool {
        match self {
            PCMDataChunk::WaveData(id, wave) => tag_starts(f.tag, UP_M, LO_W, LO_A) && id == f.tag.3
                && wave.decodes(f.payload),
        }
    }

    /// Decodes one entry of a PCM data chunk.
    pub fn parse(chunk: &Chunk<'a>) -> (r: Option<PCMDataChunk<'a>>)
        ensures
            match r {
                Some(c) => c.decodes(chunk.frame()),
                None => !PCMDataChunk::valid(chunk.frame()),
            },
    {
        if !tag_has_prefix(chunk.tag, UP_M, LO_W, LO_A) {
            return None;
        }
        match WaveData::parse(chunk.payload) {
            Some(wave) => Some(PCMDataChunk::WaveData(chunk.tag.3, wave)),
            None => None,
        }
    }
}

/// Whether `payload` is a PCM data chunk's content: well-formed entries and
/// nothing else.
pub open spec fn pcm_data_valid(payload: Seq<u8>) -> bool {
    &&& frames(payload, 0) is Some
    &&& forall|i: int|
        0 <= i < frames(payload, 0).unwrap().len() ==> PCMDataChunk::valid(
            #[trigger] frames(payload, 0).unwrap()[i],
        )
}

/// Whether `waves` is what a PCM data chunk's content decodes to: one entry for
/// each chunk, in order.
pub open spec fn pcm_data_decodes(waves: Seq<PCMDataChunk>, payload: Seq<u8>) -> bool {
    &&& pcm_data_valid(payload)
    &&& waves.len() == frames(payload, 0).unwrap().len()
    &&& forall|i: int|
        0 <= i < waves.len() ==> (#[trigger] waves[i]).decodes(frames(payload, 0).unwrap()[i])
}

/// Decodes the content of a PCM data chunk.
pub fn parse_pcm_data<'a>(payload: &'a [u8]) -> (r: Option<Vec<PCMDataChunk<'a>>>)
    ensures
        match r {
            Some(waves) => pcm_data_decodes(waves@, payload@),
            None => !pcm_data_valid(payload@),
        },
{
    let chunks = split_chunks(payload, 0)?;
    let mut out: Vec<PCMDataChunk<'a>> = Vec::new();
    let mut i: usize = 0;
    while i < chunks.len()
        invariant
            i <= chunks@.len(),
            frames(payload@, 0) == Some(frames_of(chunks@)),
            out@.len() == i,
            forall|j: int| 0 <= j < i ==> (#[trigger] out@[j]).decodes(frames_of(chunks@)[j]),
        decreases chunks@.len() - i,
    {
        match PCMDataChunk::parse(&chunks[i]) {
            Some(c) => {
                out.push(c);
            },
            None => {
                assert(!PCMDataChunk::valid(frames(payload@, 0).unwrap()[i as int]));
                return None;
            },
        }
        i = i + 1;
    }
    assert forall|k: int| 0 <= k < frames(payload@, 0).unwrap().len() implies PCMDataChunk::valid(
        #[trigger] frames(payload@, 0).unwrap()[k],
    ) by {
        assert(out@[k].decodes(frames_of(chunks@)[k]));
    }
    Some(out)
}

/// The events that the content of a sequence chunk decodes to under the
/// track's encoding; the content has to be used up. The compressed Mobile
/// Standard encoding is not decoded.
pub open spec fn sequence_of(format: FormatType, payload: Seq<u8>) -> Option<
    Seq<(u32, ScoreEvent)>,
> {
    let decoded = match format {
        FormatType::MobileStandardNoCompress => mobile_events(payload, 0),
        FormatType::HandyPhoneStandard => handy_events(payload, 0),
        FormatType::MobileStandardCompress => None,
    };
    match decoded {
        Some((events, end)) => if end == payload.len() {
            Some(events)
        } else {
            None
        },
        None => None,
    }
}

/// Decodes the content of a sequence chunk.
pub fn parse_sequence(format_type: FormatType, payload: &[u8]) -> (r: Option<Vec<SequenceData>>)
    ensures
        match r {
            Some(events) => sequence_of(format_type, payload@) == Some(steps_of(events@)),
            None => sequence_of(format_type, payload@) is None,
        },
{
    let decoded = match format_type {
        FormatType::MobileStandardNoCompress => SequenceData::parse_mobile(payload),
        FormatType::HandyPhoneStandard => SequenceData::parse_handy(payload),
        FormatType::MobileStandardCompress => None,
    };
    match decoded {
        Some((rest, events)) => {
            if rest.len() == 0 {
                Some(events)
            } else {
                None
            }
        },
        None => None,
    }
}

/// An inner chunk of a score track.
pub enum ScoreTrackChunk<'a> {
    /// `Mtsu`: setup data, kept as it is.
    SetupData(&'a [u8]),
    /// `Mtsq`: the sequence of timed events.
    SequenceData(Vec<SequenceData>),
    /// `Mtsp`: the waves that note events can trigger.
    PCMData(Vec<PCMDataChunk<'a>>),
    /// `MspI`: seek and phrase information, kept as it is.
    SeekAndPhraseInfo(&'a [u8]),
}

impl<'a> ScoreTrackChunk<'a> {
    /// Whether a chunk is a well-formed inner chunk of a track with the given
    /// encoding.
    pub open spec fn valid(format: FormatType, f: Frame) -> bool {
        ||| f.tag == (UP_M, LO_T, LO_S, LO_U)
        ||| f.tag == (UP_M, LO_T, LO_S, LO_Q) && sequence_of(format, f.payload) is Some
        ||| f.tag == (UP_M, LO_T, LO_S, LO_P) && pcm_data_valid(f.payload)
        ||| f.tag == (UP_M, LO_S, LO_P, UP_I)
    }

    /// Whether this inner chunk is what the chunk `f` decodes to.
    pub open spec fn decodes(self, format: FormatType, f: Frame) -> bool {
        ScoreTrackChunk::valid(format, f) && match self {
            ScoreTrackChunk::SetupData(data) => f.tag == (UP_M, LO_T, LO_S, LO_U) && data@
                == f.payload,
            ScoreTrackChunk::SequenceData(events) => f.tag == (UP_M, LO_T, LO_S, LO_Q)
                && sequence_of(format, f.payload) == Some(steps_of(events@)),
            ScoreTrackChunk::PCMData(waves) => f.tag == (UP_M, LO_T, LO_S, LO_P)
                && pcm_data_decodes(waves@, f.payload),
            ScoreTrackChunk::SeekAndPhraseInfo(data) => f.tag == (UP_M, LO_S, LO_P, UP_I) && data@
                == f.payload,
        }
    }

    /// Decodes one inner chunk of a score track.
    pub fn parse(format_type: FormatType, chunk: &Chunk<'a>) -> (r: Option<ScoreTrackChunk<'a>>)
        ensures
            match r {
                Some(c) => c.decodes(format_type, chunk.frame()),
                None => !ScoreTrackChunk::valid(format_type, chunk.frame()),
            },
    {
        if tag_is(chunk.tag, UP_M, LO_T, LO_S, LO_U) {
            Some(ScoreTrackChunk::SetupData(chunk.payload))
        } else if tag_is(chunk.tag, UP_M, LO_T, LO_S, LO_Q) {
            match parse_sequence(format_type, chunk.payload) {
                Some(events) => Some(ScoreTrackChunk::SequenceData(events)),
                None => None,
            }
        } else if tag_is(chunk.tag, UP_M, LO_T, LO_S, LO_P) {
            match parse_pcm_data(chunk.payload) {
                Some(waves) => Some(ScoreTrackChunk::PCMData(waves)),
                None => None,
            }
        } else if tag_is(chunk.tag, UP_M, LO_S, LO_P, UP_I) {
            Some(ScoreTrackChunk::SeekAndPhraseInfo(chunk.payload))
        } else {
            None
        }
    }
}

/// What a channel is meant for.
#[derive(PartialEq, Eq, Structural, Clone, Copy, Debug)]
pub enum ChannelType {
    NoCare,
    Melody,
    NoMelody,
    Rhythm,
}

impl ChannelType {
    /// The channel type that a two-bit code stands for.
    pub open spec fn of(raw: u8) -> ChannelType {
        if raw == 0 {
            ChannelType::NoCare
        } else if raw == 1 {
            ChannelType::Melody
        } else if raw == 2 {
            ChannelType::NoMelody
        } else {
            ChannelType::Rhythm
        }
    }

    /// Decodes a two-bit channel type code.
    pub fn from_u8(raw: u8) -> (r: ChannelType)
        requires
            raw <= 3,
        ensures
            r == ChannelType::of(raw),
    {
        match raw {
            0 => ChannelType::NoCare,
            1 => ChannelType::Melody,
            2 => ChannelType::NoMelody,
            _ => ChannelType::Rhythm,
        }
    }
}

/// Status of one channel of a score track.
#[derive(PartialEq, Eq, Structural, Clone, Copy, Debug)]
pub struct ChannelStatus {
    /// Key control status.
    pub kcs: u8,
    /// Vibration status.
    pub vs: u8,
    pub led: u8,
    pub channel_type: ChannelType,
}

/// The low two bits of a byte are a channel type code.
proof fn lemma_low_two_bits(raw: u8)
    by (bit_vector)
    ensures
        raw & 0x03 <= 3,
{
}

impl ChannelStatus {
    /// The status that a Mobile Standard status byte packs: key control in
    /// bits 7 and 6, vibration in bit 5, LED in bit 4, channel type in bits 1
    /// and 0.
    pub open spec fn mobile(raw: u8) -> ChannelStatus {
        ChannelStatus {
            kcs: (raw & 0xc0) >> 6,
            vs: (raw & 0x20) >> 5,
            led: (raw & 0x10) >> 4,
            channel_type: ChannelType::of(raw & 0x03),
        }
    }

    /// The status that a Handy Phone nibble packs: key control in bit 3,
    /// vibration in bit 2, channel type in bits 1 and 0; no LED.
    pub open spec fn handy(nibble: u8) -> ChannelStatus {
        ChannelStatus {
            kcs: (nibble & 0x08) >> 3,
            vs: (nibble & 0x04) >> 2,
            led: 0,
            channel_type: ChannelType::of(nibble & 0x03),
        }
    }

    /// The four statuses of a Handy Phone table, lowest nibble first.
    pub open spec fn handy_table(raw: u16) -> Seq<ChannelStatus> {
        seq![
            ChannelStatus::handy((raw & 0x0f) as u8),
            ChannelStatus::handy(((raw >> 4) & 0x0f) as u8),
            ChannelStatus::handy(((raw >> 8) & 0x0f) as u8),
            ChannelStatus::handy(((raw >> 12) & 0x0f) as u8),
        ]
    }

    /// Decodes a Mobile Standard status byte.
    pub fn parse_mobile(raw: u8) -> (r: ChannelStatus)
        ensures
            r == ChannelStatus::mobile(raw),
    {
        proof {
            lemma_low_two_bits(raw);
        }
        ChannelStatus {
            kcs: (raw & 0xc0) >> 6,
            vs: (raw & 0x20) >> 5,
            led: (raw & 0x10) >> 4,
            channel_type: ChannelType::from_u8(raw & 0x03),
        }
    }

    /// Decodes one nibble of a Handy Phone table.
    fn parse_nibble(nibble: u8) -> (r: ChannelStatus)
        ensures
            r == ChannelStatus::handy(nibble),
    {
        proof {
            lemma_low_two_bits(nibble);
        }
        ChannelStatus {
            kcs: (nibble & 0x08) >> 3,
            vs: (nibble & 0x04) >> 2,
            led: 0,
            channel_type: ChannelType::from_u8(nibble & 0x03),
        }
    }

    /// Decodes the two bytes of a Handy Phone table into its four statuses.
    pub fn parse_handy(raw: u16) -> (r: Vec<ChannelStatus>)
        ensures
            r@ == ChannelStatus::handy_table(raw),
    {
        let mut out: Vec<ChannelStatus> = Vec::new();
        out.push(ChannelStatus::parse_nibble((raw & 0x0f) as u8));
        out.push(ChannelStatus::parse_nibble(((raw >> 4) & 0x0f) as u8));
        out.push(ChannelStatus::parse_nibble(((raw >> 8) & 0x0f) as u8));
        out.push(ChannelStatus::parse_nibble(((raw >> 12) & 0x0f) as u8));
        assert(out@ =~= ChannelStatus::handy_table(raw));
        out
    }
}

/// Bytes of a score track's payload before its first inner chunk: four header
/// bytes and the channel status table.
pub open spec fn score_header_len(format: FormatType) -> int {
    match format {
        FormatType::HandyPhoneStandard => 6,
        _ => 20,
    }
}

/// The channel status table of a score track's payload: sixteen status bytes
/// in Mobile Standard, two bytes for four channels in Handy Phone.
pub open spec fn status_table(format: FormatType, payload: Seq<u8>) -> Seq<ChannelStatus> {
    match format {
        FormatType::HandyPhoneStandard => ChannelStatus::handy_table(be16(payload, 4) as u16),
        _ => Seq::new(16, |i: int| ChannelStatus::mobile(payload[4 + i])),
    }
}

/// Decodes the channel status table behind the four header bytes.
fn parse_channel_status(format_type: FormatType, payload: &[u8]) -> (r: Vec<ChannelStatus>)
    requires
        payload@.len() >= score_header_len(format_type),
    ensures
        r@ == status_table(format_type, payload@),
{
    match format_type {
        FormatType::HandyPhoneStandard => ChannelStatus::parse_handy(read_be16(payload, 4)),
        _ => {
            let mut out: Vec<ChannelStatus> = Vec::new();
            let mut i: usize = 0;
            while i < 16
                invariant
                    i <= 16,
                    payload@.len() >= 20,
                    out@.len() == i,
                    forall|j: int| 0 <= j < i ==> out@[j] == ChannelStatus::mobile(payload@[4 + j]),
                decreases 16 - i,
            {
                out.push(ChannelStatus::parse_mobile(payload[4 + i]));
                i = i + 1;
            }
            assert(out@ =~= status_table(format_type, payload@));
            out
        },
    }
}

/// A score track.
pub struct ScoreTrack<'a> {
    pub format_type: FormatType,
    pub sequence_type: u8,
    /// Milliseconds per tick of event durations.
    pub timebase_d: u8,
    /// Milliseconds per tick of gate times.
    pub timebase_g: u8,
    pub channel_status: Vec<ChannelStatus>,
    pub chunks: Vec<ScoreTrackChunk<'a>>,
}

impl<'a> ScoreTrack<'a> {
    /// The encoding that a score track's payload declares, if the header is
    /// there with defined codes and an encoding that is decoded.
    pub open spec fn format_of(payload: Seq<u8>) -> Option<FormatType> {
        if payload.len() >= 4 && FormatType::of(payload[0]) is Some && FormatType::of(payload[0])
            != Some(FormatType::MobileStandardCompress) && timebase_of(payload[2]) is Some
            && timebase_of(payload[3]) is Some && payload.len() >= score_header_len(
            FormatType::of(payload[0]).unwrap(),
        ) {
            FormatType::of(payload[0])
        } else {
            None
        }
    }

    /// Whether `payload` is a score track: a valid header, the status table,
    /// and well-formed inner chunks up to its end.
    pub open spec fn valid(payload: Seq<u8>) -> bool {
        &&& ScoreTrack::format_of(payload) is Some
        &&& frames(payload, score_header_len(ScoreTrack::format_of(payload).unwrap())) is Some
        &&& forall|i: int|
            0 <= i < frames(
                payload,
                score_header_len(ScoreTrack::format_of(payload).unwrap()),
            ).unwrap().len() ==> ScoreTrackChunk::valid(
                ScoreTrack::format_of(payload).unwrap(),
                #[trigger] frames(
                    payload,
                    score_header_len(ScoreTrack::format_of(payload).unwrap()),
                ).unwrap()[i],
            )
    }

    /// Whether this track is what `payload` decodes to.
    pub open spec fn decodes(self, payload: Seq<u8>) -> bool {
        &&& ScoreTrack::valid(payload)
        &&& ScoreTrack::format_of(payload) == Some(self.format_type)
        &&& self.sequence_type == payload[1]
        &&& timebase_of(payload[2]) == Some(self.timebase_d)
        &&& timebase_of(payload[3]) == Some(self.timebase_g)
        &&& self.channel_status@ == status_table(self.format_type, payload)
        &&& frames(payload, score_header_len(self.format_type)) is Some
        &&& self.chunks@.len() == frames(payload, score_header_len(self.format_type)).unwrap().len()
        &&& forall|i: int|
            0 <= i < self.chunks@.len() ==> (#[trigger] self.chunks@[i]).decodes(
                self.format_type,
                frames(payload, score_header_len(self.format_type)).unwrap()[i],
            )
    }

    /// Decodes the payload of a score track chunk.
    pub fn parse(payload: &'a [u8]) -> (r: Option<ScoreTrack<'a>>)
        ensures
            match r {
                Some(track) => track.decodes(payload@),
                None => !ScoreTrack::valid(payload@),
            },
    {
        if payload.len() < 4 {
            return None;
        }
        let format_type = FormatType::from_u8(payload[0])?;
        let header_len: usize = match format_type {
            FormatType::HandyPhoneStandard => 6,
            FormatType::MobileStandardNoCompress => 20,
            FormatType::MobileStandardCompress => {
                return None;
            },
        };
        let sequence_type: u8 = payload[1];
        let timebase_d = parse_timebase(payload[2])?;
        let timebase_g = parse_timebase(payload[3])?;
        if payload.len() < header_len {
            return None;
        }
        let channel_status = parse_channel_status(format_type, payload);
        let chunks = split_chunks(payload, header_len)?;
        let mut out: Vec<ScoreTrackChunk<'a>> = Vec::new();
        let mut i: usize = 0;
        while i < chunks.len()
            invariant
                i <= chunks@.len(),
                ScoreTrack::format_of(payload@) == Some(format_type),
                header_len == score_header_len(format_type),
                frames(payload@, header_len as int) == Some(frames_of(chunks@)),
                out@.len() == i,
                forall|j: int|
                    0 <= j < i ==> (#[trigger] out@[j]).decodes(format_type, frames_of(chunks@)[j]),
            decreases chunks@.len() - i,
        {
            match ScoreTrackChunk::parse(format_type, &chunks[i]) {
                Some(c) => {
                    out.push(c);
                },
                None => {
                    assert(!ScoreTrackChunk::valid(
                        format_type,
                        frames(payload@, header_len as int).unwrap()[i as int],
                    ));
                    return None;
                },
            }
            i = i + 1;
        }
        assert forall|k: int|
            0 <= k < frames(payload@, header_len as int).unwrap().len() implies ScoreTrackChunk::valid(
            format_type,
            #[trigger] frames(payload@, header_len as int).unwrap()[k],
        ) by {
            assert(out@[k].decodes(format_type, frames_of(chunks@)[k]));
        }
        Some(
            ScoreTrack {
                format_type,
                sequence_type,
                timebase_d,
                timebase_g,
                channel_status,
                chunks: out,
            },
        )
    }
}

/// In a valid score track the header, the status table and the inner chunks
/// with their headers and declared payload lengths add up to the length of
/// the track's payload.
pub proof fn lemma_score_track_is_covered(payload: Seq<u8>)
    requires
        ScoreTrack::valid(payload),
    ensures
        score_header_len(ScoreTrack::format_of(payload).unwrap()) + total_size(
            frames(payload, score_header_len(ScoreTrack::format_of(payload).unwrap())).unwrap(),
        ) == payload.len(),
{
    lemma_frames_cover(payload, score_header_len(ScoreTrack::format_of(payload).unwrap()));
}

} // verus!
