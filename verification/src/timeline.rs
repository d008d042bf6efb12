//! From a decoded file to what is played: for each track the cues that its
//! sequence gives rise to, each at its time in milliseconds from the start,
//! and all of them in the order in which they are due.

use vstd::prelude::*;
use crate::adpcm::{adpcm_samples, decode_adpcm};
use crate::constants::{BaseBit, Channel, PcmWaveFormat};
use crate::error::{PlayError, SmafError};
use crate::pcm_audio_track::{
    PCMAudioSequenceData, PCMAudioSequenceEvent, PCMAudioTrack, PCMAudioTrackChunk, PcmEvent,
};
use crate::score_sequence::{ScoreEvent, ScoreTrackSequenceEvent, SequenceData};
use crate::score_track::{PCMDataChunk, ScoreTrack, ScoreTrackChunk, WaveData};
use crate::smaf::{Smaf, SmafChunk};

verus! {

/// Something for the audio backend to do.
#[derive(Debug, Clone, PartialEq, Eq)]
#[allow(inconsistent_fields)]
pub enum SmafEvent {
    /// Play a buffer of PCM samples with `channel` interleaved channels.
    Wave { channel: u8, sampling_rate: u32, data: Vec<i16> },
    MidiNoteOn { channel: u8, note: u8, velocity: u8 },
    MidiNoteOff { channel: u8, note: u8, velocity: u8 },
    MidiProgramChange { channel: u8, program: u8 },
    MidiControlChange { channel: u8, control: u8, value: u8 },
    /// A track has come to its end.
    End,
}

/// A backend action as a mathematical value.
#[allow(inconsistent_fields)]
pub enum Cue {
    Wave { channel: u8, sampling_rate: u32, data: Seq<i16> },
    MidiNoteOn { channel: u8, note: u8, velocity: u8 },
    MidiNoteOff { channel: u8, note: u8, velocity: u8 },
    MidiProgramChange { channel: u8, program: u8 },
    MidiControlChange { channel: u8, control: u8, value: u8 },
    End,
}

impl View for SmafEvent {
    type V = Cue;

    open spec fn view(&self) -> Cue {
        match *self {
            SmafEvent::Wave { channel, sampling_rate, data } => Cue::Wave {
                channel,
                sampling_rate,
                data: data@,
            },
            SmafEvent::MidiNoteOn { channel, note, velocity } => Cue::MidiNoteOn {
                channel,
                note,
                velocity,
            },
            SmafEvent::MidiNoteOff { channel, note, velocity } => Cue::MidiNoteOff {
                channel,
                note,
                velocity,
            },
            SmafEvent::MidiProgramChange { channel, program } => Cue::MidiProgramChange {
                channel,
                program,
            },
            SmafEvent::MidiControlChange { channel, control, value } => Cue::MidiControlChange {
                channel,
                control,
                value,
            },
            SmafEvent::End => Cue::End,
        }
    }
}

/// The mathematical values of a list of timed backend actions.
pub open spec fn cues_of(events: Seq<(usize, SmafEvent)>) -> Seq<(int, Cue)> {
    events.map_values(|e: (usize, SmafEvent)| (e.0 as int, e.1@))
}

/// The cues so far, followed by those of the rest if the rest has any.
pub open spec fn extend(head: Seq<(int, Cue)>, tail: Result<Seq<(int, Cue)>, PlayError>) -> Result<
    Seq<(int, Cue)>,
    PlayError,
> {
    match tail {
        Ok(rest) => Ok(head + rest),
        Err(e) => Err(e),
    }
}

/// Extending by more cues and then by the rest is extending the longer list by
/// the rest.
pub proof fn lemma_extend_twice(
    head: Seq<(int, Cue)>,
    more: Seq<(int, Cue)>,
    tail: Result<Seq<(int, Cue)>, PlayError>,
)
    ensures
        extend(head, extend(more, tail)) == extend(head + more, tail),
{
    match tail {
        Ok(rest) => {
            assert(head + (more + rest) =~= (head + more) + rest);
        },
        Err(e) => {},
    }
}

/// The time `ticks` ticks of `timebase` milliseconds after `now`, if the clock
/// can count that far.
pub fn advance(now: usize, ticks: u32, timebase: u8) -> (r: Option<usize>)
    ensures
        match r {
            Some(t) => t == now + ticks * timebase,
            None => now + ticks * timebase > usize::MAX,
        },
{
    assert(ticks * timebase <= 0xffff_ffff * 0xff) by (nonlinear_arith)
        requires
            ticks <= 0xffff_ffff,
            timebase <= 0xff,
    ;
    let span: u64 = ticks as u64 * timebase as u64;
    if span > (usize::MAX - now) as u64 {
        None
    } else {
        Some(now + span as usize)
    }
}

/// The events of the first sequence chunk among the chunks from `i` on.
pub open spec fn score_sequence_from(chunks: Seq<ScoreTrackChunk>, i: int) -> Option<
    Seq<SequenceData>,
>
    decreases chunks.len() - i,
{
    if i < 0 || i >= chunks.len() {
        None
    } else {
        match chunks[i] {
            ScoreTrackChunk::SequenceData(events) => Some(events@),
            _ => score_sequence_from(chunks, i + 1),
        }
    }
}

/// The first wave numbered `id` among the entries from `j` on.
pub open spec fn wave_in<'a>(waves: Seq<PCMDataChunk<'a>>, id: u8, j: int) -> Option<WaveData<'a>>
    decreases waves.len() - j,
{
    if j < 0 || j >= waves.len() {
        None
    } else {
        match waves[j] {
            PCMDataChunk::WaveData(number, wave) => if number == id {
                Some(wave)
            } else {
                wave_in(waves, id, j + 1)
            },
        }
    }
}

/// The first wave numbered `id` in the PCM data chunks from `i` on.
pub open spec fn find_wave<'a>(chunks: Seq<ScoreTrackChunk<'a>>, id: u8, i: int) -> Option<
    WaveData<'a>,
>
    decreases chunks.len() - i,
{
    if i < 0 || i >= chunks.len() {
        None
    } else {
        match chunks[i] {
            ScoreTrackChunk::PCMData(waves) => match wave_in(waves@, id, 0) {
                Some(wave) => Some(wave),
                None => find_wave(chunks, id, i + 1),
            },
            _ => find_wave(chunks, id, i + 1),
        }
    }
}

/// What a score track's event at `time` asks of the backend.
///
/// A note other than 0 is switched on at `time` and off after its gate time,
/// `gate_time * timebase_g` milliseconds later. Note 0 plays the wave whose
/// number is one more than the channel, which must be mono with four bits a
/// sample. Control and program changes are passed on; every other event asks
/// for nothing.
pub open spec fn score_cues(track: ScoreTrack, time: int, event: ScoreEvent) -> Result<
    Seq<(int, Cue)>,
    PlayError,
> {
    match event {
        ScoreEvent::NoteMessage { channel, note, velocity, gate_time } => if note == 0 {
            if channel == 255 {
                Err(PlayError::MissingWave)
            } else {
                match find_wave(track.chunks@, (channel + 1) as u8, 0) {
                    None => Err(PlayError::MissingWave),
                    Some(wave) => if wave.base_bit != BaseBit::Bit4 || wave.channel
                        != Channel::Mono {
                        Err(PlayError::UnsupportedWave)
                    } else {
                        Ok(
                            seq![
                                (
                                    time,
                                    Cue::Wave {
                                        channel: wave.channel.spec_count(),
                                        sampling_rate: wave.sampling_freq as u32,
                                        data: adpcm_samples(wave.wave_data@),
                                    },
                                ),
                            ],
                        )
                    },
                }
            }
        } else if time + gate_time * track.timebase_g > usize::MAX {
            Err(PlayError::TimeOverflow)
        } else {
            Ok(
                seq![
                    (time, Cue::MidiNoteOn { channel, note, velocity }),
                    (
                        time + gate_time * track.timebase_g,
                        Cue::MidiNoteOff { channel, note, velocity },
                    ),
                ],
            )
        },
        ScoreEvent::ControlChange { channel, control, value } => Ok(
            seq![(time, Cue::MidiControlChange { channel, control, value })],
        ),
        ScoreEvent::ProgramChange { channel, program } => Ok(
            seq![(time, Cue::MidiProgramChange { channel, program })],
        ),
        _ => Ok(Seq::empty()),
    }
}

/// The cues of a score track's events from the `i`th on, the event before it
/// being due at `now`: each event is due its own duration after the event
/// before it, in `timebase_d` milliseconds a tick, and the track ends with its
/// last event.
pub open spec fn score_timeline_from(
    track: ScoreTrack,
    events: Seq<SequenceData>,
    i: int,
    now: int,
) -> Result<Seq<(int, Cue)>, PlayError>
    decreases events.len() - i,
{
    if i < 0 || i >= events.len() {
        Ok(seq![(now, Cue::End)])
    } else if now + events[i].duration * track.timebase_d > usize::MAX {
        Err(PlayError::TimeOverflow)
    } else {
        match score_cues(track, now + events[i].duration * track.timebase_d, events[i].event@) {
            Err(e) => Err(e),
            Ok(cues) => extend(
                cues,
                score_timeline_from(
                    track,
                    events,
                    i + 1,
                    now + events[i].duration * track.timebase_d,
                ),
            ),
        }
    }
}

/// The cues of a score track, in the order of its events.
pub open spec fn score_timeline(track: ScoreTrack) -> Result<Seq<(int, Cue)>, PlayError> {
    match score_sequence_from(track.chunks@, 0) {
        None => Err(PlayError::MissingSequence),
        Some(events) => score_timeline_from(track, events, 0, 0),
    }
}

/// Finds the sequence of a score track.
pub fn find_score_sequence<'b, 'a>(track: &'b ScoreTrack<'a>) -> (r: Option<&'b Vec<SequenceData>>)
    ensures
        match r {
            Some(events) => score_sequence_from(track.chunks@, 0) == Some(events@),
            None => score_sequence_from(track.chunks@, 0) is None,
        },
{
    let mut i: usize = 0;
    while i < track.chunks.len()
        invariant
            i <= track.chunks@.len(),
            score_sequence_from(track.chunks@, 0) == score_sequence_from(track.chunks@, i as int),
        decreases track.chunks@.len() - i,
    {
        match &track.chunks[i] {
            ScoreTrackChunk::SequenceData(events) => {
                return Some(events);
            },
            _ => {},
        }
        i = i + 1;
    }
    None
}

/// Finds the wave numbered `id` among the entries of one PCM data chunk.
fn find_wave_in<'b, 'a>(waves: &'b Vec<PCMDataChunk<'a>>, id: u8) -> (r: Option<&'b WaveData<'a>>)
    ensures
        match r {
            Some(wave) => wave_in(waves@, id, 0) == Some(*wave),
            None => wave_in(waves@, id, 0) is None,
        },
{
    let mut j: usize = 0;
    while j < waves.len()
        invariant
            j <= waves@.len(),
            wave_in(waves@, id, 0) == wave_in(waves@, id, j as int),
        decreases waves@.len() - j,
    {
        match &waves[j] {
            PCMDataChunk::WaveData(number, wave) => {
                if *number == id {
                    return Some(wave);
                }
            },
        }
        j = j + 1;
    }
    None
}

/// Finds the wave numbered `id` in a score track.
fn find_score_wave<'b, 'a>(track: &'b ScoreTrack<'a>, id: u8) -> (r: Option<&'b WaveData<'a>>)
    ensures
        match r {
            Some(wave) => find_wave(track.chunks@, id, 0) == Some(*wave),
            None => find_wave(track.chunks@, id, 0) is None,
        },
{
    let mut i: usize = 0;
    while i < track.chunks.len()
        invariant
            i <= track.chunks@.len(),
            find_wave(track.chunks@, id, 0) == find_wave(track.chunks@, id, i as int),
        decreases track.chunks@.len() - i,
    {
        match &track.chunks[i] {
            ScoreTrackChunk::PCMData(waves) => {
                match find_wave_in(waves, id) {
                    Some(wave) => {
                        return Some(wave);
                    },
                    None => {},
                }
            },
            _ => {},
        }
        i = i + 1;
    }
    None
}

/// Works out what one event of a score track, due at `time`, asks of the
/// backend.
pub fn score_event_cues(track: &ScoreTrack, time: usize, event: &ScoreTrackSequenceEvent) -> (r:
    Result<Vec<(usize, SmafEvent)>, PlayError>)
    ensures
        match r {
            Ok(cues) => score_cues(*track, time as int, event@) == Ok::<Seq<(int, Cue)>, PlayError>(
                cues_of(cues@),
            ),
            Err(e) => score_cues(*track, time as int, event@) == Err::<Seq<(int, Cue)>, PlayError>(
                e,
            ),
        },
{
    let mut out: Vec<(usize, SmafEvent)> = Vec::new();
    match event {
        ScoreTrackSequenceEvent::NoteMessage { channel, note, velocity, gate_time } => {
            if *note == 0 {
                if *channel == 255 {
                    return Err(PlayError::MissingWave);
                }
                let wave = match find_score_wave(track, *channel + 1) {
                    Some(wave) => wave,
                    None => {
                        return Err(PlayError::MissingWave);
                    },
                };
                if wave.base_bit != BaseBit::Bit4 || wave.channel != Channel::Mono {
                    return Err(PlayError::UnsupportedWave);
                }
                let data = decode_adpcm(wave.wave_data);
                out.push(
                    (
                        time,
                        SmafEvent::Wave {
                            channel: wave.channel.count(),
                            sampling_rate: wave.sampling_freq as u32,
                            data,
                        },
                    ),
                );
            } else {
                let end = match advance(time, *gate_time, track.timebase_g) {
                    Some(end) => end,
                    None => {
                        return Err(PlayError::TimeOverflow);
                    },
                };
                out.push(
                    (
                        time,
                        SmafEvent::MidiNoteOn { channel: *channel, note: *note, velocity: *velocity },
                    ),
                );
                out.push(
                    (
                        end,
                        SmafEvent::MidiNoteOff { channel: *channel, note: *note, velocity: *velocity },
                    ),
                );
            }
        },
        ScoreTrackSequenceEvent::ControlChange { channel, control, value } => {
            out.push(
                (
                    time,
                    SmafEvent::MidiControlChange {
                        channel: *channel,
                        control: *control,
                        value: *value,
                    },
                ),
            );
        },
        ScoreTrackSequenceEvent::ProgramChange { channel, program } => {
            out.push((time, SmafEvent::MidiProgramChange { channel: *channel, program: *program }));
        },
        _ => {},
    }
    assert(cues_of(out@) =~= score_cues(*track, time as int, event@).unwrap());
    Ok(out)
}

/// Lays out the cues of a score track in the order of its events.
pub fn parse_score_track_events(track: &ScoreTrack) -> (r: Result<
    Vec<(usize, SmafEvent)>,
    PlayError,
>)
    ensures
        match r {
            Ok(cues) => score_timeline(*track) == Ok::<Seq<(int, Cue)>, PlayError>(cues_of(cues@)),
            Err(e) => score_timeline(*track) == Err::<Seq<(int, Cue)>, PlayError>(e),
        },
{
    let events = match find_score_sequence(track) {
        Some(events) => events,
        None => {
            return Err(PlayError::MissingSequence);
        },
    };
    let mut out: Vec<(usize, SmafEvent)> = Vec::new();
    let mut now: usize = 0;
    let mut i: usize = 0;
    while i < events.len()
        invariant
            i <= events@.len(),
            score_timeline(*track) == extend(
                cues_of(out@),
                score_timeline_from(*track, events@, i as int, now as int),
            ),
        decreases events@.len() - i,
    {
        now = match advance(now, events[i].duration, track.timebase_d) {
            Some(start) => start,
            None => {
                return Err(PlayError::TimeOverflow);
            },
        };
        let mut cues = match score_event_cues(track, now, &events[i].event) {
            Ok(cues) => cues,
            Err(e) => {
                return Err(e);
            },
        };
        proof {
            lemma_extend_twice(
                cues_of(out@),
                cues_of(cues@),
                score_timeline_from(*track, events@, i + 1, now as int),
            );
            assert(cues_of(out@ + cues@) =~= cues_of(out@) + cues_of(cues@));
        }
        out.append(&mut cues);
        i = i + 1;
    }
    proof {
        assert(cues_of(out@.push((now, SmafEvent::End))) =~= cues_of(out@) + seq![
            (now as int, Cue::End),
        ]);
    }
    out.push((now, SmafEvent::End));
    Ok(out)
}

/// The events of the first sequence chunk among the chunks from `i` on.
pub open spec fn pcm_sequence_from(chunks: Seq<PCMAudioTrackChunk>, i: int) -> Option<
    Seq<PCMAudioSequenceData>,
>
    decreases chunks.len() - i,
{
    if i < 0 || i >= chunks.len() {
        None
    } else {
        match chunks[i] {
            PCMAudioTrackChunk::SequenceData(events) => Some(events@),
            _ => pcm_sequence_from(chunks, i + 1),
        }
    }
}

/// The samples of the first wave chunk numbered `id` among the chunks from `i`
/// on.
pub open spec fn find_pcm_wave(chunks: Seq<PCMAudioTrackChunk>, id: u8, i: int) -> Option<Seq<u8>>
    decreases chunks.len() - i,
{
    if i < 0 || i >= chunks.len() {
        None
    } else {
        match chunks[i] {
            PCMAudioTrackChunk::WaveData(number, data) => if number == id {
                Some(data@)
            } else {
                find_pcm_wave(chunks, id, i + 1)
            },
            _ => find_pcm_wave(chunks, id, i + 1),
        }
    }
}

/// What a PCM audio track's event at `time` asks of the backend: a wave
/// message plays the wave of its number, if the track is mono ADPCM with four
/// bits a sample; every other event asks for nothing.
pub open spec fn pcm_cues(track: PCMAudioTrack, time: int, event: PcmEvent) -> Result<
    Seq<(int, Cue)>,
    PlayError,
> {
    match event {
        PcmEvent::WaveMessage { channel, wave_number, gate_time } => match find_pcm_wave(
            track.chunks@,
            wave_number,
            0,
        ) {
            None => Err(PlayError::MissingWave),
            Some(data) => if track.format != PcmWaveFormat::Adpcm || track.channel != Channel::Mono
                || track.base_bit != BaseBit::Bit4 {
                Err(PlayError::UnsupportedWave)
            } else {
                Ok(
                    seq![
                        (
                            time,
                            Cue::Wave {
                                channel: track.channel.spec_count(),
                                sampling_rate: track.sampling_freq as u32,
                                data: adpcm_samples(data),
                            },
                        ),
                    ],
                )
            },
        },
        _ => Ok(Seq::empty()),
    }
}

/// The cues of a PCM audio track's events from the `i`th on, the event before
/// it being due at `now`: each event is due its own duration after the event
/// before it, and the track ends with its last event.
pub open spec fn pcm_timeline_from(
    track: PCMAudioTrack,
    events: Seq<PCMAudioSequenceData>,
    i: int,
    now: int,
) -> Result<Seq<(int, Cue)>, PlayError>
    decreases events.len() - i,
{
    if i < 0 || i >= events.len() {
        Ok(seq![(now, Cue::End)])
    } else if now + events[i].duration * track.timebase_d > usize::MAX {
        Err(PlayError::TimeOverflow)
    } else {
        match pcm_cues(track, now + events[i].duration * track.timebase_d, events[i].event@) {
            Err(e) => Err(e),
            Ok(cues) => extend(
                cues,
                pcm_timeline_from(
                    track,
                    events,
                    i + 1,
                    now + events[i].duration * track.timebase_d,
                ),
            ),
        }
    }
}

/// The cues of a PCM audio track, in the order of its events.
pub open spec fn pcm_timeline(track: PCMAudioTrack) -> Result<Seq<(int, Cue)>, PlayError> {
    match pcm_sequence_from(track.chunks@, 0) {
        None => Err(PlayError::MissingSequence),
        Some(events) => pcm_timeline_from(track, events, 0, 0),
    }
}

/// Finds the sequence of a PCM audio track.
pub fn find_pcm_sequence<'b, 'a>(track: &'b PCMAudioTrack<'a>) -> (r: Option<
    &'b Vec<PCMAudioSequenceData>,
>)
    ensures
        match r {
            Some(events) => pcm_sequence_from(track.chunks@, 0) == Some(events@),
            None => pcm_sequence_from(track.chunks@, 0) is None,
        },
{
    let mut i: usize = 0;
    while i < track.chunks.len()
        invariant
            i <= track.chunks@.len(),
            pcm_sequence_from(track.chunks@, 0) == pcm_sequence_from(track.chunks@, i as int),
        decreases track.chunks@.len() - i,
    {
        match &track.chunks[i] {
            PCMAudioTrackChunk::SequenceData(events) => {
                return Some(events);
            },
            _ => {},
        }
        i = i + 1;
    }
    None
}

/// Finds the samples of the wave numbered `id` in a PCM audio track.
fn find_track_wave<'a>(track: &PCMAudioTrack<'a>, id: u8) -> (r: Option<&'a [u8]>)
    ensures
        match r {
            Some(data) => find_pcm_wave(track.chunks@, id, 0) == Some(data@),
            None => find_pcm_wave(track.chunks@, id, 0) is None,
        },
{
    let mut i: usize = 0;
    while i < track.chunks.len()
        invariant
            i <= track.chunks@.len(),
            find_pcm_wave(track.chunks@, id, 0) == find_pcm_wave(track.chunks@, id, i as int),
        decreases track.chunks@.len() - i,
    {
        match &track.chunks[i] {
            PCMAudioTrackChunk::WaveData(number, data) => {
                if *number == id {
                    return Some(*data);
                }
            },
            _ => {},
        }
        i = i + 1;
    }
    None
}

/// Works out what one event of a PCM audio track, due at `time`, asks of the
/// backend.
pub fn pcm_event_cues(track: &PCMAudioTrack, time: usize, event: &PCMAudioSequenceEvent) -> (r:
    Result<Vec<(usize, SmafEvent)>, PlayError>)
    ensures
        match r {
            Ok(cues) => pcm_cues(*track, time as int, event@) == Ok::<Seq<(int, Cue)>, PlayError>(
                cues_of(cues@),
            ),
            Err(e) => pcm_cues(*track, time as int, event@) == Err::<Seq<(int, Cue)>, PlayError>(e),
        },
{
    let mut out: Vec<(usize, SmafEvent)> = Vec::new();
    match event {
        PCMAudioSequenceEvent::WaveMessage { channel, wave_number, gate_time } => {
            let encoded = match find_track_wave(track, *wave_number) {
                Some(encoded) => encoded,
                None => {
                    return Err(PlayError::MissingWave);
                },
            };
            if track.format != PcmWaveFormat::Adpcm || track.channel != Channel::Mono
                || track.base_bit != BaseBit::Bit4 {
                return Err(PlayError::UnsupportedWave);
            }
            let data = decode_adpcm(encoded);
            out.push(
                (
                    time,
                    SmafEvent::Wave {
                        channel: track.channel.count(),
                        sampling_rate: track.sampling_freq as u32,
                        data,
                    },
                ),
            );
        },
        _ => {},
    }
    assert(cues_of(out@) =~= pcm_cues(*track, time as int, event@).unwrap());
    Ok(out)
}

/// Lays out the cues of a PCM audio track in the order of its events.
pub fn parse_pcm_audio_track_events(track: &PCMAudioTrack) -> (r: Result<
    Vec<(usize, SmafEvent)>,
    PlayError,
>)
    ensures
        match r {
            Ok(cues) => pcm_timeline(*track) == Ok::<Seq<(int, Cue)>, PlayError>(cues_of(cues@)),
            Err(e) => pcm_timeline(*track) == Err::<Seq<(int, Cue)>, PlayError>(e),
        },
{
    let events = match find_pcm_sequence(track) {
        Some(events) => events,
        None => {
            return Err(PlayError::MissingSequence);
        },
    };
    let mut out: Vec<(usize, SmafEvent)> = Vec::new();
    let mut now: usize = 0;
    let mut i: usize = 0;
    while i < events.len()
        invariant
            i <= events@.len(),
            pcm_timeline(*track) == extend(
                cues_of(out@),
                pcm_timeline_from(*track, events@, i as int, now as int),
            ),
        decreases events@.len() - i,
    {
        now = match advance(now, events[i].duration, track.timebase_d) {
            Some(start) => start,
            None => {
                return Err(PlayError::TimeOverflow);
            },
        };
        let mut cues = match pcm_event_cues(track, now, &events[i].event) {
            Ok(cues) => cues,
            Err(e) => {
                return Err(e);
            },
        };
        proof {
            lemma_extend_twice(
                cues_of(out@),
                cues_of(cues@),
                pcm_timeline_from(*track, events@, i + 1, now as int),
            );
            assert(cues_of(out@ + cues@) =~= cues_of(out@) + cues_of(cues@));
        }
        out.append(&mut cues);
        i = i + 1;
    }
    proof {
        assert(cues_of(out@.push((now, SmafEvent::End))) =~= cues_of(out@) + seq![
            (now as int, Cue::End),
        ]);
    }
    out.push((now, SmafEvent::End));
    Ok(out)
}

/// The cues of one top-level chunk: those of its track, or none if it is no
/// track.
pub open spec fn chunk_timeline(chunk: SmafChunk) -> Result<Seq<(int, Cue)>, PlayError> {
    match chunk {
        SmafChunk::ScoreTrack(_, track) => score_timeline(track),
        SmafChunk::PCMAudioTrack(_, track) => pcm_timeline(track),
        _ => Ok(Seq::empty()),
    }
}

/// The cues of the chunks from the `i`th on, track after track.
pub open spec fn smaf_timeline_from(chunks: Seq<SmafChunk>, i: int) -> Result<
    Seq<(int, Cue)>,
    PlayError,
>
    decreases chunks.len() - i,
{
    if i < 0 || i >= chunks.len() {
        Ok(Seq::empty())
    } else {
        match chunk_timeline(chunks[i]) {
            Err(e) => Err(e),
            Ok(cues) => extend(cues, smaf_timeline_from(chunks, i + 1)),
        }
    }
}

/// Whether a new cue due at `new` goes in front of one due at `other`: in front
/// of those due later and, unless it goes behind its equals, of those due at
/// the same time.
pub open spec fn goes_before(new: int, other: int, behind_equals: bool) -> bool {
    if behind_equals {
        new < other
    } else {
        new <= other
    }
}

/// A sorted list with one more cue, put in front of the first cue that it goes
/// before.
pub open spec fn insert_by_time(
    item: (int, Cue),
    sorted: Seq<(int, Cue)>,
    behind_equals: bool,
) -> Seq<(int, Cue)>
    decreases sorted.len(),
{
    if sorted.len() == 0 || goes_before(item.0, sorted[0].0, behind_equals) {
        seq![item] + sorted
    } else {
        seq![sorted[0]] + insert_by_time(item, sorted.drop_first(), behind_equals)
    }
}

/// The cues in the order of their times; cues due at the same time keep the
/// order that they had.
pub open spec fn sort_by_time(cues: Seq<(int, Cue)>) -> Seq<(int, Cue)>
    decreases cues.len(),
{
    if cues.len() == 0 {
        Seq::empty()
    } else {
        insert_by_time(cues[0], sort_by_time(cues.drop_first()), false)
    }
}

/// Whether no cue stands before one that is due earlier.
pub open spec fn ordered_by_time(cues: Seq<(int, Cue)>) -> bool {
    forall|i: int, j: int| 0 <= i <= j < cues.len() ==> cues[i].0 <= cues[j].0
}

/// The place of a new cue in a sorted list is behind the cues that it does not
/// go before.
pub proof fn lemma_insert_position(
    item: (int, Cue),
    sorted: Seq<(int, Cue)>,
    behind_equals: bool,
    j: int,
)
    requires
        0 <= j <= sorted.len(),
        forall|k: int| 0 <= k < j ==> !goes_before(item.0, sorted[k].0, behind_equals),
        j == sorted.len() || goes_before(item.0, sorted[j].0, behind_equals),
    ensures
        insert_by_time(item, sorted, behind_equals) == sorted.insert(j, item),
    decreases j,
{
    if j == 0 {
        assert(seq![item] + sorted =~= sorted.insert(0, item));
    } else {
        let rest = sorted.drop_first();
        assert forall|k: int| 0 <= k < j - 1 implies !goes_before(
            item.0,
            rest[k].0,
            behind_equals,
        ) by {
            assert(rest[k] == sorted[k + 1]);
        }
        lemma_insert_position(item, rest, behind_equals, j - 1);
        assert(seq![sorted[0]] + rest.insert(j - 1, item) =~= sorted.insert(j, item));
    }
}

/// Putting a cue into an ordered list leaves it ordered, one longer, and with
/// the same cues and the new one.
pub proof fn lemma_insert_keeps_order(
    item: (int, Cue),
    sorted: Seq<(int, Cue)>,
    behind_equals: bool,
)
    requires
        ordered_by_time(sorted),
    ensures
        ordered_by_time(insert_by_time(item, sorted, behind_equals)),
        insert_by_time(item, sorted, behind_equals).len() == sorted.len() + 1,
        insert_by_time(item, sorted, behind_equals).to_multiset() == sorted.to_multiset().insert(
            item,
        ),
    decreases sorted.len(),
{
    broadcast use vstd::seq_lib::group_to_multiset_ensures;

    if sorted.len() == 0 || goes_before(item.0, sorted[0].0, behind_equals) {
        let out = seq![item] + sorted;
        assert forall|i: int, j: int| 0 <= i <= j < out.len() implies out[i].0 <= out[j].0 by {
            if i > 0 {
                assert(out[i] == sorted[i - 1] && out[j] == sorted[j - 1]);
            } else if j > 0 {
                assert(out[j] == sorted[j - 1]);
                assert(sorted[0].0 <= sorted[j - 1].0);
            }
        }
        assert(out =~= sorted.insert(0, item));
        vstd::seq_lib::to_multiset_insert(sorted, 0, item);
    } else {
        let rest = sorted.drop_first();
        assert forall|i: int, j: int| 0 <= i <= j < rest.len() implies rest[i].0 <= rest[j].0 by {
            assert(rest[i] == sorted[i + 1] && rest[j] == sorted[j + 1]);
        }
        lemma_insert_keeps_order(item, rest, behind_equals);
        let inner = insert_by_time(item, rest, behind_equals);
        let out = seq![sorted[0]] + inner;
        assert forall|i: int, j: int| 0 <= i <= j < out.len() implies out[i].0 <= out[j].0 by {
            if i > 0 {
                assert(out[i] == inner[i - 1] && out[j] == inner[j - 1]);
            } else if j > 0 {
                assert(out[j] == inner[j - 1]);
                assert(inner.to_multiset().count(inner[j - 1]) > 0);
                if inner[j - 1] != item {
                    assert(rest.to_multiset().count(inner[j - 1]) > 0);
                    let k = choose|k: int| 0 <= k < rest.len() && rest[k] == inner[j - 1];
                    assert(rest[k] == sorted[k + 1]);
                }
            }
        }
        assert(out =~= inner.insert(0, sorted[0]));
        vstd::seq_lib::to_multiset_insert(inner, 0, sorted[0]);
        assert(sorted =~= rest.insert(0, sorted[0]));
        vstd::seq_lib::to_multiset_insert(rest, 0, sorted[0]);
        assert(out.to_multiset() =~= sorted.to_multiset().insert(item));
    }
}

/// Sorting puts the cues in the order of their times and neither drops nor
/// adds one.
pub proof fn lemma_sort_by_time(cues: Seq<(int, Cue)>)
    ensures
        ordered_by_time(sort_by_time(cues)),
        sort_by_time(cues).len() == cues.len(),
        sort_by_time(cues).to_multiset() == cues.to_multiset(),
    decreases cues.len(),
{
    broadcast use vstd::seq_lib::group_to_multiset_ensures;

    if cues.len() > 0 {
        let rest = cues.drop_first();
        lemma_sort_by_time(rest);
        lemma_insert_keeps_order(cues[0], sort_by_time(rest), false);
        assert(cues =~= rest.insert(0, cues[0]));
        vstd::seq_lib::to_multiset_insert(rest, 0, cues[0]);
    }
}

/// Cues that are already in the order of their times are left as they are:
/// sorting never swaps two cues that stand in the right order.
pub proof fn lemma_sort_keeps_ordered(cues: Seq<(int, Cue)>)
    requires
        ordered_by_time(cues),
    ensures
        sort_by_time(cues) == cues,
    decreases cues.len(),
{
    if cues.len() > 0 {
        let rest = cues.drop_first();
        assert forall|i: int, j: int| 0 <= i <= j < rest.len() implies rest[i].0 <= rest[j].0 by {
            assert(rest[i] == cues[i + 1] && rest[j] == cues[j + 1]);
        }
        lemma_sort_keeps_ordered(rest);
        if rest.len() > 0 {
            assert(rest[0] == cues[1]);
        }
        assert(seq![cues[0]] + rest =~= cues);
    }
}

/// What a decoded file asks of the backend: the cues of all its tracks, in the
/// order in which they are due.
pub open spec fn smaf_schedule(smaf: Smaf) -> Result<Seq<(int, Cue)>, PlayError> {
    match smaf_timeline_from(smaf.chunks@, 0) {
        Ok(cues) => Ok(sort_by_time(cues)),
        Err(e) => Err(e),
    }
}

/// The milliseconds that the durations of the events from the `from`th up to,
/// not including, the `to`th add up to, at `timebase` milliseconds a tick.
pub open spec fn span(events: Seq<SequenceData>, timebase: int, from: int, to: int) -> int
    decreases to - from,
{
    if from >= to {
        0
    } else {
        events[from].duration * timebase + span(events, timebase, from + 1, to)
    }
}

/// A note's cues in a timeline: switched on at place `at` and time `start`,
/// and switched off right behind, `gate` milliseconds later.
pub open spec fn note_at(
    timeline: Seq<(int, Cue)>,
    at: int,
    start: int,
    gate: int,
    channel: u8,
    note: u8,
    velocity: u8,
) -> bool {
    &&& 0 <= at
    &&& at + 1 < timeline.len()
    &&& timeline[at] == (start, Cue::MidiNoteOn { channel, note, velocity })
    &&& timeline[at + 1] == (start + gate, Cue::MidiNoteOff { channel, note, velocity })
}

/// In the cues of a score track's events from the `from`th on, the `i`th
/// event, if it is a note other than 0, is switched on when the durations up
/// to and including its own have passed and off exactly
/// `gate_time * timebase_g` milliseconds later.
pub proof fn lemma_note_cues_from(
    track: ScoreTrack,
    events: Seq<SequenceData>,
    from: int,
    now: int,
    i: int,
    channel: u8,
    note: u8,
    velocity: u8,
    gate_time: u32,
)
    requires
        0 <= from <= i < events.len(),
        score_timeline_from(track, events, from, now) is Ok,
        events[i].event@ == (ScoreEvent::NoteMessage { channel, note, velocity, gate_time }),
        note != 0,
    ensures
        exists|at: int| #[trigger]
            note_at(
                score_timeline_from(track, events, from, now).unwrap(),
                at,
                now + span(events, track.timebase_d as int, from, i + 1),
                gate_time * track.timebase_g,
                channel,
                note,
                velocity,
            ),
    decreases i - from,
{
    let timeline = score_timeline_from(track, events, from, now).unwrap();
    let timebase = track.timebase_d as int;
    let start = now + events[from].duration * timebase;
    let cues = score_cues(track, start, events[from].event@).unwrap();
    let rest = score_timeline_from(track, events, from + 1, start).unwrap();
    assert(timeline == cues + rest);
    assert(span(events, timebase, from, i + 1) == events[from].duration * timebase + span(
        events,
        timebase,
        from + 1,
        i + 1,
    ));
    if from == i {
        assert(span(events, timebase, from + 1, i + 1) == 0);
        assert(note_at(
            timeline,
            0,
            now + span(events, timebase, from, i + 1),
            gate_time * track.timebase_g,
            channel,
            note,
            velocity,
        ));
    } else {
        lemma_note_cues_from(track, events, from + 1, start, i, channel, note, velocity, gate_time);
        let at = choose|at: int| #[trigger]
            note_at(
                rest,
                at,
                start + span(events, timebase, from + 1, i + 1),
                gate_time * track.timebase_g,
                channel,
                note,
                velocity,
            );
        assert(timeline[cues.len() + at] == rest[at]);
        assert(timeline[cues.len() + at + 1] == rest[at + 1]);
        assert(note_at(
            timeline,
            cues.len() + at,
            now + span(events, timebase, from, i + 1),
            gate_time * track.timebase_g,
            channel,
            note,
            velocity,
        ));
    }
}

/// Every note other than 0 of a score track is switched on when the durations
/// of the events up to and including it have passed, and switched off exactly
/// `gate_time * timebase_g` milliseconds after that, whatever other notes
/// sound meanwhile.
pub proof fn lemma_note_off_follows_gate_time(
    track: ScoreTrack,
    i: int,
    channel: u8,
    note: u8,
    velocity: u8,
    gate_time: u32,
)
    requires
        score_timeline(track) is Ok,
        0 <= i < score_sequence_from(track.chunks@, 0).unwrap().len(),
        score_sequence_from(track.chunks@, 0).unwrap()[i].event@ == (ScoreEvent::NoteMessage {
            channel,
            note,
            velocity,
            gate_time,
        }),
        note != 0,
    ensures
        exists|at: int| #[trigger]
            note_at(
                score_timeline(track).unwrap(),
                at,
                span(
                    score_sequence_from(track.chunks@, 0).unwrap(),
                    track.timebase_d as int,
                    0,
                    i + 1,
                ),
                gate_time * track.timebase_g,
                channel,
                note,
                velocity,
            ),
{
    lemma_note_cues_from(
        track,
        score_sequence_from(track.chunks@, 0).unwrap(),
        0,
        0,
        i,
        channel,
        note,
        velocity,
        gate_time,
    );
}

/// Two notes other than 0 of a score track, overlapping or not and on
/// whatever channels, are each switched off exactly their own gate time after
/// they are switched on.
pub proof fn lemma_notes_end_in_their_own_gate_times(
    track: ScoreTrack,
    i: int,
    first: (u8, u8, u8, u32),
    j: int,
    second: (u8, u8, u8, u32),
)
    requires
        score_timeline(track) is Ok,
        0 <= i < score_sequence_from(track.chunks@, 0).unwrap().len(),
        0 <= j < score_sequence_from(track.chunks@, 0).unwrap().len(),
        score_sequence_from(track.chunks@, 0).unwrap()[i].event@ == (ScoreEvent::NoteMessage {
            channel: first.0,
            note: first.1,
            velocity: first.2,
            gate_time: first.3,
        }),
        score_sequence_from(track.chunks@, 0).unwrap()[j].event@ == (ScoreEvent::NoteMessage {
            channel: second.0,
            note: second.1,
            velocity: second.2,
            gate_time: second.3,
        }),
        first.1 != 0,
        second.1 != 0,
    ensures
        exists|at: int| #[trigger]
            note_at(
                score_timeline(track).unwrap(),
                at,
                span(
                    score_sequence_from(track.chunks@, 0).unwrap(),
                    track.timebase_d as int,
                    0,
                    i + 1,
                ),
                first.3 * track.timebase_g,
                first.0,
                first.1,
                first.2,
            ),
        exists|at: int| #[trigger]
            note_at(
                score_timeline(track).unwrap(),
                at,
                span(
                    score_sequence_from(track.chunks@, 0).unwrap(),
                    track.timebase_d as int,
                    0,
                    j + 1,
                ),
                second.3 * track.timebase_g,
                second.0,
                second.1,
                second.2,
            ),
{
    lemma_note_off_follows_gate_time(track, i, first.0, first.1, first.2, first.3);
    lemma_note_off_follows_gate_time(track, j, second.0, second.1, second.2, second.3);
}

/// What one track asks for is among what all tracks from the `from`th chunk
/// on ask for.
pub proof fn lemma_track_cues_are_in_timeline(
    chunks: Seq<SmafChunk>,
    from: int,
    k: int,
    cue: (int, Cue),
)
    requires
        0 <= from <= k < chunks.len(),
        smaf_timeline_from(chunks, from) is Ok,
        chunk_timeline(chunks[k]) is Ok ==> chunk_timeline(chunks[k]).unwrap().contains(cue),
    ensures
        chunk_timeline(chunks[k]) is Ok,
        smaf_timeline_from(chunks, from).unwrap().contains(cue),
    decreases k - from,
{
    let here = chunk_timeline(chunks[from]).unwrap();
    let rest = smaf_timeline_from(chunks, from + 1).unwrap();
    let all = smaf_timeline_from(chunks, from).unwrap();
    assert(all == here + rest);
    if from == k {
        let at = choose|at: int| 0 <= at < here.len() && here[at] == cue;
        assert(all[at] == cue);
    } else {
        lemma_track_cues_are_in_timeline(chunks, from + 1, k, cue);
        let at = choose|at: int| 0 <= at < rest.len() && rest[at] == cue;
        assert(all[here.len() + at] == cue);
    }
}

/// Every note other than 0 of a score track of a file is in the file's
/// schedule: switched on when the durations of the track's events up to and
/// including it have passed, and switched off exactly
/// `gate_time * timebase_g` milliseconds later.
pub proof fn lemma_scheduled_note_ends_after_gate_time(
    smaf: Smaf,
    k: int,
    id: u8,
    track: ScoreTrack,
    i: int,
    channel: u8,
    note: u8,
    velocity: u8,
    gate_time: u32,
)
    requires
        smaf_schedule(smaf) is Ok,
        0 <= k < smaf.chunks@.len(),
        smaf.chunks@[k] == SmafChunk::ScoreTrack(id, track),
        score_sequence_from(track.chunks@, 0) is Some,
        0 <= i < score_sequence_from(track.chunks@, 0).unwrap().len(),
        score_sequence_from(track.chunks@, 0).unwrap()[i].event@ == (ScoreEvent::NoteMessage {
            channel,
            note,
            velocity,
            gate_time,
        }),
        note != 0,
    ensures
        smaf_schedule(smaf).unwrap().contains(
            (
                span(
                    score_sequence_from(track.chunks@, 0).unwrap(),
                    track.timebase_d as int,
                    0,
                    i + 1,
                ),
                Cue::MidiNoteOn { channel, note, velocity },
            ),
        ),
        smaf_schedule(smaf).unwrap().contains(
            (
                span(
                    score_sequence_from(track.chunks@, 0).unwrap(),
                    track.timebase_d as int,
                    0,
                    i + 1,
                ) + gate_time * track.timebase_g,
                Cue::MidiNoteOff { channel, note, velocity },
            ),
        ),
{
    broadcast use vstd::seq_lib::group_to_multiset_ensures;

    let events = score_sequence_from(track.chunks@, 0).unwrap();
    let start = span(events, track.timebase_d as int, 0, i + 1);
    let on = (start, Cue::MidiNoteOn { channel, note, velocity });
    let off = (start + gate_time * track.timebase_g, Cue::MidiNoteOff { channel, note, velocity });
    let all = smaf_timeline_from(smaf.chunks@, 0).unwrap();
    if score_timeline(track) is Ok {
        lemma_note_off_follows_gate_time(track, i, channel, note, velocity, gate_time);
        let timeline = score_timeline(track).unwrap();
        let at = choose|at: int| #[trigger]
            note_at(timeline, at, start, gate_time * track.timebase_g, channel, note, velocity);
        assert(timeline[at] == on);
        assert(timeline[at + 1] == off);
    }
    lemma_track_cues_are_in_timeline(smaf.chunks@, 0, k, on);
    lemma_track_cues_are_in_timeline(smaf.chunks@, 0, k, off);
    lemma_sort_by_time(all);
    assert(all.to_multiset().count(on) > 0);
    assert(all.to_multiset().count(off) > 0);
}

/// What a file's tracks ask for is all in its schedule, and nothing else; the
/// schedule is in the order of the times.
pub proof fn lemma_schedule_is_sorted_timeline(smaf: Smaf)
    requires
        smaf_schedule(smaf) is Ok,
    ensures
        ordered_by_time(smaf_schedule(smaf).unwrap()),
        smaf_schedule(smaf).unwrap().to_multiset() == smaf_timeline_from(
            smaf.chunks@,
            0,
        ).unwrap().to_multiset(),
{
    lemma_sort_by_time(smaf_timeline_from(smaf.chunks@, 0).unwrap());
}

/// Puts a timed action into a list sorted by time: in front of the first
/// action that is due later or, unless it goes behind its equals, at the same
/// time.
pub fn insert_timed(
    sorted: &mut Vec<(usize, SmafEvent)>,
    item: (usize, SmafEvent),
    behind_equals: bool,
)
    ensures
        cues_of(final(sorted)@) == insert_by_time(
            (item.0 as int, item.1@),
            cues_of(old(sorted)@),
            behind_equals,
        ),
{
    let mut j: usize = 0;
    while j < sorted.len() && (sorted[j].0 < item.0 || (behind_equals && sorted[j].0 == item.0))
        invariant
            j <= sorted@.len(),
            forall|k: int|
                0 <= k < j ==> !goes_before(item.0 as int, sorted@[k].0 as int, behind_equals),
        decreases sorted@.len() - j,
    {
        j = j + 1;
    }
    proof {
        let cue = (item.0 as int, item.1@);
        assert forall|i: int| 0 <= i < j implies !goes_before(
            cue.0,
            cues_of(sorted@)[i].0,
            behind_equals,
        ) by {
            assert(cues_of(sorted@)[i].0 == sorted@[i].0);
        }
        if j < sorted@.len() {
            assert(cues_of(sorted@)[j as int].0 == sorted@[j as int].0);
        }
        lemma_insert_position(cue, cues_of(sorted@), behind_equals, j as int);
        assert(cues_of(sorted@.insert(j as int, item)) =~= cues_of(sorted@).insert(j as int, cue));
    }
    sorted.insert(j, item);
}

/// Sorts timed actions by their times, keeping the order of those due at the
/// same time.
pub fn sort_events(events: Vec<(usize, SmafEvent)>) -> (sorted: Vec<(usize, SmafEvent)>)
    ensures
        cues_of(sorted@) == sort_by_time(cues_of(events@)),
{
    let ghost all = cues_of(events@);
    let mut rest = events;
    let mut sorted: Vec<(usize, SmafEvent)> = Vec::new();
    loop
        invariant
            all == cues_of(events@),
            rest@.len() <= all.len(),
            cues_of(rest@) == all.subrange(0, rest@.len() as int),
            cues_of(sorted@) == sort_by_time(all.subrange(rest@.len() as int, all.len() as int)),
        decreases rest@.len(),
    {
        let ghost before = rest@;
        match rest.pop() {
            None => {
                assert(all.subrange(0, all.len() as int) =~= all);
                return sorted;
            },
            Some(item) => {
                proof {
                    let k = rest@.len() as int;
                    let tail = all.subrange(k, all.len() as int);
                    assert(cues_of(before)[k] == (item.0 as int, item.1@));
                    assert(tail[0] == (item.0 as int, item.1@));
                    assert(tail.drop_first() =~= all.subrange(k + 1, all.len() as int));
                    assert(cues_of(rest@) =~= all.subrange(0, k));
                }
                insert_timed(&mut sorted, item, false);
            },
        }
    }
}

/// Lays out everything that a decoded file asks of the backend, in the order
/// in which it is due.
pub fn schedule(smaf: &Smaf) -> (r: Result<Vec<(usize, SmafEvent)>, PlayError>)
    ensures
        match r {
            Ok(cues) => smaf_schedule(*smaf) == Ok::<Seq<(int, Cue)>, PlayError>(cues_of(cues@)),
            Err(e) => smaf_schedule(*smaf) == Err::<Seq<(int, Cue)>, PlayError>(e),
        },
{
    let mut out: Vec<(usize, SmafEvent)> = Vec::new();
    let mut i: usize = 0;
    while i < smaf.chunks.len()
        invariant
            i <= smaf.chunks@.len(),
            smaf_timeline_from(smaf.chunks@, 0) == extend(
                cues_of(out@),
                smaf_timeline_from(smaf.chunks@, i as int),
            ),
        decreases smaf.chunks@.len() - i,
    {
        let track_cues = match &smaf.chunks[i] {
            SmafChunk::ScoreTrack(_, track) => parse_score_track_events(track),
            SmafChunk::PCMAudioTrack(_, track) => parse_pcm_audio_track_events(track),
            _ => Ok(Vec::new()),
        };
        let mut cues = match track_cues {
            Ok(cues) => cues,
            Err(e) => {
                return Err(e);
            },
        };
        proof {
            assert(chunk_timeline(smaf.chunks@[i as int]) == Ok::<Seq<(int, Cue)>, PlayError>(
                cues_of(cues@),
            )) by {
                assert(cues_of(Seq::<(usize, SmafEvent)>::empty()) =~= Seq::<(int, Cue)>::empty());
            }
            lemma_extend_twice(
                cues_of(out@),
                cues_of(cues@),
                smaf_timeline_from(smaf.chunks@, i + 1),
            );
            assert(cues_of(out@ + cues@) =~= cues_of(out@) + cues_of(cues@));
        }
        out.append(&mut cues);
        i = i + 1;
    }
    proof {
        assert(cues_of(out@) + Seq::<(int, Cue)>::empty() =~= cues_of(out@));
    }
    Ok(sort_events(out))
}

/// Decodes a file and lays out everything that it asks of the backend, in the
/// order in which it is due. It fails with a parse error exactly on bytes that
/// are not a valid file, and says where decoding stopped.
pub fn parse_smaf(raw: &[u8]) -> (r: Result<Vec<(usize, SmafEvent)>, SmafError>)
    ensures
        match r {
            Ok(cues) => exists|smaf: Smaf|
                #[trigger] smaf.decodes(raw@) && smaf_schedule(smaf) == Ok::<
                    Seq<(int, Cue)>,
                    PlayError,
                >(cues_of(cues@)),
            Err(SmafError::ParseError(failure)) => !Smaf::valid(raw@) && Smaf::failure(raw@)
                == Some(failure),
            Err(SmafError::Unplayable(e)) => exists|smaf: Smaf|
                #[trigger] smaf.decodes(raw@) && smaf_schedule(smaf) == Err::<
                    Seq<(int, Cue)>,
                    PlayError,
                >(e),
        },
{
    match Smaf::parse(raw) {
        Err(e) => Err(e),
        Ok(smaf) => {
            assert(smaf.decodes(raw@));
            match schedule(&smaf) {
                Ok(cues) => Ok(cues),
                Err(e) => Err(SmafError::Unplayable(e)),
            }
        },
    }
}

} // verus!
