//! Sequence events of a score track, and the two encodings they come in:
//! Mobile Standard and Handy Phone Standard.

use vstd::prelude::*;
use vstd::slice::{slice_subrange, slice_to_vec};
use crate::primitives::{
    lemma_prepend_empty, lemma_prepend_push, lemma_varint_advances, prepend, read_varint, varint_at,
};

verus! {

/// One event of a score-track sequence.
#[derive(Debug, Clone, PartialEq, Eq)]
#[allow(inconsistent_fields)]
pub enum ScoreTrackSequenceEvent {
    NoteMessage { channel: u8, note: u8, velocity: u8, gate_time: u32 },
    ControlChange { channel: u8, control: u8, value: u8 },
    ProgramChange { channel: u8, program: u8 },
    BankSelect { channel: u8, value: u8 },
    OctaveShift { channel: u8, value: u8 },
    Modulation { channel: u8, value: u8 },
    PitchBend { channel: u8, value: u16 },
    Volume { channel: u8, value: u8 },
    Pan { channel: u8, value: u8 },
    Expression { channel: u8, value: u8 },
    Exclusive(Vec<u8>),
    Nop,
}

/// A score-track event as a mathematical value.
#[allow(inconsistent_fields)]
pub enum ScoreEvent {
    NoteMessage { channel: u8, note: u8, velocity: u8, gate_time: u32 },
    ControlChange { channel: u8, control: u8, value: u8 },
    ProgramChange { channel: u8, program: u8 },
    BankSelect { channel: u8, value: u8 },
    OctaveShift { channel: u8, value: u8 },
    Modulation { channel: u8, value: u8 },
    PitchBend { channel: u8, value: u16 },
    Volume { channel: u8, value: u8 },
    Pan { channel: u8, value: u8 },
    Expression { channel: u8, value: u8 },
    Exclusive(Seq<u8>),
    Nop,
}

impl View for ScoreTrackSequenceEvent {
    type V = ScoreEvent;

    open spec fn view(&self) -> ScoreEvent {
        match *self {
            ScoreTrackSequenceEvent::NoteMessage { channel, note, velocity, gate_time } => {
                ScoreEvent::NoteMessage { channel, note, velocity, gate_time }
            },
            ScoreTrackSequenceEvent::ControlChange { channel, control, value } => {
                ScoreEvent::ControlChange { channel, control, value }
            },
            ScoreTrackSequenceEvent::ProgramChange { channel, program } => {
                ScoreEvent::ProgramChange { channel, program }
            },
            ScoreTrackSequenceEvent::BankSelect { channel, value } => {
                ScoreEvent::BankSelect { channel, value }
            },
            ScoreTrackSequenceEvent::OctaveShift { channel, value } => {
                ScoreEvent::OctaveShift { channel, value }
            },
            ScoreTrackSequenceEvent::Modulation { channel, value } => {
                ScoreEvent::Modulation { channel, value }
            },
            ScoreTrackSequenceEvent::PitchBend { channel, value } => {
                ScoreEvent::PitchBend { channel, value }
            },
            ScoreTrackSequenceEvent::Volume { channel, value } => {
                ScoreEvent::Volume { channel, value }
            },
            ScoreTrackSequenceEvent::Pan { channel, value } => ScoreEvent::Pan { channel, value },
            ScoreTrackSequenceEvent::Expression { channel, value } => {
                ScoreEvent::Expression { channel, value }
            },
            ScoreTrackSequenceEvent::Exclusive(data) => ScoreEvent::Exclusive(data@),
            ScoreTrackSequenceEvent::Nop => ScoreEvent::Nop,
        }
    }
}

/// An event together with the ticks that pass between the event before it and
/// itself.
#[derive(Debug, Clone, PartialEq, Eq)]
pub struct SequenceData {
    pub duration: u32,
    pub event: ScoreTrackSequenceEvent,
}

impl View for SequenceData {
    type V = (u32, ScoreEvent);

    open spec fn view(&self) -> (u32, ScoreEvent) {
        (self.duration, self.event@)
    }
}

/// The mathematical values of a list of timed events.
pub open spec fn steps_of(events: Seq<SequenceData>) -> Seq<(u32, ScoreEvent)> {
    events.map_values(|d: SequenceData| d@)
}

/// Mobile Standard: the event that the status byte `status` starts, with its
/// operands from `p` on; the position behind the event; and whether it is the
/// end-of-sequence mark.
pub open spec fn mobile_body(s: Seq<u8>, status: u8, p: int) -> Option<(ScoreEvent, int, bool)> {
    let channel = status & 0x0f;
    if 0x80 <= status <= 0x8f {
        match varint_at(s, p + 1) {
            None => None,
            Some((gate_time, next)) => Some(
                (ScoreEvent::NoteMessage { channel, note: s[p], velocity: 64, gate_time }, next, false),
            ),
        }
    } else if 0x90 <= status <= 0x9f {
        match varint_at(s, p + 2) {
            None => None,
            Some((gate_time, next)) => Some(
                (
                    ScoreEvent::NoteMessage { channel, note: s[p], velocity: s[p + 1], gate_time },
                    next,
                    false,
                ),
            ),
        }
    } else if 0xb0 <= status <= 0xbf {
        if p + 2 <= s.len() {
            Some((ScoreEvent::ControlChange { channel, control: s[p], value: s[p + 1] }, p + 2, false))
        } else {
            None
        }
    } else if 0xc0 <= status <= 0xcf {
        if p + 1 <= s.len() {
            Some((ScoreEvent::ProgramChange { channel, program: s[p] }, p + 1, false))
        } else {
            None
        }
    } else if 0xe0 <= status <= 0xef {
        if p + 2 <= s.len() {
            Some(
                (
                    ScoreEvent::PitchBend {
                        channel,
                        value: ((s[p + 1] as u16) << 8) | (s[p] as u16),
                    },
                    p + 2,
                    false,
                ),
            )
        } else {
            None
        }
    } else if status == 0xf0 {
        match varint_at(s, p) {
            None => None,
            Some((len, q)) => if q + len <= s.len() {
                Some((ScoreEvent::Exclusive(s.subrange(q, q + len)), q + len, false))
            } else {
                None
            },
        }
    } else if status == 0xff {
        if p < s.len() && s[p] == 0x2f && p + 2 <= s.len() {
            Some((ScoreEvent::Nop, p + 2, true))
        } else if p < s.len() && s[p] == 0x00 {
            Some((ScoreEvent::Nop, p + 1, false))
        } else {
            None
        }
    } else {
        None
    }
}

/// Mobile Standard: the timed event that starts at `pos` (a duration, a status
/// byte, operands), the position behind it, and whether it ends the sequence.
pub open spec fn mobile_event_at(s: Seq<u8>, pos: int) -> Option<((u32, ScoreEvent), int, bool)> {
    match varint_at(s, pos) {
        None => None,
        Some((duration, p)) => if p < s.len() {
            match mobile_body(s, s[p], p + 1) {
                None => None,
                Some((event, next, last)) => Some(((duration, event), next, last)),
            }
        } else {
            None
        },
    }
}

/// A Mobile Standard event takes at least one byte and ends inside the input.
pub proof fn lemma_mobile_event_advances(s: Seq<u8>, pos: int)
    requires
        pos >= 0,
        mobile_event_at(s, pos) is Some,
    ensures
        pos < mobile_event_at(s, pos).unwrap().1 <= s.len(),
{
    lemma_varint_advances(s, pos);
    let p = varint_at(s, pos).unwrap().1;
    let status = s[p];
    if 0x80 <= status <= 0x8f {
        lemma_varint_advances(s, p + 2);
    } else if 0x90 <= status <= 0x9f {
        lemma_varint_advances(s, p + 3);
    } else if status == 0xf0 {
        lemma_varint_advances(s, p + 1);
    }
}

/// Mobile Standard: the timed events from `pos` up to and including the
/// end-of-sequence mark, which counts as a last event that does nothing, and
/// the position behind the mark. `None` if a byte is missing, a status byte is
/// not defined, or the input ends without the mark.
pub open spec fn mobile_events(s: Seq<u8>, pos: int) -> Option<(Seq<(u32, ScoreEvent)>, int)>
    decreases s.len() - pos,
    via mobile_events_decreases
{
    if pos < 0 {
        None
    } else {
        match mobile_event_at(s, pos) {
            None => None,
            Some((step, next, last)) => if last {
                Some((seq![step], next))
            } else {
                prepend(seq![step], mobile_events(s, next))
            },
        }
    }
}

#[via_fn]
proof fn mobile_events_decreases(s: Seq<u8>, pos: int) {
    if pos >= 0 && mobile_event_at(s, pos) is Some {
        lemma_mobile_event_advances(s, pos);
    }
}

/// Reads the Mobile Standard event at `pos`.
fn read_mobile_event(data: &[u8], pos: usize) -> (r: Option<(SequenceData, usize, bool)>)
    ensures
        match r {
            Some((step, next, last)) => mobile_event_at(data@, pos as int) == Some(
                (step@, next as int, last),
            ) && pos < next <= data@.len(),
            None => mobile_event_at(data@, pos as int) is None,
        },
{
    let n = data.len();
    let (duration, p) = match read_varint(data, pos) {
        Some(x) => x,
        None => {
            return None;
        },
    };
    if p >= n {
        return None;
    }
    let status: u8 = data[p];
    let channel: u8 = status & 0x0f;
    let p = p + 1;
    if 0x80 <= status && status <= 0x8f {
        if p >= n {
            return None;
        }
        let note: u8 = data[p];
        match read_varint(data, p + 1) {
            None => None,
            Some((gate_time, next)) => Some(
                (
                    SequenceData {
                        duration,
                        event: ScoreTrackSequenceEvent::NoteMessage {
                            channel,
                            note,
                            velocity: 64,
                            gate_time,
                        },
                    },
                    next,
                    false,
                ),
            ),
        }
    } else if 0x90 <= status && status <= 0x9f {
        if n - p < 2 {
            return None;
        }
        let note: u8 = data[p];
        let velocity: u8 = data[p + 1];
        match read_varint(data, p + 2) {
            None => None,
            Some((gate_time, next)) => Some(
                (
                    SequenceData {
                        duration,
                        event: ScoreTrackSequenceEvent::NoteMessage {
                            channel,
                            note,
                            velocity,
                            gate_time,
                        },
                    },
                    next,
                    false,
                ),
            ),
        }
    } else if 0xb0 <= status && status <= 0xbf {
        if n - p < 2 {
            return None;
        }
        let event = ScoreTrackSequenceEvent::ControlChange {
            channel,
            control: data[p],
            value: data[p + 1],
        };
        Some((SequenceData { duration, event }, p + 2, false))
    } else if 0xc0 <= status && status <= 0xcf {
        if n - p < 1 {
            return None;
        }
        let event = ScoreTrackSequenceEvent::ProgramChange { channel, program: data[p] };
        Some((SequenceData { duration, event }, p + 1, false))
    } else if 0xe0 <= status && status <= 0xef {
        if n - p < 2 {
            return None;
        }
        let value_lsb: u8 = data[p];
        let value_msb: u8 = data[p + 1];
        let event = ScoreTrackSequenceEvent::PitchBend {
            channel,
            value: ((value_msb as u16) << 8) | (value_lsb as u16),
        };
        Some((SequenceData { duration, event }, p + 2, false))
    } else if status == 0xf0 {
        match read_varint(data, p) {
            None => None,
            Some((len, q)) => {
                if len as usize > n - q {
                    return None;
                }
                let end = q + len as usize;
                let bytes = slice_to_vec(slice_subrange(data, q, end));
                Some(
                    (
                        SequenceData { duration, event: ScoreTrackSequenceEvent::Exclusive(bytes) },
                        end,
                        false,
                    ),
                )
            },
        }
    } else if status == 0xff {
        if p >= n {
            return None;
        }
        let second: u8 = data[p];
        if second == 0x2f && n - p >= 2 {
            Some((SequenceData { duration, event: ScoreTrackSequenceEvent::Nop }, p + 2, true))
        } else if second == 0x00 {
            Some((SequenceData { duration, event: ScoreTrackSequenceEvent::Nop }, p + 1, false))
        } else {
            None
        }
    } else {
        None
    }
}

/// Handy Phone: the extended event that the code `b` selects when it takes an
/// operand byte `v`; `None` for a code that takes none. The short pitch bend
/// is tested before volume, pan and expression.
pub open spec fn handy_operand_event(b: u8, v: u8) -> Option<ScoreEvent> {
    let channel = (b & 0xc0) >> 6;
    let kind = b & 0x3f;
    if kind == 0x30 {
        Some(ScoreEvent::ProgramChange { channel, program: v })
    } else if kind == 0x31 {
        Some(ScoreEvent::BankSelect { channel, value: v })
    } else if kind == 0x32 {
        Some(ScoreEvent::OctaveShift { channel, value: v })
    } else if kind == 0x33 {
        Some(ScoreEvent::Modulation { channel, value: v })
    } else if kind == 0x38 {
        Some(ScoreEvent::PitchBend { channel, value: v as u16 })
    } else if b & 0x30 == 0x10 {
        None
    } else if kind == 0x37 {
        Some(ScoreEvent::Volume { channel, value: v })
    } else if kind == 0x3a {
        Some(ScoreEvent::Pan { channel, value: v })
    } else if kind == 0x3b {
        Some(ScoreEvent::Expression { channel, value: v })
    } else {
        None
    }
}

/// Handy Phone: the extended event that a code without operand stands for, its
/// value in the low four bits; `None` for a code that is not defined.
pub open spec fn handy_short_event(b: u8) -> Option<ScoreEvent> {
    let channel = (b & 0xc0) >> 6;
    if b & 0x30 == 0x10 {
        Some(ScoreEvent::PitchBend { channel, value: (b & 0x0f) as u16 })
    } else if b & 0x30 == 0x00 {
        Some(ScoreEvent::Expression { channel, value: b & 0x0f })
    } else {
        None
    }
}

/// Handy Phone: what the status byte `status` starts, with its operands from
/// `p` on, and the position behind it. The inner `None` is a code that is not
/// defined and is passed over.
pub open spec fn handy_body(s: Seq<u8>, status: u8, p: int) -> Option<(Option<ScoreEvent>, int)> {
    if status == 0x00 {
        if p < s.len() {
            if handy_operand_event(s[p], 0) is Some {
                if p + 1 < s.len() {
                    Some((handy_operand_event(s[p], s[p + 1]), p + 2))
                } else {
                    None
                }
            } else {
                Some((handy_short_event(s[p]), p + 1))
            }
        } else {
            None
        }
    } else if status == 0xff {
        if p < s.len() && s[p] == 0xf0 && p + 1 < s.len() && p + 2 + s[p + 1] <= s.len() {
            Some((Some(ScoreEvent::Exclusive(s.subrange(p + 2, p + 2 + s[p + 1]))), p + 2 + s[p + 1]))
        } else if p < s.len() && s[p] == 0x00 {
            Some((Some(ScoreEvent::Nop), p + 1))
        } else {
            None
        }
    } else {
        match varint_at(s, p) {
            None => None,
            Some((gate_time, next)) => Some(
                (
                    Some(
                        ScoreEvent::NoteMessage {
                            channel: (status & 0xc0) >> 6,
                            note: ((status & 0x0f) + ((status & 0x30) >> 4) * 12) as u8,
                            velocity: 64,
                            gate_time,
                        },
                    ),
                    next,
                ),
            ),
        }
    }
}

/// Handy Phone: the timed event that starts at `pos`, if its code is defined,
/// and the position behind it.
pub open spec fn handy_event_at(s: Seq<u8>, pos: int) -> Option<(Option<(u32, ScoreEvent)>, int)> {
    match varint_at(s, pos) {
        None => None,
        Some((duration, p)) => if p < s.len() {
            match handy_body(s, s[p], p + 1) {
                None => None,
                Some((None, next)) => Some((None, next)),
                Some((Some(event), next)) => Some((Some((duration, event)), next)),
            }
        } else {
            None
        },
    }
}

/// Whether four zero bytes stand at `pos`.
pub open spec fn four_zeros(s: Seq<u8>, pos: int) -> bool {
    0 <= pos && pos + 4 <= s.len() && s[pos] == 0 && s[pos + 1] == 0 && s[pos + 2] == 0 && s[pos
        + 3] == 0
}

/// A Handy Phone event takes at least one byte and ends inside the input.
pub proof fn lemma_handy_event_advances(s: Seq<u8>, pos: int)
    requires
        pos >= 0,
        handy_event_at(s, pos) is Some,
    ensures
        pos < handy_event_at(s, pos).unwrap().1 <= s.len(),
{
    lemma_varint_advances(s, pos);
    let p = varint_at(s, pos).unwrap().1;
    let status = s[p];
    if status != 0x00 && status != 0xff {
        lemma_varint_advances(s, p + 1);
    }
}

/// Handy Phone: the timed events from `pos` to the end of the input or to the
/// first four zero bytes found where an event would start, and the position
/// where decoding stopped (behind the zeros). `None` if a byte is missing or a
/// meta code is not defined.
pub open spec fn handy_events(s: Seq<u8>, pos: int) -> Option<(Seq<(u32, ScoreEvent)>, int)>
    decreases s.len() - pos,
    via handy_events_decreases
{
    if pos < 0 {
        None
    } else if pos >= s.len() {
        Some((Seq::empty(), pos))
    } else if four_zeros(s, pos) {
        Some((Seq::empty(), pos + 4))
    } else {
        match handy_event_at(s, pos) {
            None => None,
            Some((None, next)) => handy_events(s, next),
            Some((Some(step), next)) => prepend(seq![step], handy_events(s, next)),
        }
    }
}

#[via_fn]
proof fn handy_events_decreases(s: Seq<u8>, pos: int) {
    if pos >= 0 && handy_event_at(s, pos) is Some {
        lemma_handy_event_advances(s, pos);
    }
}

/// The fields of a Handy Phone status or code byte stay inside their widths.
proof fn lemma_handy_fields(b: u8)
    by (bit_vector)
    ensures
        b & 0x0f <= 15,
        (b & 0x30) >> 4 <= 3,
        (b & 0xc0) >> 6 <= 3,
{
}

/// Builds the extended event that `b` selects with operand `v`.
fn operand_event(b: u8, v: u8) -> (r: Option<ScoreTrackSequenceEvent>)
    ensures
        match r {
            Some(e) => handy_operand_event(b, v) == Some(e@),
            None => handy_operand_event(b, v) is None,
        },
{
    let channel: u8 = (b & 0xc0) >> 6;
    let kind: u8 = b & 0x3f;
    if kind == 0x30 {
        Some(ScoreTrackSequenceEvent::ProgramChange { channel, program: v })
    } else if kind == 0x31 {
        Some(ScoreTrackSequenceEvent::BankSelect { channel, value: v })
    } else if kind == 0x32 {
        Some(ScoreTrackSequenceEvent::OctaveShift { channel, value: v })
    } else if kind == 0x33 {
        Some(ScoreTrackSequenceEvent::Modulation { channel, value: v })
    } else if kind == 0x38 {
        Some(ScoreTrackSequenceEvent::PitchBend { channel, value: v as u16 })
    } else if b & 0x30 == 0x10 {
        None
    } else if kind == 0x37 {
        Some(ScoreTrackSequenceEvent::Volume { channel, value: v })
    } else if kind == 0x3a {
        Some(ScoreTrackSequenceEvent::Pan { channel, value: v })
    } else if kind == 0x3b {
        Some(ScoreTrackSequenceEvent::Expression { channel, value: v })
    } else {
        None
    }
}

/// Builds the extended event that the code `b` stands for by itself.
fn short_event(b: u8) -> (r: Option<ScoreTrackSequenceEvent>)
    ensures
        match r {
            Some(e) => handy_short_event(b) == Some(e@),
            None => handy_short_event(b) is None,
        },
{
    let channel: u8 = (b & 0xc0) >> 6;
    if b & 0x30 == 0x10 {
        Some(ScoreTrackSequenceEvent::PitchBend { channel, value: (b & 0x0f) as u16 })
    } else if b & 0x30 == 0x00 {
        Some(ScoreTrackSequenceEvent::Expression { channel, value: b & 0x0f })
    } else {
        None
    }
}

/// Reads the Handy Phone event at `pos`.
fn read_handy_event(data: &[u8], pos: usize) -> (r: Option<(Option<SequenceData>, usize)>)
    ensures
        match r {
            Some((Some(step), next)) => handy_event_at(data@, pos as int) == Some(
                (Some(step@), next as int),
            ) && pos < next <= data@.len(),
            Some((None, next)) => handy_event_at(data@, pos as int) == Some(
                (None::<(u32, ScoreEvent)>, next as int),
            ) && pos < next <= data@.len(),
            None => handy_event_at(data@, pos as int) is None,
        },
{
    let n = data.len();
    let (duration, p) = match read_varint(data, pos) {
        Some(x) => x,
        None => {
            return None;
        },
    };
    if p >= n {
        return None;
    }
    let status: u8 = data[p];
    let p = p + 1;
    if status == 0x00 {
        if p >= n {
            return None;
        }
        let b: u8 = data[p];
        if operand_event(b, 0).is_some() {
            if n - p < 2 {
                return None;
            }
            match operand_event(b, data[p + 1]) {
                Some(event) => Some((Some(SequenceData { duration, event }), p + 2)),
                None => Some((None, p + 2)),
            }
        } else {
            match short_event(b) {
                Some(event) => Some((Some(SequenceData { duration, event }), p + 1)),
                None => Some((None, p + 1)),
            }
        }
    } else if status == 0xff {
        if p >= n {
            return None;
        }
        let b: u8 = data[p];
        if b == 0xf0 && n - p >= 2 && data[p + 1] as usize <= n - p - 2 {
            let start = p + 2;
            let end = start + data[p + 1] as usize;
            let bytes = slice_to_vec(slice_subrange(data, start, end));
            Some(
                (
                    Some(SequenceData { duration, event: ScoreTrackSequenceEvent::Exclusive(bytes) }),
                    end,
                ),
            )
        } else if b == 0x00 {
            Some((Some(SequenceData { duration, event: ScoreTrackSequenceEvent::Nop }), p + 1))
        } else {
            None
        }
    } else {
        match read_varint(data, p) {
            None => None,
            Some((gate_time, next)) => {
                proof {
                    lemma_handy_fields(status);
                }
                let octave: u8 = (status & 0x30) >> 4;
                let event = ScoreTrackSequenceEvent::NoteMessage {
                    channel: (status & 0xc0) >> 6,
                    note: (status & 0x0f) + octave * 12,
                    velocity: 64,
                    gate_time,
                };
                Some((Some(SequenceData { duration, event }), next))
            },
        }
    }
}

impl SequenceData {
    /// Decodes a Mobile Standard sequence from the front of `input`: what
    /// follows the end-of-sequence mark, and the events.
    pub fn parse_mobile(input: &[u8]) -> (r: Option<(&[u8], Vec<SequenceData>)>)
        ensures
            match r {
                Some((rest, events)) => mobile_events(input@, 0) is Some && 0 <= mobile_events(
                    input@,
                    0,
                ).unwrap().1 <= input@.len() && steps_of(events@)
                    == mobile_events(input@, 0).unwrap().0 && rest@ == input@.subrange(
                    mobile_events(input@, 0).unwrap().1,
                    input@.len() as int,
                ),
                None => mobile_events(input@, 0) is None,
            },
    {
        let mut out: Vec<SequenceData> = Vec::new();
        let mut at: usize = 0;
        loop
            invariant
                at <= input@.len(),
                mobile_events(input@, 0) == prepend(steps_of(out@), mobile_events(input@, at as int)),
            decreases input@.len() - at,
        {
            match read_mobile_event(input, at) {
                None => {
                    return None;
                },
                Some((step, next, last)) => {
                    proof {
                        assert(steps_of(out@.push(step)) =~= steps_of(out@).push(step@));
                        if last {
                            assert(steps_of(out@) + seq![step@] =~= steps_of(out@).push(step@));
                        } else {
                            lemma_prepend_push(
                                steps_of(out@),
                                step@,
                                mobile_events(input@, next as int),
                            );
                        }
                    }
                    out.push(step);
                    at = next;
                    if last {
                        return Some((slice_subrange(input, at, input.len()), out));
                    }
                },
            }
        }
    }
    /// Decodes a Handy Phone sequence from the front of `input`: what follows
    /// the place where decoding stopped, and the events.
    pub fn parse_handy(input: &[u8]) -> (r: Option<(&[u8], Vec<SequenceData>)>)
        ensures
            match r {
                Some((rest, events)) => handy_events(input@, 0) is Some && 0 <= handy_events(
                    input@,
                    0,
                ).unwrap().1 <= input@.len() && steps_of(events@)
                    == handy_events(input@, 0).unwrap().0 && rest@ == input@.subrange(
                    handy_events(input@, 0).unwrap().1,
                    input@.len() as int,
                ),
                None => handy_events(input@, 0) is None,
            },
    {
        let n = input.len();
        let mut out: Vec<SequenceData> = Vec::new();
        let mut at: usize = 0;
        loop
            invariant
                n == input@.len(),
                at <= n,
                handy_events(input@, 0) == prepend(steps_of(out@), handy_events(input@, at as int)),
            decreases n - at,
        {
            if at >= n {
                proof {
                    lemma_prepend_empty(steps_of(out@), at as int);
                }
                return Some((slice_subrange(input, at, n), out));
            }
            if n - at >= 4 && input[at] == 0 && input[at + 1] == 0 && input[at + 2] == 0 && input[at
                + 3] == 0 {
                proof {
                    lemma_prepend_empty(steps_of(out@), at + 4);
                }
                return Some((slice_subrange(input, at + 4, n), out));
            }
            match read_handy_event(input, at) {
                None => {
                    return None;
                },
                Some((None, next)) => {
                    at = next;
                },
                Some((Some(step), next)) => {
                    proof {
                        assert(steps_of(out@.push(step)) =~= steps_of(out@).push(step@));
                        lemma_prepend_push(steps_of(out@), step@, handy_events(input@, next as int));
                    }
                    out.push(step);
                    at = next;
                },
            }
        }
    }
}

} // verus!
