//! Playing one track against a clock. A player is asked, with the time that
//! the clock shows and whether playback was cancelled, what to do next: sleep,
//! hand an event to the backend, or stop. The caller owns the clock, the
//! sleeping and the backend, and asks again after each answer.

use vstd::prelude::*;
use crate::error::PlayError;
use crate::pcm_audio_track::PCMAudioTrack;
use crate::score_sequence::ScoreEvent;
use crate::score_track::ScoreTrack;
use crate::timeline::{
    advance, cues_of, find_pcm_sequence, find_score_sequence, insert_by_time, insert_timed,
    lemma_insert_keeps_order, ordered_by_time, pcm_cues, pcm_event_cues, pcm_sequence_from,
    score_cues, score_event_cues, score_sequence_from, Cue, SmafEvent,
};

verus! {

/// What the caller of a track player has to do next.
#[derive(Debug, Clone, PartialEq, Eq)]
pub enum TrackAction {
    /// Sleep until the clock shows this time, then ask again.
    SleepUntil(usize),
    /// Hand this event to the backend, then ask again.
    Emit(SmafEvent),
    /// Nothing for the backend: ask again.
    Idle,
    /// Stop: the track is played, or playback was cancelled.
    Finished,
    /// Stop: the track asks for what cannot be played.
    Failed(PlayError),
}

/// A track action as a mathematical value.
pub enum Step {
    SleepUntil(int),
    Emit(Cue),
    Idle,
    Finished,
    Failed(PlayError),
}

impl View for TrackAction {
    type V = Step;

    open spec fn view(&self) -> Step {
        match *self {
            TrackAction::SleepUntil(time) => Step::SleepUntil(time as int),
            TrackAction::Emit(event) => Step::Emit(event@),
            TrackAction::Idle => Step::Idle,
            TrackAction::Finished => Step::Finished,
            TrackAction::Failed(e) => Step::Failed(e),
        }
    }
}

/// How far a track is played, as a mathematical value.
pub struct PlayerState {
    /// The index of the next event.
    pub index: int,
    /// When the next event is due, once that is settled.
    pub event_start: Option<int>,
    /// The notes that sound, each with the time at which it is to end, in the
    /// order of those times; notes that end together are in the order in which
    /// they began.
    pub pending: Seq<(int, Cue)>,
}

/// The oldest pending note-off: waited for while it is not due, handed out and
/// taken off the list when it is.
pub open spec fn flush(s: PlayerState, now: int) -> (PlayerState, Step) {
    if s.pending[0].0 > now {
        (s, Step::SleepUntil(s.pending[0].0))
    } else {
        (
            PlayerState {
                index: s.index,
                event_start: s.event_start,
                pending: s.pending.drop_first(),
            },
            Step::Emit(s.pending[0].1),
        )
    }
}

/// One step of a score track's player at clock time `now`.
///
/// Cancellation stops the player before anything else. The next event is due
/// its duration, in `timebase_d` milliseconds a tick, after the time at which
/// the player first turned to it. Before it, the pending note-offs that are
/// due earlier are waited for and handed out, oldest first. Then the event is
/// waited for and dispatched: what it asks of the backend is handed out, and
/// the note-off of a note is put on the pending list, due the note's gate
/// time after the present clock time. When no event is left the remaining
/// note-offs are waited for and handed out, and the player stops.
pub open spec fn score_player_step(
    track: ScoreTrack,
    s: PlayerState,
    now: int,
    cancelled: bool,
) -> (PlayerState, Step) {
    let events = score_sequence_from(track.chunks@, 0).unwrap();
    if cancelled {
        (s, Step::Finished)
    } else if s.index >= events.len() {
        if s.pending.len() == 0 {
            (s, Step::Finished)
        } else {
            flush(s, now)
        }
    } else if s.event_start is None && now + events[s.index].duration * track.timebase_d
        > usize::MAX {
        (s, Step::Failed(PlayError::TimeOverflow))
    } else {
        let start = match s.event_start {
            Some(start) => start,
            None => now + events[s.index].duration * track.timebase_d,
        };
        let waiting = PlayerState { index: s.index, event_start: Some(start), pending: s.pending };
        if s.pending.len() > 0 && s.pending[0].0 < start {
            flush(waiting, now)
        } else if start > now {
            (waiting, Step::SleepUntil(start))
        } else {
            match score_cues(track, now, events[s.index].event@) {
                Err(e) => (waiting, Step::Failed(e)),
                Ok(cues) => (
                    PlayerState {
                        index: s.index + 1,
                        event_start: None,
                        pending: if cues.len() >= 2 {
                            insert_by_time(cues[1], s.pending, true)
                        } else {
                            s.pending
                        },
                    },
                    if cues.len() == 0 {
                        Step::Idle
                    } else {
                        Step::Emit(cues[0].1)
                    },
                ),
            }
        }
    }
}

/// The player of one score track.
pub struct ScoreTrackPlayer<'t, 'a> {
    pub track: &'t ScoreTrack<'a>,
    /// The index of the next event.
    pub index: usize,
    /// When the next event is due, once that is settled.
    pub event_start: Option<usize>,
    /// The note-offs that are still to come, in the order of their times.
    pub pending: Vec<(usize, SmafEvent)>,
}

impl<'t, 'a> View for ScoreTrackPlayer<'t, 'a> {
    type V = PlayerState;

    open spec fn view(&self) -> PlayerState {
        PlayerState {
            index: self.index as int,
            event_start: match self.event_start {
                Some(start) => Some(start as int),
                None => None,
            },
            pending: cues_of(self.pending@),
        }
    }
}

impl<'t, 'a> ScoreTrackPlayer<'t, 'a> {
    /// The track has a sequence, and the next event lies in it or at its end.
    pub open spec fn wf(self) -> bool {
        &&& score_sequence_from(self.track.chunks@, 0) is Some
        &&& self.index <= score_sequence_from(self.track.chunks@, 0).unwrap().len()
    }

    /// Tests whether the player is well-formed.
    pub fn is_wf(&self) -> (r: bool)
        ensures
            r == self.wf(),
    {
        match find_score_sequence(self.track) {
            Some(events) => self.index <= events.len(),
            None => false,
        }
    }

    /// A player at the start of a track; fails for a track without a sequence.
    pub fn new(track: &'t ScoreTrack<'a>) -> (r: Result<ScoreTrackPlayer<'t, 'a>, PlayError>)
        ensures
            match r {
                Ok(player) => player.wf() && player.track == track && player@ == (PlayerState {
                    index: 0,
                    event_start: None,
                    pending: Seq::empty(),
                }),
                Err(e) => e == PlayError::MissingSequence && score_sequence_from(track.chunks@, 0)
                    is None,
            },
    {
        match find_score_sequence(track) {
            None => Err(PlayError::MissingSequence),
            Some(_) => {
                let player = ScoreTrackPlayer {
                    track,
                    index: 0,
                    event_start: None,
                    pending: Vec::new(),
                };
                assert(cues_of(player.pending@) =~= Seq::empty());
                Ok(player)
            },
        }
    }

    /// Waits for the oldest pending note-off or hands it out.
    fn flush_next(&mut self, now: usize) -> (action: TrackAction)
        requires
            old(self).wf(),
            old(self).pending@.len() > 0,
        ensures
            final(self).wf(),
            final(self).track == old(self).track,
            (final(self)@, action@) == flush(old(self)@, now as int),
            ordered_by_time(old(self)@.pending) ==> ordered_by_time(final(self)@.pending),
    {
        if self.pending[0].0 > now {
            TrackAction::SleepUntil(self.pending[0].0)
        } else {
            let ghost before = cues_of(self.pending@);
            let item = self.pending.remove(0);
            proof {
                assert(cues_of(self.pending@) =~= before.drop_first());
                if ordered_by_time(before) {
                    assert forall|i: int, j: int|
                        0 <= i <= j < before.drop_first().len() implies before.drop_first()[i].0
                        <= before.drop_first()[j].0 by {
                        assert(before.drop_first()[i] == before[i + 1]);
                        assert(before.drop_first()[j] == before[j + 1]);
                    }
                }
            }
            TrackAction::Emit(item.1)
        }
    }

    /// Says what is to be done at clock time `now`, and moves on. Pending
    /// note-offs that are in the order of their times stay so.
    pub fn step(&mut self, now: usize, cancelled: bool) -> (action: TrackAction)
        requires
            old(self).wf(),
        ensures
            final(self).wf(),
            final(self).track == old(self).track,
            (final(self)@, action@) == score_player_step(
                *old(self).track,
                old(self)@,
                now as int,
                cancelled,
            ),
            ordered_by_time(old(self)@.pending) ==> ordered_by_time(final(self)@.pending),
    {
        if cancelled {
            return TrackAction::Finished;
        }
        let track = self.track;
        let events = match find_score_sequence(track) {
            Some(events) => events,
            None => {
                return TrackAction::Finished;
            },
        };
        if self.index >= events.len() {
            if self.pending.len() == 0 {
                return TrackAction::Finished;
            }
            return self.flush_next(now);
        }
        let start = match self.event_start {
            Some(start) => start,
            None => match advance(now, events[self.index].duration, track.timebase_d) {
                Some(start) => start,
                None => {
                    return TrackAction::Failed(PlayError::TimeOverflow);
                },
            },
        };
        self.event_start = Some(start);
        if self.pending.len() > 0 && self.pending[0].0 < start {
            return self.flush_next(now);
        }
        if start > now {
            return TrackAction::SleepUntil(start);
        }
        let mut cues = match score_event_cues(track, now, &events[self.index].event) {
            Ok(cues) => cues,
            Err(e) => {
                return TrackAction::Failed(e);
            },
        };
        let ghost asked = cues_of(cues@);
        assert(asked.len() <= 2);
        self.index = self.index + 1;
        self.event_start = None;
        if cues.len() == 0 {
            return TrackAction::Idle;
        }
        if cues.len() == 2 {
            match cues.pop() {
                Some(off) => {
                    proof {
                        assert(asked[1] == (off.0 as int, off.1@));
                        if ordered_by_time(cues_of(self.pending@)) {
                            lemma_insert_keeps_order(asked[1], cues_of(self.pending@), true);
                        }
                    }
                    insert_timed(&mut self.pending, off, true);
                },
                None => {},
            }
        }
        match cues.pop() {
            Some(first) => {
                assert(asked[0] == (first.0 as int, first.1@));
                TrackAction::Emit(first.1)
            },
            None => TrackAction::Idle,
        }
    }
}

/// Once playback is cancelled a score track's player hands out nothing, asks
/// for no sleep and stays as it is, whatever its state and the time.
pub proof fn lemma_cancelled_score_player_stops(track: ScoreTrack, s: PlayerState, now: int)
    ensures
        score_player_step(track, s, now, true) == (s, Step::Finished),
{
}

/// Whether a step at `now` dispatches the next event: there is one, it is due,
/// and no pending note-off is due before it.
pub open spec fn dispatches(track: ScoreTrack, s: PlayerState, now: int) -> bool {
    &&& 0 <= s.index < score_sequence_from(track.chunks@, 0).unwrap().len()
    &&& s.event_start is Some
    &&& s.event_start.unwrap() <= now
    &&& s.pending.len() > 0 ==> s.pending[0].0 >= s.event_start.unwrap()
}

/// Dispatching a note other than 0 switches it on and puts its note-off on the
/// pending list, due exactly `gate_time * timebase_g` milliseconds after the
/// time of the dispatch; the list stays in the order of its times.
pub proof fn lemma_dispatched_note_is_ended_after_gate_time(
    track: ScoreTrack,
    s: PlayerState,
    now: int,
    channel: u8,
    note: u8,
    velocity: u8,
    gate_time: u32,
)
    requires
        dispatches(track, s, now),
        ordered_by_time(s.pending),
        score_sequence_from(track.chunks@, 0).unwrap()[s.index].event@ == (
            ScoreEvent::NoteMessage { channel, note, velocity, gate_time }
        ),
        note != 0,
        now + gate_time * track.timebase_g <= usize::MAX,
    ensures
        score_player_step(track, s, now, false).1 == Step::Emit(
            Cue::MidiNoteOn { channel, note, velocity },
        ),
        score_player_step(track, s, now, false).0.pending == insert_by_time(
            (now + gate_time * track.timebase_g, Cue::MidiNoteOff { channel, note, velocity }),
            s.pending,
            true,
        ),
        score_player_step(track, s, now, false).0.pending.to_multiset().count(
            (now + gate_time * track.timebase_g, Cue::MidiNoteOff { channel, note, velocity }),
        ) > 0,
        ordered_by_time(score_player_step(track, s, now, false).0.pending),
        score_player_step(track, s, now, false).0.index == s.index + 1,
{
    lemma_insert_keeps_order(
        (now + gate_time * track.timebase_g, Cue::MidiNoteOff { channel, note, velocity }),
        s.pending,
        true,
    );
}

/// A pending note-off is handed out only when the clock has reached its time,
/// the oldest first; until then the player asks to sleep until exactly that
/// time.
pub proof fn lemma_flush_is_due(s: PlayerState, now: int)
    requires
        s.pending.len() > 0,
    ensures
        flush(s, now).1 is Emit ==> s.pending[0].0 <= now && flush(s, now).1 == Step::Emit(
            s.pending[0].1,
        ),
        !(flush(s, now).1 is Emit) ==> flush(s, now) == (s, Step::SleepUntil(s.pending[0].0))
            && s.pending[0].0 > now,
{
}

/// How far a PCM audio track is played, as a mathematical value: the index of
/// the next event and, once settled, when it is due.
pub struct PcmPlayerState {
    pub index: int,
    pub event_start: Option<int>,
}

/// One step of a PCM audio track's player at clock time `now`: cancellation
/// stops it before anything else; the next event is waited for until its
/// duration has passed since the player first turned to it, and then
/// dispatched; when no event is left the player stops.
pub open spec fn pcm_player_step(
    track: PCMAudioTrack,
    s: PcmPlayerState,
    now: int,
    cancelled: bool,
) -> (PcmPlayerState, Step) {
    let events = pcm_sequence_from(track.chunks@, 0).unwrap();
    if cancelled || s.index >= events.len() {
        (s, Step::Finished)
    } else if s.event_start is None && now + events[s.index].duration * track.timebase_d
        > usize::MAX {
        (s, Step::Failed(PlayError::TimeOverflow))
    } else {
        let start = match s.event_start {
            Some(start) => start,
            None => now + events[s.index].duration * track.timebase_d,
        };
        let waiting = PcmPlayerState { index: s.index, event_start: Some(start) };
        if start > now {
            (waiting, Step::SleepUntil(start))
        } else {
            match pcm_cues(track, now, events[s.index].event@) {
                Err(e) => (waiting, Step::Failed(e)),
                Ok(cues) => (
                    PcmPlayerState { index: s.index + 1, event_start: None },
                    if cues.len() == 0 {
                        Step::Idle
                    } else {
                        Step::Emit(cues[0].1)
                    },
                ),
            }
        }
    }
}

/// The player of one PCM audio track.
pub struct PcmAudioTrackPlayer<'t, 'a> {
    pub track: &'t PCMAudioTrack<'a>,
    /// The index of the next event.
    pub index: usize,
    /// When the next event is due, once that is settled.
    pub event_start: Option<usize>,
}

impl<'t, 'a> View for PcmAudioTrackPlayer<'t, 'a> {
    type V = PcmPlayerState;

    open spec fn view(&self) -> PcmPlayerState {
        PcmPlayerState {
            index: self.index as int,
            event_start: match self.event_start {
                Some(start) => Some(start as int),
                None => None,
            },
        }
    }
}

impl<'t, 'a> PcmAudioTrackPlayer<'t, 'a> {
    /// The track has a sequence, and the next event lies in it or at its end.
    pub open spec fn wf(self) -> bool {
        &&& pcm_sequence_from(self.track.chunks@, 0) is Some
        &&& self.index <= pcm_sequence_from(self.track.chunks@, 0).unwrap().len()
    }

    /// Tests whether the player is well-formed.
    pub fn is_wf(&self) -> (r: bool)
        ensures
            r == self.wf(),
    {
        match find_pcm_sequence(self.track) {
            Some(events) => self.index <= events.len(),
            None => false,
        }
    }

    /// A player at the start of a track; fails for a track without a sequence.
    pub fn new(track: &'t PCMAudioTrack<'a>) -> (r: Result<PcmAudioTrackPlayer<'t, 'a>, PlayError>)
        ensures
            match r {
                Ok(player) => player.wf() && player.track == track && player@ == (PcmPlayerState {
                    index: 0,
                    event_start: None,
                }),
                Err(e) => e == PlayError::MissingSequence && pcm_sequence_from(track.chunks@, 0)
                    is None,
            },
    {
        match find_pcm_sequence(track) {
            None => Err(PlayError::MissingSequence),
            Some(_) => Ok(PcmAudioTrackPlayer { track, index: 0, event_start: None }),
        }
    }

    /// Says what is to be done at clock time `now`, and moves on.
    pub fn step(&mut self, now: usize, cancelled: bool) -> (action: TrackAction)
        requires
            old(self).wf(),
        ensures
            final(self).wf(),
            final(self).track == old(self).track,
            (final(self)@, action@) == pcm_player_step(
                *old(self).track,
                old(self)@,
                now as int,
                cancelled,
            ),
    {
        if cancelled {
            return TrackAction::Finished;
        }
        let track = self.track;
        let events = match find_pcm_sequence(track) {
            Some(events) => events,
            None => {
                return TrackAction::Finished;
            },
        };
        if self.index >= events.len() {
            return TrackAction::Finished;
        }
        let start = match self.event_start {
            Some(start) => start,
            None => match advance(now, events[self.index].duration, track.timebase_d) {
                Some(start) => start,
                None => {
                    return TrackAction::Failed(PlayError::TimeOverflow);
                },
            },
        };
        self.event_start = Some(start);
        if start > now {
            return TrackAction::SleepUntil(start);
        }
        let mut cues = match pcm_event_cues(track, now, &events[self.index].event) {
            Ok(cues) => cues,
            Err(e) => {
                return TrackAction::Failed(e);
            },
        };
        let ghost asked = cues_of(cues@);
        assert(asked.len() <= 1);
        self.index = self.index + 1;
        self.event_start = None;
        match cues.pop() {
            Some(first) => {
                assert(asked[0] == (first.0 as int, first.1@));
                TrackAction::Emit(first.1)
            },
            None => TrackAction::Idle,
        }
    }
}

/// Once playback is cancelled a PCM audio track's player hands out nothing,
/// asks for no sleep and stays as it is, whatever its state and the time.
pub proof fn lemma_cancelled_pcm_player_stops(track: PCMAudioTrack, s: PcmPlayerState, now: int)
    ensures
        pcm_player_step(track, s, now, true) == (s, Step::Finished),
{
}

} // verus!
