//! Playing a schedule against a clock: what to do next, given the time that
//! has passed and whether playback was cancelled. The caller owns the clock,
//! the sleeping and the backend; the player only decides.

use vstd::prelude::*;
use crate::timeline::SmafEvent;

verus! {

/// What the caller of a player has to do next.
#[derive(PartialEq, Eq, Structural, Clone, Copy, Debug)]
pub enum PlayerAction {
    /// Sleep for this many milliseconds, then ask again.
    Wait(u64),
    /// Hand the event with this index to the backend, then ask again.
    Emit(usize),
    /// Stop: everything was played, or playback was cancelled.
    Finished,
}

/// A schedule and how far it has been played.
pub struct Player {
    /// The timed events, in the order in which they are handed out.
    pub events: Vec<(usize, SmafEvent)>,
    /// The index of the next event to hand out.
    pub position: usize,
}

impl Player {
    /// The position lies inside the schedule or at its end.
    pub open spec fn wf(self) -> bool {
        self.position <= self.events@.len()
    }

    /// What is to be done when `elapsed` milliseconds have passed since
    /// playback started: nothing more once playback is cancelled or the
    /// schedule is used up; else wait for the next event until it is due, and
    /// emit it when it is.
    pub open spec fn decide(self, elapsed: u64, cancelled: bool) -> PlayerAction {
        if cancelled || self.position >= self.events@.len() {
            PlayerAction::Finished
        } else if self.events@[self.position as int].0 > elapsed {
            PlayerAction::Wait((self.events@[self.position as int].0 - elapsed) as u64)
        } else {
            PlayerAction::Emit(self.position)
        }
    }

    /// Tests whether the player is well-formed.
    pub fn is_wf(&self) -> (r: bool)
        ensures
            r == self.wf(),
    {
        self.position <= self.events.len()
    }

    /// A player at the start of a schedule.
    pub fn new(events: Vec<(usize, SmafEvent)>) -> (player: Player)
        ensures
            player.wf(),
            player.position == 0,
            player.events == events,
    {
        Player { events, position: 0 }
    }

    /// Decides what to do next and, if that is to emit an event, moves on to
    /// the event after it. Cancellation is looked at before anything else and
    /// leaves the player as it is.
    pub fn next_action(&mut self, elapsed: u64, cancelled: bool) -> (action: PlayerAction)
        requires
            old(self).wf(),
        ensures
            final(self).wf(),
            action == old(self).decide(elapsed, cancelled),
            final(self).events == old(self).events,
            final(self).position == match action {
                PlayerAction::Emit(_) => old(self).position + 1,
                _ => old(self).position as int,
            },
    {
        if cancelled || self.position >= self.events.len() {
            return PlayerAction::Finished;
        }
        let due = self.events[self.position].0 as u64;
        if due > elapsed {
            PlayerAction::Wait(due - elapsed)
        } else {
            let index = self.position;
            self.position = index + 1;
            PlayerAction::Emit(index)
        }
    }

    /// The event with the given index.
    pub fn event(&self, index: usize) -> (event: &SmafEvent)
        requires
            index < self.events@.len(),
        ensures
            *event == self.events@[index as int].1,
    {
        &self.events[index].1
    }
}

/// Once playback is cancelled a player hands out no event and asks for no
/// wait, whatever its schedule, its position and the time.
pub proof fn lemma_cancelled_player_is_silent(player: Player, elapsed: u64)
    ensures
        player.decide(elapsed, true) == PlayerAction::Finished,
{
}

/// An event is handed out only when it is due, and in the order of the
/// schedule: the event emitted is the one at the player's position, and its
/// time has come.
pub proof fn lemma_emitted_event_is_due(player: Player, elapsed: u64, cancelled: bool, index: usize)
    requires
        player.wf(),
        player.decide(elapsed, cancelled) == PlayerAction::Emit(index),
    ensures
        !cancelled,
        index == player.position,
        index < player.events@.len(),
        player.events@[index as int].0 <= elapsed,
{
}

} // verus!
