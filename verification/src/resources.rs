use vstd::prelude::*;
use crate::events::Event;

verus! {

/// A key as far as the game tells keys apart: the four directions, and
/// everything else.
#[derive(Debug, Clone, Copy, PartialEq, Eq, Structural)]
pub enum KeyCode {
    Up,
    Down,
    Left,
    Right,
    Other,
}

/// Keys pressed since the last tick, oldest first. A tick consumes the most
/// recent one; older keys wait for later ticks.
#[derive(Debug)]
pub struct InputQueue {
    pub keys_pressed: Vec<KeyCode>,
}

impl Default for InputQueue {
    fn default() -> (q: Self)
        ensures
            q.keys_pressed@ == Seq::<KeyCode>::empty(),
    {
        InputQueue { keys_pressed: Vec::new() }
    }
}

impl InputQueue {
    /// Records a key press as the most recent one.
    pub fn push(&mut self, key: KeyCode)
        ensures
            final(self).keys_pressed@ == old(self).keys_pressed@.push(key),
    {
        self.keys_pressed.push(key);
    }

    /// Takes the most recent key press, if there is one.
    pub fn pop(&mut self) -> (key: Option<KeyCode>)
        ensures
            old(self).keys_pressed@.len() == 0 ==> key.is_none() && final(self).keys_pressed@
                == old(self).keys_pressed@,
            old(self).keys_pressed@.len() > 0 ==> key == Some(old(self).keys_pressed@.last())
                && final(self).keys_pressed@ == old(self).keys_pressed@.drop_last(),
    {
        self.keys_pressed.pop()
    }
}

#[derive(Debug, Clone, Copy, PartialEq, Eq, Structural)]
pub enum GameplayState {
    Playing,
    Won,
}

impl Default for GameplayState {
    fn default() -> (s: Self)
        ensures
            s == GameplayState::Playing,
    {
        Self::Playing
    }
}

impl GameplayState {
    /// The text shown on screen for the state.
    pub open spec fn name_spec(self) -> Seq<char> {
        match self {
            GameplayState::Playing => "Playing"@,
            GameplayState::Won => "Won"@,
        }
    }

    pub fn to_string(&self) -> (s: String)
        ensures
            s@ == self.name_spec(),
    {
        match self {
            GameplayState::Playing => "Playing".to_string(),
            GameplayState::Won => "Won".to_string(),
        }
    }
}

/// Progress of one session: whether the level is solved, and how many moves
/// the player has made.
#[derive(Debug, Clone, Copy, PartialEq, Eq, Structural)]
pub struct Gameplay {
    pub state: GameplayState,
    pub moves_count: u32,
}

impl Default for Gameplay {
    fn default() -> (g: Self)
        ensures
            g.state == GameplayState::Playing,
            g.moves_count == 0,
    {
        Gameplay { state: GameplayState::Playing, moves_count: 0 }
    }
}

/// Time elapsed since the session began, in whole milliseconds.
#[derive(Debug, Clone, Copy, PartialEq, Eq, Structural)]
pub struct Time {
    pub delta_millis: u128,
}

impl Default for Time {
    fn default() -> (t: Self)
        ensures
            t.delta_millis == 0,
    {
        Time { delta_millis: 0 }
    }
}

/// Events raised during the current tick, in the order they were raised.
#[derive(Debug)]
pub struct EventQueue {
    pub events: Vec<Event>,
}

impl Default for EventQueue {
    fn default() -> (q: Self)
        ensures
            q.events@ == Seq::<Event>::empty(),
    {
        EventQueue { events: Vec::new() }
    }
}

} // verus!
