//! One session: the board, the held keys, and the decisions of the loop.
//!
//! The loop around a session runs a tick, draws the board, hands over the
//! input events one by one, and then lets the held keys take effect. It
//! ends as soon as the session answers `Flow::Stop`.

use vstd::prelude::*;
use crate::board::Board;
use crate::events::{intents_of, keys_after, Events, Intent, Key, KeyState};
use crate::state::BoardState;

verus! {

/// What the input source reports.
#[derive(Clone, Copy, Debug, PartialEq, Eq, Structural)]
pub enum Event {
    /// The window was closed.
    Closed,
    /// A key went down or came up.
    Keyboard(KeyState, Key),
}

/// Whether the loop goes on.
#[derive(Clone, Copy, Debug, PartialEq, Eq, Structural)]
pub enum Flow {
    Continue,
    Stop,
}

/// A session as a mathematical value.
pub struct GameState {
    pub board: BoardState,
    pub held: Set<Key>,
}

/// A running session.
pub struct Game {
    board: Board,
    events: Events,
}

impl View for Game {
    type V = GameState;

    closed spec fn view(&self) -> GameState {
        GameState { board: self.board@, held: self.events@ }
    }
}

impl GameState {
    /// Whether the board is a valid one.
    pub open spec fn wf(self) -> bool {
        self.board.wf()
    }

    /// The session after the input source reported `event`: a key event
    /// updates the held keys, closing the window changes nothing.
    pub open spec fn after_event(self, event: Event) -> GameState {
        match event {
            Event::Closed => self,
            Event::Keyboard(keystate, key) => GameState {
                held: keys_after(self.held, keystate, key),
                ..self
            },
        }
    }

    /// The session after the held keys took effect on the board.
    pub open spec fn after_input(self) -> GameState {
        GameState { board: self.board.applied_all(intents_of(self.held)), ..self }
    }
}

impl Game {
    /// A session on a new board, with no key held.
    pub fn new() -> (game: Game)
        ensures
            game@.board == BoardState::initial(),
            game@.held == Set::<Key>::empty(),
            game@.wf(),
    {
        Game { board: Board::new(), events: Events::new() }
    }

    /// A session on the given board, with no key held.
    pub fn with_board(board: Board) -> (game: Game)
        requires
            board@.wf(),
        ensures
            game@.board == board@,
            game@.held == Set::<Key>::empty(),
            game@.wf(),
    {
        Game { board, events: Events::new() }
    }

    /// Whether the session is a valid one. Every session that the
    /// functions of this type build or leave behind is.
    pub fn is_wf(&self) -> (valid: bool)
        ensures
            valid == self@.wf(),
    {
        self.board.is_wf()
    }

    /// The board, to draw it.
    pub fn board(&self) -> (board: &Board)
        ensures
            board@ == self@.board,
    {
        &self.board
    }

    /// The held keys.
    pub fn events(&self) -> (events: &Events)
        ensures
            events@ == self@.held,
    {
        &self.events
    }

    /// Runs one tick of the simulation on the board.
    pub fn step(&mut self)
        requires
            old(self)@.wf(),
        ensures
            final(self)@.board == old(self)@.board.ticked(),
            final(self)@.held == old(self)@.held,
            final(self)@.wf(),
    {
        self.board.step();
    }

    /// Takes one event from the input source. Closing the window stops the
    /// loop; a key event updates the held keys and lets it go on.
    pub fn handle_event(&mut self, event: Event) -> (flow: Flow)
        ensures
            final(self)@ == old(self)@.after_event(event),
            flow == if event == Event::Closed {
                Flow::Stop
            } else {
                Flow::Continue
            },
    {
        match event {
            Event::Closed => Flow::Stop,
            Event::Keyboard(keystate, key) => {
                self.events.update_keysdown(keystate, key);
                Flow::Continue
            },
        }
    }

    /// Lets the held keys take effect on the board: turning, thrust and
    /// fire, in the order left, right, up, down, fire. Holding the quit key
    /// stops the loop.
    pub fn apply_input(&mut self) -> (flow: Flow)
        requires
            old(self)@.wf(),
        ensures
            final(self)@ == old(self)@.after_input(),
            final(self)@.wf(),
            flow == if old(self)@.held.contains(Key::Quit) {
                Flow::Stop
            } else {
                Flow::Continue
            },
    {
        let intents: Vec<Intent> = self.events.intents();
        self.board.apply_all(&intents);
        if self.events.is_down(Key::Quit) {
            Flow::Stop
        } else {
            Flow::Continue
        }
    }
}

} // verus!
