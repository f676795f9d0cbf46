//! Held keys and the intents they stand for.
//!
//! The input source reports key presses and releases. `Events` remembers
//! which keys are down; once per tick the held keys are read off as
//! intents, always in the order left, right, up, down, fire, quit.

use vstd::prelude::*;

verus! {

/// The keys the simulation listens to.
#[derive(Clone, Copy, Debug, PartialEq, Eq, Structural)]
pub enum Key {
    Left,
    Right,
    Up,
    Down,
    Fire,
    Quit,
}

/// Whether a key went down or came up.
#[derive(Clone, Copy, Debug, PartialEq, Eq, Structural)]
pub enum KeyState {
    Pressed,
    Released,
}

/// What a held key asks for in one tick.
#[derive(Clone, Copy, Debug, PartialEq, Eq, Structural)]
pub enum Intent {
    TurnLeft,
    TurnRight,
    Thrust,
    Reverse,
    Fire,
    Quit,
}

/// The intent that holding `key` expresses.
pub open spec fn intent_of(key: Key) -> Intent {
    match key {
        Key::Left => Intent::TurnLeft,
        Key::Right => Intent::TurnRight,
        Key::Up => Intent::Thrust,
        Key::Down => Intent::Reverse,
        Key::Fire => Intent::Fire,
        Key::Quit => Intent::Quit,
    }
}

/// The intent of `key` if it is held, as a sequence of one or none.
pub open spec fn intent_if_held(held: Set<Key>, key: Key) -> Seq<Intent> {
    if held.contains(key) {
        seq![intent_of(key)]
    } else {
        Seq::empty()
    }
}

/// The intents of the held keys, in the order left, right, up, down, fire,
/// quit.
pub open spec fn intents_of(held: Set<Key>) -> Seq<Intent> {
    intent_if_held(held, Key::Left) + intent_if_held(held, Key::Right) + intent_if_held(
        held,
        Key::Up,
    ) + intent_if_held(held, Key::Down) + intent_if_held(held, Key::Fire) + intent_if_held(
        held,
        Key::Quit,
    )
}

/// The held keys after `key` went down or came up.
pub open spec fn keys_after(held: Set<Key>, keystate: KeyState, key: Key) -> Set<Key> {
    match keystate {
        KeyState::Pressed => held.insert(key),
        KeyState::Released => held.remove(key),
    }
}

impl Key {
    /// The intent that holding the key expresses.
    pub fn intent(self) -> (intent: Intent)
        ensures
            intent == intent_of(self),
    {
        match self {
            Key::Left => Intent::TurnLeft,
            Key::Right => Intent::TurnRight,
            Key::Up => Intent::Thrust,
            Key::Down => Intent::Reverse,
            Key::Fire => Intent::Fire,
            Key::Quit => Intent::Quit,
        }
    }
}

/// The set of keys that are down.
#[derive(Clone, Copy, Debug)]
pub struct Events {
    left: bool,
    right: bool,
    up: bool,
    down: bool,
    fire: bool,
    quit: bool,
}

impl View for Events {
    type V = Set<Key>;

    closed spec fn view(&self) -> Set<Key> {
        Set::new(
            |key: Key|
                match key {
                    Key::Left => self.left,
                    Key::Right => self.right,
                    Key::Up => self.up,
                    Key::Down => self.down,
                    Key::Fire => self.fire,
                    Key::Quit => self.quit,
                },
        )
    }
}

impl Events {
    /// No key is down.
    pub fn new() -> (events: Events)
        ensures
            events@ == Set::<Key>::empty(),
    {
        let events = Events {
            left: false,
            right: false,
            up: false,
            down: false,
            fire: false,
            quit: false,
        };
        assert(events@ =~= Set::<Key>::empty());
        events
    }

    /// Records that `key` went down or came up. Pressing a key that is down
    /// and releasing one that is up change nothing.
    pub fn update_keysdown(&mut self, keystate: KeyState, key: Key)
        ensures
            final(self)@ == keys_after(old(self)@, keystate, key),
    {
        let down: bool = match keystate {
            KeyState::Pressed => true,
            KeyState::Released => false,
        };
        match key {
            Key::Left => {
                self.left = down;
            },
            Key::Right => {
                self.right = down;
            },
            Key::Up => {
                self.up = down;
            },
            Key::Down => {
                self.down = down;
            },
            Key::Fire => {
                self.fire = down;
            },
            Key::Quit => {
                self.quit = down;
            },
        }
        assert(self@ =~= keys_after(old(self)@, keystate, key));
    }

    /// Whether `key` is down.
    pub fn is_down(&self, key: Key) -> (down: bool)
        ensures
            down == self@.contains(key),
    {
        match key {
            Key::Left => self.left,
            Key::Right => self.right,
            Key::Up => self.up,
            Key::Down => self.down,
            Key::Fire => self.fire,
            Key::Quit => self.quit,
        }
    }

    /// The intents of the keys that are down, in the order left, right, up,
    /// down, fire, quit.
    pub fn intents(&self) -> (intents: Vec<Intent>)
        ensures
            intents@ == intents_of(self@),
    {
        let mut intents: Vec<Intent> = Vec::new();
        if self.left {
            intents.push(Intent::TurnLeft);
        }
        assert(intents@ =~= intent_if_held(self@, Key::Left));
        let ghost one = intents@;
        if self.right {
            intents.push(Intent::TurnRight);
        }
        assert(intents@ =~= one + intent_if_held(self@, Key::Right));
        let ghost two = intents@;
        if self.up {
            intents.push(Intent::Thrust);
        }
        assert(intents@ =~= two + intent_if_held(self@, Key::Up));
        let ghost three = intents@;
        if self.down {
            intents.push(Intent::Reverse);
        }
        assert(intents@ =~= three + intent_if_held(self@, Key::Down));
        let ghost four = intents@;
        if self.fire {
            intents.push(Intent::Fire);
        }
        assert(intents@ =~= four + intent_if_held(self@, Key::Fire));
        let ghost five = intents@;
        if self.quit {
            intents.push(Intent::Quit);
        }
        assert(intents@ =~= five + intent_if_held(self@, Key::Quit));
        intents
    }
}

} // verus!
