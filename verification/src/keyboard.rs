//! The 16-key hex keypad: per-key pressed flags and the most recent press.

use vstd::prelude::*;

verus! {

/// Number of keys on the keypad, `0x0` through `0xF`.
pub const NUM_KEYS: usize = 16;

/// Ghost model of the keypad: one pressed flag per key, plus the key of the
/// most recent press (cleared when the executor begins waiting for a key).
pub struct KeypadState {
    pub keys: Seq<bool>,
    pub last: Option<u8>,
}

/// All keys up.
pub open spec fn blank_keys() -> Seq<bool> {
    Seq::new(16, |i: int| false)
}

pub struct KeyBoard {
    pressed: Vec<bool>,
    last_pressed: Option<u8>,
}

impl View for KeyBoard {
    type V = KeypadState;

    closed spec fn view(&self) -> KeypadState {
        KeypadState { keys: self.pressed@, last: self.last_pressed }
    }
}

impl KeyBoard {
    pub fn new() -> (kb: KeyBoard)
        ensures
            kb@.keys == blank_keys(),
            kb@.last is None,
    {
        let mut pressed: Vec<bool> = Vec::new();
        let mut i: usize = 0;
        while i < 16
            invariant
                i <= 16,
                pressed@.len() == i,
                forall|j: int| 0 <= j < i ==> !pressed@[j],
            decreases 16 - i,
        {
            pressed.push(false);
            i = i + 1;
        }
        proof {
            assert(pressed@ =~= blank_keys());
        }
        KeyBoard { pressed, last_pressed: None }
    }

    pub fn on_key_down(&mut self, key: u8)
        requires
            old(self)@.keys.len() == 16,
            key < 16,
        ensures
            final(self)@.keys == old(self)@.keys.update(key as int, true),
            final(self)@.last == Some(key),
    {
        self.pressed.set(key as usize, true);
        self.last_pressed = Some(key);
    }

    pub fn on_key_up(&mut self, key: u8)
        requires
            old(self)@.keys.len() == 16,
            key < 16,
        ensures
            final(self)@.keys == old(self)@.keys.update(key as int, false),
            final(self)@.last == old(self)@.last,
    {
        self.pressed.set(key as usize, false);
    }

    /// Forget the most recent press, so that only a key pressed from now on
    /// can satisfy a key wait.
    pub fn clear_last(&mut self)
        ensures
            final(self)@.keys == old(self)@.keys,
            final(self)@.last is None,
    {
        self.last_pressed = None;
    }

    pub fn is_pressed(&self, key: u8) -> (r: bool)
        requires
            self@.keys.len() == 16,
            key < 16,
        ensures
            r == self@.keys[key as int],
    {
        self.pressed[key as usize]
    }

    pub fn last_key(&self) -> (r: Option<u8>)
        ensures
            r == self@.last,
    {
        self.last_pressed
    }
}

} // verus!
