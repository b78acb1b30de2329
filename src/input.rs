//! The sixteen-key input state: one bit per logical key 0x0..=0xF.

use vstd::prelude::*;

verus! {

/// Whether a key went down or came up.
#[derive(PartialEq, Eq, Structural, Clone, Copy, Debug)]
pub enum KeyStatus {
    Pressed,
    Unpressed,
}

/// Key `key` is held down in the bitmap `bits`. Keys outside 0x0..=0xF are never down.
pub open spec fn key_down(bits: u16, key: u8) -> bool {
    key < 16 && bits & (1u16 << (key as u16)) != 0
}

/// The bitmap after key `key` went down; a key outside 0x0..=0xF changes nothing.
pub open spec fn pressed_bits(bits: u16, key: u8) -> u16 {
    if key < 16 {
        bits | (1u16 << (key as u16))
    } else {
        bits
    }
}

/// The bitmap after key `key` came up; a key outside 0x0..=0xF changes nothing.
pub open spec fn released_bits(bits: u16, key: u8) -> u16 {
    if key < 16 {
        bits & !(1u16 << (key as u16))
    } else {
        bits
    }
}

/// The bitmap after a key event.
pub open spec fn updated_bits(bits: u16, key: u8, status: KeyStatus) -> u16 {
    match status {
        KeyStatus::Pressed => pressed_bits(bits, key),
        KeyStatus::Unpressed => released_bits(bits, key),
    }
}

/// Which logical keys are held down: bit `k` set means key `k` is down.
pub struct InputController {
    key_state: u16,
}

impl View for InputController {
    type V = u16;

    closed spec fn view(&self) -> u16 {
        self.key_state
    }
}

impl Default for InputController {
    fn default() -> (r: Self)
        ensures
            r@ == 0,
    {
        InputController { key_state: 0 }
    }
}

impl InputController {
    /// An input state with exactly the keys of the bitmap `bits` held down.
    pub fn from_bits(bits: u16) -> (r: Self)
        ensures
            r@ == bits,
    {
        InputController { key_state: bits }
    }

    /// Whether key `key` is held down; false for a key outside 0x0..=0xF.
    pub fn key_pressed(&self, key: u8) -> (r: bool)
        ensures
            r == key_down(self@, key),
    {
        key < 16 && (self.key_state & (1u16 << (key as u16))) != 0
    }

    /// Marks key `key` as held down.
    pub fn press_key(&mut self, key: u8)
        ensures
            final(self)@ == pressed_bits(old(self)@, key),
    {
        if key < 16 {
            self.key_state = self.key_state | (1u16 << (key as u16));
        }
    }

    /// Marks key `key` as released. Releasing a key that is up changes nothing.
    pub fn unpress_key(&mut self, key: u8)
        ensures
            final(self)@ == released_bits(old(self)@, key),
    {
        if key < 16 {
            self.key_state = self.key_state & !(1u16 << (key as u16));
        }
    }

    /// The bitmap of held keys.
    pub fn keys(&self) -> (r: u16)
        ensures
            r == self@,
    {
        self.key_state
    }

    /// Applies a key event.
    pub fn update_key(&mut self, key: u8, state: &KeyStatus)
        ensures
            final(self)@ == updated_bits(old(self)@, key, *state),
    {
        match state {
            KeyStatus::Pressed => self.press_key(key),
            KeyStatus::Unpressed => self.unpress_key(key),
        }
    }
}

/// A key that was pressed reads as down, and after it is released it reads as up.
pub proof fn lemma_press_then_release(bits: u16, key: u8)
    requires
        key < 16,
    ensures
        key_down(pressed_bits(bits, key), key),
        !key_down(released_bits(pressed_bits(bits, key), key), key),
{
    let k = key as u16;
    assert(k < 16 ==> (bits | (1u16 << k)) & (1u16 << k) != 0) by (bit_vector);
    assert(k < 16 ==> ((bits | (1u16 << k)) & !(1u16 << k)) & (1u16 << k) == 0) by (bit_vector);
}

/// Releasing a key that is already up leaves the input state as it was.
pub proof fn lemma_release_idempotent(bits: u16, key: u8)
    requires
        !key_down(bits, key),
    ensures
        released_bits(bits, key) == bits,
{
    let k = key as u16;
    assert(k < 16 && bits & (1u16 << k) == 0 ==> bits & !(1u16 << k) == bits) by (bit_vector);
}

/// A key event changes the state of its own key only.
pub proof fn lemma_other_keys_untouched(bits: u16, key: u8, other: u8, status: KeyStatus)
    requires
        other != key,
    ensures
        key_down(updated_bits(bits, key, status), other) == key_down(bits, other),
{
    let k = key as u16;
    let o = other as u16;
    assert(k < 16 && o < 16 && k != o ==> ((bits | (1u16 << k)) & (1u16 << o) != 0 <==> bits & (1u16
        << o) != 0)) by (bit_vector);
    assert(k < 16 && o < 16 && k != o ==> ((bits & !(1u16 << k)) & (1u16 << o) != 0 <==> bits & (1u16
        << o) != 0)) by (bit_vector);
}

} // verus!
