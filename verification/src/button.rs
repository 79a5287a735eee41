//! Debouncing-free edge detection for a GPIO push button: the receiver
//! reports the raw level, and comparing it with the previous report tells
//! a press edge from a release edge.

use vstd::prelude::*;

verus! {

/// A push button's current and previous sampled level.
#[derive(Clone, Copy, Debug, PartialEq, Eq, Structural)]
pub struct PushButton {
    pub current: bool,
    pub previous: bool,
}

impl PushButton {
    /// A button that starts out released.
    pub fn new() -> (r: PushButton)
        ensures
            !r.current,
            !r.previous,
    {
        PushButton { current: false, previous: false }
    }

    /// The button is down right now.
    pub fn is_pressed(&self) -> (r: bool)
        ensures
            r == self.current,
    {
        self.current
    }

    /// The button went down with the last update (a press edge).
    pub fn is_pushed(&self) -> (r: bool)
        ensures
            r == (self.current && !self.previous),
    {
        self.current && !self.previous
    }

    /// The button came up with the last update (a release edge).
    pub fn is_released(&self) -> (r: bool)
        ensures
            r == (!self.current && self.previous),
    {
        !self.current && self.previous
    }

    /// Fold in a freshly sampled level.
    pub fn update(&mut self, current: bool)
        ensures
            final(self).previous == old(self).current,
            final(self).current == current,
    {
        self.previous = self.current;
        self.current = current;
    }
}

impl Default for PushButton {
    /// Same as `new`: a button that starts out released.
    fn default() -> (r: PushButton)
        ensures
            !r.current,
            !r.previous,
    {
        PushButton { current: false, previous: false }
    }
}

/// Update one button per bit of a GPIO input byte: button `i` follows bit
/// `i`, as the control receiver reports it.
pub fn update_buttons_from_gpio(buttons: &mut Vec<PushButton>, gpio_in: u8)
    requires
        old(buttons)@.len() <= 8,
    ensures
        final(buttons)@.len() == old(buttons)@.len(),
        forall|i: int|
            0 <= i < old(buttons)@.len() ==> {
                &&& (#[trigger] final(buttons)@[i]).previous == old(buttons)@[i].current
                &&& final(buttons)@[i].current == ((gpio_in >> i as u8) & 1u8 == 1u8)
            },
{
    let count: usize = buttons.len();
    let mut i: usize = 0;
    while i < count
        invariant
            count == buttons@.len() == old(buttons)@.len(),
            count <= 8,
            i <= count,
            forall|j: int| i <= j < count ==> buttons@[j] == old(buttons)@[j],
            forall|j: int|
                0 <= j < i ==> {
                    &&& (#[trigger] buttons@[j]).previous == old(buttons)@[j].current
                    &&& buttons@[j].current == ((gpio_in >> j as u8) & 1u8 == 1u8)
                },
        decreases count - i,
    {
        let level: bool = (gpio_in >> (i as u8)) & 1u8 == 1u8;
        let updated = PushButton { current: level, previous: buttons[i].current };
        buttons.set(i, updated);
        i = i + 1;
    }
}

} // verus!
