use vstd::prelude::*;

use crate::ambient::now_millis;

verus! {

/// Delay before a held movement key starts repeating, in milliseconds.
pub const KEY_REPEAT_DELAY_MS: u64 = 150;

/// Time between repeats of a held movement key, in milliseconds.
pub const KEY_REPEAT_RATE_MS: u64 = 30;

/// Delay before a held rotation key starts repeating, in milliseconds.
pub const ROTATION_REPEAT_DELAY_MS: u64 = 200;

/// Time between repeats of a held rotation key, in milliseconds.
pub const ROTATION_REPEAT_RATE_MS: u64 = 150;

/// Auto-repeat state of one key: when it was last pressed (or last
/// repeated, counted back by the delay), and whether it is held.
pub struct KeyState {
    pub last_press_ms: u64,
    pub is_pressed: bool,
    pub is_rotation: bool,
}

impl KeyState {
    /// The repeat delay of this key.
    pub open spec fn delay(&self) -> u64 {
        if self.is_rotation {
            ROTATION_REPEAT_DELAY_MS
        } else {
            KEY_REPEAT_DELAY_MS
        }
    }

    /// The repeat rate of this key.
    pub open spec fn rate(&self) -> u64 {
        if self.is_rotation {
            ROTATION_REPEAT_RATE_MS
        } else {
            KEY_REPEAT_RATE_MS
        }
    }

    /// A released key of the given kind, last pressed now.
    pub fn new(is_rotation: bool) -> (r: KeyState)
        ensures
            !r.is_pressed,
            r.is_rotation == is_rotation,
    {
        KeyState { last_press_ms: now_millis(), is_pressed: false, is_rotation }
    }

    /// Records whether the key is down at time `now_ms` and says whether it
    /// acts: on the press itself, and while held once the delay has passed,
    /// each time another `rate` has passed.
    pub fn update_at(&mut self, is_down: bool, now_ms: u64) -> (r: bool)
        ensures
            final(self).is_pressed == is_down,
            final(self).is_rotation == old(self).is_rotation,
            !is_down ==> !r && final(self).last_press_ms == (if old(self).is_pressed {
                now_ms
            } else {
                old(self).last_press_ms
            }),
            is_down && !old(self).is_pressed ==> r && final(self).last_press_ms == now_ms,
            is_down && old(self).is_pressed ==> {
                &&& r == (now_ms >= old(self).last_press_ms + old(self).delay() + old(self).rate())
                &&& final(self).last_press_ms == if r {
                    (now_ms - old(self).delay()) as u64
                } else {
                    old(self).last_press_ms
                }
            },
    {
        let (repeat_delay, repeat_rate) = if self.is_rotation {
            (ROTATION_REPEAT_DELAY_MS, ROTATION_REPEAT_RATE_MS)
        } else {
            (KEY_REPEAT_DELAY_MS, KEY_REPEAT_RATE_MS)
        };
        let should_trigger = if is_down {
            if !self.is_pressed {
                self.last_press_ms = now_ms;
                true
            } else {
                let elapsed = now_ms.saturating_sub(self.last_press_ms);
                if elapsed >= repeat_delay {
                    let repeat_elapsed = elapsed - repeat_delay;
                    if repeat_elapsed >= repeat_rate {
                        self.last_press_ms = now_ms - repeat_delay;
                        true
                    } else {
                        false
                    }
                } else {
                    false
                }
            }
        } else {
            if self.is_pressed {
                self.last_press_ms = now_ms;
            }
            false
        };
        self.is_pressed = is_down;
        should_trigger
    }

    /// `update_at` at the current time.
    pub fn update(&mut self, is_down: bool) -> (r: bool)
        ensures
            final(self).is_pressed == is_down,
            final(self).is_rotation == old(self).is_rotation,
            !is_down ==> !r,
            is_down && !old(self).is_pressed ==> r,
    {
        let now_ms = now_millis();
        self.update_at(is_down, now_ms)
    }
}

impl Default for KeyState {
    fn default() -> (r: KeyState)
        ensures
            !r.is_pressed && !r.is_rotation,
    {
        KeyState::new(false)
    }
}

} // verus!
