//! The input of a small device: a rotary encoder, and the button it is pressed as.

use crate::player::Nanos;
use crate::sink::elapsed;
use vstd::prelude::*;

verus! {

/// How long the button stays deaf after it is released, so that its bouncing is not taken for a press.
pub const INPUT_GHOST_COOLDOWN: Nanos = 40_000_000;

/// How long a press may last and still be a tap.
pub const TAP_TIMEOUT: Nanos = 240_000_000;

/// The state of the button.
#[derive(Debug, Clone, Copy, PartialEq, Eq, Structural)]
pub enum KeySt {
    Pressed(Nanos),
    Released(Nanos),
    Free,
}

/// What the button comes to.
#[derive(Debug, Clone, Copy, PartialEq, Eq, Structural)]
pub enum Gesture {
    Idle,
    /// Pressed and released within the timeout.
    Tapped,
    /// Still pressed after it.
    Held,
}

impl KeySt {
    /// An edge of the button's signal: a press, where it is free.
    pub open spec fn pressed(self, now: Nanos) -> KeySt {
        match self {
            KeySt::Free => KeySt::Pressed(now),
            _ => self,
        }
    }

    /// A look at the button, which is up where its signal is high.
    pub open spec fn seen(self, up: bool, now: Nanos) -> (KeySt, Gesture) {
        match self {
            KeySt::Pressed(at) => if up {
                (
                    KeySt::Released(now),
                    if elapsed(at, now) < TAP_TIMEOUT {
                        Gesture::Tapped
                    } else {
                        Gesture::Idle
                    },
                )
            } else if elapsed(at, now) > TAP_TIMEOUT {
                (self, Gesture::Held)
            } else {
                (self, Gesture::Idle)
            },
            KeySt::Released(at) => if elapsed(at, now) > INPUT_GHOST_COOLDOWN {
                (KeySt::Free, Gesture::Idle)
            } else {
                (self, Gesture::Idle)
            },
            KeySt::Free => (self, Gesture::Idle),
        }
    }

    /// An edge of the button's signal.
    pub fn press(&mut self, now: Nanos)
        ensures
            *final(self) == old(self).pressed(now),
    {
        match *self {
            KeySt::Free => {
                *self = KeySt::Pressed(now);
            },
            _ => {},
        }
    }

    /// A look at the button.
    pub fn look(&mut self, up: bool, now: Nanos) -> (gesture: Gesture)
        ensures
            (*final(self), gesture) == old(self).seen(up, now),
    {
        match *self {
            KeySt::Pressed(at) => {
                let held: Nanos = now.saturating_sub(at);
                if up {
                    *self = KeySt::Released(now);
                    if held < TAP_TIMEOUT {
                        Gesture::Tapped
                    } else {
                        Gesture::Idle
                    }
                } else if held > TAP_TIMEOUT {
                    Gesture::Held
                } else {
                    Gesture::Idle
                }
            },
            KeySt::Released(at) => {
                if now.saturating_sub(at) > INPUT_GHOST_COOLDOWN {
                    *self = KeySt::Free;
                }
                Gesture::Idle
            },
            KeySt::Free => Gesture::Idle,
        }
    }
}

/// The bouncing of a released button is not taken for a press: edges within the cooldown change nothing.
pub proof fn law_ghost_presses_are_ignored(at: Nanos, edge: Nanos, up: bool, now: Nanos)
    requires
        elapsed(at, now) <= INPUT_GHOST_COOLDOWN,
    ensures
        KeySt::Released(at).pressed(edge) == KeySt::Released(at),
        KeySt::Released(at).seen(up, now) == (KeySt::Released(at), Gesture::Idle),
{
}

/// A press comes to one tap at most: after it the button has to be free again before it can be pressed.
pub proof fn law_a_press_taps_once(at: Nanos, now: Nanos, up: bool, later: Nanos)
    requires
        KeySt::Pressed(at).seen(true, now).1 == Gesture::Tapped,
    ensures
        KeySt::Pressed(at).seen(true, now).0 == KeySt::Released(now),
        KeySt::Released(now).seen(up, later).1 == Gesture::Idle,
{
}

/// State needed to decode the gray code of the encoder with bouncing in the signals: which signal had an
/// edge last, where both were, and how far it has been turned clockwise since it was last asked.
#[derive(Debug, Clone, Copy, PartialEq, Eq, Structural)]
pub struct EncoderSt {
    pub edge_was_a: bool,
    pub a_was_high: bool,
    pub b_was_high: bool,
    pub cw_updates: i8,
}

impl EncoderSt {
    /// An edge of the signal A, which is now high or not.
    pub open spec fn after_a(self, a_is_high: bool) -> EncoderSt {
        EncoderSt {
            cw_updates: if !self.edge_was_a && !self.b_was_high && self.a_was_high && self.cw_updates > i8::MIN {
                (self.cw_updates - 1) as i8
            } else {
                self.cw_updates
            },
            a_was_high: a_is_high,
            edge_was_a: true,
            ..self
        }
    }

    /// An edge of the signal B, which is now high or not.
    pub open spec fn after_b(self, b_is_high: bool) -> EncoderSt {
        EncoderSt {
            cw_updates: if self.edge_was_a && !self.a_was_high && self.b_was_high && self.cw_updates < i8::MAX {
                (self.cw_updates + 1) as i8
            } else {
                self.cw_updates
            },
            b_was_high: b_is_high,
            edge_was_a: false,
            ..self
        }
    }

    /// The encoder at rest.
    pub fn new() -> (st: Self)
        ensures
            st == (EncoderSt { edge_was_a: true, a_was_high: true, b_was_high: true, cw_updates: 0 }),
    {
        EncoderSt { edge_was_a: true, a_was_high: true, b_was_high: true, cw_updates: 0 }
    }

    /// An edge of the signal A: a step back, where B went down before it.
    pub fn edge_a(&mut self, a_is_high: bool)
        ensures
            *final(self) == old(self).after_a(a_is_high),
    {
        if !self.edge_was_a && !self.b_was_high && self.a_was_high && self.cw_updates > i8::MIN {
            self.cw_updates = self.cw_updates - 1;
        }
        self.a_was_high = a_is_high;
        self.edge_was_a = true;
    }

    /// An edge of the signal B: a step forward, where A went down before it.
    pub fn edge_b(&mut self, b_is_high: bool)
        ensures
            *final(self) == old(self).after_b(b_is_high),
    {
        if self.edge_was_a && !self.a_was_high && self.b_was_high && self.cw_updates < i8::MAX {
            self.cw_updates = self.cw_updates + 1;
        }
        self.b_was_high = b_is_high;
        self.edge_was_a = false;
    }

    /// How far the encoder has been turned clockwise since it was last asked.
    pub fn take(&mut self) -> (cw: i8)
        ensures
            cw == old(self).cw_updates,
            *final(self) == (EncoderSt { cw_updates: 0, ..*old(self) }),
    {
        let cw: i8 = self.cw_updates;
        self.cw_updates = 0;
        cw
    }
}

/// One detent clockwise -- A down, B down, A up, B up -- is one step forward; the other way round it is one
/// step back.
pub proof fn law_a_detent_is_one_step(st: EncoderSt)
    requires
        st.a_was_high,
        st.b_was_high,
        i8::MIN < st.cw_updates < i8::MAX,
    ensures
        st.after_a(false).after_b(false).after_a(true).after_b(true).cw_updates == st.cw_updates + 1,
        st.after_b(false).after_a(false).after_b(true).after_a(true).cw_updates == st.cw_updates - 1,
{
}

/// The bouncing of one signal, with the other at rest, turns nothing: however often A goes up and down,
/// the count stays where it was after the first edge.
pub proof fn law_bouncing_turns_nothing(st: EncoderSt, first: bool, second: bool)
    ensures
        st.after_a(first).after_a(second).cw_updates == st.after_a(first).cw_updates,
        st.after_b(first).after_b(second).cw_updates == st.after_b(first).cw_updates,
{
}

/// The light that the device shows: a tap turns it on or off, and holding the button changes its color.
#[derive(Debug, Clone, Copy, PartialEq, Eq, Structural)]
pub struct Led {
    pub on: bool,
}

impl Led {
    /// Takes in a gesture; true where the color is to be changed.
    pub fn take(&mut self, gesture: Gesture) -> (recolor: bool)
        ensures
            final(self).on == (if gesture == Gesture::Tapped {
                !old(self).on
            } else {
                old(self).on
            }),
            recolor == (gesture == Gesture::Held),
    {
        match gesture {
            Gesture::Tapped => {
                self.on = !self.on;
                false
            },
            Gesture::Held => true,
            Gesture::Idle => false,
        }
    }
}

/// How long to wait until the next look, so that there are about thirty a second.
pub fn rest(dt: Nanos) -> (wait: Nanos)
    ensures
        wait == (if dt < 33_000_000 {
            33_000_000 - dt
        } else {
            0
        }),
{
    let dt_min: Nanos = 33_000_000;
    dt_min.saturating_sub(dt)
}

/// A press of less than 240 milliseconds is a tap, and of more one that is held; after a release nothing is taken
/// for a press until 40 milliseconds are over.
pub proof fn law_taps_are_short(at: Nanos, now: Nanos)
    requires
        at <= now,
    ensures
        ({
            let up = KeySt::Pressed(at).seen(true, now);
            let down = KeySt::Pressed(at).seen(false, now);
            let rest = KeySt::Released(at).seen(true, now);
            &&& up.0 == KeySt::Released(now)
            &&& up.1 == Gesture::Tapped <==> now - at < 240_000_000
            &&& down.0 == KeySt::Pressed(at)
            &&& down.1 == Gesture::Held <==> now - at > 240_000_000
            &&& rest.0 == KeySt::Free <==> now - at > 40_000_000
        }),
{
}

} // verus!
