//! Pin levels of the DRV8825 stepper driver: microstep selection on the
//! `M0`, `M1`, `M2` inputs and the direction input. Driving the pins is the
//! caller's part.
use vstd::prelude::*;

verus! {

/// Microstep resolution of the DRV8825.
#[derive(Clone, Copy, Debug, PartialEq, Eq, Structural)]
pub enum Microsteps {
    Full,
    Half,
    Quarter,
    Eighth,
    Sixteenth,
    ThirtySecond,
}

/// Motor direction.
#[derive(Clone, Copy, Debug, PartialEq, Eq, Structural)]
pub enum Direction {
    Forward,
    Backward,
}

/// `log2` of the microsteps per full step of a resolution.
pub open spec fn microstep_shift(m: Microsteps) -> nat {
    match m {
        Microsteps::Full => 0,
        Microsteps::Half => 1,
        Microsteps::Quarter => 2,
        Microsteps::Eighth => 3,
        Microsteps::Sixteenth => 4,
        Microsteps::ThirtySecond => 5,
    }
}

/// Levels of `M0`, `M1`, `M2` (high is `true`) that select `m`: the binary
/// digits of its shift, `M0` lowest; 32 microsteps is `M0` and `M2` high.
pub fn microstep_pins(m: Microsteps) -> (r: (bool, bool, bool))
    ensures
        microstep_shift(m) < 5 ==> r == (
            microstep_shift(m) % 2 == 1,
            (microstep_shift(m) / 2) % 2 == 1,
            microstep_shift(m) / 4 == 1,
        ),
        microstep_shift(m) == 5 ==> r == (true, false, true),
{
    match m {
        Microsteps::Full => (false, false, false),
        Microsteps::Half => (true, false, false),
        Microsteps::Quarter => (false, true, false),
        Microsteps::Eighth => (true, true, false),
        Microsteps::Sixteenth => (false, false, true),
        Microsteps::ThirtySecond => (true, false, true),
    }
}

/// Level of the direction input: high for forward.
pub fn direction_level(d: Direction) -> (r: bool)
    ensures
        r == (d == Direction::Forward),
{
    match d {
        Direction::Forward => true,
        Direction::Backward => false,
    }
}

} // verus!
