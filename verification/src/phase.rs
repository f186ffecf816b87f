//! The corrections that turn the arc tangent of the two sums of a ring into
//! its phase angle. Which corrections are made depends on the sign of the
//! first sum alone; the angles themselves are the caller's numbers. What
//! the corrections do to an angle is stated here for angles counted in
//! whole units, of which half a turn has `half_turn`.

use vstd::prelude::*;

verus! {

/// How a number compares with zero. A number that is not a number compares
/// in no way.
#[derive(Clone, Copy, Debug, PartialEq, Eq, Structural)]
pub enum Sign {
    Negative,
    Zero,
    Positive,
    Unordered,
}

/// The corrections of the angle, in the order in which they are made.
#[derive(Clone, Copy, Debug, PartialEq, Eq, Structural)]
pub struct PhaseSteps {
    /// The angle is taken from half a turn.
    pub from_half_turn: bool,
    /// The angle is then taken from a full turn.
    pub from_full_turn: bool,
    /// Half a turn is then taken from the angle.
    pub less_half_turn: bool,
}

/// The corrections for a first sum of the given sign: the first where the
/// sum is not above zero, the second where it is below zero, the third
/// where it is above zero.
pub open spec fn steps_of(sum1: Sign) -> PhaseSteps {
    PhaseSteps {
        from_half_turn: sum1 is Negative || sum1 is Zero,
        from_full_turn: sum1 is Negative,
        less_half_turn: sum1 is Positive,
    }
}

/// The corrections for a first sum of the given sign.
pub fn phase_steps(sum1: Sign) -> (steps: PhaseSteps)
    ensures
        steps == steps_of(sum1),
{
    match sum1 {
        Sign::Negative => PhaseSteps {
            from_half_turn: true,
            from_full_turn: true,
            less_half_turn: false,
        },
        Sign::Zero => PhaseSteps {
            from_half_turn: true,
            from_full_turn: false,
            less_half_turn: false,
        },
        Sign::Positive => PhaseSteps {
            from_half_turn: false,
            from_full_turn: false,
            less_half_turn: true,
        },
        Sign::Unordered => PhaseSteps {
            from_half_turn: false,
            from_full_turn: false,
            less_half_turn: false,
        },
    }
}

/// The angle after the corrections.
pub open spec fn corrected(raw: int, half_turn: int, steps: PhaseSteps) -> int {
    let first = if steps.from_half_turn {
        half_turn - raw
    } else {
        raw
    };
    let second = if steps.from_full_turn {
        2 * half_turn - first
    } else {
        first
    };
    if steps.less_half_turn {
        second - half_turn
    } else {
        second
    }
}

/// The phase angle: the angle after the corrections, and a full turn more
/// where that is below zero.
pub open spec fn phase_of(raw: int, half_turn: int, sum1: Sign) -> int {
    let angle = corrected(raw, half_turn, steps_of(sum1));
    if angle < 0 {
        angle + 2 * half_turn
    } else {
        angle
    }
}

/// `raw` can be the arc tangent of a second sum over a first sum of the
/// given sign: it lies within half a turn of zero, further than a quarter
/// turn where the first sum is below zero, nearer where it is above zero,
/// and at a quarter turn or at zero where it is zero.
pub open spec fn is_arc_tangent(raw: int, half_turn: int, sum1: Sign) -> bool {
    &&& -half_turn <= raw <= half_turn
    &&& sum1 is Negative ==> 2 * raw > half_turn || 2 * raw < -half_turn
    &&& sum1 is Positive ==> -half_turn < 2 * raw < half_turn
    &&& sum1 is Zero ==> 2 * raw == half_turn || 2 * raw == -half_turn || raw == 0
}

/// The corrections put the phase angle half a turn ahead of the arc
/// tangent, except where the first sum is zero: there they mirror the arc
/// tangent in a quarter turn.
pub proof fn lemma_phase_is_half_turn_ahead(raw: int, half_turn: int, sum1: Sign)
    requires
        0 < half_turn,
        is_arc_tangent(raw, half_turn, sum1),
    ensures
        sum1 is Negative || sum1 is Positive ==> phase_of(raw, half_turn, sum1) == raw + half_turn,
        sum1 is Zero ==> phase_of(raw, half_turn, sum1) == half_turn - raw,
        sum1 is Unordered ==> corrected(raw, half_turn, steps_of(sum1)) == raw,
{
}

/// The phase angle lies between zero and a full turn, and it is a full
/// turn only for an arc tangent of half a turn over a first sum below zero.
pub proof fn lemma_phase_within_a_turn(raw: int, half_turn: int, sum1: Sign)
    requires
        0 < half_turn,
        is_arc_tangent(raw, half_turn, sum1),
    ensures
        0 <= phase_of(raw, half_turn, sum1) <= 2 * half_turn,
        phase_of(raw, half_turn, sum1) == 2 * half_turn <==> sum1 is Negative && raw == half_turn,
{
}

} // verus!
