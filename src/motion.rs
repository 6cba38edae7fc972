//! Integer side of motion planning: the per-axis step deltas of a move, the
//! Bresenham distribution of the non-dominant axes over the dominant axis'
//! steps, and the expansion of a move into `StepCommand`s.
use vstd::prelude::*;
use vstd::arithmetic::div_mod::{lemma_fundamental_div_mod, lemma_fundamental_div_mod_converse};
use crate::stepper::{
    bit_set, lemma_interrupt_step, lemma_prime_step, step_delta, wrap_move, IsrOutput, StepCommand,
    StepperController,
};

verus! {

/// Number of axes a move carries.
pub const MAX_AXES: usize = 8;

/// Index of the extruder axis, which the Bresenham pass leaves out.
pub const EXTRUDER_AXIS: usize = 3;

/// Cartesian and CoreXY stepper axes.
#[derive(Clone, Copy, Debug, PartialEq, Eq, Structural)]
pub enum StepperAxis {
    X,
    Y,
    Z,
    /// The first CoreXY stepper.
    A,
    /// The second CoreXY stepper.
    B,
}

/// Errors of the planner.
#[derive(Clone, Copy, Debug, PartialEq, Eq, Structural)]
pub enum PlannerError {
    /// The queues cannot take another move; the caller must wait or drain.
    QueueFull,
    /// The move cannot be executed; the caller must drop it.
    InvalidMove,
}

/// `v` reduced into the range of `i32`, as two's complement wrapping does.
pub open spec fn wrap_i32(v: int) -> int {
    if v > i32::MAX {
        v - 0x1_0000_0000
    } else if v < i32::MIN {
        v + 0x1_0000_0000
    } else {
        v
    }
}

/// Absolute value.
pub open spec fn abs(v: int) -> int {
    if v < 0 {
        -v
    } else {
        v
    }
}

/// Largest absolute step count among the first `k` axes, the extruder left out.
pub open spec fn max_abs_upto(steps: Seq<i32>, k: int) -> int
    decreases k,
{
    if k <= 0 {
        0
    } else {
        let rest = max_abs_upto(steps, k - 1);
        let here = if k - 1 == EXTRUDER_AXIS {
            0
        } else {
            abs(steps[k - 1] as int)
        };
        if here > rest {
            here
        } else {
            rest
        }
    }
}

/// The dominant-axis step count of a move.
pub open spec fn dominant_steps(steps: Seq<i32>) -> int {
    max_abs_upto(steps, MAX_AXES as int)
}

/// The step deltas of a move, which axes run forward, and how many steps the
/// dominant axis takes.
#[derive(Clone, Copy, Debug, PartialEq, Eq)]
pub struct MoveDelta {
    /// Signed step count per axis.
    pub steps: [i32; 8],
    /// Bit `i` set: axis `i` moves forward.
    pub direction_mask: u8,
    /// Largest absolute step count over the axes other than the extruder.
    pub total_steps: u32,
}

/// Whether `d` is the delta of a move from `current` to `target`.
pub open spec fn is_delta_of(d: MoveDelta, current: Seq<i32>, target: Seq<i32>) -> bool {
    &&& forall|i: int|
        0 <= i < MAX_AXES ==> d.steps@[i] as int == wrap_i32(target[i] - current[i])
    &&& forall|i: int| 0 <= i < MAX_AXES ==> bit_set(d.direction_mask, i) == (d.steps@[i] > 0)
    &&& d.total_steps as int == dominant_steps(d.steps@)
}

proof fn lemma_set_bit(m: u8, i: u8, j: u8)
    requires
        i < 8,
        j < 8,
    ensures
        (((m | (1u8 << i)) >> j) & 1u8 == 1u8) == ((m >> j) & 1u8 == 1u8 || i == j),
{
    assert((((m | (1u8 << i)) >> j) & 1u8 == 1u8) == ((m >> j) & 1u8 == 1u8 || i == j))
        by (bit_vector)
        requires
            i < 8,
            j < 8,
    ;
}

proof fn lemma_zero_bits(j: u8)
    requires
        j < 8,
    ensures
        !((0u8 >> j) & 1u8 == 1u8),
{
    assert(!((0u8 >> j) & 1u8 == 1u8)) by (bit_vector);
}

/// The step deltas of a move from `current` to `target` (wrapping).
pub fn move_delta(current: &[i32; 8], target: &[i32; 8]) -> (r: MoveDelta)
    ensures
        is_delta_of(r, current@, target@),
{
    let mut steps: [i32; 8] = [0i32; 8];
    let mut mask: u8 = 0;
    let mut total: u32 = 0;
    let mut i: usize = 0;
    proof {
        assert forall|j: int| 0 <= j < 8 implies !bit_set(mask, j) by {
            lemma_zero_bits(j as u8);
        }
    }
    while i < MAX_AXES
        invariant
            i <= MAX_AXES,
            forall|j: int| 0 <= j < i ==> steps@[j] as int == wrap_i32(target@[j] - current@[j]),
            forall|j: int| 0 <= j < i ==> bit_set(mask, j) == (steps@[j] > 0),
            forall|j: int| i <= j < 8 ==> !bit_set(mask, j),
            total as int == max_abs_upto(steps@, i as int),
            forall|j: int| i <= j < 8 ==> steps@[j] == 0,
        decreases MAX_AXES - i,
    {
        let diff: i64 = target[i] as i64 - current[i] as i64;
        let w: i64 = if diff > i32::MAX as i64 {
            diff - 0x1_0000_0000
        } else if diff < i32::MIN as i64 {
            diff + 0x1_0000_0000
        } else {
            diff
        };
        let ghost old_steps = steps@;
        steps[i] = w as i32;
        proof {
            assert forall|k: int| 0 <= k <= i implies max_abs_upto(steps@, k) == max_abs_upto(old_steps, k) by {
                lemma_max_abs_prefix(steps@, old_steps, k, i as int);
            }
        }
        if w > 0 {
            let ghost m0 = mask;
            mask = mask | (1u8 << (i as u8));
            proof {
                assert forall|j: int| 0 <= j < 8 implies bit_set(mask, j) == (bit_set(m0, j) || j == i) by {
                    lemma_set_bit(m0, i as u8, j as u8);
                }
            }
        }
        if i != EXTRUDER_AXIS {
            let a: u32 = if w < 0 { (-w) as u32 } else { w as u32 };
            if a > total {
                total = a;
            }
        }
        i += 1;
    }
    MoveDelta { steps, direction_mask: mask, total_steps: total }
}

proof fn lemma_max_abs_prefix(a: Seq<i32>, b: Seq<i32>, k: int, i: int)
    requires
        0 <= k <= i,
        a.len() == b.len(),
        i < a.len(),
        forall|j: int| 0 <= j < i ==> a[j] == b[j],
    ensures
        max_abs_upto(a, k) == max_abs_upto(b, k),
    decreases k,
{
    if k > 0 {
        lemma_max_abs_prefix(a, b, k - 1, i);
    }
}

/// Pulses that Bresenham gives an axis of `d` steps after `k` of the
/// dominant axis' `n` steps.
pub open spec fn pulses(d: int, n: int, k: int) -> int {
    (2 * k * d + n) / (2 * n)
}

/// The Bresenham error term of an axis of `d` steps after `k` of `n` steps.
pub open spec fn bres_error(d: int, n: int, k: int) -> int {
    k * d - n * pulses(d, n, k)
}

/// The error term stays in `[-n/2, n/2)`, and step `k + 1` pulses exactly
/// when twice the error plus `d` reaches `n`.
proof fn lemma_bresenham(d: int, n: int, k: int)
    requires
        0 <= d <= n,
        n > 0,
        k >= 0,
    ensures
        -n <= 2 * bres_error(d, n, k) < n,
        2 * (bres_error(d, n, k) + d) >= n ==> pulses(d, n, k + 1) == pulses(d, n, k) + 1,
        2 * (bres_error(d, n, k) + d) < n ==> pulses(d, n, k + 1) == pulses(d, n, k),
        bres_error(d, n, k + 1) == bres_error(d, n, k) + d - n * (pulses(d, n, k + 1) - pulses(
            d,
            n,
            k,
        )),
{
    let x = 2 * k * d + n;
    let m = 2 * n;
    lemma_fundamental_div_mod(x, m);
    let q = x / m;
    let r = x % m;
    assert(x == m * q + r);
    assert(0 <= r < m);
    assert(2 * bres_error(d, n, k) == r - n) by (nonlinear_arith)
        requires
            x == m * q + r,
            x == 2 * k * d + n,
            m == 2 * n,
            q == pulses(d, n, k),
            bres_error(d, n, k) == k * d - n * q,
    ;
    let x2 = 2 * (k + 1) * d + n;
    assert(x2 == x + 2 * d) by (nonlinear_arith)
        requires
            x2 == 2 * (k + 1) * d + n,
            x == 2 * k * d + n,
    ;
    if r + 2 * d >= m {
        assert(x2 == (q + 1) * m + (r + 2 * d - m)) by (nonlinear_arith)
            requires
                x2 == x + 2 * d,
                x == m * q + r,
        ;
        lemma_fundamental_div_mod_converse(x2, m, q + 1, r + 2 * d - m);
    } else {
        assert(x2 == q * m + (r + 2 * d)) by (nonlinear_arith)
            requires
                x2 == x + 2 * d,
                x == m * q + r,
        ;
        lemma_fundamental_div_mod_converse(x2, m, q, r + 2 * d);
    }
    assert(bres_error(d, n, k + 1) == bres_error(d, n, k) + d - n * (pulses(d, n, k + 1) - pulses(
        d,
        n,
        k,
    ))) by (nonlinear_arith);
}

/// One Bresenham step: for every axis but the extruder, adds its absolute
/// step count to its error term; where twice the result reaches `dominant`,
/// the axis pulses and `dominant` is taken off. Returns the pulse mask.
pub fn bresenham_step(errors: &mut [i64; 8], steps: &[i32; 8], dominant: u32) -> (mask: u8)
    requires
        dominant > 0,
        forall|i: int|
            0 <= i < MAX_AXES && i != EXTRUDER_AXIS ==> abs(steps@[i] as int) <= dominant
                && -(dominant as int) <= 2 * old(errors)@[i] < dominant,
    ensures
        final(errors)@[EXTRUDER_AXIS as int] == old(errors)@[EXTRUDER_AXIS as int],
        !bit_set(mask, EXTRUDER_AXIS as int),
        forall|i: int|
            #![trigger steps@[i]]
            0 <= i < MAX_AXES && i != EXTRUDER_AXIS ==> {
                let e = old(errors)@[i] + abs(steps@[i] as int);
                &&& bit_set(mask, i) == (2 * e >= dominant)
                &&& final(errors)@[i] == if 2 * e >= dominant {
                    e - dominant
                } else {
                    e
                }
            },
{
    let mut mask: u8 = 0;
    let mut i: usize = 0;
    proof {
        assert forall|j: int| 0 <= j < 8 implies !bit_set(mask, j) by {
            lemma_zero_bits(j as u8);
        }
    }
    while i < MAX_AXES
        invariant
            i <= MAX_AXES,
            dominant > 0,
            forall|j: int|
                0 <= j < MAX_AXES && j != EXTRUDER_AXIS ==> abs(steps@[j] as int) <= dominant
                    && -(dominant as int) <= 2 * old(errors)@[j] < dominant,
            forall|j: int| i <= j < MAX_AXES ==> errors@[j] == old(errors)@[j],
            forall|j: int| i <= j < 8 ==> !bit_set(mask, j),
            !bit_set(mask, EXTRUDER_AXIS as int),
            forall|j: int|
                #![trigger steps@[j]]
                0 <= j < i && j != EXTRUDER_AXIS ==> {
                    let e = old(errors)@[j] + abs(steps@[j] as int);
                    &&& bit_set(mask, j) == (2 * e >= dominant)
                    &&& errors@[j] == if 2 * e >= dominant {
                        e - dominant
                    } else {
                        e
                    }
                },
            errors@[EXTRUDER_AXIS as int] == old(errors)@[EXTRUDER_AXIS as int],
        decreases MAX_AXES - i,
    {
        if i != EXTRUDER_AXIS {
            let s = steps[i] as i64;
            let a: i64 = if s < 0 { -s } else { s };
            let e: i64 = errors[i] + a;
            if 2 * e >= dominant as i64 {
                errors[i] = e - dominant as i64;
                let ghost m0 = mask;
                mask = mask | (1u8 << (i as u8));
                proof {
                    assert forall|j: int| 0 <= j < 8 implies bit_set(mask, j) == (bit_set(m0, j) || j == i) by {
                        lemma_set_bit(m0, i as u8, j as u8);
                    }
                }
            } else {
                errors[i] = e;
            }
        }
        i += 1;
    }
    mask
}

/// A step interval in timer ticks from a raw tick count: at least 1, and
/// saturated at `u16::MAX`, which also stands for "velocity near zero".
pub fn step_interval(raw_ticks: u64) -> (r: u16)
    ensures
        r as int == if raw_ticks == 0 {
            1
        } else if raw_ticks > u16::MAX {
            u16::MAX as int
        } else {
            raw_ticks as int
        },
        r > 0,
{
    if raw_ticks == 0 {
        1
    } else if raw_ticks > u16::MAX as u64 {
        u16::MAX
    } else {
        raw_ticks as u16
    }
}

/// Whether `cmds` is the expansion of the move `d` with the raw intervals
/// `raw`: one command per dominant-axis step, the move's direction mask,
/// Bresenham pulses for every axis but the extruder, and clamped intervals.
pub open spec fn is_expansion(d: MoveDelta, raw: Seq<u64>, cmds: Seq<StepCommand>) -> bool {
    let n = d.total_steps as int;
    &&& cmds.len() == n
    &&& forall|k: int|
        0 <= k < n ==> {
            let c = #[trigger] cmds[k];
            &&& c.direction_mask == d.direction_mask
            &&& !bit_set(c.stepper_mask, EXTRUDER_AXIS as int)
            &&& forall|i: int|
                0 <= i < MAX_AXES && i != EXTRUDER_AXIS ==> bit_set(c.stepper_mask, i) == (pulses(
                    abs(d.steps@[i] as int),
                    n,
                    k + 1,
                ) > pulses(abs(d.steps@[i] as int), n, k))
            &&& c.interval_ticks > 0
            &&& c.interval_ticks as int == if raw[k] == 0 {
                1
            } else if raw[k] > u16::MAX {
                u16::MAX as int
            } else {
                raw[k] as int
            }
        }
}

/// Expands a move into one `StepCommand` per dominant-axis step, with the
/// raw interval of each step (ticks until the next one) clamped into range.
pub fn expand_steps(d: &MoveDelta, raw_intervals: &Vec<u64>) -> (r: Vec<StepCommand>)
    requires
        raw_intervals@.len() == d.total_steps,
        d.total_steps as int == dominant_steps(d.steps@),
    ensures
        is_expansion(*d, raw_intervals@, r@),
{
    let n = d.total_steps;
    let mut out: Vec<StepCommand> = Vec::new();
    if n == 0 {
        return out;
    }
    proof {
        lemma_dominant_bounds(d.steps@);
    }
    let mut errors: [i64; 8] = [0i64; 8];
    let mut k: u32 = 0;
    proof {
        assert forall|i: int| 0 <= i < MAX_AXES && i != EXTRUDER_AXIS implies errors@[i] == bres_error(abs(d.steps@[i] as int), n as int, 0) by {
            let a = abs(d.steps@[i] as int);
            assert(2 * 0 * a + n == n) by (nonlinear_arith);
            assert(pulses(a, n as int, 0) == 0) by {
                lemma_fundamental_div_mod_converse(n as int, 2 * n, 0, n as int);
            }
        }
    }
    while k < n
        invariant
            0 < n == d.total_steps,
            k <= n,
            raw_intervals@.len() == n,
            out@.len() == k,
            forall|i: int|
                0 <= i < MAX_AXES && i != EXTRUDER_AXIS ==> abs(d.steps@[i] as int) <= n,
            forall|i: int|
                0 <= i < MAX_AXES && i != EXTRUDER_AXIS ==> errors@[i] == bres_error(
                    abs(d.steps@[i] as int),
                    n as int,
                    k as int,
                ),
            forall|j: int|
                0 <= j < k ==> {
                    let c = #[trigger] out@[j];
                    &&& c.direction_mask == d.direction_mask
                    &&& !bit_set(c.stepper_mask, EXTRUDER_AXIS as int)
                    &&& forall|i: int|
                        0 <= i < MAX_AXES && i != EXTRUDER_AXIS ==> bit_set(c.stepper_mask, i) == (
                        pulses(abs(d.steps@[i] as int), n as int, j + 1) > pulses(
                            abs(d.steps@[i] as int),
                            n as int,
                            j,
                        ))
                    &&& c.interval_ticks > 0
                    &&& c.interval_ticks as int == if raw_intervals@[j] == 0 {
                        1
                    } else if raw_intervals@[j] > u16::MAX {
                        u16::MAX as int
                    } else {
                        raw_intervals@[j] as int
                    }
                },
        decreases n - k,
    {
        let ghost before = errors@;
        proof {
            assert forall|i: int| #![trigger errors@[i]] 0 <= i < MAX_AXES && i != EXTRUDER_AXIS implies -(n as int) <= 2 * errors@[i] < n by {
                lemma_bresenham(abs(d.steps@[i] as int), n as int, k as int);
            }
        }
        let mask = bresenham_step(&mut errors, &d.steps, n);
        proof {
            assert forall|i: int| #![trigger errors@[i]] 0 <= i < MAX_AXES && i != EXTRUDER_AXIS implies {
                &&& errors@[i] == bres_error(abs(d.steps@[i] as int), n as int, k + 1)
                &&& bit_set(mask, i) == (pulses(abs(d.steps@[i] as int), n as int, k + 1) > pulses(
                    abs(d.steps@[i] as int),
                    n as int,
                    k as int,
                ))
            } by {
                let a = abs(d.steps@[i] as int);
                lemma_bresenham(a, n as int, k as int);
                assert(before[i] == bres_error(a, n as int, k as int));
                let e = before[i] + abs(d.steps@[i] as int);
                assert(bit_set(mask, i) == (2 * e >= n));
                assert(errors@[i] == if 2 * e >= n { e - n } else { e });
                let p0 = pulses(a, n as int, k as int);
                let p1 = pulses(a, n as int, k + 1);
                if 2 * e >= n {
                    assert(p1 - p0 == 1);
                    assert(n * (p1 - p0) == n) by (nonlinear_arith)
                        requires
                            p1 - p0 == 1,
                    ;
                } else {
                    assert(p1 - p0 == 0);
                    assert(n * (p1 - p0) == 0) by (nonlinear_arith)
                        requires
                            p1 - p0 == 0,
                    ;
                }
            }
        }
        let interval = step_interval(raw_intervals[k as usize]);
        out.push(StepCommand { stepper_mask: mask, direction_mask: d.direction_mask, interval_ticks: interval });
        k += 1;
    }
    out
}

/// Net motion of axis `i` over the commands `cmds`.
pub open spec fn net_motion(cmds: Seq<StepCommand>, i: int) -> int
    decreases cmds.len(),
{
    if cmds.len() == 0 {
        0
    } else {
        net_motion(cmds.drop_last(), i) + step_delta(cmds.last(), i)
    }
}

proof fn lemma_net_prefix(d: MoveDelta, raw: Seq<u64>, cmds: Seq<StepCommand>, i: int, m: int)
    requires
        is_expansion(d, raw, cmds),
        d.total_steps > 0,
        0 <= m <= d.total_steps,
        0 <= i < MAX_AXES,
        i != EXTRUDER_AXIS,
        abs(d.steps@[i] as int) <= d.total_steps,
        bit_set(d.direction_mask, i) == (d.steps@[i] > 0),
    ensures
        net_motion(cmds.subrange(0, m), i) == (if d.steps@[i] > 0 {
            1int
        } else {
            -1int
        }) * pulses(abs(d.steps@[i] as int), d.total_steps as int, m),
    decreases m,
{
    let n = d.total_steps as int;
    let a = abs(d.steps@[i] as int);
    let sgn: int = if d.steps@[i] > 0 {
        1
    } else {
        -1
    };
    if m == 0 {
        assert(2 * 0 * a + n == n) by (nonlinear_arith);
        lemma_fundamental_div_mod_converse(n, 2 * n, 0, n);
        assert(pulses(a, n, 0) == 0);
        assert(sgn * 0 == 0);
    } else {
        lemma_net_prefix(d, raw, cmds, i, m - 1);
        let pre = cmds.subrange(0, m);
        assert(pre.drop_last() =~= cmds.subrange(0, m - 1));
        let c = cmds[m - 1];
        assert(pre.last() == c);
        lemma_bresenham(a, n, m - 1);
        let p0 = pulses(a, n, m - 1);
        let p1 = pulses(a, n, m);
        assert(bit_set(c.stepper_mask, i) == (p1 > p0));
        assert(c.direction_mask == d.direction_mask);
        if p1 > p0 {
            assert(p1 == p0 + 1);
            assert(step_delta(c, i) == sgn);
        } else {
            assert(p1 == p0);
            assert(step_delta(c, i) == 0);
        }
        assert(sgn * p0 + (if p1 > p0 { sgn } else { 0 }) == sgn * p1) by (nonlinear_arith)
            requires
                p1 == p0 + 1 || p1 == p0,
        ;
    }
}

/// Executing the expansion of a move moves every axis but the extruder by
/// exactly the move's step delta, and the extruder not at all.
pub proof fn lemma_expansion_reaches_target(d: MoveDelta, raw: Seq<u64>, cmds: Seq<StepCommand>)
    requires
        is_expansion(d, raw, cmds),
        d.total_steps as int == dominant_steps(d.steps@),
        forall|i: int| 0 <= i < MAX_AXES ==> bit_set(d.direction_mask, i) == (d.steps@[i] > 0),
    ensures
        forall|i: int|
            0 <= i < MAX_AXES && i != EXTRUDER_AXIS ==> net_motion(cmds, i) == d.steps@[i],
        net_motion(cmds, EXTRUDER_AXIS as int) == 0,
{
    let n = d.total_steps as int;
    lemma_dominant_bounds(d.steps@);
    assert(cmds.subrange(0, n) =~= cmds);
    assert forall|i: int| 0 <= i < MAX_AXES && i != EXTRUDER_AXIS implies net_motion(cmds, i) == d.steps@[i] by {
        let a = abs(d.steps@[i] as int);
        if n == 0 {
            assert(cmds.len() == 0);
            assert(a == 0);
        } else {
            lemma_net_prefix(d, raw, cmds, i, n);
            assert(2 * n * a + n == a * (2 * n) + n) by (nonlinear_arith);
            lemma_fundamental_div_mod_converse(2 * n * a + n, 2 * n, a, n);
            assert(pulses(a, n, n) == a);
            assert(cmds.subrange(0, n) =~= cmds);
            if d.steps@[i] > 0 {
                assert(1 * a == d.steps@[i]);
            } else {
                let v = d.steps@[i] as int;
                assert(a == -v);
                assert((-1int) * a == v) by (nonlinear_arith)
                    requires
                        a == -v,
                ;
            }
        }
    }
    lemma_extruder_still(cmds, n);
}

/// Position counter of axis `i` after the interrupt executes `cmds` one by
/// one from position `p`, as `StepperController::interrupt` states each step.
pub open spec fn run_position(p: i32, cmds: Seq<StepCommand>, i: int) -> i32
    decreases cmds.len(),
{
    if cmds.len() == 0 {
        p
    } else {
        wrap_move(run_position(p, cmds.drop_last(), i), step_delta(cmds.last(), i))
    }
}

/// A run of the step generator: `start` primes it from `init` with the
/// queue holding exactly `cmds`, then interrupt `j` takes `states[j]` and
/// `queues[j]` to `states[j + 1]` and `queues[j + 1]` with output `outs[j]`.
/// Every command pulses once, in enqueue order; the timer stops exactly at
/// the last one; and each counter ends where executing the commands one by
/// one from its starting value puts it.
pub proof fn lemma_run_executes_in_order(
    init: StepperController,
    cmds: Seq<StepCommand>,
    start_out: (Option<u8>, Option<u16>),
    states: Seq<StepperController>,
    queues: Seq<Seq<StepCommand>>,
    outs: Seq<IsrOutput>,
)
    requires
        cmds.len() > 0,
        states.len() == cmds.len() + 1,
        queues.len() == cmds.len() + 1,
        outs.len() == cmds.len(),
        StepperController::primed(init, cmds, start_out, states[0], queues[0]),
        forall|j: int|
            0 <= j < cmds.len() ==> StepperController::interrupted(
                #[trigger] states[j],
                queues[j],
                outs[j],
                states[j + 1],
                queues[j + 1],
            ),
    ensures
        forall|j: int| 0 <= j < cmds.len() ==> #[trigger] outs[j].pulse == Some(cmds[j].stepper_mask),
        forall|j: int| 0 <= j < cmds.len() ==> #[trigger] outs[j].stop == (j == cmds.len() - 1),
        states[cmds.len() as int].staged() is None,
        queues[cmds.len() as int].len() == 0,
        states[cmds.len() as int].positions().len() == init.positions().len(),
        forall|i: int|
            0 <= i < init.positions().len() ==> #[trigger] states[cmds.len() as int].positions()[i]
                == run_position(init.positions()[i], cmds, i),
{
    let m = cmds.len() as int;
    assert forall|j: int| 0 <= j <= m implies {
        &&& (j < m ==> states[j].staged() == Some(cmds[j]))
        &&& (j < m ==> queues[j] == cmds.skip(j + 1))
        &&& (j == m ==> states[j].staged() is None && queues[j].len() == 0)
        &&& states[j].positions().len() == init.positions().len()
        &&& forall|i: int|
            0 <= i < init.positions().len() ==> #[trigger] states[j].positions()[i]
                == run_position(init.positions()[i], cmds.subrange(0, j), i)
    } by {
        lemma_run_prefix(init, cmds, start_out, states, queues, outs, j);
    }
    assert forall|j: int| 0 <= j < m implies #[trigger] outs[j].pulse == Some(cmds[j].stepper_mask) by {
        lemma_run_prefix(init, cmds, start_out, states, queues, outs, j);
        assert(StepperController::interrupted(states[j], queues[j], outs[j], states[j + 1], queues[j + 1]));
        lemma_interrupt_step(states[j], queues[j], outs[j], states[j + 1], queues[j + 1], cmds[j]);
    }
    assert forall|j: int| 0 <= j < m implies #[trigger] outs[j].stop == (j == m - 1) by {
        lemma_run_prefix(init, cmds, start_out, states, queues, outs, j);
        assert(StepperController::interrupted(states[j], queues[j], outs[j], states[j + 1], queues[j + 1]));
        lemma_interrupt_step(states[j], queues[j], outs[j], states[j + 1], queues[j + 1], cmds[j]);
        assert(queues[j].len() == m - j - 1);
    }
    lemma_run_prefix(init, cmds, start_out, states, queues, outs, m);
    assert(cmds.subrange(0, m) =~= cmds);
}

proof fn lemma_run_prefix(
    init: StepperController,
    cmds: Seq<StepCommand>,
    start_out: (Option<u8>, Option<u16>),
    states: Seq<StepperController>,
    queues: Seq<Seq<StepCommand>>,
    outs: Seq<IsrOutput>,
    j: int,
)
    requires
        cmds.len() > 0,
        states.len() == cmds.len() + 1,
        queues.len() == cmds.len() + 1,
        outs.len() == cmds.len(),
        StepperController::primed(init, cmds, start_out, states[0], queues[0]),
        forall|k: int|
            0 <= k < cmds.len() ==> StepperController::interrupted(
                #[trigger] states[k],
                queues[k],
                outs[k],
                states[k + 1],
                queues[k + 1],
            ),
        0 <= j <= cmds.len(),
    ensures
        j < cmds.len() ==> states[j].staged() == Some(cmds[j]),
        j < cmds.len() ==> queues[j] == cmds.skip(j + 1),
        j == cmds.len() ==> states[j].staged() is None && queues[j].len() == 0,
        states[j].positions().len() == init.positions().len(),
        forall|i: int|
            0 <= i < init.positions().len() ==> #[trigger] states[j].positions()[i] == run_position(
                init.positions()[i],
                cmds.subrange(0, j),
                i,
            ),
    decreases j,
{
    if j == 0 {
        lemma_prime_step(init, cmds, start_out, states[0], queues[0]);
        assert(cmds.subrange(0, 0) =~= Seq::<StepCommand>::empty());
        assert(cmds.drop_first() =~= cmds.skip(1));
    } else {
        lemma_run_prefix(init, cmds, start_out, states, queues, outs, j - 1);
        let k = j - 1;
        let c = cmds[k];
        assert(StepperController::interrupted(states[k], queues[k], outs[k], states[k + 1], queues[k + 1]));
        lemma_interrupt_step(states[k], queues[k], outs[k], states[k + 1], queues[k + 1], c);
        assert(cmds.subrange(0, j).drop_last() =~= cmds.subrange(0, k));
        assert(cmds.subrange(0, j).last() == c);
        if j < cmds.len() {
            assert(queues[k].len() > 0);
            assert(queues[k][0] == cmds[j]);
            assert(queues[k].drop_first() =~= cmds.skip(j + 1));
        } else {
            assert(queues[k].len() == 0);
        }
    }
}

/// `v` reduced into the range of `i32` modulo 2^32, as two's complement
/// wrapping does.
pub open spec fn wrap32(v: int) -> int {
    (v + 0x8000_0000) % 0x1_0000_0000 - 0x8000_0000
}

proof fn lemma_wrap32_id(x: int)
    requires
        i32::MIN <= x <= i32::MAX,
    ensures
        wrap32(x) == x,
{
    vstd::arithmetic::div_mod::lemma_small_mod((x + 0x8000_0000) as nat, 0x1_0000_0000);
}

proof fn lemma_wrap32_add(a: int, d: int)
    ensures
        wrap32(wrap32(a) + d) == wrap32(a + d),
{
    vstd::arithmetic::div_mod::lemma_add_mod_noop_right(d, a + 0x8000_0000, 0x1_0000_0000);
}

proof fn lemma_wrap_move(x: i32, d: int)
    requires
        -1 <= d <= 1,
    ensures
        wrap_move(x, d) as int == wrap32(x + d),
{
    if d > 0 && x == i32::MAX {
        lemma_fundamental_div_mod_converse(0x1_0000_0000, 0x1_0000_0000, 1, 0);
    } else if d < 0 && x == i32::MIN {
        lemma_fundamental_div_mod_converse(-1, 0x1_0000_0000, -1, 0xffff_ffff);
    } else {
        lemma_wrap32_id(x + d);
    }
}

proof fn lemma_run_position_wrapped(p: i32, cmds: Seq<StepCommand>, i: int)
    ensures
        run_position(p, cmds, i) as int == wrap32(p + net_motion(cmds, i)),
    decreases cmds.len(),
{
    if cmds.len() == 0 {
        lemma_wrap32_id(p as int);
    } else {
        let pre = cmds.drop_last();
        lemma_run_position_wrapped(p, pre, i);
        let d = step_delta(cmds.last(), i);
        lemma_wrap_move(run_position(p, pre, i), d);
        lemma_wrap32_add(p + net_motion(pre, i), d);
    }
}

/// Executed by the interrupt one by one from any counter value `p`, the
/// expansion of a move moves every axis but the extruder by the move's step
/// delta, wrapping as two's complement, and leaves the extruder at `p`.
pub proof fn lemma_isr_reaches_target(d: MoveDelta, raw: Seq<u64>, cmds: Seq<StepCommand>)
    requires
        is_expansion(d, raw, cmds),
        d.total_steps as int == dominant_steps(d.steps@),
        forall|i: int| 0 <= i < MAX_AXES ==> bit_set(d.direction_mask, i) == (d.steps@[i] > 0),
    ensures
        forall|i: int, p: i32|
            0 <= i < MAX_AXES && i != EXTRUDER_AXIS ==> #[trigger] run_position(p, cmds, i) as int
                == wrap32(p + d.steps@[i]),
        forall|p: i32| #[trigger] run_position(p, cmds, EXTRUDER_AXIS as int) == p,
{
    lemma_expansion_reaches_target(d, raw, cmds);
    assert forall|i: int, p: i32| 0 <= i < MAX_AXES && i != EXTRUDER_AXIS implies #[trigger] run_position(p, cmds, i) as int == wrap32(p + d.steps@[i]) by {
        lemma_run_position_wrapped(p, cmds, i);
    }
    assert forall|p: i32| #[trigger] run_position(p, cmds, EXTRUDER_AXIS as int) == p by {
        lemma_run_position_wrapped(p, cmds, EXTRUDER_AXIS as int);
        lemma_wrap32_id(p as int);
    }
}

proof fn lemma_extruder_still(cmds: Seq<StepCommand>, m: int)
    requires
        0 <= m <= cmds.len(),
        forall|k: int| 0 <= k < cmds.len() ==> !bit_set(#[trigger] cmds[k].stepper_mask, EXTRUDER_AXIS as int),
    ensures
        net_motion(cmds.subrange(0, m), EXTRUDER_AXIS as int) == 0,
        m == cmds.len() ==> net_motion(cmds, EXTRUDER_AXIS as int) == 0,
    decreases m,
{
    if m > 0 {
        lemma_extruder_still(cmds, m - 1);
        assert(cmds.subrange(0, m).drop_last() =~= cmds.subrange(0, m - 1));
    }
    assert(cmds.subrange(0, cmds.len() as int) =~= cmds);
}

proof fn lemma_dominant_bounds(steps: Seq<i32>)
    requires
        steps.len() == MAX_AXES,
    ensures
        forall|i: int|
            0 <= i < MAX_AXES && i != EXTRUDER_AXIS ==> abs(steps[i] as int) <= dominant_steps(steps),
{
    assert forall|i: int| 0 <= i < MAX_AXES && i != EXTRUDER_AXIS implies abs(steps[i] as int) <= dominant_steps(steps) by {
        lemma_max_abs_upto_ge(steps, MAX_AXES as int, i);
    }
}

proof fn lemma_max_abs_upto_ge(steps: Seq<i32>, k: int, i: int)
    requires
        0 <= i < k <= steps.len(),
        i != EXTRUDER_AXIS,
    ensures
        abs(steps[i] as int) <= max_abs_upto(steps, k),
    decreases k,
{
    if i < k - 1 {
        lemma_max_abs_upto_ge(steps, k - 1, i);
    }
}

} // verus!
