//! The PID heater loop in Q16.16 arithmetic.
use vstd::prelude::*;
use crate::fixed_point::{clamp_i32, fx_add, fx_div, fx_mul, fx_neg, fx_sub, Fixed16_16, SCALE};

verus! {

/// Raw Q16.16 value of the whole number `n`, saturated.
pub open spec fn whole(n: u16) -> i32 {
    clamp_i32(n * SCALE) as i32
}

/// The integral after adding `error * dt` and clamping to `[-max, max]`.
pub open spec fn next_integral(integral: i32, error: i32, dt: i32, max: i32) -> i32 {
    let i = fx_add(integral, fx_mul(error, dt));
    if i > max {
        max
    } else if i < fx_neg(max) {
        fx_neg(max)
    } else {
        i
    }
}

/// The raw controller output before clamping.
pub open spec fn raw_output(kp: i32, ki: i32, kd: i32, integral: i32, prev: i32, error: i32, dt: i32) -> i32 {
    fx_add(fx_add(fx_mul(kp, error), fx_mul(ki, integral)), fx_mul(kd, fx_div(fx_sub(error, prev), dt)))
}

/// The duty for a raw output: clamped to `[0, max]`, then its whole part.
pub open spec fn duty_of(out: i32, max: i32) -> int {
    let c = if out < 0 {
        0
    } else if out > max {
        max as int
    } else {
        out as int
    };
    c / SCALE as int
}

/// A PID controller in Q16.16 arithmetic with integral anti-windup.
#[derive(Clone, Copy, Debug)]
pub struct PidController {
    kp: Fixed16_16,
    ki: Fixed16_16,
    kd: Fixed16_16,
    integral: Fixed16_16,
    prev_error: Fixed16_16,
    output_max: Fixed16_16,
    integral_max: Fixed16_16,
}

impl PidController {
    /// Proportional gain.
    pub closed spec fn spec_kp(&self) -> i32 {
        self.kp.0
    }

    /// Integral gain.
    pub closed spec fn spec_ki(&self) -> i32 {
        self.ki.0
    }

    /// Derivative gain.
    pub closed spec fn spec_kd(&self) -> i32 {
        self.kd.0
    }

    /// Accumulated integral.
    pub closed spec fn spec_integral(&self) -> i32 {
        self.integral.0
    }

    /// Error of the previous update.
    pub closed spec fn spec_prev_error(&self) -> i32 {
        self.prev_error.0
    }

    /// Upper bound of the output.
    pub closed spec fn spec_output_max(&self) -> i32 {
        self.output_max.0
    }

    /// Bound of the integral: `output_max / ki`, or 0 where `ki` is not
    /// positive.
    pub closed spec fn spec_integral_max(&self) -> i32 {
        self.integral_max.0
    }

    /// The output bound is not negative.
    pub closed spec fn wf(&self) -> bool {
        self.output_max.0 >= 0
    }

    /// A controller with gains `kp`, `ki`, `kd` whose output (a PWM duty)
    /// ranges over `0..=output_max`.
    pub fn new(kp: Fixed16_16, ki: Fixed16_16, kd: Fixed16_16, output_max: u16) -> (r: PidController)
        ensures
            r.wf(),
            r.spec_kp() == kp.0,
            r.spec_ki() == ki.0,
            r.spec_kd() == kd.0,
            r.spec_integral() == 0,
            r.spec_prev_error() == 0,
            r.spec_output_max() == whole(output_max),
            r.spec_integral_max() == if ki.0 > 0 {
                fx_div(whole(output_max), ki.0)
            } else {
                0
            },
    {
        let max_raw: i64 = output_max as i64 * 65536;
        let output_max_fixed = Fixed16_16(crate::fixed_point::saturate(max_raw));
        let integral_max = if ki.0 > 0 {
            output_max_fixed.div(ki)
        } else {
            Fixed16_16(0)
        };
        PidController {
            kp,
            ki,
            kd,
            integral: Fixed16_16(0),
            prev_error: Fixed16_16(0),
            output_max: output_max_fixed,
            integral_max,
        }
    }

    /// The accumulated integral.
    pub fn integral(&self) -> (r: Fixed16_16)
        ensures
            r.0 == self.spec_integral(),
    {
        self.integral
    }

    /// Clears the integral and the previous error.
    pub fn reset(&mut self)
        ensures
            final(self).wf() == old(self).wf(),
            final(self).spec_integral() == 0,
            final(self).spec_prev_error() == 0,
            final(self).spec_kp() == old(self).spec_kp(),
            final(self).spec_ki() == old(self).spec_ki(),
            final(self).spec_kd() == old(self).spec_kd(),
            final(self).spec_output_max() == old(self).spec_output_max(),
            final(self).spec_integral_max() == old(self).spec_integral_max(),
    {
        self.integral = Fixed16_16(0);
        self.prev_error = Fixed16_16(0);
    }

    /// One control step for `error = target - current` over `dt` seconds:
    /// adds `error * dt` to the integral (clamped to the integral bound),
    /// sums the three terms, clamps to `[0, output_max]` and returns the
    /// whole part as the duty.
    pub fn update(&mut self, error: Fixed16_16, dt: Fixed16_16) -> (r: u16)
        requires
            old(self).wf(),
        ensures
            final(self).wf(),
            final(self).spec_integral() == next_integral(
                old(self).spec_integral(),
                error.0,
                dt.0,
                old(self).spec_integral_max(),
            ),
            final(self).spec_prev_error() == error.0,
            r as int == duty_of(
                raw_output(
                    old(self).spec_kp(),
                    old(self).spec_ki(),
                    old(self).spec_kd(),
                    final(self).spec_integral(),
                    old(self).spec_prev_error(),
                    error.0,
                    dt.0,
                ),
                old(self).spec_output_max(),
            ),
            final(self).spec_kp() == old(self).spec_kp(),
            final(self).spec_ki() == old(self).spec_ki(),
            final(self).spec_kd() == old(self).spec_kd(),
            final(self).spec_output_max() == old(self).spec_output_max(),
            final(self).spec_integral_max() == old(self).spec_integral_max(),
    {
        let p_term = self.kp.mul(error);
        let mut integral = self.integral.add(error.mul(dt));
        let neg_max = self.integral_max.neg();
        if integral.0 > self.integral_max.0 {
            integral = self.integral_max;
        } else if integral.0 < neg_max.0 {
            integral = neg_max;
        }
        self.integral = integral;
        let i_term = self.ki.mul(self.integral);
        let derivative = error.sub(self.prev_error).div(dt);
        self.prev_error = error;
        let d_term = self.kd.mul(derivative);
        let output = p_term.add(i_term).add(d_term);
        let clamped: i32 = if output.0 < 0 {
            0
        } else if output.0 > self.output_max.0 {
            self.output_max.0
        } else {
            output.0
        };
        (clamped / 65536) as u16
    }
}

} // verus!
