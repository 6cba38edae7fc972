//! The safety supervisor: sensor range and thermal runaway checks per heater,
//! stepper driver faults, task stall detection, and the emergency stop that
//! every control loop polls.
//!
//! Temperatures are Q16.16 degrees Celsius, rates Q16.16 degrees per second,
//! and times microseconds of a monotonic clock that the caller reads.
use vstd::prelude::*;
use crate::fixed_point::{clamp_i32, Fixed16_16};
use crate::heater::{duty_of, next_integral, raw_output, PidController};

verus! {

/// Shortest interval between two readings, in microseconds, over which a
/// rate of change is judged.
pub const MIN_RATE_INTERVAL_US: u64 = 100_000;

/// Microseconds per second.
pub const MICROS_PER_SEC: u64 = 1_000_000;

/// A detected safety fault.
#[derive(Clone, Copy, Debug, PartialEq, Eq, Structural)]
pub enum SafetyError {
    /// Temperature rose faster than allowed.
    ThermalRunaway { heater_id: usize, rate_of_change: Fixed16_16 },
    /// Temperature below the plausible range: a shorted sensor.
    TempTooLow { heater_id: usize, temp: Fixed16_16 },
    /// Temperature above the plausible range: a disconnected sensor.
    TempTooHigh { heater_id: usize, temp: Fixed16_16 },
    /// A stepper driver reported a fault.
    StepperDriverFault { driver_mask: u8 },
    /// A monitored task missed its check-in deadline.
    TaskStalled { task_id: usize },
}

/// Limits and last reading of one heater.
#[derive(Clone, Copy, Debug, PartialEq, Eq, Structural)]
pub struct ThermalMonitor {
    /// Largest allowed rise, degrees per second.
    pub max_rate_celsius_per_sec: Fixed16_16,
    /// Lowest plausible reading.
    pub min_temp_limit: Fixed16_16,
    /// Highest plausible reading.
    pub max_temp_limit: Fixed16_16,
    /// Temperature at the last accepted check.
    pub last_temp: Fixed16_16,
    /// Time of the last accepted check; `None` before the first.
    pub last_check_us: Option<u64>,
}

/// Whether `temp` rose from `last` faster than `max_rate` per second over
/// `dt_us` microseconds (exact rational comparison).
pub open spec fn too_fast(last: i32, temp: i32, dt_us: u64, max_rate: i32) -> bool {
    (temp - last) * MICROS_PER_SEC > max_rate * dt_us
}

/// Raw Q16.16 rate of change, rounded toward zero and saturated.
pub open spec fn rate_of(last: i32, temp: i32, dt_us: u64) -> i32 {
    let d = (temp - last) * MICROS_PER_SEC;
    clamp_i32(if d >= 0 {
        d / dt_us as int
    } else {
        -((-d) / dt_us as int)
    }) as i32
}

/// What a check of `temp` at `now_us` on heater `id` gives, and the monitor
/// after it.
pub open spec fn check_model(m: ThermalMonitor, id: usize, temp: Fixed16_16, now_us: u64) -> (
    Result<(), SafetyError>,
    ThermalMonitor,
) {
    let accepted = ThermalMonitor { last_temp: temp, last_check_us: Some(now_us), ..m };
    if temp.0 < m.min_temp_limit.0 {
        (Err(SafetyError::TempTooLow { heater_id: id, temp }), m)
    } else if temp.0 > m.max_temp_limit.0 {
        (Err(SafetyError::TempTooHigh { heater_id: id, temp }), m)
    } else {
        match m.last_check_us {
            Some(t) => if now_us > t && now_us - t > MIN_RATE_INTERVAL_US && too_fast(
                m.last_temp.0,
                temp.0,
                (now_us - t) as u64,
                m.max_rate_celsius_per_sec.0,
            ) {
                (
                    Err(
                        SafetyError::ThermalRunaway {
                            heater_id: id,
                            rate_of_change: Fixed16_16(
                                rate_of(m.last_temp.0, temp.0, (now_us - t) as u64),
                            ),
                        },
                    ),
                    m,
                )
            } else {
                (Ok(()), accepted)
            },
            None => (Ok(()), accepted),
        }
    }
}

impl ThermalMonitor {
    /// A monitor with the given limits and starting temperature, before its
    /// first check.
    pub fn new(
        max_rate_celsius_per_sec: Fixed16_16,
        min_temp_limit: Fixed16_16,
        max_temp_limit: Fixed16_16,
        initial_temp: Fixed16_16,
    ) -> (r: ThermalMonitor)
        ensures
            r == (ThermalMonitor {
                max_rate_celsius_per_sec,
                min_temp_limit,
                max_temp_limit,
                last_temp: initial_temp,
                last_check_us: None,
            }),
    {
        ThermalMonitor {
            max_rate_celsius_per_sec,
            min_temp_limit,
            max_temp_limit,
            last_temp: initial_temp,
            last_check_us: None,
        }
    }

    /// Checks the reading `temp` of heater `heater_id` taken at `now_us`:
    /// first the plausible range, then, where more than
    /// `MIN_RATE_INTERVAL_US` passed since the last accepted check, the rate
    /// of rise. An accepted reading becomes the last one; a rejected one
    /// leaves the monitor as it was.
    pub fn check(&mut self, heater_id: usize, temp: Fixed16_16, now_us: u64) -> (r: Result<(), SafetyError>)
        ensures
            (r, *final(self)) == check_model(*old(self), heater_id, temp, now_us),
    {
        if temp.0 < self.min_temp_limit.0 {
            return Err(SafetyError::TempTooLow { heater_id, temp });
        }
        if temp.0 > self.max_temp_limit.0 {
            return Err(SafetyError::TempTooHigh { heater_id, temp });
        }
        if let Some(t) = self.last_check_us {
            if now_us > t && now_us - t > MIN_RATE_INTERVAL_US {
                let dt: u64 = now_us - t;
                let delta: i128 = (temp.0 as i128 - self.last_temp.0 as i128) * 1_000_000;
                let r: i128 = self.max_rate_celsius_per_sec.0 as i128;
                let dtw: i128 = dt as i128;
                assert(-0x8000_0000 * 0x1_0000_0000_0000_0000 <= r * dtw <= 0x8000_0000 * 0x1_0000_0000_0000_0000) by (nonlinear_arith)
                    requires
                        -0x8000_0000 <= r < 0x8000_0000,
                        0 <= dtw < 0x1_0000_0000_0000_0000,
                ;
                let limit: i128 = r * dtw;
                if delta > limit {
                    let q: i128 = if delta >= 0 {
                        delta / dt as i128
                    } else {
                        -((-delta) / dt as i128)
                    };
                    let rate: i32 = if q > i32::MAX as i128 {
                        i32::MAX
                    } else if q < i32::MIN as i128 {
                        i32::MIN
                    } else {
                        q as i32
                    };
                    return Err(
                        SafetyError::ThermalRunaway { heater_id, rate_of_change: Fixed16_16(rate) },
                    );
                }
            }
        }
        self.last_temp = temp;
        self.last_check_us = Some(now_us);
        Ok(())
    }
}

/// The supervisor of the whole MCU. Once the emergency stop is active it
/// stays active: the only way out is a reset.
#[derive(Debug)]
pub struct SafetyMonitor {
    thermal_monitors: Vec<ThermalMonitor>,
    emergency_stop_active: bool,
    first_reason: Option<SafetyError>,
    last_check_in: Vec<u64>,
    task_deadlines: Vec<u64>,
}

impl SafetyMonitor {
    /// Whether the emergency stop is active.
    pub closed spec fn estop(&self) -> bool {
        self.emergency_stop_active
    }

    /// The fault that first triggered the emergency stop.
    pub closed spec fn reason(&self) -> Option<SafetyError> {
        self.first_reason
    }

    /// The heater monitors.
    pub closed spec fn monitors(&self) -> Seq<ThermalMonitor> {
        self.thermal_monitors@
    }

    /// Time of each task's last check-in.
    pub closed spec fn check_ins(&self) -> Seq<u64> {
        self.last_check_in@
    }

    /// Each task's check-in deadline, in microseconds.
    pub closed spec fn deadlines(&self) -> Seq<u64> {
        self.task_deadlines@
    }

    /// One check-in time per task.
    pub closed spec fn wf(&self) -> bool {
        self.last_check_in@.len() == self.task_deadlines@.len()
    }

    /// The emergency stop after a trigger with `reason`.
    pub open spec fn triggered(&self, old: &SafetyMonitor, reason: SafetyError) -> bool {
        &&& self.estop()
        &&& self.reason() == if old.estop() {
            old.reason()
        } else {
            Some(reason)
        }
    }

    /// A supervisor of the given heater monitors and task deadlines, every
    /// task counted as checked in at `now_us`.
    pub fn new(thermal_monitors: Vec<ThermalMonitor>, task_deadlines: Vec<u64>, now_us: u64) -> (r: SafetyMonitor)
        ensures
            r.wf(),
            !r.estop(),
            r.reason() is None,
            r.monitors() == thermal_monitors@,
            r.deadlines() == task_deadlines@,
            r.check_ins() == Seq::new(task_deadlines@.len(), |i: int| now_us),
    {
        let mut last_check_in: Vec<u64> = Vec::new();
        let mut i: usize = 0;
        while i < task_deadlines.len()
            invariant
                i <= task_deadlines@.len(),
                last_check_in@ == Seq::new(i as nat, |j: int| now_us),
            decreases task_deadlines@.len() - i,
        {
            last_check_in.push(now_us);
            assert(last_check_in@ =~= Seq::new((i + 1) as nat, |j: int| now_us));
            i += 1;
        }
        SafetyMonitor {
            thermal_monitors,
            emergency_stop_active: false,
            first_reason: None,
            last_check_in,
            task_deadlines,
        }
    }

    /// Activates the emergency stop; only the first reason is kept.
    pub fn trigger_emergency_stop(&mut self, reason: SafetyError)
        ensures
            final(self).triggered(old(self), reason),
            final(self).monitors() == old(self).monitors(),
            final(self).check_ins() == old(self).check_ins(),
            final(self).deadlines() == old(self).deadlines(),
            final(self).wf() == old(self).wf(),
    {
        if !self.emergency_stop_active {
            self.emergency_stop_active = true;
            self.first_reason = Some(reason);
        }
    }

    /// Whether the emergency stop is active.
    pub fn is_emergency_stop_active(&self) -> (r: bool)
        ensures
            r == self.estop(),
    {
        self.emergency_stop_active
    }

    /// The fault that first triggered the emergency stop.
    pub fn emergency_stop_reason(&self) -> (r: Option<SafetyError>)
        ensures
            r == self.reason(),
    {
        self.first_reason
    }

    /// Checks a reading of heater `heater_id`; a fault triggers the emergency
    /// stop. An unknown heater is ignored.
    pub fn check_thermal_state(&mut self, heater_id: usize, temp: Fixed16_16, now_us: u64)
        ensures
            final(self).wf() == old(self).wf(),
            final(self).check_ins() == old(self).check_ins(),
            final(self).deadlines() == old(self).deadlines(),
            heater_id >= old(self).monitors().len() ==> *final(self) == *old(self),
            heater_id < old(self).monitors().len() ==> {
                let (res, m) = check_model(old(self).monitors()[heater_id as int], heater_id, temp, now_us);
                &&& final(self).monitors() == old(self).monitors().update(heater_id as int, m)
                &&& match res {
                    Ok(()) => final(self).estop() == old(self).estop() && final(self).reason() == old(self).reason(),
                    Err(e) => final(self).triggered(old(self), e),
                }
            },
    {
        if heater_id < self.thermal_monitors.len() {
            let mut m = self.thermal_monitors[heater_id];
            let res = m.check(heater_id, temp, now_us);
            self.thermal_monitors.set(heater_id, m);
            if let Err(e) = res {
                self.trigger_emergency_stop(e);
            }
        }
    }

    /// Checks the fault bits of the stepper drivers; any set bit triggers the
    /// emergency stop.
    pub fn check_stepper_faults(&mut self, fault_pin_states: u8)
        ensures
            final(self).wf() == old(self).wf(),
            final(self).monitors() == old(self).monitors(),
            final(self).check_ins() == old(self).check_ins(),
            final(self).deadlines() == old(self).deadlines(),
            fault_pin_states == 0 ==> final(self).estop() == old(self).estop() && final(self).reason()
                == old(self).reason(),
            fault_pin_states != 0 ==> final(self).triggered(
                old(self),
                SafetyError::StepperDriverFault { driver_mask: fault_pin_states },
            ),
    {
        if fault_pin_states != 0 {
            self.trigger_emergency_stop(SafetyError::StepperDriverFault { driver_mask: fault_pin_states });
        }
    }

    /// Records that task `task_id` checked in at `now_us`. An unknown task is
    /// ignored.
    pub fn task_check_in(&mut self, task_id: usize, now_us: u64)
        ensures
            final(self).wf() == old(self).wf(),
            final(self).estop() == old(self).estop(),
            final(self).reason() == old(self).reason(),
            final(self).monitors() == old(self).monitors(),
            final(self).deadlines() == old(self).deadlines(),
            task_id < old(self).check_ins().len() ==> final(self).check_ins() == old(self).check_ins().update(task_id as int, now_us),
            task_id >= old(self).check_ins().len() ==> final(self).check_ins() == old(self).check_ins(),
    {
        if task_id < self.last_check_in.len() {
            self.last_check_in.set(task_id, now_us);
        }
    }

    /// Triggers the emergency stop for every task whose time since its last
    /// check-in exceeds its deadline; the first such task, in index order, is
    /// the reason where the stop was not already active.
    pub fn check_task_stalls(&mut self, now_us: u64)
        requires
            old(self).wf(),
        ensures
            final(self).wf(),
            final(self).monitors() == old(self).monitors(),
            final(self).check_ins() == old(self).check_ins(),
            final(self).deadlines() == old(self).deadlines(),
            final(self).estop() == (old(self).estop() || exists|i: int|
                0 <= i < old(self).check_ins().len() && #[trigger] stalled(old(self).check_ins()[i], old(self).deadlines()[i], now_us)),
            old(self).estop() ==> final(self).reason() == old(self).reason(),
            !old(self).estop() ==> final(self).reason() == match first_stalled(
                old(self).check_ins(),
                old(self).deadlines(),
                now_us,
                old(self).check_ins().len() as int,
            ) {
                Some(t) => Some(SafetyError::TaskStalled { task_id: t as usize }),
                None => old(self).reason(),
            },
    {
        let mut i: usize = 0;
        while i < self.task_deadlines.len()
            invariant
                self.wf(),
                i <= self.task_deadlines@.len(),
                self.thermal_monitors@ == old(self).monitors(),
                self.last_check_in@ == old(self).check_ins(),
                self.task_deadlines@ == old(self).deadlines(),
                self.emergency_stop_active == (old(self).estop() || exists|j: int|
                    0 <= j < i && #[trigger] stalled(old(self).check_ins()[j], old(self).deadlines()[j], now_us)),
                old(self).estop() ==> self.first_reason == old(self).reason(),
                !old(self).estop() ==> self.first_reason == match first_stalled(
                    old(self).check_ins(),
                    old(self).deadlines(),
                    now_us,
                    i as int,
                ) {
                    Some(t) => Some(SafetyError::TaskStalled { task_id: t as usize }),
                    None => old(self).reason(),
                },
                !old(self).estop() ==> (self.emergency_stop_active <==> first_stalled(
                    old(self).check_ins(),
                    old(self).deadlines(),
                    now_us,
                    i as int,
                ) is Some),
                forall|t: int|
                    #![trigger first_stalled(old(self).check_ins(), old(self).deadlines(), now_us, t)]
                    0 <= t <= i ==> match first_stalled(old(self).check_ins(), old(self).deadlines(), now_us, t) {
                        Some(j) => 0 <= j < t,
                        None => true,
                    },
            decreases self.task_deadlines@.len() - i,
        {
            let last = self.last_check_in[i];
            let elapsed: u64 = if now_us > last { now_us - last } else { 0 };
            if elapsed > self.task_deadlines[i] {
                assert(stalled(old(self).check_ins()[i as int], old(self).deadlines()[i as int], now_us));
                self.trigger_emergency_stop(SafetyError::TaskStalled { task_id: i });
            }
            i += 1;
        }
        proof {
            assert(self.last_check_in@.len() == self.task_deadlines@.len());
        }
    }
}

/// The first of the tasks `0..n` that has stalled by `now`, if any.
pub open spec fn first_stalled(check_ins: Seq<u64>, deadlines: Seq<u64>, now: u64, n: int) -> Option<int>
    decreases n,
{
    if n <= 0 {
        None
    } else {
        match first_stalled(check_ins, deadlines, now, n - 1) {
            Some(t) => Some(t),
            None => if stalled(check_ins[n - 1], deadlines[n - 1], now) {
                Some(n - 1)
            } else {
                None
            },
        }
    }
}

/// Whether a task last seen at `last` with deadline `deadline` has stalled
/// by `now`.
pub open spec fn stalled(last: u64, deadline: u64, now: u64) -> bool {
    now > last && now - last > deadline
}

/// The duty of one heater control tick: 0 while the emergency stop is
/// active; 0 with the controller reset where the target is not above zero;
/// otherwise the controller's output for the error `target - current`.
pub fn heater_duty(
    safety: &SafetyMonitor,
    pid: &mut PidController,
    target: Fixed16_16,
    current: Fixed16_16,
    dt: Fixed16_16,
) -> (r: u16)
    requires
        old(pid).wf(),
    ensures
        final(pid).wf(),
        safety.estop() ==> r == 0 && *final(pid) == *old(pid),
        !safety.estop() && target.0 <= 0 ==> r == 0 && final(pid).spec_integral() == 0
            && final(pid).spec_prev_error() == 0,
        !safety.estop() && target.0 > 0 ==> {
            let e = crate::fixed_point::fx_sub(target.0, current.0);
            &&& final(pid).spec_integral() == next_integral(
                old(pid).spec_integral(),
                e,
                dt.0,
                old(pid).spec_integral_max(),
            )
            &&& r as int == duty_of(
                raw_output(
                    old(pid).spec_kp(),
                    old(pid).spec_ki(),
                    old(pid).spec_kd(),
                    final(pid).spec_integral(),
                    old(pid).spec_prev_error(),
                    e,
                    dt.0,
                ),
                old(pid).spec_output_max(),
            )
        },
{
    if safety.is_emergency_stop_active() {
        return 0;
    }
    if target.0 <= 0 {
        pid.reset();
        return 0;
    }
    let error = target.sub(current);
    pid.update(error, dt)
}

} // verus!
