//! Core of a two-processor 3D-printer controller.
//!
//! - `fixed_point`: Q16.16 arithmetic.
//! - `crc`, `stuffing`, `protocol`, `codec`, `registry`: the framed wire
//!   protocol, its zero-copy parser, the host-side codec and the negotiated
//!   command identifiers.
//! - `motion`, `planner`, `shaping`: step deltas and Bresenham distribution,
//!   the lookahead queue discipline, and the input-shaping schedule.
//! - `stepper`: the step queue and the pipelined step generator of the timer
//!   interrupt.
//! - `heater`, `safety`: the PID heater loop and the safety supervisor.
//! - `tmc`, `drv8825`, `thermistor`: driver datagrams, pin levels and sensor
//!   conversion.
pub mod fixed_point;
pub mod crc;
pub mod stuffing;
pub mod protocol;
pub mod codec;
pub mod registry;
pub mod stepper;
pub mod motion;
pub mod planner;
pub mod heater;
pub mod safety;
pub mod tmc;
pub mod thermistor;
pub mod shaping;
pub mod drv8825;
