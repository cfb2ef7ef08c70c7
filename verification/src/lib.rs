//! The logic of a pedal overlay for racing simulators: a window that stays on top of the
//! game and shows a scrolling trace of the pedals, the gear, the speed and the wheel.
//!
//! The program around this crate owns the window, the devices and the shared memory of the
//! game. What it reads it hands over as plain values: moments in nanoseconds, numbers as
//! [`single::Single`], pages of memory as bytes. What is to be shown, logged or asked for
//! next comes back the same way.

pub mod arithmetic;
pub mod color;
pub mod frame;
pub mod input;
pub mod laws;
pub mod layout;
pub mod log;
pub mod names;
pub mod overlay;
pub mod probe;
pub mod rounding;
pub mod run;
pub mod single;
pub mod steady;
pub mod telemetry;
pub mod text;
pub mod widgets;
