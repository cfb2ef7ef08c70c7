//! What the overlay does, in terms of what goes in and what comes out.
//!
//! The laws speak of fields, bytes, characters and whole numbers, and of sizes and angles up
//! to a small error. Where one names a function by which another module describes a result,
//! there is a law here that says what comes out of that function.

pub mod faces;
pub mod graph;
pub mod history;
pub mod inputs;
pub mod lines;
pub mod numbers;
pub mod packets;
pub mod physics;
pub mod rows;
pub mod scans;
pub mod sizes;
pub mod views;
pub mod wheel;
pub mod words;
