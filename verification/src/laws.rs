//! What the library promises, said of inputs and results.
//!
//! Each law stands for all inputs, in terms of characters, values and positions.

pub mod conversations;
pub mod endpoints;
pub mod events;
pub mod framing;
pub mod models;
pub mod requests;
pub mod telling;
pub mod text;
pub mod values;
pub mod views;
