//! What holds of the library as a whole.

pub mod calls;
pub mod chunks;
pub mod conversation;
pub mod cuts;
pub mod definitions;
pub mod endings;
pub mod framing;
pub mod gathering;
pub mod names;
pub mod patches;
pub mod request;
pub mod steps;
pub mod text;
pub mod tools;
pub mod transcript;
pub mod views;
pub mod xml;
