//! A windowed, grouped, filtered select operator for event streams.

pub mod event;
pub mod groups;
pub mod key;
pub mod laws;
pub mod onramp;
pub mod script;
pub mod select;
pub mod value;
pub mod window;
