//! The logic of a satellite imagery browser: what its lists show, what its
//! buttons ask other modules for, and what it remembers between runs.

pub mod calendar;
pub mod calls;
pub mod components;
pub mod handlers;
pub mod keyed;
pub mod message;
pub mod names;
pub mod number;
pub mod order;
pub mod proto;
pub mod state;
pub mod text;
