//! What happens on a press, an input or an answer.

pub mod browse;
pub mod download;
pub mod globe;
pub mod library;
pub mod listing;
pub mod nav;
pub mod outline;
pub mod overlay;
pub mod persist;
pub mod preview;
pub mod round_trip;
pub mod search;
pub mod window;
