//! LEQtion's decision logic, with its contracts proved.
//!
//! The measurement numbers themselves are floating point and live outside
//! this crate; what stands here is everything that decides which input,
//! which channel, which name, which file and which series a number belongs
//! to, and the integer machinery those decisions run on.

pub mod text;
pub mod project;
pub mod weighting;
pub mod spl;
pub mod window;
pub mod bands;
pub mod spectrum;
pub mod transfer;
pub mod engine;
pub mod generator;
pub mod keyed;
pub mod history;
pub mod audio;
pub mod synthetic;
pub mod audio_session;
pub mod profiles;
pub mod logger;
pub mod commands;
pub mod session;
pub mod listing;
pub mod ring;
pub mod settings;
pub mod place;
