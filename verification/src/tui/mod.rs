//! The interactive form: its state, the key handling that drives it, and
//! what it shows.

pub mod app;
pub mod field;
pub mod view;

pub use app::App;
