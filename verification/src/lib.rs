//! History of the confirmed component values that snapshot interpolation reads from.

pub mod history_buffer;
pub mod interpolation_history;
pub mod laws;
pub mod tick;
pub mod timeline;

pub use history_buffer::{HistoryBuffer, HistoryState};
pub use interpolation_history::{
    insert_confirmed_history_on_interpolated, Backfill, ConfirmedHistory, ConfirmedHistorySample,
    InterpolationWindow, Keyframes,
};
pub use tick::Tick;
