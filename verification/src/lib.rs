//! Verified core of the octos terminal UI: clipboard escape sequences,
//! doctor diagnostics, onboarding progress, pane/selection state and the
//! scrollback bookkeeping that feeds the inline viewport.

pub mod text;
pub mod clipboard;
pub mod model;
pub mod snapshot;
pub mod doctor;
pub mod wizard;
pub mod insert_history;
pub mod viewport;
pub mod keymap;
pub mod i18n;
