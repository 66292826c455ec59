//! Keymap, matrix layout and key-sequence engine of the Primer29 numpad firmware.

pub mod action;
pub mod event;
pub mod keymap;
pub mod matrix;
pub mod run_laws;
pub mod sequence_laws;
pub mod sequences;
pub mod timing;
pub mod trigger_laws;
