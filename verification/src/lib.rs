//! Music theory, note logging and sample windowing for a guitar
//! pitch/key analysis plugin.

pub mod theory;
pub mod note_log;
pub mod pitch;
pub mod key_detect;
pub mod editor;
