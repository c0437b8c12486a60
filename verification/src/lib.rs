//! A clipboard history library: it classifies what was copied, flags secrets,
//! builds previews and transforms text, and keeps a bounded history of clips.

pub mod text;
pub mod models;
pub mod detect;
pub mod patterns;
pub mod json;
pub mod commands;
pub mod digest;
mod clock;
pub mod clipboard;
