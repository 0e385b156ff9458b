//! The recording, editing and export logic of a screen recorder.

pub mod cursor;
pub mod double;
pub mod playback;
pub mod rdp;
pub mod render;
pub mod screencast;
pub mod text;
pub mod timecode;
pub mod timeline;
pub mod utils;
pub mod video;
pub mod zoom;
