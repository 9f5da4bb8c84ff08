//! Verified core of an ID3 tag editor: reading tags and chapter markers out of an
//! MP3 file, editing them, building the tag that is written back, and the small
//! bounded queues that drive the wave animation.

pub mod text;
pub mod model;
pub mod frames;
pub mod id3_bridge;
pub mod base64_bridge;
pub mod load;
pub mod save;
pub mod editor;
pub mod wave;
pub mod laws;
pub mod edit_laws;
pub mod load_laws;
