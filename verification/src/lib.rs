//! Verified core of VRCaster: the logic that turns a user's choices into
//! ffmpeg command lines, nginx configuration, upload URLs and the stored
//! profile / history lists.

pub mod config;
pub mod encode;
pub mod ffmpeg;
pub mod history;
pub mod media;
pub mod num;
pub mod queue;
pub mod records;
pub mod server;
pub mod subtitle;
pub mod text;
pub mod types;
pub mod upload;
