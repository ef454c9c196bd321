//! Library index, playback settings, engine command line and workshop
//! bookkeeping for running Wallpaper Engine backgrounds on Linux.

pub mod text;
pub mod json;
pub mod texts;
pub mod library;
pub mod paths;
pub mod size;
pub mod settings;
pub mod engine;
pub mod props;
pub mod daemon;
pub mod steam;
