//! Installer logic for the Wanxiang Rime schema.

pub mod actions;
pub mod changelog;
pub mod config;
pub mod digest;
pub mod installed_detector;
pub mod modules;
pub mod network;
pub mod options;
pub mod pattern;
pub mod text;
pub mod version;
pub mod yaml;
