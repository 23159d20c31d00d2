//! Verified core of a replay-director desk for the League of Legends Replay API.
pub mod text;
pub mod config_text;
pub mod bindings;
pub mod binding_map;
pub mod paths;
pub mod detect;
pub mod lcu;
pub mod handshake;
pub mod hotkeys;
pub mod edits;
pub mod api;
pub mod sequence_ui;
pub mod desk;
pub mod settings;
pub mod looks;
pub mod media;
pub mod presets;
pub mod order;
