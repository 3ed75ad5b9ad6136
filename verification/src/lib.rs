//! Verified core of a push-to-talk voice dictation client.

pub mod audio;
pub mod cleanup;
pub mod config;
pub mod health;
pub mod history;
pub mod hotkey;
pub mod hotkey_capture;
pub mod hotkey_portal;
pub mod paste;
pub mod startup;
pub mod state;
pub mod text;
pub mod transcribe;
pub mod tray;
