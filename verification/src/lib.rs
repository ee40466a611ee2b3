use vstd::prelude::*;

pub mod api;
pub mod audio;
pub mod autostart;
pub mod bridge;
pub mod commands;
pub mod config;
pub mod dictation;
pub mod float;
pub mod front;
pub mod hud;
pub mod outside;
pub mod paste;
pub mod presence;
pub mod reading;
pub mod recordings;
pub mod service;
pub mod shortcuts;
pub mod sounds;
pub mod stt_stream;
pub mod text;
pub mod tray;
pub mod wire;

verus! {

} // verus!
