//! Local-first voice typing: everything Murmur decides, with what it decides proved.

pub mod asr;
pub mod audio;
pub mod audio_laws;
pub mod chars;
pub mod config;
pub mod cuda;
pub mod doctor;
pub mod engine;
pub mod engine_laws;
pub mod format_laws;
pub mod history_laws;
pub mod hotkey;
pub mod icon;
pub mod inject;
pub mod install;
pub mod keymap;
pub mod listen;
pub mod mock;
pub mod models;
pub mod order;
pub mod outside;
pub mod overlay;
pub mod parakeet;
pub mod partials;
pub mod paths;
pub mod phase_laws;
pub mod recorder;
pub mod report;
pub mod resample;
pub mod selftest;
pub mod session;
pub mod session_laws;
pub mod settings;
pub mod single;
pub mod single_laws;
pub mod stats;
pub mod stats_laws;
pub mod streaming;
pub mod terminal;
pub mod text;
pub mod text_laws;
pub mod time;
pub mod time_laws;
pub mod tools;
pub mod tray;
pub mod uinput;
pub mod vad;
