//! Voice dictation: text clean-up, hotkeys, audio buffering and session rules.

pub mod asr;
pub mod audio;
pub mod capture;
pub mod chord;
pub mod cleanup;
pub mod config;
pub mod cues;
pub mod daemon;
pub mod download;
pub mod history;
pub mod hotkey;
pub mod pattern;
pub mod phrases;
pub mod pipeline;
pub mod platform;
pub mod processing;
pub mod resample;
pub mod rules;
pub mod session;
pub mod settings;
pub mod symbols;
pub mod text;
pub mod typing;
pub mod words;
