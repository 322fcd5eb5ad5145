//! Voice input: press a hotkey, speak, and the text is typed for you.
//!
//! The crate holds the program's decisions and computations: decoding the
//! recogniser's output, the daemon's and the hotkey's state, the configuration
//! and its rules, and what each command does. Devices, files, the network and
//! the model itself are reached from the program around it.
pub mod asr;
pub mod audio;
pub mod cli;
pub mod common;
pub mod daemon;
pub mod hotkey;
pub mod number;
pub mod overlay;
pub mod pcm;
pub mod settings_window;
pub mod single;
pub mod text;
pub mod text_injection;
pub mod tray;
