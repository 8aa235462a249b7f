//! Way Dictation: speech to text that is typed into the focused window.
//!
//! The library holds the decisions of the program: the WAV format, the voice
//! detector, what is asked of each transcription service and what its answer
//! means, how text reaches the focused window, and how the desktop widget and
//! its worker threads move from state to state. Reading the microphone, the
//! network and the screen is left to the program around it.

pub mod text;
pub mod wav;
pub mod audio;
pub mod encoding;
pub mod json;
pub mod live;
pub mod client;
pub mod injector;
pub mod config;
pub mod app;
pub mod cli;
pub mod worker;
pub mod gui;
