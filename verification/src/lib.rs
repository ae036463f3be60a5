//! The logic of a serverless voice chat for a local network.
//!
//! Every participant broadcasts small announcements of its presence, keeps a
//! table of the participants it has heard, and exchanges Opus frames with each
//! of them directly. This crate holds the packet formats, the tables and their
//! ageing rules, the mixer, the framing of captured sound and the decisions of
//! the background threads and of the main window. Sockets, sound devices, the
//! codec, the window and floating-point arithmetic belong to the program around
//! it.
pub mod addr;
pub mod audio;
pub mod clock;
pub mod console;
pub mod gui;
pub mod network;
pub mod pcm;
pub mod settings;
pub mod state;
pub mod text;
