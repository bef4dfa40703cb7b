//! The DontSpeak voice integration of an editor.
//!
//! The editor is a frontend client of the DontSpeak daemon: the daemon owns
//! the dictation key, the microphone, the speech engines and the narration
//! logic, and the editor subscribes to dictation events over the daemon's
//! local NDJSON socket.

pub mod client;
pub mod connection;
pub mod conversation;
pub mod dictation;
pub mod index_set;
pub mod json;
pub mod lines;
pub mod narrator;
pub mod page;
pub mod places;
pub mod protocol;
pub mod settings;
pub mod sink;
pub mod status_button;
pub mod text;
pub mod window_ops;
