//! A small network-radio playback controller: a persistent playlist of
//! stream URLs with a playback cursor, a text codec for the playlist's
//! on-disk form, the data model of the native media engine's events, and
//! the rule that turns metadata events into the "now playing" title.
//!
//! Everything here is plain data and decisions; the process edges (the
//! native engine handle, file reads and writes, the request routing)
//! live outside and hand plain values in and out.

pub mod bridge;
pub mod engine;
pub mod codec;
pub mod player;
