//! Core of an RSVP speed-reading engine: tokenising text, splitting words at
//! their recognition point, extracting text from documents, session records
//! and the playback state machine that drives the reading screen.

pub mod text;
pub mod state;
pub mod parser;
pub mod outside;
pub mod session;
pub mod actor;
pub mod laws;
