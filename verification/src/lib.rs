//! Client library for a line-delimited chat completion protocol.
//!
//! The heart of the crate is [`decoder::Decoder`], a verified state machine
//! that turns arbitrarily chunked raw bytes into a sequence of
//! [`StreamResponse`] events. Around it stand verified helpers for endpoint
//! resolution, request header selection, and decoding of non-streaming
//! response bodies.

pub mod bridge;
pub mod client;
pub mod decoder;
pub mod event;
pub mod text;

pub use event::StreamResponse;
