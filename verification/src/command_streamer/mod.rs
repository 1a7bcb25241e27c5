//! Buffers, line extraction and end-of-stream bookkeeping for the output of
//! child processes that are read without blocking.

pub mod command_streamer;
pub mod error;
pub mod laws;
pub mod lines;
pub mod multi_command_streamer;

pub use command_streamer::{ChannelRead, CommandStreamer};
pub use error::StreamError;
