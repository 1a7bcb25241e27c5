//! Non-blocking line-stream multiplexing for several child processes, with the
//! text and argument utilities that the log follower around it needs.

pub mod arg_parser;
pub mod clock;
pub mod command_streamer;
pub mod error;
pub mod json;
pub mod log_entries;
pub mod kubectl;
pub mod message;
pub mod message_regex;
pub mod pattern;
pub mod program;
pub mod replace;
pub mod search;
pub mod stats;
pub mod stern_json;
pub mod stern_json_regex;
pub mod string_utils;
pub mod table;
pub mod text;
pub mod text_map;
