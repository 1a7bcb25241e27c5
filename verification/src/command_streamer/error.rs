//! What can go wrong with a process stream.

use vstd::prelude::*;

verus! {

/// A failure of one process stream. None of them touches another stream.
#[derive(Debug, Clone, PartialEq, Eq)]
pub enum StreamError {
    /// The process could not be started; the text is the reason.
    SpawnFailure(String),
    /// A read on one of the pipes failed; the text is the reason. The channel
    /// is not thereby at its end.
    ReadFailure(String),
    /// Neither standard output nor standard error could be captured.
    NoChannelsCaptured,
    /// The command line was asked for before the program's name was set.
    ProgramNotSet,
    /// The command line was asked for before the arguments were set.
    ArgsNotSet,
}

/// A `StreamError` with its texts as character sequences.
pub enum StreamErrorView {
    SpawnFailure(Seq<char>),
    ReadFailure(Seq<char>),
    NoChannelsCaptured,
    ProgramNotSet,
    ArgsNotSet,
}

impl View for StreamError {
    type V = StreamErrorView;

    open spec fn view(&self) -> StreamErrorView {
        match self {
            StreamError::SpawnFailure(reason) => StreamErrorView::SpawnFailure(reason@),
            StreamError::ReadFailure(reason) => StreamErrorView::ReadFailure(reason@),
            StreamError::NoChannelsCaptured => StreamErrorView::NoChannelsCaptured,
            StreamError::ProgramNotSet => StreamErrorView::ProgramNotSet,
            StreamError::ArgsNotSet => StreamErrorView::ArgsNotSet,
        }
    }
}

impl StreamErrorView {
    /// The text that describes the failure.
    pub open spec fn message(self) -> Seq<char> {
        match self {
            StreamErrorView::SpawnFailure(reason) => reason,
            StreamErrorView::ReadFailure(reason) => reason,
            StreamErrorView::NoChannelsCaptured => "both stdout and stderr are none"@,
            StreamErrorView::ProgramNotSet => "program not set"@,
            StreamErrorView::ArgsNotSet => "args not set"@,
        }
    }
}

impl StreamError {
    /// The text that describes the failure.
    pub fn message(&self) -> (text: String)
        ensures
            text@ == self@.message(),
    {
        match self {
            StreamError::SpawnFailure(reason) => reason.clone(),
            StreamError::ReadFailure(reason) => reason.clone(),
            StreamError::NoChannelsCaptured => "both stdout and stderr are none".to_owned(),
            StreamError::ProgramNotSet => "program not set".to_owned(),
            StreamError::ArgsNotSet => "args not set".to_owned(),
        }
    }
}

} // verus!
