//! One process stream: the buffers of its two output channels, their
//! end-of-stream flags and the turn-taking between them.
//!
//! The stream does no reading itself. Whoever owns the pipes makes each
//! non-blocking read and hands in what it delivered; the stream decides what
//! that means.

use super::error::{StreamError, StreamErrorView};
use super::lines::{
    buffer_vec_extract_lines, line_limit, lines_len, trim_lines, trimmed_batch, ALL_LINES,
};
use crate::text::{chars_of, join, joined, string_of, texts};
use vstd::prelude::*;
use vstd::string::StringExecFns;

verus! {

/// What one non-blocking read on a channel delivered: the text that arrived,
/// and the reason if the read failed. A failed read may still have delivered
/// text.
pub struct ChannelRead {
    pub data: String,
    pub failure: Option<String>,
}

/// A `ChannelRead` as character sequences.
pub struct ChannelReadView {
    pub data: Seq<char>,
    pub failure: Option<Seq<char>>,
}

impl View for ChannelRead {
    type V = ChannelReadView;

    open spec fn view(&self) -> ChannelReadView {
        ChannelReadView {
            data: self.data@,
            failure: match self.failure {
                Some(reason) => Some(reason@),
                None => None,
            },
        }
    }
}

impl ChannelRead {
    /// A read that delivered nothing and did not fail.
    pub fn nothing() -> (read: ChannelRead)
        ensures
            read@ == (ChannelReadView { data: Seq::empty(), failure: None }),
    {
        ChannelRead { data: String::new(), failure: None }
    }

    /// A read that delivered `data` and did not fail.
    pub fn delivered(data: &str) -> (read: ChannelRead)
        ensures
            read@ == (ChannelReadView { data: data@, failure: None }),
    {
        ChannelRead { data: data.to_owned(), failure: None }
    }

    /// A read that failed for `reason` and delivered nothing.
    pub fn failed(reason: &str) -> (read: ChannelRead)
        ensures
            read@ == (ChannelReadView { data: Seq::empty(), failure: Some(reason@) }),
    {
        ChannelRead { data: String::new(), failure: Some(reason.to_owned()) }
    }
}

/// The state of a process stream.
pub struct StreamerState {
    /// Standard output was captured.
    pub has_stdout: bool,
    /// Standard error was captured.
    pub has_stderr: bool,
    /// Text of standard output that was read and not yet handed out.
    pub stdout_buffer: Seq<char>,
    /// Text of standard error that was read and not yet handed out.
    pub stderr_buffer: Seq<char>,
    /// The last extraction drew from standard output.
    pub stdout_last_used: bool,
    /// Standard output was seen to be at its end.
    pub stdout_at_eof: bool,
    /// Standard error was seen to be at its end.
    pub stderr_at_eof: bool,
    pub program: Option<Seq<char>>,
    pub args: Option<Seq<Seq<char>>>,
    pub user_data: Option<Seq<char>>,
}

/// What an extraction hands back: the text if there is any, or why the fill
/// before it failed, and the channel it drew from (`true` for standard
/// output).
pub struct Extraction {
    pub lines: Result<Option<Seq<char>>, StreamErrorView>,
    pub from_stdout: bool,
}

impl StreamerState {
    /// A stream that has just been opened on the channels that were captured.
    pub open spec fn opened(
        has_stdout: bool,
        has_stderr: bool,
        user_data: Option<Seq<char>>,
    ) -> StreamerState {
        StreamerState {
            has_stdout,
            has_stderr,
            stdout_buffer: Seq::empty(),
            stderr_buffer: Seq::empty(),
            stdout_last_used: false,
            stdout_at_eof: false,
            stderr_at_eof: false,
            program: None,
            args: None,
            user_data,
        }
    }

    /// A stream that has just been opened on a process that was started
    /// with `program` and `args`.
    pub open spec fn started(
        program: Seq<char>,
        args: Seq<Seq<char>>,
        has_stdout: bool,
        has_stderr: bool,
        user_data: Option<Seq<char>>,
    ) -> StreamerState {
        StreamerState {
            program: Some(program),
            args: Some(args),
            ..StreamerState::opened(has_stdout, has_stderr, user_data)
        }
    }

    /// At least one channel was captured.
    pub open spec fn wf(self) -> bool {
        self.has_stdout || self.has_stderr
    }

    /// Standard output is still to be read: it was captured and is not at its
    /// end.
    pub open spec fn reads_stdout(self) -> bool {
        self.has_stdout && !self.stdout_at_eof
    }

    /// Standard error is still to be read.
    pub open spec fn reads_stderr(self) -> bool {
        self.has_stderr && !self.stderr_at_eof
    }

    /// The state after the reads: each channel that is still to be read has
    /// grown by what its read delivered, failed or not.
    pub open spec fn filled(self, stdout: ChannelReadView, stderr: ChannelReadView) -> StreamerState {
        StreamerState {
            stdout_buffer: if self.reads_stdout() {
                self.stdout_buffer + stdout.data
            } else {
                self.stdout_buffer
            },
            stderr_buffer: if self.reads_stderr() {
                self.stderr_buffer + stderr.data
            } else {
                self.stderr_buffer
            },
            ..self
        }
    }

    /// The failure that a fill reports: that of standard output if its read
    /// counted and failed, else that of standard error.
    pub open spec fn fill_failure(
        self,
        stdout: ChannelReadView,
        stderr: ChannelReadView,
    ) -> Option<Seq<char>> {
        if self.reads_stdout() && stdout.failure is Some {
            stdout.failure
        } else if self.reads_stderr() && stderr.failure is Some {
            stderr.failure
        } else {
            None
        }
    }

    /// Some text waits in a buffer.
    pub open spec fn has_data(self) -> bool {
        self.stdout_buffer.len() > 0 || self.stderr_buffer.len() > 0
    }

    /// The state after the channels were asked whether they are at their end.
    /// A flag that is set stays set, and only a captured channel is asked.
    pub open spec fn probed(self, stdout_ended: bool, stderr_ended: bool) -> StreamerState {
        StreamerState {
            stdout_at_eof: self.stdout_at_eof || (self.has_stdout && stdout_ended),
            stderr_at_eof: self.stderr_at_eof || (self.has_stderr && stderr_ended),
            ..self
        }
    }

    /// Every captured channel is marked as ended.
    pub open spec fn ended(self) -> bool {
        (!self.has_stdout || self.stdout_at_eof) && (!self.has_stderr || self.stderr_at_eof)
    }

    /// The channel that the next extraction draws from (`true` for standard
    /// output): the one that was not used last, unless its buffer is empty;
    /// then the other one, and standard output when both are empty.
    pub open spec fn next_side(self) -> bool {
        if self.stderr_buffer.len() == 0 {
            true
        } else if self.stdout_buffer.len() == 0 {
            false
        } else {
            !self.stdout_last_used
        }
    }

    /// The buffer of a channel.
    pub open spec fn buffer(self, stdout: bool) -> Seq<char> {
        if stdout {
            self.stdout_buffer
        } else {
            self.stderr_buffer
        }
    }

    /// How many characters an extraction of `count_lines` lines takes.
    pub open spec fn taken(self, count_lines: i128) -> nat {
        let buffer = self.buffer(self.next_side());
        lines_len(buffer, line_limit(count_lines, buffer.len()))
    }

    /// The state after an extraction without a fill: the turn has passed to
    /// the chosen channel, and its buffer has lost the lines that were taken.
    pub open spec fn extracted(self, count_lines: i128) -> StreamerState {
        let side = self.next_side();
        let taken = self.taken(count_lines) as int;
        StreamerState {
            stdout_last_used: side,
            stdout_buffer: if side {
                self.stdout_buffer.skip(taken)
            } else {
                self.stdout_buffer
            },
            stderr_buffer: if side {
                self.stderr_buffer
            } else {
                self.stderr_buffer.skip(taken)
            },
            ..self
        }
    }

    /// The text that an extraction without a fill hands out: none when both
    /// buffers are empty; else the lines taken, which untrimmed may be the
    /// empty text, and trimmed are none when nothing is left of them.
    pub open spec fn extract(self, count_lines: i128, trim: bool) -> Option<Seq<char>> {
        if !self.has_data() {
            None
        } else {
            let batch = self.buffer(self.next_side()).take(self.taken(count_lines) as int);
            if trim {
                trimmed_batch(batch)
            } else {
                Some(batch)
            }
        }
    }

    /// The state after `get_lines`: filled first where a fill is asked for,
    /// and extracted from unless that fill failed.
    pub open spec fn after_get_lines(
        self,
        count_lines: i128,
        fill: Option<(ChannelReadView, ChannelReadView)>,
    ) -> StreamerState {
        match fill {
            Some((stdout, stderr)) => {
                let filled = self.filled(stdout, stderr);
                if self.fill_failure(stdout, stderr) is Some {
                    filled
                } else {
                    filled.extracted(count_lines)
                }
            },
            None => self.extracted(count_lines),
        }
    }

    /// What `get_lines` hands back.
    pub open spec fn get_lines(
        self,
        count_lines: i128,
        fill: Option<(ChannelReadView, ChannelReadView)>,
        trim: bool,
    ) -> Extraction {
        match fill {
            Some((stdout, stderr)) => {
                let filled = self.filled(stdout, stderr);
                match self.fill_failure(stdout, stderr) {
                    Some(reason) => Extraction {
                        lines: Err(StreamErrorView::ReadFailure(reason)),
                        from_stdout: false,
                    },
                    None => Extraction {
                        lines: Ok(filled.extract(count_lines, trim)),
                        from_stdout: filled.next_side(),
                    },
                }
            },
            None => Extraction {
                lines: Ok(self.extract(count_lines, trim)),
                from_stdout: self.next_side(),
            },
        }
    }

    /// The command line: the program and its arguments with a blank between
    /// each two.
    pub open spec fn command_line(self) -> Seq<char>
        recommends
            self.program is Some,
            self.args is Some,
    {
        joined(seq![self.program->0] + self.args->0, seq![' '])
    }
}

/// The view of an optional text.
pub open spec fn text_of(text: Option<String>) -> Option<Seq<char>> {
    match text {
        Some(t) => Some(t@),
        None => None,
    }
}

/// The view of an optional list of texts.
pub open spec fn texts_of(list: Option<Vec<String>>) -> Option<Seq<Seq<char>>> {
    match list {
        Some(l) => Some(texts(l@)),
        None => None,
    }
}

/// The views of the reads that come with a request for lines.
pub open spec fn reads_of(fill: Option<(&ChannelRead, &ChannelRead)>) -> Option<
    (ChannelReadView, ChannelReadView),
> {
    match fill {
        Some((stdout, stderr)) => Some((stdout@, stderr@)),
        None => None,
    }
}

/// The view of what `get_lines` hands back.
pub open spec fn extraction_of(res: (Result<Option<String>, StreamError>, bool)) -> Extraction {
    Extraction {
        lines: match res.0 {
            Ok(Some(text)) => Ok(Some(text@)),
            Ok(None) => Ok(None),
            Err(e) => Err(e@),
        },
        from_stdout: res.1,
    }
}

/// An empty buffer gives up nothing, whatever is asked of it.
pub proof fn lemma_nothing_to_take(count_lines: i128)
    ensures
        lines_len(Seq::<char>::empty(), line_limit(count_lines, 0)) == 0,
{
}

/// A copy of an optional text.
pub fn clone_text(text: &Option<String>) -> (copy: Option<String>)
    ensures
        text_of(copy) == text_of(*text),
{
    match text {
        Some(t) => Some(t.clone()),
        None => None,
    }
}

/// A copy of a list of strings.
pub fn clone_texts(list: &Vec<String>) -> (copy: Vec<String>)
    ensures
        texts(copy@) == texts(list@),
{
    let mut copy: Vec<String> = Vec::new();
    let mut i: usize = 0;
    while i < list.len()
        invariant
            i <= list.len(),
            texts(copy@) == texts(list@).take(i as int),
        decreases list.len() - i,
    {
        copy.push(list[i].clone());
        i += 1;
        proof {
            let done = texts(list@).take(i as int);
            assert(texts(copy@).drop_last() =~= texts(list@).take(i - 1));
            assert(texts(copy@).last() == done.last());
            assert(texts(copy@) =~= done);
        }
    }
    assert(texts(list@).take(list.len() as int) =~= texts(list@));
    copy
}

/// The buffers and flags of one process whose standard output and standard
/// error are read without blocking.
pub struct CommandStreamer {
    has_stdout: bool,
    has_stderr: bool,
    stdout_buffer: Vec<char>,
    stderr_buffer: Vec<char>,
    stdout_last_used: bool,
    stdout_at_eof: bool,
    stderr_at_eof: bool,
    program: Option<String>,
    args: Option<Vec<String>>,
    /// A label that the owner chooses, to tell the streams apart.
    pub user_data: Option<String>,
}

impl View for CommandStreamer {
    type V = StreamerState;

    closed spec fn view(&self) -> StreamerState {
        StreamerState {
            has_stdout: self.has_stdout,
            has_stderr: self.has_stderr,
            stdout_buffer: self.stdout_buffer@,
            stderr_buffer: self.stderr_buffer@,
            stdout_last_used: self.stdout_last_used,
            stdout_at_eof: self.stdout_at_eof,
            stderr_at_eof: self.stderr_at_eof,
            program: text_of(self.program),
            args: texts_of(self.args),
            user_data: text_of(self.user_data),
        }
    }
}

impl CommandStreamer {
    /// Opens a stream on a running process, given which of its two channels
    /// could be captured. A process with neither is refused.
    pub fn new_from_child(
        stdout_captured: bool,
        stderr_captured: bool,
        user_data: Option<String>,
    ) -> (res: Result<Self, StreamError>)
        ensures
            match res {
                Ok(streamer) => (stdout_captured || stderr_captured) && streamer@
                    == StreamerState::opened(stdout_captured, stderr_captured, text_of(user_data))
                    && streamer@.wf(),
                Err(e) => !stdout_captured && !stderr_captured && e@
                    == StreamErrorView::NoChannelsCaptured,
            },
    {
        if !stdout_captured && !stderr_captured {
            return Err(StreamError::NoChannelsCaptured);
        }
        Ok(
            CommandStreamer {
                has_stdout: stdout_captured,
                has_stderr: stderr_captured,
                stdout_buffer: Vec::new(),
                stderr_buffer: Vec::new(),
                stdout_last_used: false,
                stdout_at_eof: false,
                stderr_at_eof: false,
                program: None,
                args: None,
                user_data,
            },
        )
    }

    /// Opens a stream on a process that was asked to start with `program` and
    /// `args`. `spawned` is how the start went: the channels that were
    /// captured, first standard output, or the reason why it did not start.
    pub fn new(
        program: &str,
        args: &Vec<String>,
        user_data: Option<String>,
        spawned: Result<(bool, bool), String>,
    ) -> (res: Result<Self, StreamError>)
        ensures
            match spawned {
                Err(reason) => res matches Err(e) && e@ == StreamErrorView::SpawnFailure(reason@),
                Ok((stdout_captured, stderr_captured)) => if stdout_captured || stderr_captured {
                    res matches Ok(streamer) && streamer@ == StreamerState::started(
                        program@,
                        texts(args@),
                        stdout_captured,
                        stderr_captured,
                        text_of(user_data),
                    ) && streamer@.wf()
                } else {
                    res matches Err(e) && e@ == StreamErrorView::NoChannelsCaptured
                },
            },
    {
        let (stdout_captured, stderr_captured) = match spawned {
            Ok(captured) => captured,
            Err(reason) => {
                return Err(StreamError::SpawnFailure(reason));
            },
        };
        match CommandStreamer::new_from_child(stdout_captured, stderr_captured, user_data) {
            Ok(mut streamer) => {
                streamer.set_program(program).set_args(clone_texts(args));
                Ok(streamer)
            },
            Err(e) => Err(e),
        }
    }

    /// Records the program's name, for diagnostics.
    pub fn set_program(&mut self, program: &str) -> (this: &mut Self)
        ensures
            this@ == (StreamerState { program: Some(program@), ..old(self)@ }),
            *final(self) == *final(this),
    {
        self.program = Some(program.to_owned());
        self
    }

    /// Records the program's arguments, for diagnostics.
    pub fn set_args(&mut self, args: Vec<String>) -> (this: &mut Self)
        ensures
            this@ == (StreamerState { args: Some(texts(args@)), ..old(self)@ }),
            *final(self) == *final(this),
    {
        self.args = Some(args);
        self
    }

    /// The label that the owner gave the stream.
    pub fn get_user_data(&self) -> (label: &Option<String>)
        ensures
            text_of(*label) == self@.user_data,
    {
        &self.user_data
    }

    /// The program's name, if it was set.
    pub fn get_program(&self) -> (program: &Option<String>)
        ensures
            text_of(*program) == self@.program,
    {
        &self.program
    }

    /// The program's arguments, if they were set.
    pub fn get_args(&self) -> (args: &Option<Vec<String>>)
        ensures
            texts_of(*args) == self@.args,
    {
        &self.args
    }

    /// The command line, once the program and its arguments are set.
    pub fn format_command(&self) -> (res: Result<String, StreamError>)
        ensures
            match res {
                Ok(line) => self@.program is Some && self@.args is Some && line@
                    == self@.command_line(),
                Err(e) => if self@.program is None {
                    e@ == StreamErrorView::ProgramNotSet
                } else {
                    self@.args is None && e@ == StreamErrorView::ArgsNotSet
                },
            },
    {
        let mut full_args: Vec<String> = Vec::new();
        match &self.program {
            Some(program) => full_args.push(program.clone()),
            None => {
                return Err(StreamError::ProgramNotSet);
            },
        }
        match &self.args {
            Some(args) => {
                let mut copy = clone_texts(args);
                full_args.append(&mut copy);
            },
            None => {
                return Err(StreamError::ArgsNotSet);
            },
        }
        proof {
            assert(texts(full_args@) =~= seq![self@.program->0] + self@.args->0);
            reveal_strlit(" ");
            assert(" "@ =~= seq![' ']);
        }
        Ok(join(&full_args, " "))
    }

    /// Whether some text waits in a buffer, whatever the channels' ends.
    pub fn has_data_in_buffers(&self) -> (pending: bool)
        ensures
            pending == self@.has_data(),
    {
        !self.stdout_buffer.is_empty() || !self.stderr_buffer.is_empty()
    }

    /// Whether standard output is still to be read: it was captured and has
    /// not been seen at its end.
    pub fn reads_stdout(&self) -> (open: bool)
        ensures
            open == self@.reads_stdout(),
    {
        self.has_stdout && !self.stdout_at_eof
    }

    /// Whether standard error is still to be read.
    pub fn reads_stderr(&self) -> (open: bool)
        ensures
            open == self@.reads_stderr(),
    {
        self.has_stderr && !self.stderr_at_eof
    }

    /// Takes note of whether the channels are at their end, as their readers
    /// answer now, and tells whether every captured channel has ended. A
    /// channel that was marked as ended stays so whatever its reader answers
    /// later; the answer for a channel that was not captured is not looked
    /// at, and such a channel holds nothing up.
    pub fn is_eof(&mut self, stdout_ended: bool, stderr_ended: bool) -> (ended: bool)
        ensures
            final(self)@ == old(self)@.probed(stdout_ended, stderr_ended),
            ended == final(self)@.ended(),
    {
        let mut count_eof: u8 = 0;
        if !self.stdout_at_eof {
            if self.has_stdout {
                if stdout_ended {
                    count_eof += 1;
                    self.stdout_at_eof = true;
                }
            } else {
                count_eof += 1;
            }
        } else {
            count_eof += 1;
        }
        if !self.stderr_at_eof {
            if self.has_stderr {
                if stderr_ended {
                    count_eof += 1;
                    self.stderr_at_eof = true;
                }
            } else {
                count_eof += 1;
            }
        } else {
            count_eof += 1;
        }
        count_eof == 2
    }

    /// Takes in what one read on each channel delivered. A channel that is
    /// still to be read grows by its text, whether or not a read failed; the
    /// read of a channel that ended or was not captured is left aside. The
    /// first failure among the reads that counted is reported, and marks no
    /// channel as ended.
    pub fn fill_buffers(&mut self, stdout: &ChannelRead, stderr: &ChannelRead) -> (res: Result<
        (),
        StreamError,
    >)
        ensures
            final(self)@ == old(self)@.filled(stdout@, stderr@),
            match old(self)@.fill_failure(stdout@, stderr@) {
                Some(reason) => res matches Err(e) && e@ == StreamErrorView::ReadFailure(reason),
                None => res is Ok,
            },
    {
        let mut failure: Option<String> = None;
        if !self.stdout_at_eof {
            if self.has_stdout {
                let mut text = chars_of(stdout.data.as_str());
                self.stdout_buffer.append(&mut text);
                failure = clone_text(&stdout.failure);
            }
        }
        if !self.stderr_at_eof {
            if self.has_stderr {
                let mut text = chars_of(stderr.data.as_str());
                self.stderr_buffer.append(&mut text);
                if failure.is_none() {
                    failure = clone_text(&stderr.failure);
                }
            }
        }
        match failure {
            Some(reason) => Err(StreamError::ReadFailure(reason)),
            None => Ok(()),
        }
    }

    /// Takes up to `count_lines` whole lines off the front of one buffer.
    fn get_buffer_lines(&mut self, stdout_buffer: bool, count_lines: i128) -> (lines: Option<
        String,
    >)
        ensures
            ({
                let buffer = old(self)@.buffer(stdout_buffer);
                let taken = lines_len(buffer, line_limit(count_lines, buffer.len())) as int;
                &&& lines matches Some(text) && text@ == buffer.take(taken)
                &&& final(self)@ == (StreamerState {
                    stdout_buffer: if stdout_buffer {
                        buffer.skip(taken)
                    } else {
                        old(self)@.stdout_buffer
                    },
                    stderr_buffer: if stdout_buffer {
                        old(self)@.stderr_buffer
                    } else {
                        buffer.skip(taken)
                    },
                    ..old(self)@
                })
            }),
    {
        let (lines_option, _buffer_affected) = if stdout_buffer {
            buffer_vec_extract_lines(&mut self.stdout_buffer, count_lines)
        } else {
            buffer_vec_extract_lines(&mut self.stderr_buffer, count_lines)
        };
        lines_option
    }

    /// Hands out the next whole lines of one channel, and tells which channel
    /// (`true` for standard output).
    ///
    /// With `fill_buffers` the reads in it are taken in first; if one of them
    /// failed, that is the result and nothing is extracted. The channel is the
    /// one that was not drawn from last, or the other one if that buffer is
    /// empty. With both buffers empty there are no lines. Otherwise up to
    /// `count_lines` lines leave the front of the buffer, terminators included
    /// (-1: all the whole lines; less than 1 counts as 1); what follows the
    /// last terminator stays. With `trim` the batch is split at its
    /// terminators, each line trimmed, the empty ones left out and the others
    /// joined with `\n`; a batch of which nothing is left gives no lines.
    pub fn get_lines(
        &mut self,
        count_lines: i128,
        fill_buffers: Option<(&ChannelRead, &ChannelRead)>,
        trim: bool,
    ) -> (res: (Result<Option<String>, StreamError>, bool))
        ensures
            final(self)@ == old(self)@.after_get_lines(count_lines, reads_of(fill_buffers)),
            extraction_of(res) == old(self)@.get_lines(count_lines, reads_of(fill_buffers), trim),
    {
        match fill_buffers {
            Some((stdout, stderr)) => {
                let fill_buffers_result = self.fill_buffers(stdout, stderr);
                match fill_buffers_result {
                    Err(e) => {
                        return (Err(e), false);
                    },
                    Ok(_) => {},
                }
            },
            None => {},
        }
        self.stdout_last_used = !self.stdout_last_used;
        if self.stdout_last_used {
            if self.stdout_buffer.is_empty() {
                self.stdout_last_used = false;
            }
        }
        if !self.stdout_last_used {
            if self.stderr_buffer.is_empty() {
                self.stdout_last_used = true;
            }
        }
        if self.stdout_buffer.is_empty() && self.stderr_buffer.is_empty() {
            proof {
                lemma_nothing_to_take(count_lines);
                assert(self.stdout_buffer@.skip(0) =~= self.stdout_buffer@);
            }
            return (Ok(None), self.stdout_last_used);
        }
        let side = self.stdout_last_used;
        let mut lines_option = self.get_buffer_lines(side, count_lines);
        if trim {
            lines_option = trim_lines(lines_option);
        }
        (Ok(lines_option), side)
    }

    /// One round of collecting everything a process writes: takes in the
    /// reads, adds all the whole lines of one channel to `collected`, takes
    /// note of the channels' ends as their readers answer after the reads,
    /// and tells whether another round is due. It is while a captured channel
    /// has not ended or text waits in a buffer.
    pub fn get_all_lines(
        &mut self,
        collected: &mut String,
        stdout: &ChannelRead,
        stderr: &ChannelRead,
        stdout_ended: bool,
        stderr_ended: bool,
        trim: bool,
    ) -> (res: Result<bool, StreamError>)
        ensures
            ({
                let fill = Some((stdout@, stderr@));
                let extraction = old(self)@.get_lines(ALL_LINES, fill, trim);
                let after = old(self)@.after_get_lines(ALL_LINES, fill);
                let state = final(self)@;
                let text = final(collected)@;
                match extraction.lines {
                    Err(e) => {
                        &&& res matches Err(r) && r@ == e
                        &&& state == after
                        &&& text == old(collected)@
                    },
                    Ok(lines) => {
                        &&& state == after.probed(stdout_ended, stderr_ended)
                        &&& text == old(collected)@ + match lines {
                            Some(batch) => batch,
                            None => Seq::empty(),
                        }
                        &&& res matches Ok(more) && more == (!state.ended() || state.has_data())
                    },
                }
            }),
    {
        match self.get_lines(ALL_LINES, Some((stdout, stderr)), trim).0 {
            Ok(option) => match option {
                Some(ilines) => collected.append(ilines.as_str()),
                None => {
                    assert(collected@ + Seq::<char>::empty() =~= collected@);
                },
            },
            Err(e) => {
                return Err(e);
            },
        }
        let ended = self.is_eof(stdout_ended, stderr_ended);
        Ok(!ended || self.has_data_in_buffers())
    }

    /// The text of standard output that waits in its buffer.
    pub fn get_stdout_buffer(&self) -> (text: String)
        ensures
            text@ == self@.stdout_buffer,
    {
        string_of(&self.stdout_buffer)
    }

    /// The text of standard error that waits in its buffer.
    pub fn get_stderr_buffer(&self) -> (text: String)
        ensures
            text@ == self@.stderr_buffer,
    {
        string_of(&self.stderr_buffer)
    }
}

} // verus!
