//! A group of process streams, worked in the order in which they joined.

use super::command_streamer::{
    clone_text, extraction_of, text_of, ChannelRead, ChannelReadView, CommandStreamer,
    StreamerState,
};
use crate::text::texts;
use super::error::{StreamError, StreamErrorView};
use super::lines::ALL_LINES;
use vstd::prelude::*;

verus! {

/// A read that delivered nothing and did not fail.
pub open spec fn no_read() -> ChannelReadView {
    ChannelReadView { data: Seq::empty(), failure: None }
}

/// The reads that are meant for member `i`, first that of standard output: a
/// member without an entry has read nothing.
pub open spec fn reads_at(reads: Seq<(ChannelRead, ChannelRead)>, i: int) -> (
    ChannelReadView,
    ChannelReadView,
) {
    if 0 <= i < reads.len() {
        (reads[i].0@, reads[i].1@)
    } else {
        (no_read(), no_read())
    }
}

/// The reads that a request for lines brings to member `i`, if it fills.
pub open spec fn fill_at(fill: Option<&Vec<(ChannelRead, ChannelRead)>>, i: int) -> Option<
    (ChannelReadView, ChannelReadView),
> {
    match fill {
        Some(reads) => Some(reads_at(reads@, i)),
        None => None,
    }
}

/// What the readers of member `i` answer when asked whether they are at
/// their end, first that of standard output: a member without an entry has
/// not ended.
pub open spec fn ended_at(ended: Seq<(bool, bool)>, i: int) -> (bool, bool) {
    if 0 <= i < ended.len() {
        ended[i]
    } else {
        (false, false)
    }
}

/// The states of a list of streams.
pub open spec fn states(streamers: Seq<CommandStreamer>) -> Seq<StreamerState> {
    Seq::new(streamers.len(), |i: int| streamers[i]@)
}

/// What `get_lines` hands back for one member: the lines or the failure, the
/// member's label, and the channel that was drawn from.
pub type MemberLines = (Result<Option<String>, StreamError>, Option<String>, bool);

/// Process streams in the order in which they were added. Every operation
/// goes to every member, in that order, and what happens to one member
/// changes nothing for another.
pub struct MultiCommandStreamer {
    streamers: Vec<CommandStreamer>,
}

impl View for MultiCommandStreamer {
    type V = Seq<StreamerState>;

    closed spec fn view(&self) -> Seq<StreamerState> {
        states(self.streamers@)
    }
}

impl MultiCommandStreamer {
    /// A group without members.
    pub fn new_empty() -> (group: Self)
        ensures
            group@ == Seq::<StreamerState>::empty(),
    {
        let group = MultiCommandStreamer { streamers: Vec::new() };
        assert(group@ =~= Seq::<StreamerState>::empty());
        group
    }

    /// A group of one stream, opened as `CommandStreamer::new` opens it.
    pub fn new(
        program: &str,
        args: &Vec<String>,
        user_data: Option<String>,
        spawned: Result<(bool, bool), String>,
    ) -> (res: Result<Self, StreamError>)
        ensures
            match spawned {
                Err(reason) => res matches Err(e) && e@ == StreamErrorView::SpawnFailure(reason@),
                Ok((stdout_captured, stderr_captured)) => if stdout_captured || stderr_captured {
                    res matches Ok(group) && group@ == seq![
                        StreamerState::started(
                            program@,
                            texts(args@),
                            stdout_captured,
                            stderr_captured,
                            text_of(user_data),
                        ),
                    ]
                } else {
                    res matches Err(e) && e@ == StreamErrorView::NoChannelsCaptured
                },
            },
    {
        match CommandStreamer::new(program, args, user_data, spawned) {
            Ok(streamer) => {
                let mut group = MultiCommandStreamer { streamers: Vec::new() };
                group.streamers.push(streamer);
                assert(group@ =~= seq![streamer@]);
                Ok(group)
            },
            Err(e) => Err(e),
        }
    }

    /// A group of the one stream given.
    pub fn new_from_streamer(streamer: CommandStreamer) -> (res: Result<Option<Self>, StreamError>)
        ensures
            res matches Ok(Some(group)) && group@ == seq![streamer@],
    {
        let mut group = MultiCommandStreamer { streamers: Vec::new() };
        group.streamers.push(streamer);
        assert(group@ =~= seq![streamer@]);
        Ok(Some(group))
    }

    /// Adds a stream as the last member.
    pub fn add_streamer(&mut self, streamer: CommandStreamer)
        ensures
            final(self)@ == old(self)@.push(streamer@),
    {
        self.streamers.push(streamer);
        assert(self@ =~= old(self)@.push(streamer@));
    }

    /// Opens a stream as `CommandStreamer::new` does and adds it as the last
    /// member. A stream that cannot be opened is reported and not added; the
    /// members that are there stay as they are.
    pub fn add(
        &mut self,
        program: &str,
        args: &Vec<String>,
        user_data: Option<String>,
        spawned: Result<(bool, bool), String>,
    ) -> (res: Result<(), StreamError>)
        ensures
            match spawned {
                Err(reason) => {
                    &&& res matches Err(e) && e@ == StreamErrorView::SpawnFailure(reason@)
                    &&& final(self)@ == old(self)@
                },
                Ok((stdout_captured, stderr_captured)) => if stdout_captured || stderr_captured {
                    &&& res is Ok
                    &&& final(self)@ == old(self)@.push(
                        StreamerState::started(
                            program@,
                            texts(args@),
                            stdout_captured,
                            stderr_captured,
                            text_of(user_data),
                        ),
                    )
                } else {
                    &&& res matches Err(e) && e@ == StreamErrorView::NoChannelsCaptured
                    &&& final(self)@ == old(self)@
                },
            },
    {
        match CommandStreamer::new(program, args, user_data, spawned) {
            Ok(streamer) => {
                self.streamers.push(streamer);
                assert(self@ =~= old(self)@.push(streamer@));
                Ok(())
            },
            Err(e) => Err(e),
        }
    }

    /// The members, to work on one of them.
    pub fn get_streamers(&mut self) -> (streamers: &mut Vec<CommandStreamer>)
        ensures
            states(streamers@) == old(self)@,
            final(self)@ == states(final(streamers)@),
    {
        &mut self.streamers
    }

    /// How many members the group has.
    pub fn len(&self) -> (n: usize)
        ensures
            n == self@.len(),
    {
        self.streamers.len()
    }

    /// Whether every member has ended. Each member first takes note of what
    /// its readers answer now (`ended`, by member), so no member's flags go
    /// stale: none is passed over once the answer is known to be no.
    pub fn is_eof(&mut self, ended: &Vec<(bool, bool)>) -> (all: bool)
        ensures
            final(self)@.len() == old(self)@.len(),
            forall|i: int|
                0 <= i < old(self)@.len() ==> #[trigger] final(self)@[i] == old(self)@[i].probed(
                    ended_at(ended@, i).0,
                    ended_at(ended@, i).1,
                ),
            all == forall|i: int| 0 <= i < final(self)@.len() ==> (#[trigger] final(self)@[i]).ended(),
    {
        let mut count_eof: usize = 0;
        let mut i: usize = 0;
        while i < self.streamers.len()
            invariant
                i <= self.streamers.len(),
                count_eof <= i,
                self.streamers.len() == old(self).streamers.len(),
                forall|k: int|
                    0 <= k < i ==> #[trigger] self@[k] == old(self)@[k].probed(
                        ended_at(ended@, k).0,
                        ended_at(ended@, k).1,
                    ),
                forall|k: int| i <= k < self.streamers.len() ==> #[trigger] self@[k] == old(self)@[k],
                count_eof == i <==> forall|k: int|
                    0 <= k < i ==> (#[trigger] old(self)@[k]).probed(
                        ended_at(ended@, k).0,
                        ended_at(ended@, k).1,
                    ).ended(),
            decreases self.streamers.len() - i,
        {
            let answers = if i < ended.len() {
                ended[i]
            } else {
                (false, false)
            };
            let ghost before = self@;
            let member_ended = self.streamers[i].is_eof(answers.0, answers.1);
            proof {
                assert forall|k: int| 0 <= k < self.streamers.len() && k != i implies #[trigger] self@[k]
                    == before[k] by {}
                assert(self@[i as int] == before[i as int].probed(answers.0, answers.1));
                assert(answers == ended_at(ended@, i as int));
                assert(member_ended == old(self)@[i as int].probed(
                    ended_at(ended@, i as int).0,
                    ended_at(ended@, i as int).1,
                ).ended());
            }
            if member_ended {
                count_eof += 1;
            }
            i += 1;
        }
        proof {
            let all = forall|k: int| 0 <= k < self@.len() ==> (#[trigger] self@[k]).ended();
            if count_eof == self.streamers.len() {
                assert(all);
            }
            if all {
                assert forall|k: int| 0 <= k < i implies (#[trigger] old(self)@[k]).probed(
                    ended_at(ended@, k).0,
                    ended_at(ended@, k).1,
                ).ended() by {
                    assert(self@[k].ended());
                }
            }
        }
        count_eof == self.streamers.len()
    }

    /// Whether text waits in a buffer of some member.
    pub fn has_data_in_buffers(&self) -> (pending: bool)
        ensures
            pending == exists|i: int| 0 <= i < self@.len() && (#[trigger] self@[i]).has_data(),
    {
        let mut i: usize = 0;
        while i < self.streamers.len()
            invariant
                i <= self.streamers.len(),
                forall|k: int| 0 <= k < i ==> !(#[trigger] self@[k]).has_data(),
            decreases self.streamers.len() - i,
        {
            if self.streamers[i].has_data_in_buffers() {
                assert(self@[i as int].has_data());
                return true;
            }
            i += 1;
        }
        false
    }

    /// Takes in, member by member, what the reads delivered (`reads`, by
    /// member), and reports for each member whether its fill failed. A
    /// failure of one member keeps no other member from its fill.
    pub fn fill_buffers(&mut self, reads: &Vec<(ChannelRead, ChannelRead)>) -> (results: Vec<
        Result<(), StreamError>,
    >)
        ensures
            final(self)@.len() == old(self)@.len(),
            results@.len() == old(self)@.len(),
            forall|i: int|
                0 <= i < old(self)@.len() ==> #[trigger] final(self)@[i] == old(self)@[i].filled(
                    reads_at(reads@, i).0,
                    reads_at(reads@, i).1,
                ),
            forall|i: int|
                0 <= i < old(self)@.len() ==> match old(self)@[i].fill_failure(
                    reads_at(reads@, i).0,
                    reads_at(reads@, i).1,
                ) {
                    Some(reason) => (#[trigger] results@[i]) matches Err(e) && e@
                        == StreamErrorView::ReadFailure(reason),
                    None => results@[i] is Ok,
                },
    {
        let mut results: Vec<Result<(), StreamError>> = Vec::new();
        let nothing = ChannelRead::nothing();
        let mut i: usize = 0;
        while i < self.streamers.len()
            invariant
                i <= self.streamers.len(),
                results@.len() == i,
                nothing@ == no_read(),
                self.streamers.len() == old(self).streamers.len(),
                forall|k: int|
                    0 <= k < i ==> #[trigger] self@[k] == old(self)@[k].filled(
                        reads_at(reads@, k).0,
                        reads_at(reads@, k).1,
                    ),
                forall|k: int| i <= k < self.streamers.len() ==> #[trigger] self@[k] == old(self)@[k],
                forall|k: int|
                    0 <= k < i ==> match old(self)@[k].fill_failure(
                        reads_at(reads@, k).0,
                        reads_at(reads@, k).1,
                    ) {
                        Some(reason) => (#[trigger] results@[k]) matches Err(e) && e@
                            == StreamErrorView::ReadFailure(reason),
                        None => results@[k] is Ok,
                    },
            decreases self.streamers.len() - i,
        {
            let ghost before = self@;
            let result = if i < reads.len() {
                self.streamers[i].fill_buffers(&reads[i].0, &reads[i].1)
            } else {
                self.streamers[i].fill_buffers(&nothing, &nothing)
            };
            proof {
                let given = reads_at(reads@, i as int);
                assert(before[i as int] == old(self)@[i as int]);
                assert(self@[i as int] == before[i as int].filled(given.0, given.1));
                assert forall|k: int| 0 <= k < self.streamers.len() && k != i implies #[trigger] self@[k]
                    == before[k] by {}
            }
            results.push(result);
            i += 1;
        }
        results
    }

    /// Asks every member for its next lines, as `CommandStreamer::get_lines`
    /// hands them out, and returns for each member, in the members' order,
    /// the lines or the failure, the member's label and the channel drawn
    /// from. With `fill_buffers` each member first takes in its reads.
    pub fn get_lines(
        &mut self,
        count_lines: i128,
        fill_buffers: Option<&Vec<(ChannelRead, ChannelRead)>>,
        trim: bool,
    ) -> (results: Vec<MemberLines>)
        ensures
            final(self)@.len() == old(self)@.len(),
            results@.len() == old(self)@.len(),
            forall|i: int|
                0 <= i < old(self)@.len() ==> #[trigger] final(self)@[i]
                    == old(self)@[i].after_get_lines(count_lines, fill_at(fill_buffers, i)),
            forall|i: int|
                0 <= i < old(self)@.len() ==> {
                    &&& extraction_of(((#[trigger] results@[i]).0, results@[i].2))
                        == old(self)@[i].get_lines(count_lines, fill_at(fill_buffers, i), trim)
                    &&& text_of(results@[i].1) == old(self)@[i].user_data
                },
    {
        let mut results: Vec<MemberLines> = Vec::new();
        let nothing = ChannelRead::nothing();
        let mut i: usize = 0;
        while i < self.streamers.len()
            invariant
                i <= self.streamers.len(),
                results@.len() == i,
                nothing@ == no_read(),
                self.streamers.len() == old(self).streamers.len(),
                forall|k: int|
                    0 <= k < i ==> #[trigger] self@[k] == old(self)@[k].after_get_lines(
                        count_lines,
                        fill_at(fill_buffers, k),
                    ),
                forall|k: int| i <= k < self.streamers.len() ==> #[trigger] self@[k] == old(self)@[k],
                forall|k: int|
                    0 <= k < i ==> {
                        &&& extraction_of(((#[trigger] results@[k]).0, results@[k].2))
                            == old(self)@[k].get_lines(count_lines, fill_at(fill_buffers, k), trim)
                        &&& text_of(results@[k].1) == old(self)@[k].user_data
                    },
            decreases self.streamers.len() - i,
        {
            let ghost before = self@;
            let label = clone_text(self.streamers[i].get_user_data());
            let (lines, side) = match fill_buffers {
                Some(reads) => if i < reads.len() {
                    self.streamers[i].get_lines(count_lines, Some((&reads[i].0, &reads[i].1)), trim)
                } else {
                    self.streamers[i].get_lines(count_lines, Some((&nothing, &nothing)), trim)
                },
                None => self.streamers[i].get_lines(count_lines, None, trim),
            };
            proof {
                let given = fill_at(fill_buffers, i as int);
                assert(before[i as int] == old(self)@[i as int]);
                assert(self@[i as int] == before[i as int].after_get_lines(count_lines, given));
                assert(extraction_of((lines, side)) == before[i as int].get_lines(
                    count_lines,
                    given,
                    trim,
                ));
                assert forall|k: int| 0 <= k < self.streamers.len() && k != i implies #[trigger] self@[k]
                    == before[k] by {}
            }
            results.push((lines, label, side));
            i += 1;
        }
        results
    }

    /// One round of collecting everything that member `member` writes, as
    /// `CommandStreamer::get_all_lines` makes it; the other members are not
    /// touched. A group without such a member has nothing to collect and
    /// asks for no further round.
    pub fn get_all_lines(
        &mut self,
        member: usize,
        collected: &mut String,
        stdout: &ChannelRead,
        stderr: &ChannelRead,
        stdout_ended: bool,
        stderr_ended: bool,
        trim: bool,
    ) -> (res: Result<bool, StreamError>)
        ensures
            final(self)@.len() == old(self)@.len(),
            forall|i: int|
                0 <= i < old(self)@.len() && i != member ==> {
                    #[trigger] final(self)@[i] == old(self)@[i]
                },
            member >= old(self)@.len() ==> {
                &&& res matches Ok(more) && !more
                &&& final(collected)@ == old(collected)@
            },
            member < old(self)@.len() ==> ({
                let fill = Some((stdout@, stderr@));
                let start = old(self)@[member as int];
                let extraction = start.get_lines(ALL_LINES, fill, trim);
                let after = start.after_get_lines(ALL_LINES, fill);
                let state = final(self)@[member as int];
                let text = final(collected)@;
                match extraction.lines {
                    Err(e) => {
                        &&& res matches Err(r) && r@ == e
                        &&& state == after
                        &&& text == old(collected)@
                    },
                    Ok(lines) => {
                        &&& state == after.probed(stdout_ended, stderr_ended)
                        &&& text == old(collected)@ + match lines {
                            Some(batch) => batch,
                            None => Seq::empty(),
                        }
                        &&& res matches Ok(more) && more == (!state.ended() || state.has_data())
                    },
                }
            }),
    {
        if member >= self.streamers.len() {
            return Ok(false);
        }
        let ghost before = self@;
        let res = self.streamers[member].get_all_lines(
            collected,
            stdout,
            stderr,
            stdout_ended,
            stderr_ended,
            trim,
        );
        proof {
            assert forall|k: int| 0 <= k < self.streamers.len() && k != member implies #[trigger] self@[k]
                == before[k] by {}
        }
        res
    }
}

} // verus!
