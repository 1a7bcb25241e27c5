//! What holds of a process stream over any run of calls.

use super::command_streamer::{ChannelReadView, StreamerState};
use super::lines::{
    first_line_len, has_line_break, is_line_break, lemma_first_line_len,
    lemma_lines_len_saturates, lemma_trimmed_lines_add, lemma_whole_lines_len, line_limit,
    lines_len, trimmed_batch, trimmed_lines, whole_lines_len, ALL_LINES,
};
use vstd::prelude::*;

verus! {

/// Where a channel stands in its life.
pub enum ChannelPhase {
    /// Its end has not been seen.
    Open,
    /// Its end has been seen, and text still waits in its buffer.
    Draining,
    /// Its end has been seen and its buffer is empty.
    Closed,
}

/// One call of `get_lines`: the line count, and the reads that it takes in
/// first if it fills.
pub struct Call {
    pub count_lines: i128,
    pub fill: Option<(ChannelReadView, ChannelReadView)>,
}

impl StreamerState {
    /// Where a channel stands in its life.
    pub open spec fn phase(self, stdout: bool) -> ChannelPhase {
        let at_eof = if stdout {
            self.stdout_at_eof
        } else {
            self.stderr_at_eof
        };
        if !at_eof {
            ChannelPhase::Open
        } else if self.buffer(stdout).len() > 0 {
            ChannelPhase::Draining
        } else {
            ChannelPhase::Closed
        }
    }

    /// The state that the extraction of a call works on: after the call's
    /// fill, if it has one.
    pub open spec fn seen(self, fill: Option<(ChannelReadView, ChannelReadView)>) -> StreamerState {
        match fill {
            Some((stdout, stderr)) => self.filled(stdout, stderr),
            None => self,
        }
    }

    /// The fill of a call failed.
    pub open spec fn fill_fails(self, fill: Option<(ChannelReadView, ChannelReadView)>) -> bool {
        match fill {
            Some((stdout, stderr)) => self.fill_failure(stdout, stderr) is Some,
            None => false,
        }
    }

    /// The text that a call's fill adds to a channel.
    pub open spec fn arriving(
        self,
        fill: Option<(ChannelReadView, ChannelReadView)>,
        stdout: bool,
    ) -> Seq<char> {
        match fill {
            Some((out, err)) => if stdout {
                if self.reads_stdout() {
                    out.data
                } else {
                    Seq::empty()
                }
            } else {
                if self.reads_stderr() {
                    err.data
                } else {
                    Seq::empty()
                }
            },
            None => Seq::empty(),
        }
    }

    /// The text that a call takes out of a channel, as it stood in the
    /// buffer: empty when the call's fill fails or the call draws from the
    /// other channel.
    pub open spec fn leaving(self, call: Call, stdout: bool) -> Seq<char> {
        let seen = self.seen(call.fill);
        if self.fill_fails(call.fill) || seen.next_side() != stdout {
            Seq::empty()
        } else {
            seen.buffer(stdout).take(seen.taken(call.count_lines) as int)
        }
    }

    /// The state after a run of calls.
    pub open spec fn run(self, calls: Seq<Call>) -> StreamerState
        decreases calls.len(),
    {
        if calls.len() == 0 {
            self
        } else {
            self.run(calls.drop_last()).after_get_lines(calls.last().count_lines, calls.last().fill)
        }
    }

    /// All the text that the fills of a run add to a channel, in call order.
    pub open spec fn delivered(self, calls: Seq<Call>, stdout: bool) -> Seq<char>
        decreases calls.len(),
    {
        if calls.len() == 0 {
            Seq::empty()
        } else {
            self.delivered(calls.drop_last(), stdout) + self.run(calls.drop_last()).arriving(
                calls.last().fill,
                stdout,
            )
        }
    }

    /// All the text that a run takes out of a channel, in call order.
    pub open spec fn handed_out(self, calls: Seq<Call>, stdout: bool) -> Seq<char>
        decreases calls.len(),
    {
        if calls.len() == 0 {
            Seq::empty()
        } else {
            self.handed_out(calls.drop_last(), stdout) + self.run(calls.drop_last()).leaving(
                calls.last(),
                stdout,
            )
        }
    }

    /// The trimmed lines that a run hands out of a channel, call by call.
    pub open spec fn handed_lines(self, calls: Seq<Call>, stdout: bool) -> Seq<Seq<char>>
        decreases calls.len(),
    {
        if calls.len() == 0 {
            Seq::empty()
        } else {
            self.handed_lines(calls.drop_last(), stdout) + trimmed_lines(
                self.run(calls.drop_last()).leaving(calls.last(), stdout),
            )
        }
    }
}

/// What a call takes out of a channel is what `get_lines` hands back: the
/// text itself without trimming (no text at all only when it is empty), and
/// its trimmed lines with trimming.
pub proof fn lemma_leaving_is_result(s: StreamerState, call: Call, trim: bool)
    ensures
        ({
            let res = s.get_lines(call.count_lines, call.fill, trim);
            let text = s.leaving(call, res.from_stdout);
            match res.lines {
                Err(_) => s.fill_fails(call.fill),
                Ok(lines) => !s.fill_fails(call.fill) && s.leaving(call, !res.from_stdout).len()
                    == 0 && if trim {
                    lines == trimmed_batch(text)
                } else {
                    match lines {
                        Some(batch) => batch == text,
                        None => text.len() == 0,
                    }
                },
            }
        }),
{
    let seen = s.seen(call.fill);
    if !s.fill_fails(call.fill) && !seen.has_data() {
        assert(seen.buffer(seen.next_side()).len() == 0);
        assert(trimmed_lines(Seq::<char>::empty()).len() == 0);
        assert(seen.buffer(seen.next_side()).take(seen.taken(call.count_lines) as int)
            =~= Seq::<char>::empty());
    }
}

/// A call moves text and loses none: what was in a channel's buffer and what
/// arrives is what leaves and what stays. The text that leaves is empty or
/// ends in a terminator.
pub proof fn lemma_call_conserves(s: StreamerState, call: Call, stdout: bool)
    ensures
        s.buffer(stdout) + s.arriving(call.fill, stdout) == s.leaving(call, stdout)
            + s.after_get_lines(call.count_lines, call.fill).buffer(stdout),
        s.leaving(call, stdout).len() == 0 || is_line_break(s.leaving(call, stdout).last()),
{
    let seen = s.seen(call.fill);
    let after = s.after_get_lines(call.count_lines, call.fill);
    assert(seen.buffer(stdout) =~= s.buffer(stdout) + s.arriving(call.fill, stdout));
    if s.fill_fails(call.fill) || seen.next_side() != stdout {
        assert(after.buffer(stdout) == seen.buffer(stdout));
        assert(Seq::<char>::empty() + seen.buffer(stdout) =~= seen.buffer(stdout));
    } else {
        let buffer = seen.buffer(stdout);
        let taken = seen.taken(call.count_lines);
        lemma_lines_end(buffer, line_limit(call.count_lines, buffer.len()));
        assert(buffer =~= buffer.take(taken as int) + buffer.skip(taken as int));
    }
}

/// The first `limit` lines of `s` fit in `s` and are empty or end in a
/// terminator.
pub proof fn lemma_lines_end(s: Seq<char>, limit: nat)
    ensures
        lines_len(s, limit) <= s.len(),
        lines_len(s, limit) > 0 ==> is_line_break(s[lines_len(s, limit) - 1]),
    decreases limit,
{
    lemma_first_line_len(s);
    let first = first_line_len(s);
    if limit == 0 || first == 0 {
    } else {
        let rest = s.skip(first as int);
        lemma_lines_end(rest, (limit - 1) as nat);
        let more = lines_len(rest, (limit - 1) as nat);
        if more > 0 {
            assert(rest[more - 1] == s[first + more - 1]);
        }
    }
}

/// Round trip: over any run of calls, the text that was in a channel's
/// buffer and all that the fills delivered to it is, in order, all that was
/// handed out of it and what is still in its buffer. Nothing is lost, doubled
/// or reordered. What was handed out is empty or ends in a terminator.
pub proof fn lemma_run_conserves(s: StreamerState, calls: Seq<Call>, stdout: bool)
    ensures
        s.buffer(stdout) + s.delivered(calls, stdout) == s.handed_out(calls, stdout) + s.run(
            calls,
        ).buffer(stdout),
        s.handed_out(calls, stdout).len() == 0 || is_line_break(
            s.handed_out(calls, stdout).last(),
        ),
    decreases calls.len(),
{
    if calls.len() == 0 {
        assert(s.buffer(stdout) + Seq::<char>::empty() =~= Seq::<char>::empty() + s.buffer(
            stdout,
        ));
    } else {
        let before = calls.drop_last();
        let call = calls.last();
        let mid = s.run(before);
        lemma_run_conserves(s, before, stdout);
        lemma_call_conserves(mid, call, stdout);
        let a = s.buffer(stdout);
        let d0 = s.delivered(before, stdout);
        let d1 = mid.arriving(call.fill, stdout);
        let h0 = s.handed_out(before, stdout);
        let h1 = mid.leaving(call, stdout);
        let b0 = mid.buffer(stdout);
        let b1 = s.run(calls).buffer(stdout);
        assert(a + (d0 + d1) =~= (a + d0) + d1);
        assert((h0 + b0) + d1 =~= h0 + (b0 + d1));
        assert(h0 + (h1 + b1) =~= (h0 + h1) + b1);
        if h1.len() > 0 {
            assert((h0 + h1).last() == h1.last());
        } else {
            assert(h0 + h1 =~= h0);
        }
    }
}

/// A text that is empty or ends in a terminator, followed by one without a
/// terminator: the whole lines of the two together are the first.
pub proof fn lemma_whole_lines_split(head: Seq<char>, tail: Seq<char>)
    requires
        head.len() == 0 || is_line_break(head.last()),
        !has_line_break(tail),
    ensures
        whole_lines_len(head + tail) == head.len(),
    decreases tail.len(),
{
    let all = head + tail;
    if tail.len() == 0 {
        assert(all =~= head);
        if head.len() > 0 {
        }
    } else {
        assert(all.last() == tail.last());
        assert(!is_line_break(tail[tail.len() - 1]));
        let shorter = tail.drop_last();
        assert forall|i: int| 0 <= i < shorter.len() implies !is_line_break(
            #[trigger] shorter[i],
        ) by {
            assert(shorter[i] == tail[i]);
        }
        assert(all.drop_last() =~= head + shorter);
        lemma_whole_lines_split(head, shorter);
    }
}

/// Extraction does not depend on how the text was cut into reads, nor on
/// when the calls were made: once no whole line is left in a channel's
/// buffer, what the run handed out of the channel is all the whole lines of
/// the text that was there and was delivered, and the buffer holds the
/// unfinished rest.
pub proof fn lemma_fragmentation_invariant(s: StreamerState, calls: Seq<Call>, stdout: bool)
    requires
        !has_line_break(s.run(calls).buffer(stdout)),
    ensures
        ({
            let total = s.buffer(stdout) + s.delivered(calls, stdout);
            let whole = whole_lines_len(total) as int;
            &&& s.handed_out(calls, stdout) == total.take(whole)
            &&& s.run(calls).buffer(stdout) == total.skip(whole)
        }),
{
    let total = s.buffer(stdout) + s.delivered(calls, stdout);
    let handed = s.handed_out(calls, stdout);
    let rest = s.run(calls).buffer(stdout);
    lemma_run_conserves(s, calls, stdout);
    lemma_whole_lines_split(handed, rest);
    assert(total.take(handed.len() as int) =~= handed);
    assert(total.skip(handed.len() as int) =~= rest);
}

/// A request for all lines leaves no whole line in the buffer it draws from.
pub proof fn lemma_all_lines_drain(s: StreamerState)
    ensures
        !has_line_break(s.extracted(ALL_LINES).buffer(s.next_side())),
{
    let buffer = s.buffer(s.next_side());
    lemma_lines_len_saturates(buffer, buffer.len());
    lemma_whole_lines_len(buffer);
    let whole = whole_lines_len(buffer) as int;
    let rest = buffer.skip(whole);
    assert forall|i: int| 0 <= i < rest.len() implies !is_line_break(#[trigger] rest[i]) by {
        assert(rest[i] == buffer[whole + i]);
    }
}

/// Trimming call by call is trimming the whole: the trimmed lines that a run
/// hands out of a channel are the trimmed lines of all the text it took out
/// of it, however the calls cut that text up.
pub proof fn lemma_trimming_by_call(s: StreamerState, calls: Seq<Call>, stdout: bool)
    ensures
        s.handed_lines(calls, stdout) == trimmed_lines(s.handed_out(calls, stdout)),
    decreases calls.len(),
{
    if calls.len() == 0 {
        assert(trimmed_lines(Seq::<char>::empty()).len() == 0);
        assert(s.handed_lines(calls, stdout) =~= trimmed_lines(s.handed_out(calls, stdout)));
    } else {
        let before = calls.drop_last();
        lemma_trimming_by_call(s, before, stdout);
        lemma_run_conserves(s, before, stdout);
        lemma_trimmed_lines_add(
            s.handed_out(before, stdout),
            s.run(before).leaving(calls.last(), stdout),
        );
    }
}

/// Fairness: of two calls in a row that both find text in both buffers, the
/// second draws from the other channel than the first.
pub proof fn lemma_sides_alternate(s: StreamerState, first: Call, second: Call, trim: bool)
    requires
        !s.fill_fails(first.fill),
        s.seen(first.fill).stdout_buffer.len() > 0,
        s.seen(first.fill).stderr_buffer.len() > 0,
        ({
            let mid = s.after_get_lines(first.count_lines, first.fill);
            &&& !mid.fill_fails(second.fill)
            &&& mid.seen(second.fill).stdout_buffer.len() > 0
            &&& mid.seen(second.fill).stderr_buffer.len() > 0
        }),
    ensures
        ({
            let mid = s.after_get_lines(first.count_lines, first.fill);
            s.get_lines(first.count_lines, first.fill, trim).from_stdout != mid.get_lines(
                second.count_lines,
                second.fill,
                trim,
            ).from_stdout
        }),
{
}

/// End of stream is sticky and waits for every captured channel: after the
/// channels were asked, the stream has ended exactly if each captured
/// channel was marked before or answers that it ended; a mark is never
/// taken back; and a stream that has ended stays ended whatever is asked,
/// read or extracted afterwards.
pub proof fn lemma_end_of_stream(
    s: StreamerState,
    stdout_ended: bool,
    stderr_ended: bool,
    call: Call,
)
    ensures
        s.probed(stdout_ended, stderr_ended).ended() <==> (!s.has_stdout || s.stdout_at_eof
            || stdout_ended) && (!s.has_stderr || s.stderr_at_eof || stderr_ended),
        s.stdout_at_eof ==> s.probed(stdout_ended, stderr_ended).stdout_at_eof,
        s.stderr_at_eof ==> s.probed(stdout_ended, stderr_ended).stderr_at_eof,
        s.ended() ==> s.probed(stdout_ended, stderr_ended).ended(),
        s.after_get_lines(call.count_lines, call.fill).ended() == s.ended(),
        s.after_get_lines(call.count_lines, call.fill).stdout_at_eof == s.stdout_at_eof,
        s.after_get_lines(call.count_lines, call.fill).stderr_at_eof == s.stderr_at_eof,
        s.seen(call.fill).ended() == s.ended(),
{
}

/// A channel goes from open to draining to closed and never back. Asking
/// for the end may move an open channel on and moves no other; a call for
/// lines leaves an open channel open, takes nothing in for a channel whose
/// end was seen, and closes a draining channel when it takes the last of
/// its text.
pub proof fn lemma_phases_go_forward(
    s: StreamerState,
    stdout_ended: bool,
    stderr_ended: bool,
    call: Call,
    side: bool,
)
    ensures
        s.phase(side) !is Open ==> s.probed(stdout_ended, stderr_ended).phase(side) == s.phase(
            side,
        ),
        s.probed(stdout_ended, stderr_ended).buffer(side) == s.buffer(side),
        s.phase(side) is Open <==> s.after_get_lines(call.count_lines, call.fill).phase(side)
            is Open,
        s.phase(side) is Closed ==> s.after_get_lines(call.count_lines, call.fill).phase(side)
            is Closed,
        s.phase(side) !is Open ==> s.arriving(call.fill, side).len() == 0,
        s.phase(side) !is Open ==> s.buffer(side) == s.leaving(call, side) + s.after_get_lines(
            call.count_lines,
            call.fill,
        ).buffer(side),
{
    lemma_call_conserves(s, call, side);
    if s.phase(side) !is Open {
        assert(s.buffer(side) + s.arriving(call.fill, side) =~= s.buffer(side));
    }
    if s.phase(side) is Closed {
        let after = s.after_get_lines(call.count_lines, call.fill);
        assert(s.leaving(call, side).len() + after.buffer(side).len() == 0);
    }
}

/// A stream keeps the channels it was opened on: no call captures or drops
/// one, so a stream with a channel always has one.
pub proof fn lemma_channels_stay(
    s: StreamerState,
    stdout_ended: bool,
    stderr_ended: bool,
    call: Call,
)
    requires
        s.wf(),
    ensures
        s.probed(stdout_ended, stderr_ended).wf(),
        s.seen(call.fill).wf(),
        s.after_get_lines(call.count_lines, call.fill).wf(),
{
}

/// An unfinished line waits: after a fill that leaves a channel's buffer with
/// text but no terminator, there is data in the buffers, yet an extraction
/// that draws from that channel takes nothing (the empty text untrimmed, no
/// lines trimmed) and leaves the buffer as it is.
pub proof fn lemma_partial_line_waits(
    s: StreamerState,
    stdout: ChannelReadView,
    stderr: ChannelReadView,
    side: bool,
    count_lines: i128,
)
    requires
        s.filled(stdout, stderr).buffer(side).len() > 0,
        !has_line_break(s.filled(stdout, stderr).buffer(side)),
    ensures
        ({
            let filled = s.filled(stdout, stderr);
            &&& filled.has_data()
            &&& filled.next_side() == side ==> {
                &&& filled.taken(count_lines) == 0
                &&& filled.extract(count_lines, false) == Some(Seq::<char>::empty())
                &&& filled.extract(count_lines, true) == None::<Seq<char>>
                &&& filled.extracted(count_lines).buffer(side) == filled.buffer(side)
                &&& filled.extracted(count_lines).has_data()
            }
        }),
{
    let filled = s.filled(stdout, stderr);
    let buffer = filled.buffer(side);
    lemma_first_line_len(buffer);
    if filled.next_side() == side {
        assert(buffer.take(0) =~= Seq::<char>::empty());
        assert(buffer.skip(0) =~= buffer);
        assert(trimmed_lines(Seq::<char>::empty()).len() == 0);
    }
}

} // verus!
