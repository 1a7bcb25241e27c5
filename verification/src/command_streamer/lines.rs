//! Whole lines at the front of a character buffer.
//!
//! A line ends at a single `\n` or `\r`; each of the two counts on its own, so
//! `\r\n` closes one line and then an empty one.

use crate::text::{chars_of, joined, push_char, push_range, string_of, trim, trim_range};
use vstd::prelude::*;

verus! {

/// The line count that lifts the cap: all the whole lines are taken.
pub const ALL_LINES: i128 = -1;

/// A character that ends a line.
pub open spec fn is_line_break(c: char) -> bool {
    c == '\n' || c == '\r'
}

/// Some character of `s` ends a line.
pub open spec fn has_line_break(s: Seq<char>) -> bool {
    exists|i: int| 0 <= i < s.len() && is_line_break(#[trigger] s[i])
}

/// Length of the first line of `s`, its terminator included; 0 when `s` holds
/// no terminator.
pub open spec fn first_line_len(s: Seq<char>) -> nat
    decreases s.len(),
{
    if s.len() == 0 {
        0
    } else if is_line_break(s[0]) {
        1
    } else {
        let rest = first_line_len(s.drop_first());
        if rest == 0 {
            0
        } else {
            rest + 1
        }
    }
}

/// Length of the first `limit` whole lines of `s`, or of all its whole lines
/// when it has fewer.
pub open spec fn lines_len(s: Seq<char>, limit: nat) -> nat
    decreases limit,
{
    let first = first_line_len(s);
    if limit == 0 || first == 0 {
        0
    } else {
        first + lines_len(s.skip(first as int), (limit - 1) as nat)
    }
}

/// Length of all the whole lines of `s`: one more than the index of its last
/// terminator, 0 without one.
pub open spec fn whole_lines_len(s: Seq<char>) -> nat
    decreases s.len(),
{
    if s.len() == 0 {
        0
    } else if is_line_break(s.last()) {
        s.len()
    } else {
        whole_lines_len(s.drop_last())
    }
}

/// How many lines a request for `count_lines` may take from a buffer of `len`
/// characters: -1 lifts the cap, and every other request takes at least one.
pub open spec fn line_limit(count_lines: i128, len: nat) -> nat {
    if count_lines == ALL_LINES {
        len
    } else if count_lines <= 1 {
        1
    } else {
        count_lines as nat
    }
}

/// `first_line_len` is where the first terminator sits: `k` is the length of
/// the first line exactly when `s[k - 1]` is the first terminator of `s`.
pub proof fn lemma_first_line_len(s: Seq<char>)
    ensures
        first_line_len(s) <= s.len(),
        first_line_len(s) == 0 <==> !has_line_break(s),
        first_line_len(s) > 0 ==> is_line_break(s[first_line_len(s) - 1]),
        forall|i: int| 0 <= i < first_line_len(s) - 1 ==> !is_line_break(#[trigger] s[i]),
    decreases s.len(),
{
    if s.len() == 0 {
    } else if is_line_break(s[0]) {
    } else {
        let t = s.drop_first();
        lemma_first_line_len(t);
        if first_line_len(t) == 0 {
            assert forall|i: int| 0 <= i < s.len() implies !is_line_break(#[trigger] s[i]) by {
                if i > 0 {
                    assert(s[i] == t[i - 1]);
                }
            }
        } else {
            assert(s[first_line_len(t) as int] == t[first_line_len(t) - 1]);
            assert forall|i: int| 0 <= i < first_line_len(s) - 1 implies !is_line_break(
                #[trigger] s[i],
            ) by {
                if i > 0 {
                    assert(s[i] == t[i - 1]);
                }
            }
        }
    }
}

/// The first line is found by position: if `s[k - 1]` ends a line and nothing
/// before it does, the first line has length `k`.
pub proof fn lemma_first_line_at(s: Seq<char>, k: int)
    requires
        0 < k <= s.len(),
        is_line_break(s[k - 1]),
        forall|i: int| 0 <= i < k - 1 ==> !is_line_break(#[trigger] s[i]),
    ensures
        first_line_len(s) == k,
{
    lemma_first_line_len(s);
    let f = first_line_len(s) as int;
    if f == 0 {
        assert(is_line_break(s[k - 1]));
    } else if f < k {
        assert(is_line_break(s[f - 1]));
    } else if f > k {
        assert(!is_line_break(s[k - 1]));
    }
}

/// Taking `a` lines and then `b` more is taking `a + b` lines.
pub proof fn lemma_lines_len_add(s: Seq<char>, a: nat, b: nat)
    ensures
        lines_len(s, a) <= s.len(),
        lines_len(s, a + b) == lines_len(s, a) + lines_len(s.skip(lines_len(s, a) as int), b),
    decreases a,
{
    lemma_first_line_len(s);
    let first = first_line_len(s);
    if a == 0 {
        assert(s.skip(0) =~= s);
    } else if first == 0 {
        assert(s.skip(0) =~= s);
    } else {
        let t = s.skip(first as int);
        lemma_lines_len_add(t, (a - 1) as nat, b);
        let n = lines_len(t, (a - 1) as nat);
        assert(t.skip(n as int) =~= s.skip((first + n) as int));
    }
}

/// At most `s.len()` lines fit in `s`: a larger limit takes no more.
pub proof fn lemma_lines_len_saturates(s: Seq<char>, limit: nat)
    requires
        limit >= s.len(),
    ensures
        lines_len(s, limit) == whole_lines_len(s),
    decreases s.len(),
{
    lemma_first_line_len(s);
    let first = first_line_len(s);
    if first == 0 {
        lemma_no_break_no_lines(s);
    } else {
        let t = s.skip(first as int);
        if limit == 0 {
        } else {
            lemma_lines_len_saturates(t, (limit - 1) as nat);
            lemma_whole_lines_skip(s, first as int);
        }
    }
}

/// Without a terminator there is no whole line.
pub proof fn lemma_no_break_no_lines(s: Seq<char>)
    requires
        !has_line_break(s),
    ensures
        whole_lines_len(s) == 0,
    decreases s.len(),
{
    if s.len() > 0 {
        assert(!is_line_break(s[s.len() - 1]));
        let t = s.drop_last();
        assert forall|i: int| 0 <= i < t.len() implies !is_line_break(#[trigger] t[i]) by {
            assert(t[i] == s[i]);
        }
        lemma_no_break_no_lines(t);
    }
}

/// The whole lines of `s` are a prefix that is empty or ends in a terminator,
/// and no terminator follows it.
pub proof fn lemma_whole_lines_len(s: Seq<char>)
    ensures
        whole_lines_len(s) <= s.len(),
        whole_lines_len(s) > 0 ==> is_line_break(s[whole_lines_len(s) - 1]),
        forall|i: int| whole_lines_len(s) <= i < s.len() ==> !is_line_break(#[trigger] s[i]),
    decreases s.len(),
{
    if s.len() == 0 {
    } else if is_line_break(s.last()) {
    } else {
        let t = s.drop_last();
        lemma_whole_lines_len(t);
        assert forall|i: int| whole_lines_len(s) <= i < s.len() implies !is_line_break(
            #[trigger] s[i],
        ) by {
            if i < t.len() {
                assert(s[i] == t[i]);
            }
        }
    }
}

/// Cutting a prefix that ends in a terminator off `s` cuts it off the whole
/// lines of `s`.
pub proof fn lemma_whole_lines_skip(s: Seq<char>, k: int)
    requires
        0 < k <= s.len(),
        is_line_break(s[k - 1]),
    ensures
        whole_lines_len(s) == k + whole_lines_len(s.skip(k)),
    decreases s.len(),
{
    let t = s.skip(k);
    if s.len() == k {
        assert(t.len() == 0);
    } else if is_line_break(s.last()) {
        assert(t.last() == s.last());
    } else {
        assert(t.last() == s.last());
        assert(s.drop_last().skip(k) =~= t.drop_last());
        lemma_whole_lines_skip(s.drop_last(), k);
    }
}

/// Index just past the first terminator at or after `start`, if there is one.
pub(crate) fn line_pos_from(buffer_vec: &Vec<char>, start: usize) -> (pos: Option<usize>)
    requires
        start <= buffer_vec.len(),
    ensures
        match pos {
            Some(end) => start < end <= buffer_vec.len() && end - start == first_line_len(
                buffer_vec@.skip(start as int),
            ),
            None => first_line_len(buffer_vec@.skip(start as int)) == 0,
        },
{
    let ghost tail = buffer_vec@.skip(start as int);
    let mut end: usize = start;
    while end < buffer_vec.len()
        invariant
            start <= end <= buffer_vec.len(),
            tail == buffer_vec@.skip(start as int),
            forall|i: int| 0 <= i < end - start ==> !is_line_break(#[trigger] tail[i]),
        decreases buffer_vec.len() - end,
    {
        let c = buffer_vec[end];
        end += 1;
        if c == '\n' || c == '\r' {
            proof {
                assert(tail[end - 1 - start] == c);
                lemma_first_line_at(tail, end - start);
            }
            return Some(end);
        }
    }
    proof {
        lemma_first_line_len(tail);
    }
    None
}

/// Index just past the first terminator of the buffer, if there is one.
pub fn buffer_vec_line_pos(buffer_vec: &Vec<char>) -> (pos: Option<usize>)
    ensures
        match pos {
            Some(end) => 0 < end <= buffer_vec.len() && end == first_line_len(buffer_vec@),
            None => first_line_len(buffer_vec@) == 0,
        },
{
    assert(buffer_vec@.skip(0) =~= buffer_vec@);
    line_pos_from(buffer_vec, 0)
}

/// Takes whole lines off the front of the buffer: as many as `count_lines`
/// allows, terminators included, joined as they stood. The flag tells whether
/// anything was taken.
pub fn buffer_vec_extract_lines(buffer_vec: &mut Vec<char>, count_lines: i128) -> (res: (
    Option<String>,
    bool,
))
    ensures
        ({
            let taken = lines_len(old(buffer_vec)@, line_limit(count_lines, old(buffer_vec)@.len()));
            &&& res.0 matches Some(lines) && lines@ == old(buffer_vec)@.take(taken as int)
            &&& final(buffer_vec)@ == old(buffer_vec)@.skip(taken as int)
            &&& res.1 == (taken > 0)
        }),
{
    let ghost whole = buffer_vec@;
    let ghost limit = line_limit(count_lines, whole.len());
    let mut cut: usize = 0;
    let mut extracted: i128 = 0;
    loop
        invariant_except_break
            0 <= extracted <= cut <= whole.len(),
            extracted < limit || (extracted == 0 && limit == 0),
            cut == lines_len(whole, extracted as nat),
        invariant
            buffer_vec@ == whole,
            limit == line_limit(count_lines, whole.len()),
        ensures
            cut <= whole.len(),
            cut == lines_len(whole, limit),
        decreases whole.len() - cut,
    {
        let pos = line_pos_from(buffer_vec, cut);
        proof {
            lemma_lines_len_add(whole, extracted as nat, 1);
            lemma_lines_len_add(whole, extracted as nat, (limit - extracted) as nat);
            reveal_with_fuel(lines_len, 2);
        }
        match pos {
            None => {
                break ;
            },
            Some(end) => {
                cut = end;
                extracted += 1;
                if count_lines != -1 {
                    if extracted >= count_lines {
                        break ;
                    }
                } else if cut >= buffer_vec.len() {
                    proof {
                        lemma_lines_len_add(whole, extracted as nat, (limit - extracted) as nat);
                        assert(whole.skip(cut as int).len() == 0);
                    }
                    break ;
                }
            },
        }
    }
    let rest = buffer_vec.split_off(cut);
    let lines = string_of(buffer_vec);
    *buffer_vec = rest;
    (Some(lines), cut > 0)
}

/// `line` as a list of lines: itself when it holds anything, else nothing.
pub open spec fn kept_line(line: Seq<char>) -> Seq<Seq<char>> {
    if line.len() == 0 {
        Seq::empty()
    } else {
        seq![line]
    }
}

/// The lines of `s`, split at every terminator, each trimmed of white space,
/// the empty ones left out.
pub open spec fn trimmed_lines(s: Seq<char>) -> Seq<Seq<char>>
    decreases s.len(),
{
    let first = first_line_len(s);
    if first == 0 || first > s.len() {
        kept_line(trim(s))
    } else {
        kept_line(trim(s.take(first - 1))) + trimmed_lines(s.skip(first as int))
    }
}

/// The lines joined again, one `\n` between each two.
pub open spec fn join_lines(lines: Seq<Seq<char>>) -> Seq<char> {
    joined(lines, seq!['\n'])
}

/// What trimming makes of a batch of lines: nothing when no line is left,
/// else the lines that are left, joined.
pub open spec fn trimmed_batch(s: Seq<char>) -> Option<Seq<char>> {
    if trimmed_lines(s).len() == 0 {
        None
    } else {
        Some(join_lines(trimmed_lines(s)))
    }
}

/// A batch that is empty or ends in a terminator is trimmed line by line:
/// what follows it adds its own lines and changes none.
pub proof fn lemma_trimmed_lines_add(a: Seq<char>, b: Seq<char>)
    requires
        a.len() == 0 || is_line_break(a.last()),
    ensures
        trimmed_lines(a + b) == trimmed_lines(a) + trimmed_lines(b),
    decreases a.len(),
{
    if a.len() == 0 {
        assert(a + b =~= b);
        lemma_trim_empty();
        assert(trimmed_lines(a) =~= Seq::<Seq<char>>::empty());
        assert(trimmed_lines(a) + trimmed_lines(b) =~= trimmed_lines(b));
    } else {
        lemma_first_line_len(a);
        assert(is_line_break(a[a.len() - 1]));
        let first = first_line_len(a);
        assert forall|i: int| 0 <= i < first - 1 implies !is_line_break(#[trigger] (a + b)[i]) by {
            assert((a + b)[i] == a[i]);
        }
        assert((a + b)[first - 1] == a[first - 1]);
        lemma_first_line_at(a + b, first as int);
        let a2 = a.skip(first as int);
        assert((a + b).take(first - 1) =~= a.take(first - 1));
        assert((a + b).skip(first as int) =~= a2 + b);
        if a2.len() > 0 {
            assert(a2.last() == a.last());
        }
        lemma_trimmed_lines_add(a2, b);
        assert(trimmed_lines(a + b) =~= trimmed_lines(a) + trimmed_lines(b));
    }
}

/// Nothing is left of nothing.
pub proof fn lemma_trim_empty()
    ensures
        trim(Seq::<char>::empty()).len() == 0,
        trimmed_lines(Seq::<char>::empty()).len() == 0,
{
}

/// Splits a batch at its terminators, trims each line, leaves out the empty
/// ones and joins the others with `\n`; a batch of which nothing is left, or
/// no batch, gives none.
pub fn trim_lines(lines: Option<String>) -> (res: Option<String>)
    ensures
        match lines {
            Some(batch) => match trimmed_batch(batch@) {
                Some(text) => res matches Some(r) && r@ == text,
                None => res is None,
            },
            None => res is None,
        },
{
    let batch = match lines {
        Some(batch) => batch,
        None => {
            return None;
        },
    };
    let v = chars_of(batch.as_str());
    let ghost whole = v@;
    let ghost mut done: Seq<Seq<char>> = Seq::empty();
    let mut out = String::new();
    let mut any = false;
    let mut start: usize = 0;
    assert(whole.skip(0) =~= whole);
    loop
        invariant_except_break
            start <= v.len(),
            trimmed_lines(whole) == done + trimmed_lines(whole.skip(start as int)),
        invariant
            v@ == whole,
            out@ == join_lines(done),
            any == (done.len() > 0),
        ensures
            trimmed_lines(whole) == done,
        decreases v.len() - start,
    {
        let ghost rest = whole.skip(start as int);
        let pos = line_pos_from(&v, start);
        let stop = match pos {
            Some(end) => end - 1,
            None => v.len(),
        };
        let (a, b) = trim_range(&v, start, stop);
        proof {
            lemma_first_line_len(rest);
            assert(v@.subrange(start as int, stop as int) =~= if pos is Some {
                rest.take(first_line_len(rest) - 1)
            } else {
                rest
            });
        }
        let ghost line = v@.subrange(a as int, b as int);
        if a < b {
            if any {
                push_char(&mut out, '\n');
            }
            push_range(&mut out, &v, a, b);
            proof {
                let next = done.push(line);
                assert(next.drop_last() =~= done);
                assert(done + kept_line(line) =~= next);
                done = next;
            }
            any = true;
        } else {
            proof {
                assert(done + kept_line(line) =~= done);
            }
        }
        match pos {
            Some(end) => {
                proof {
                    assert(rest.skip(first_line_len(rest) as int) =~= whole.skip(end as int));
                }
                start = end;
            },
            None => {
                break ;
            },
        }
    }
    if any {
        Some(out)
    } else {
        None
    }
}

} // verus!
