//! Finding a text in a text, and cutting a text at a separator.

use vstd::prelude::*;

verus! {

/// Index of the first place where `pat` stands in `s`, or -1 if it stands
/// nowhere. The empty text stands at index 0 of every text.
pub open spec fn first_match(s: Seq<char>, pat: Seq<char>) -> int
    decreases s.len(),
{
    if s.len() == 0 {
        if pat.len() == 0 {
            0
        } else {
            -1
        }
    } else if pat.len() <= s.len() && s.take(pat.len() as int) == pat {
        0
    } else {
        let rest = first_match(s.drop_first(), pat);
        if rest < 0 {
            -1
        } else {
            rest + 1
        }
    }
}

/// `pat` stands in `s` at index `i`.
pub open spec fn stands_at(s: Seq<char>, pat: Seq<char>, i: int) -> bool {
    0 <= i && i + pat.len() <= s.len() && s.subrange(i, i + pat.len()) == pat
}

/// `first_match` is the least index at which `pat` stands.
pub proof fn lemma_first_match(s: Seq<char>, pat: Seq<char>)
    ensures
        first_match(s, pat) >= -1,
        first_match(s, pat) >= 0 ==> stands_at(s, pat, first_match(s, pat)),
        forall|j: int|
            0 <= j && (j < first_match(s, pat) || first_match(s, pat) < 0) ==> !#[trigger] stands_at(
                s,
                pat,
                j,
            ),
    decreases s.len(),
{
    let m = pat.len() as int;
    if s.len() == 0 {
        if m == 0 {
            assert(s.subrange(0, 0) =~= pat);
        }
    } else if m <= s.len() && s.take(m) == pat {
        assert(s.subrange(0, m) =~= s.take(m));
    } else {
        let t = s.drop_first();
        lemma_first_match(t, pat);
        let r = first_match(t, pat);
        if r >= 0 {
            assert(s.subrange(r + 1, r + 1 + m) =~= t.subrange(r, r + m));
        }
        assert forall|j: int| 0 <= j && (j < first_match(s, pat) || first_match(s, pat) < 0)
            implies !#[trigger] stands_at(s, pat, j) by {
            if j == 0 {
                if m <= s.len() {
                    assert(s.subrange(0, m) =~= s.take(m));
                }
            } else if j + m <= s.len() {
                assert(s.subrange(j, j + m) =~= t.subrange(j - 1, j - 1 + m));
                assert(!stands_at(t, pat, j - 1));
            }
        }
    }
}

/// If `pat` stands at `k` and nowhere before, `k` is the first match.
pub proof fn lemma_first_match_at(s: Seq<char>, pat: Seq<char>, k: int)
    requires
        stands_at(s, pat, k),
        forall|j: int| 0 <= j < k ==> !#[trigger] stands_at(s, pat, j),
    ensures
        first_match(s, pat) == k,
{
    lemma_first_match(s, pat);
    let r = first_match(s, pat);
    if r < 0 {
        assert(!stands_at(s, pat, k));
    } else if r < k {
        assert(!stands_at(s, pat, r));
    } else if r > k {
        assert(!stands_at(s, pat, k));
    }
}

/// If `pat` stands nowhere, there is no first match.
pub proof fn lemma_no_match(s: Seq<char>, pat: Seq<char>)
    requires
        forall|j: int| 0 <= j ==> !#[trigger] stands_at(s, pat, j),
    ensures
        first_match(s, pat) == -1,
{
    lemma_first_match(s, pat);
    let r = first_match(s, pat);
    if r >= 0 {
        assert(!stands_at(s, pat, r));
    }
}

/// Whether `pat` stands in `v` at index `at`.
pub fn matches_at(v: &Vec<char>, pat: &Vec<char>, at: usize) -> (found: bool)
    ensures
        found == stands_at(v@, pat@, at as int),
{
    if at > v.len() || pat.len() > v.len() - at {
        return false;
    }
    let mut k: usize = 0;
    while k < pat.len()
        invariant
            k <= pat.len(),
            at + pat.len() <= v.len(),
            forall|j: int| 0 <= j < k ==> v@[at + j] == pat@[j],
        decreases pat.len() - k,
    {
        if v[at + k] != pat[k] {
            assert(v@.subrange(at as int, at + pat.len())[k as int] != pat@[k as int]);
            return false;
        }
        k += 1;
    }
    assert(v@.subrange(at as int, at + pat.len()) =~= pat@);
    true
}

/// The first index at or after `start` where `pat` stands in `v`; none if
/// there is none, or if `start` lies beyond the end of `v`.
pub fn find_from(v: &Vec<char>, pat: &Vec<char>, start: usize) -> (found: Option<usize>)
    ensures
        match found {
            Some(i) => start <= i && i + pat.len() <= v.len() && i - start == first_match(
                v@.skip(start as int),
                pat@,
            ),
            None => start > v.len() || first_match(v@.skip(start as int), pat@) == -1,
        },
{
    if start > v.len() {
        return None;
    }
    let ghost tail = v@.skip(start as int);
    let mut i: usize = start;
    loop
        invariant
            start <= i <= v.len(),
            tail == v@.skip(start as int),
            forall|j: int| 0 <= j < i - start ==> !#[trigger] stands_at(tail, pat@, j),
        decreases v.len() - i,
    {
        if pat.len() > v.len() - i {
            proof {
                lemma_no_match(tail, pat@);
            }
            return None;
        }
        proof {
            assert(tail.subrange(i - start, i - start + pat.len()) =~= v@.subrange(
                i as int,
                i + pat.len(),
            ));
        }
        if matches_at(v, pat, i) {
            proof {
                lemma_first_match_at(tail, pat@, i - start);
            }
            return Some(i);
        }
        assert(i < v.len()) by {
            if i == v.len() {
                assert(v@.subrange(i as int, i as int) =~= pat@);
            }
        }
        i += 1;
    }
}

/// A limit with one piece less to go.
pub open spec fn one_less(limit: Option<nat>) -> Option<nat> {
    match limit {
        Some(n) => Some((n - 1) as nat),
        None => None,
    }
}

/// The pieces of `s` between the places where the non-empty `sep` stands,
/// found from the left and not overlapping. With a limit there are at most
/// so many pieces, and the last of them is all the rest.
pub open spec fn split_pieces(s: Seq<char>, sep: Seq<char>, limit: Option<nat>) -> Seq<Seq<char>>
    decreases s.len(),
{
    let at = first_match(s, sep);
    if limit == Some(0nat) {
        Seq::empty()
    } else if limit == Some(1nat) || sep.len() == 0 || at < 0 || at + sep.len() > s.len() {
        seq![s]
    } else {
        seq![s.take(at)] + split_pieces(s.skip(at + sep.len()), sep, one_less(limit))
    }
}

/// The pieces of `s` cut at every character boundary, as the empty separator
/// cuts it, after the empty piece in front: one character each, then the
/// empty rest. With a limit there are at most so many pieces, and the last
/// of them is all the rest.
pub open spec fn split_chars(s: Seq<char>, limit: Option<nat>) -> Seq<Seq<char>>
    decreases s.len(),
{
    if limit == Some(0nat) {
        Seq::empty()
    } else if limit == Some(1nat) || s.len() == 0 {
        seq![s]
    } else {
        seq![s.take(1)] + split_chars(s.skip(1), one_less(limit))
    }
}

/// The pieces that `sep` cuts `s` into; with a limit at most so many, the
/// last of which is all the rest. A separator of no characters cuts before
/// the first character, between each two and after the last.
pub open spec fn split_limited(s: Seq<char>, sep: Seq<char>, limit: Option<nat>) -> Seq<
    Seq<char>,
> {
    if sep.len() > 0 {
        split_pieces(s, sep, limit)
    } else if limit == Some(0nat) {
        Seq::empty()
    } else if limit == Some(1nat) {
        seq![s]
    } else {
        seq![Seq::empty()] + split_chars(s, one_less(limit))
    }
}

/// The parts of `v` that the ranges name.
pub open spec fn parts(v: Seq<char>, ranges: Seq<(usize, usize)>) -> Seq<Seq<char>> {
    Seq::new(ranges.len(), |i: int| v.subrange(ranges[i].0 as int, ranges[i].1 as int))
}

/// Every range lies in a text of `len` characters.
pub open spec fn ranges_fit(ranges: Seq<(usize, usize)>, len: nat) -> bool {
    forall|i: int| 0 <= i < ranges.len() ==> (#[trigger] ranges[i]).0 <= ranges[i].1 <= len
}

/// A limit as a number of pieces.
pub open spec fn limit_of(limit: Option<usize>) -> Option<nat> {
    match limit {
        Some(n) => Some(n as nat),
        None => None,
    }
}

/// The bounds of the pieces that `sep` cuts `v` into; with a limit at most
/// so many.
pub fn split_ranges(v: &Vec<char>, sep: &Vec<char>, limit: Option<usize>) -> (ranges: Vec<
    (usize, usize),
>)
    ensures
        ranges_fit(ranges@, v@.len()),
        parts(v@, ranges@) == split_limited(v@, sep@, limit_of(limit)),
{
    let mut ranges: Vec<(usize, usize)> = Vec::new();
    let mut left: Option<usize> = limit;
    match left {
        Some(n) => {
            if n == 0 {
                assert(parts(v@, ranges@) =~= Seq::<Seq<char>>::empty());
                return ranges;
            }
        },
        None => {},
    }
    let mut start: usize = 0;
    assert(v@.skip(0) =~= v@);
    assert(parts(v@, ranges@) =~= Seq::<Seq<char>>::empty());
    if sep.len() == 0 {
        match left {
            Some(n) => {
                if n == 1 {
                    ranges.push((0, v.len()));
                    assert(v@.subrange(0, v@.len() as int) =~= v@);
                    assert(parts(v@, ranges@) =~= seq![v@]);
                    return ranges;
                }
                left = Some(n - 1);
            },
            None => {},
        }
        ranges.push((0, 0));
        assert(v@.subrange(0, 0) =~= Seq::<char>::empty());
        assert(parts(v@, ranges@) =~= seq![Seq::<char>::empty()]);
        loop
            invariant_except_break
                start <= v.len(),
                left != Some(0usize),
                split_limited(v@, sep@, limit_of(limit)) == parts(v@, ranges@) + split_chars(
                    v@.skip(start as int),
                    limit_of(left),
                ),
            invariant
                ranges_fit(ranges@, v@.len()),
            ensures
                parts(v@, ranges@) == split_limited(v@, sep@, limit_of(limit)),
            decreases v.len() - start,
        {
            let ghost before = parts(v@, ranges@);
            let ghost tail = v@.skip(start as int);
            let last = match left {
                Some(n) => n == 1,
                None => false,
            };
            if last || start >= v.len() {
                ranges.push((start, v.len()));
                proof {
                    assert(tail =~= v@.subrange(start as int, v@.len() as int));
                    assert(split_chars(tail, limit_of(left)) =~= seq![tail]);
                    assert(parts(v@, ranges@) =~= before + seq![tail]);
                }
                break ;
            }
            ranges.push((start, start + 1));
            proof {
                let piece = tail.take(1);
                let next = tail.skip(1);
                assert(piece =~= v@.subrange(start as int, start + 1));
                assert(next =~= v@.skip(start + 1));
                assert(parts(v@, ranges@) =~= before + seq![piece]);
                assert(before + (seq![piece] + split_chars(next, one_less(limit_of(left))))
                    =~= (before + seq![piece]) + split_chars(next, one_less(limit_of(left))));
            }
            start += 1;
            left = match left {
                Some(n) => Some(n - 1),
                None => None,
            };
        }
        return ranges;
    }
    assert(Seq::<Seq<char>>::empty() + split_pieces(v@, sep@, limit_of(limit)) =~= split_pieces(
        v@,
        sep@,
        limit_of(limit),
    ));
    loop
        invariant_except_break
            start <= v.len(),
            left != Some(0usize),
            split_pieces(v@, sep@, limit_of(limit)) == parts(v@, ranges@) + split_pieces(
                v@.skip(start as int),
                sep@,
                limit_of(left),
            ),
        invariant
            sep@.len() > 0,
            ranges_fit(ranges@, v@.len()),
        ensures
            parts(v@, ranges@) == split_pieces(v@, sep@, limit_of(limit)),
        decreases v.len() - start,
    {
        let ghost before = parts(v@, ranges@);
        let ghost tail = v@.skip(start as int);
        let last = match left {
            Some(n) => n == 1,
            None => false,
        };
        let found = if last {
            None
        } else {
            find_from(v, sep, start)
        };
        match found {
            Some(at) => {
                ranges.push((start, at));
                proof {
                    let piece = tail.take(at - start);
                    let next = tail.skip(at - start + sep@.len());
                    assert(piece =~= v@.subrange(start as int, at as int));
                    assert(next =~= v@.skip(at + sep@.len()));
                    assert(parts(v@, ranges@) =~= before + seq![piece]);
                    assert(before + (seq![piece] + split_pieces(
                        next,
                        sep@,
                        one_less(limit_of(left)),
                    )) =~= (before + seq![piece]) + split_pieces(
                        next,
                        sep@,
                        one_less(limit_of(left)),
                    ));
                }
                start = at + sep.len();
                left = match left {
                    Some(n) => Some(n - 1),
                    None => None,
                };
            },
            None => {
                ranges.push((start, v.len()));
                proof {
                    assert(tail =~= v@.subrange(start as int, v@.len() as int));
                    assert(split_pieces(tail, sep@, limit_of(left)) =~= seq![tail]);
                    assert(parts(v@, ranges@) =~= before + seq![tail]);
                }
                break ;
            },
        }
    }
    ranges
}

} // verus!
