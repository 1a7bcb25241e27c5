//! Putting one text in the place of another.

use crate::search::{parts, ranges_fit, split_limited, split_ranges};
use crate::text::{chars_of, joined, push_range};
use vstd::prelude::*;
use vstd::string::StringExecFns;

verus! {

/// How many pieces a text falls into when at most `count` places are cut
/// out of it: one more than places, and any number without a count. The
/// greatest count there is sets no limit either.
pub open spec fn pieces_for(count: Option<usize>) -> Option<nat> {
    match count {
        Some(n) => if n < usize::MAX {
            Some((n + 1) as nat)
        } else {
            None
        },
        None => None,
    }
}

/// `s` with `to` in the place of `pattern` wherever it stands, from the
/// left and not overlapping; with a count, in the first so many places
/// only. The empty pattern stands before every character and at the end.
pub open spec fn replaced(s: Seq<char>, pattern: Seq<char>, to: Seq<char>, count: Option<usize>) -> Seq<
    char,
> {
    joined(split_limited(s, pattern, pieces_for(count)), to)
}

/// `s` with `to` in the place of `pattern`, as `replaced` tells.
pub fn replace_text(s: &str, pattern: &str, to: &str, count: Option<usize>) -> (res: String)
    ensures
        res@ == replaced(s@, pattern@, to@, count),
{
    let v = chars_of(s);
    let pat = chars_of(pattern);
    let limit: Option<usize> = match count {
        Some(n) => if n < usize::MAX {
            Some(n + 1)
        } else {
            None
        },
        None => None,
    };
    let ranges = split_ranges(&v, &pat, limit);
    let ghost pieces = parts(v@, ranges@);
    let mut res = String::new();
    let mut i: usize = 0;
    assert(pieces.take(0) =~= Seq::<Seq<char>>::empty());
    while i < ranges.len()
        invariant
            i <= ranges.len(),
            pieces == parts(v@, ranges@),
            ranges_fit(ranges@, v@.len()),
            res@ == joined(pieces.take(i as int), to@),
        decreases ranges.len() - i,
    {
        let (a, b) = ranges[i];
        if i > 0 {
            res.append(to);
        }
        push_range(&mut res, &v, a, b);
        i += 1;
        proof {
            let done = pieces.take(i as int);
            assert(done.drop_last() =~= pieces.take(i - 1));
            assert(done.last() == v@.subrange(a as int, b as int));
            if i == 1 {
                assert(res@ =~= done[0]);
            }
        }
    }
    assert(pieces.take(ranges.len() as int) =~= pieces);
    res
}

} // verus!
