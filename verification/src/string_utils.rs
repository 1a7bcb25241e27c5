//! Lines, words and values in texts.

use crate::command_streamer::lines::{first_line_len, lemma_first_line_len, line_pos_from};
use crate::error::{ValueError, ValueErrorView};
use crate::search::{find_from, first_match, parts, ranges_fit, split_limited, split_ranges};
use crate::text::{
    char_is_alphabetic, char_is_alphanumeric, chars_of, is_alphabetic, is_alphanumeric, join,
    joined, push_char, push_range, text_eq, texts, trim, trim_range, utf8_len, utf8_width,
    word_ranges, words,
};
use crate::text_map::TextMap;
use vstd::prelude::*;
use vstd::string::{StrSliceExecFns, StringExecFns};

verus! {

/// The views of a list of string slices.
pub open spec fn strs(v: Seq<&str>) -> Seq<Seq<char>> {
    Seq::new(v.len(), |i: int| v[i]@)
}

/// The pieces of `s` between its line terminators: one more piece than
/// terminators, each of `\n` and `\r` counting on its own.
pub open spec fn break_pieces(s: Seq<char>) -> Seq<Seq<char>>
    decreases s.len(),
{
    let first = first_line_len(s);
    if first == 0 || first > s.len() {
        seq![s]
    } else {
        seq![s.take(first - 1)] + break_pieces(s.skip(first as int))
    }
}

/// The lines of `s`: its pieces between line terminators, without the last
/// piece when that is empty, so that a terminator at the end opens no line.
pub open spec fn lines_of(s: Seq<char>) -> Seq<Seq<char>> {
    let pieces = break_pieces(s);
    if pieces.last().len() == 0 {
        pieces.drop_last()
    } else {
        pieces
    }
}

/// The bounds of the lines of `v`.
pub fn line_ranges(v: &Vec<char>) -> (ranges: Vec<(usize, usize)>)
    ensures
        ranges_fit(ranges@, v@.len()),
        parts(v@, ranges@) == lines_of(v@),
{
    let mut ranges: Vec<(usize, usize)> = Vec::new();
    let mut start: usize = 0;
    assert(v@.skip(0) =~= v@);
    assert(parts(v@, ranges@) =~= Seq::<Seq<char>>::empty());
    assert(Seq::<Seq<char>>::empty() + break_pieces(v@) =~= break_pieces(v@));
    loop
        invariant_except_break
            start <= v.len(),
            break_pieces(v@) == parts(v@, ranges@) + break_pieces(v@.skip(start as int)),
        invariant
            ranges_fit(ranges@, v@.len()),
        ensures
            parts(v@, ranges@) == lines_of(v@),
        decreases v.len() - start,
    {
        let ghost before = parts(v@, ranges@);
        let ghost tail = v@.skip(start as int);
        proof {
            lemma_first_line_len(tail);
        }
        match line_pos_from(v, start) {
            Some(end) => {
                ranges.push((start, end - 1));
                proof {
                    let piece = tail.take(end - 1 - start);
                    let next = tail.skip(end - start);
                    assert(piece =~= v@.subrange(start as int, end - 1));
                    assert(next =~= v@.skip(end as int));
                    assert(parts(v@, ranges@) =~= before + seq![piece]);
                    assert(before + (seq![piece] + break_pieces(next)) =~= (before + seq![piece])
                        + break_pieces(next));
                }
                start = end;
            },
            None => {
                proof {
                    assert(break_pieces(tail) =~= seq![tail]);
                    assert(break_pieces(v@) =~= before.push(tail));
                    assert(break_pieces(v@).last() == tail);
                    assert(break_pieces(v@).drop_last() =~= before);
                }
                if start < v.len() {
                    ranges.push((start, v.len()));
                    proof {
                        assert(tail =~= v@.subrange(start as int, v@.len() as int));
                        assert(parts(v@, ranges@) =~= before.push(tail));
                    }
                }
                break ;
            },
        }
    }
    ranges
}

/// The parts of `v` that the ranges name, each as a string of its own.
pub(crate) fn strings_of(v: &Vec<char>, ranges: &Vec<(usize, usize)>) -> (list: Vec<String>)
    requires
        ranges_fit(ranges@, v@.len()),
    ensures
        texts(list@) == parts(v@, ranges@),
{
    let mut list: Vec<String> = Vec::new();
    let mut i: usize = 0;
    while i < ranges.len()
        invariant
            i <= ranges.len(),
            ranges_fit(ranges@, v@.len()),
            texts(list@) == parts(v@, ranges@).take(i as int),
        decreases ranges.len() - i,
    {
        let (a, b) = ranges[i];
        let mut piece = String::new();
        push_range(&mut piece, v, a, b);
        list.push(piece);
        i += 1;
        proof {
            assert(piece@ =~= v@.subrange(a as int, b as int));
            assert(texts(list@).drop_last() =~= parts(v@, ranges@).take(i - 1));
            assert(texts(list@) =~= parts(v@, ranges@).take(i as int));
        }
    }
    assert(parts(v@, ranges@).take(ranges.len() as int) =~= parts(v@, ranges@));
    list
}

/// The lines of `s`, without their terminators. A line ends at a single
/// `\n` or `\r`; a terminator at the very end opens no further line.
pub fn split_lines(s: &str) -> (lines: Vec<String>)
    ensures
        texts(lines@) == lines_of(s@),
{
    let v = chars_of(s);
    let ranges = line_ranges(&v);
    strings_of(&v, &ranges)
}

/// The words of `s`: its longest runs of characters that are no white space.
pub fn tokenize(s: &str) -> (tokens: Vec<&str>)
    ensures
        strs(tokens@) == words(s@),
{
    let v = chars_of(s);
    let ranges = word_ranges(&v);
    let mut tokens: Vec<&str> = Vec::new();
    let mut i: usize = 0;
    while i < ranges.len()
        invariant
            i <= ranges.len(),
            v@ == s@,
            ranges_fit(ranges@, v@.len()),
            strs(tokens@) == parts(v@, ranges@).take(i as int),
        decreases ranges.len() - i,
    {
        let (a, b) = ranges[i];
        let token = s.substring_char(a, b);
        tokens.push(token);
        i += 1;
        proof {
            assert(strs(tokens@).drop_last() =~= parts(v@, ranges@).take(i - 1));
            assert(strs(tokens@) =~= parts(v@, ranges@).take(i as int));
        }
    }
    assert(parts(v@, ranges@).take(ranges.len() as int) =~= parts(v@, ranges@));
    tokens
}

/// The words of `s` with one blank between each two, and no white space
/// before the first or after the last.
pub fn normalize_spaces(s: &String) -> (normal: String)
    ensures
        normal@ == joined(words(s@), seq![' ']),
{
    let v = chars_of(s.as_str());
    let ranges = word_ranges(&v);
    let list = strings_of(&v, &ranges);
    proof {
        reveal_strlit(" ");
        assert(" "@ =~= seq![' ']);
    }
    join(&list, " ")
}

/// The character that stands for `c` where only letters and digits are kept:
/// itself if it is alphabetic or numeric, else a blank.
pub open spec fn letter_or_blank(c: char) -> char {
    if char_is_alphabetic(c) || char_is_alphanumeric(c) {
        c
    } else {
        ' '
    }
}

/// `s` with a blank in the place of every character that is neither
/// alphabetic nor numeric.
pub fn replace_non_alphabetic_with_space(s: &String) -> (replaced: String)
    ensures
        replaced@ == s@.map_values(|c: char| letter_or_blank(c)),
{
    let v = chars_of(s.as_str());
    let mut replaced = String::new();
    let mut i: usize = 0;
    while i < v.len()
        invariant
            i <= v.len(),
            v@ == s@,
            replaced@ == s@.take(i as int).map_values(|c: char| letter_or_blank(c)),
        decreases v.len() - i,
    {
        let c = v[i];
        if is_alphabetic(c) || is_alphanumeric(c) {
            push_char(&mut replaced, c);
        } else {
            push_char(&mut replaced, ' ');
        }
        i += 1;
        assert(replaced@ =~= s@.take(i as int).map_values(|c: char| letter_or_blank(c)));
    }
    assert(s@.take(v.len() as int) =~= s@);
    replaced
}

/// The characters of `s` that are alphabetic or blanks, in order.
pub open spec fn letters_and_blanks(s: Seq<char>) -> Seq<char>
    decreases s.len(),
{
    if s.len() == 0 {
        Seq::empty()
    } else {
        let front = letters_and_blanks(s.drop_last());
        if char_is_alphabetic(s.last()) || s.last() == ' ' {
            front.push(s.last())
        } else {
            front
        }
    }
}

/// `s` without the characters that are neither alphabetic nor blanks.
pub fn _remove_non_alphabetic(s: &String) -> (kept: String)
    ensures
        kept@ == letters_and_blanks(s@),
{
    let v = chars_of(s.as_str());
    let mut kept = String::new();
    let mut i: usize = 0;
    while i < v.len()
        invariant
            i <= v.len(),
            v@ == s@,
            kept@ == letters_and_blanks(s@.take(i as int)),
        decreases v.len() - i,
    {
        let c = v[i];
        proof {
            assert(s@.take(i + 1).drop_last() =~= s@.take(i as int));
        }
        if is_alphabetic(c) || c == ' ' {
            push_char(&mut kept, c);
        }
        i += 1;
    }
    assert(s@.take(v.len() as int) =~= s@);
    kept
}

/// The texts that mean true.
pub open spec fn means_true(s: Seq<char>) -> bool {
    s == "true"@ || s == "t"@ || s == "yes"@ || s == "y"@ || s == "1"@
}

/// The texts that mean false.
pub open spec fn means_false(s: Seq<char>) -> bool {
    s == "false"@ || s == "f"@ || s == "no"@ || s == "n"@ || s == "0"@
}

/// No text means both true and false.
pub proof fn lemma_true_is_not_false(s: Seq<char>)
    ensures
        !(means_true(s) && means_false(s)),
{
    reveal_strlit("true");
    reveal_strlit("t");
    reveal_strlit("yes");
    reveal_strlit("y");
    reveal_strlit("1");
    reveal_strlit("false");
    reveal_strlit("f");
    reveal_strlit("no");
    reveal_strlit("n");
    reveal_strlit("0");
    assert("true"@.len() == 4 && "true"@[0] == 't');
    assert("t"@.len() == 1 && "t"@[0] == 't');
    assert("yes"@.len() == 3 && "yes"@[0] == 'y');
    assert("y"@.len() == 1 && "y"@[0] == 'y');
    assert("1"@.len() == 1 && "1"@[0] == '1');
    assert("false"@.len() == 5 && "false"@[0] == 'f');
    assert("f"@.len() == 1 && "f"@[0] == 'f');
    assert("no"@.len() == 2 && "no"@[0] == 'n');
    assert("n"@.len() == 1 && "n"@[0] == 'n');
    assert("0"@.len() == 1 && "0"@[0] == '0');
}

/// The truth value that `s` spells: `true`, `t`, `yes`, `y` and `1` are
/// true, `false`, `f`, `no`, `n` and `0` are false, just so written; any
/// other text is refused.
pub fn string_to_bool(s: &str) -> (res: Result<bool, ValueError>)
    ensures
        match res {
            Ok(value) => if value {
                means_true(s@)
            } else {
                means_false(s@)
            },
            Err(e) => !means_true(s@) && !means_false(s@) && e@ == ValueErrorView::NoBoolean(s@),
        },
{
    proof {
        lemma_true_is_not_false(s@);
    }
    if text_eq(s, "true") || text_eq(s, "t") || text_eq(s, "yes") || text_eq(s, "y") || text_eq(
        s,
        "1",
    ) {
        Ok(true)
    } else if text_eq(s, "false") || text_eq(s, "f") || text_eq(s, "no") || text_eq(s, "n")
        || text_eq(s, "0") {
        Ok(false)
    } else {
        Err(ValueError::NoBoolean(s.to_owned()))
    }
}

/// A number of pieces that sets no limit.
pub const NO_LIMIT: isize = -1;

/// The pieces as asked: each trimmed of white space if `trim_each`, and the
/// empty ones left out if `skip_empty`, in that order.
pub open spec fn refined(pieces: Seq<Seq<char>>, trim_each: bool, skip_empty: bool) -> Seq<
    Seq<char>,
>
    decreases pieces.len(),
{
    if pieces.len() == 0 {
        Seq::empty()
    } else {
        let front = refined(pieces.drop_last(), trim_each, skip_empty);
        let piece = if trim_each {
            trim(pieces.last())
        } else {
            pieces.last()
        };
        if skip_empty && piece.len() == 0 {
            front
        } else {
            front.push(piece)
        }
    }
}

/// How many pieces `n` allows: any number if it is negative.
pub open spec fn piece_limit(n: isize) -> Option<nat> {
    if n > -1 {
        Some(n as nat)
    } else {
        None
    }
}

/// The tokens that `tokenize_by` gives.
pub open spec fn tokens_by(
    s: Seq<char>,
    separator: Seq<char>,
    n: isize,
    trim_each: bool,
    skip_empty: bool,
) -> Seq<Seq<char>> {
    refined(split_limited(s, separator, piece_limit(n)), trim_each, skip_empty)
}

/// The pieces that `separator` cuts `s` into, wherever it stands, from the
/// left. With `n` of 0 or more there are at most `n` pieces, the last of
/// which is all the rest; a negative `n` sets no limit. With `trim` each
/// piece loses the white space at its ends, and with `skip_empty` the pieces
/// that are then empty are left out.
pub fn tokenize_by(s: &str, separator: &str, n: isize, trim: bool, skip_empty: bool) -> (tokens:
    Vec<String>)
    ensures
        texts(tokens@) == tokens_by(s@, separator@, n, trim, skip_empty),
{
    let v = chars_of(s);
    let sep = chars_of(separator);
    let limit: Option<usize> = if n > -1 {
        Some(n as usize)
    } else {
        None
    };
    let ranges = split_ranges(&v, &sep, limit);
    let ghost pieces = parts(v@, ranges@);
    let mut tokens: Vec<String> = Vec::new();
    let mut i: usize = 0;
    assert(pieces.take(0) =~= Seq::<Seq<char>>::empty());
    while i < ranges.len()
        invariant
            i <= ranges.len(),
            pieces == parts(v@, ranges@),
            ranges_fit(ranges@, v@.len()),
            texts(tokens@) == refined(pieces.take(i as int), trim, skip_empty),
        decreases ranges.len() - i,
    {
        let (from, to) = ranges[i];
        let (a, b) = if trim {
            trim_range(&v, from, to)
        } else {
            (from, to)
        };
        proof {
            assert(pieces.take(i + 1).drop_last() =~= pieces.take(i as int));
            assert(pieces.take(i + 1).last() == v@.subrange(from as int, to as int));
        }
        if !(skip_empty && a == b) {
            let mut token = String::new();
            push_range(&mut token, &v, a, b);
            let ghost before = texts(tokens@);
            tokens.push(token);
            proof {
                assert(token@ =~= v@.subrange(a as int, b as int));
                assert(texts(tokens@) =~= before.push(token@));
            }
        }
        i += 1;
    }
    assert(pieces.take(ranges.len() as int) =~= pieces);
    tokens
}

/// The lines one after the other, each followed by `\n`.
pub open spec fn lines_with_breaks(lines: Seq<Seq<char>>) -> Seq<char>
    decreases lines.len(),
{
    if lines.len() == 0 {
        Seq::empty()
    } else {
        lines_with_breaks(lines.drop_last()) + lines.last() + seq!['\n']
    }
}

/// What `trim_lines` makes of a text.
pub open spec fn trimmed_text(s: Seq<char>) -> Seq<char> {
    trim(lines_with_breaks(tokens_by(s, seq!['\n'], NO_LIMIT, true, true)))
}

/// The text cut at every `\n`, each piece trimmed of white space, the empty
/// pieces left out, the others each followed by `\n` and put together, and
/// the whole trimmed of white space.
pub fn trim_lines(lines: String) -> (trimmed: String)
    ensures
        trimmed@ == trimmed_text(lines@),
{
    proof {
        reveal_strlit("\n");
        assert("\n"@ =~= seq!['\n']);
    }
    let tokens = tokenize_by(lines.as_str(), "\n", NO_LIMIT, true, true);
    let mut text = String::new();
    let mut i: usize = 0;
    while i < tokens.len()
        invariant
            i <= tokens.len(),
            "\n"@ == seq!['\n'],
            text@ == lines_with_breaks(texts(tokens@).take(i as int)),
        decreases tokens.len() - i,
    {
        text.append(tokens[i].as_str());
        text.append("\n");
        i += 1;
        proof {
            assert(texts(tokens@).take(i as int).drop_last() =~= texts(tokens@).take(i - 1));
        }
    }
    assert(texts(tokens@).take(tokens.len() as int) =~= texts(tokens@));
    let v = chars_of(text.as_str());
    let (a, b) = trim_range(&v, 0, v.len());
    assert(v@.subrange(0, v@.len() as int) =~= v@);
    let mut trimmed = String::new();
    push_range(&mut trimmed, &v, a, b);
    assert(trimmed@ =~= v@.subrange(a as int, b as int));
    trimmed
}

/// Whether two lists of parts hold the same texts in the same order.
pub(crate) fn same_parts(
    v: &Vec<char>,
    ranges: &Vec<(usize, usize)>,
    w: &Vec<char>,
    others: &Vec<(usize, usize)>,
) -> (same: bool)
    requires
        ranges_fit(ranges@, v@.len()),
        ranges_fit(others@, w@.len()),
    ensures
        same == (parts(v@, ranges@) == parts(w@, others@)),
{
    if ranges.len() != others.len() {
        assert(parts(v@, ranges@).len() != parts(w@, others@).len());
        return false;
    }
    let mut i: usize = 0;
    while i < ranges.len()
        invariant
            i <= ranges.len(),
            ranges.len() == others.len(),
            ranges_fit(ranges@, v@.len()),
            ranges_fit(others@, w@.len()),
            forall|k: int| 0 <= k < i ==> parts(v@, ranges@)[k] == parts(w@, others@)[k],
        decreases ranges.len() - i,
    {
        let (a, b) = ranges[i];
        let (c, d) = others[i];
        let ghost left = v@.subrange(a as int, b as int);
        let ghost right = w@.subrange(c as int, d as int);
        assert(parts(v@, ranges@)[i as int] == left);
        assert(parts(w@, others@)[i as int] == right);
        if b - a != d - c {
            assert(left.len() != right.len());
            return false;
        }
        let mut k: usize = 0;
        while k < b - a
            invariant
                k <= b - a,
                b - a == d - c,
                a <= b <= v.len(),
                c <= d <= w.len(),
                left == v@.subrange(a as int, b as int),
                right == w@.subrange(c as int, d as int),
                i < ranges.len() == others.len(),
                parts(v@, ranges@)[i as int] == left,
                parts(w@, others@)[i as int] == right,
                forall|j: int| 0 <= j < k ==> left[j] == right[j],
            decreases b - a - k,
        {
            if v[a + k] != w[c + k] {
                assert(left[k as int] != right[k as int]);
                return false;
            }
            k += 1;
        }
        assert(left =~= right);
        i += 1;
    }
    assert(parts(v@, ranges@) =~= parts(w@, others@));
    true
}

/// Some line of `lines`, trimmed, has the same words as `s`.
pub open spec fn some_line_reads(lines: Seq<char>, s: Seq<char>) -> bool {
    exists|i: int|
        0 <= i < lines_of(lines).len() && words(trim(#[trigger] lines_of(lines)[i])) == words(s)
}

/// Whether some line of `lines` reads as `s` does, white space aside: has
/// the same words in the same order.
pub fn lines_check_string_exists(lines: &str, s: &str) -> (found: bool)
    ensures
        found == some_line_reads(lines@, s@),
{
    let v = chars_of(lines);
    let ranges = line_ranges(&v);
    let w = chars_of(s);
    let s_tokens = word_ranges(&w);
    let mut i: usize = 0;
    while i < ranges.len()
        invariant
            i <= ranges.len(),
            v@ == lines@,
            w@ == s@,
            ranges_fit(ranges@, v@.len()),
            parts(v@, ranges@) == lines_of(v@),
            ranges_fit(s_tokens@, w@.len()),
            parts(w@, s_tokens@) == words(w@),
            forall|k: int| 0 <= k < i ==> words(trim(#[trigger] lines_of(lines@)[k])) != words(s@),
        decreases ranges.len() - i,
    {
        let (from, to) = ranges[i];
        let (a, b) = trim_range(&v, from, to);
        let mut line: Vec<char> = Vec::new();
        let mut k: usize = a;
        while k < b
            invariant
                a <= k <= b <= v.len(),
                line@ == v@.subrange(a as int, k as int),
            decreases b - k,
        {
            line.push(v[k]);
            k += 1;
            assert(line@ =~= v@.subrange(a as int, k as int));
        }
        let iline_tokens = word_ranges(&line);
        assert(lines_of(lines@)[i as int] == v@.subrange(from as int, to as int));
        if same_parts(&line, &iline_tokens, &w, &s_tokens) {
            return true;
        }
        i += 1;
    }
    false
}

/// Where `token` first stands in `s`, counted in bytes of UTF-8 from the
/// start, or -1 if it stands nowhere.
pub open spec fn position_of(s: Seq<char>, token: Seq<char>) -> int {
    let at = first_match(s, token);
    if at < 0 {
        -1
    } else {
        utf8_len(s.take(at)) as int
    }
}

/// How many bytes the UTF-8 form of `c` takes.
pub fn width_of(c: char) -> (width: usize)
    ensures
        width == utf8_width(c),
{
    let code = c as u32;
    if code < 0x80 {
        1
    } else if code < 0x800 {
        2
    } else if code < 0x10000 {
        3
    } else {
        4
    }
}

/// A longer front takes no fewer bytes.
pub proof fn lemma_utf8_len_grows(s: Seq<char>, k: int)
    requires
        0 <= k <= s.len(),
    ensures
        utf8_len(s.take(k)) <= utf8_len(s),
    decreases s.len() - k,
{
    if k == s.len() {
        assert(s.take(k) =~= s);
    } else {
        assert(s.drop_last().take(k) =~= s.take(k));
        lemma_utf8_len_grows(s.drop_last(), k);
    }
}

/// For each token the place where it first stands in `s`, counted in bytes
/// from the start, or -1 for a token that stands nowhere in `s`.
pub fn tokens_position(s: &str, tokens: &Vec<&str>) -> (positions: TextMap<isize>)
    requires
        utf8_len(s@) <= isize::MAX,
    ensures
        forall|k: Seq<char>| positions@.dom().contains(k) <==> strs(tokens@).contains(k),
        forall|i: int|
            0 <= i < tokens@.len() ==> positions@[(#[trigger] tokens@[i])@] == position_of(
                s@,
                tokens@[i]@,
            ),
{
    let v = chars_of(s);
    let mut positions: TextMap<isize> = TextMap::new();
    let mut i: usize = 0;
    while i < tokens.len()
        invariant
            i <= tokens.len(),
            v@ == s@,
            utf8_len(s@) <= isize::MAX,
            forall|k: Seq<char>|
                positions@.dom().contains(k) <==> strs(tokens@).take(i as int).contains(k),
            forall|j: int|
                0 <= j < i ==> positions@[(#[trigger] tokens@[j])@] == position_of(
                    s@,
                    tokens@[j]@,
                ),
        decreases tokens.len() - i,
    {
        let itoken = tokens[i];
        let pat = chars_of(itoken);
        assert(v@.skip(0) =~= v@);
        let position: isize = match find_from(&v, &pat, 0) {
            Some(at) => {
                let mut bytes: usize = 0;
                let mut k: usize = 0;
                while k < at
                    invariant
                        k <= at <= v.len(),
                        bytes == utf8_len(v@.take(k as int)),
                        utf8_len(v@) <= isize::MAX,
                    decreases at - k,
                {
                    proof {
                        assert(v@.take(k + 1).drop_last() =~= v@.take(k as int));
                        lemma_utf8_len_grows(v@, k + 1);
                    }
                    bytes += width_of(v[k]);
                    k += 1;
                }
                proof {
                    lemma_utf8_len_grows(v@, at as int);
                }
                bytes as isize
            },
            None => -1,
        };
        let ghost done = strs(tokens@).take(i as int);
        positions.insert(itoken.to_owned(), position);
        i += 1;
        proof {
            let now = strs(tokens@).take(i as int);
            assert(now =~= done.push(itoken@));
            assert forall|k: Seq<char>| positions@.dom().contains(k) <==> now.contains(k) by {
                if k == itoken@ {
                    assert(now[i - 1] == k);
                } else {
                    if done.contains(k) {
                        let j = choose|j: int| 0 <= j < done.len() && done[j] == k;
                        assert(now[j] == k);
                    }
                    if now.contains(k) {
                        let j = choose|j: int| 0 <= j < now.len() && now[j] == k;
                        assert(done[j] == k);
                    }
                }
            }
            assert forall|j: int| 0 <= j < i implies positions@[(#[trigger] tokens@[j])@]
                == position_of(s@, tokens@[j]@) by {
                if tokens@[j]@ != itoken@ {
                    assert(j < i - 1);
                }
            }
        }
    }
    assert(strs(tokens@).take(tokens.len() as int) =~= strs(tokens@));
    positions
}

/// A decimal digit.
pub open spec fn is_digit(c: char) -> bool {
    '0' <= c && c <= '9'
}

/// Every character is a decimal digit.
pub open spec fn all_digits(s: Seq<char>) -> bool {
    forall|i: int| 0 <= i < s.len() ==> is_digit(#[trigger] s[i])
}

/// The number that a run of decimal digits spells.
pub open spec fn digits_value(s: Seq<char>) -> int
    decreases s.len(),
{
    if s.len() == 0 {
        0
    } else {
        digits_value(s.drop_last()) * 10 + (s.last() as u32 - '0' as u32)
    }
}

/// The whole number that `s` spells in decimal digits, with `+` or `-` in
/// front or without a sign; none if `s` is not of that form.
pub open spec fn number_of(s: Seq<char>) -> Option<int> {
    if s.len() == 0 {
        None
    } else if s[0] == '-' {
        if s.len() > 1 && all_digits(s.skip(1)) {
            Some(-digits_value(s.skip(1)))
        } else {
            None
        }
    } else if s[0] == '+' {
        if s.len() > 1 && all_digits(s.skip(1)) {
            Some(digits_value(s.skip(1)))
        } else {
            None
        }
    } else if all_digits(s) {
        Some(digits_value(s))
    } else {
        None
    }
}

/// The number that `s` spells, if it spells one that fits in 128 bits with
/// a sign.
pub open spec fn i128_of(s: Seq<char>) -> Option<i128> {
    match number_of(s) {
        Some(value) => if i128::MIN <= value <= i128::MAX {
            Some(value as i128)
        } else {
            None
        },
        None => None,
    }
}

/// More digits spell no smaller number.
pub proof fn lemma_digits_grow(s: Seq<char>, k: int)
    requires
        0 <= k <= s.len(),
        all_digits(s),
    ensures
        0 <= digits_value(s.take(k)) <= digits_value(s),
    decreases s.len() - k,
{
    if k == s.len() {
        assert(s.take(k) =~= s);
        lemma_digits_positive(s);
    } else {
        let t = s.drop_last();
        assert(t.take(k) =~= s.take(k));
        assert forall|i: int| 0 <= i < t.len() implies is_digit(#[trigger] t[i]) by {
            assert(t[i] == s[i]);
        }
        lemma_digits_grow(t, k);
        assert(is_digit(s[s.len() - 1]));
    }
}

/// Digits spell no negative number.
pub proof fn lemma_digits_positive(s: Seq<char>)
    requires
        all_digits(s),
    ensures
        0 <= digits_value(s),
    decreases s.len(),
{
    if s.len() > 0 {
        let t = s.drop_last();
        assert forall|i: int| 0 <= i < t.len() implies is_digit(#[trigger] t[i]) by {
            assert(t[i] == s[i]);
        }
        lemma_digits_positive(t);
        assert(is_digit(s[s.len() - 1]));
    }
}

/// The whole number that `s` spells: decimal digits, with `+` or `-` in
/// front or without a sign, and nothing else. A text of another form, or a
/// number that does not fit, is refused.
pub fn _string_to_i128(s: &str) -> (res: Result<i128, ValueError>)
    ensures
        match res {
            Ok(value) => i128_of(s@) == Some(value),
            Err(e) => i128_of(s@) is None && e@ == ValueErrorView::NoInteger(s@),
        },
{
    let v = chars_of(s);
    if v.len() == 0 {
        return Err(ValueError::NoInteger(s.to_owned()));
    }
    let negative = v[0] == '-';
    let start: usize = if v[0] == '-' || v[0] == '+' {
        1
    } else {
        0
    };
    if start == v.len() {
        return Err(ValueError::NoInteger(s.to_owned()));
    }
    let ghost digits = v@.skip(start as int);
    let mut value: i128 = 0;
    let mut i: usize = start;
    while i < v.len()
        invariant
            start <= i <= v.len(),
            v@ == s@,
            start < v.len(),
            start == 0 || start == 1,
            start == 1 <==> (v@[0] == '-' || v@[0] == '+'),
            negative == (v@[0] == '-'),
            digits == v@.skip(start as int),
            all_digits(digits.take(i - start)),
            value == if negative {
                -digits_value(digits.take(i - start))
            } else {
                digits_value(digits.take(i - start))
            },
        decreases v.len() - i,
    {
        let c = v[i];
        let ghost done = digits.take(i - start);
        let ghost next = digits.take(i + 1 - start);
        proof {
            assert(next.drop_last() =~= done);
            assert(next.last() == c);
            lemma_digits_positive(done);
        }
        if !(c >= '0' && c <= '9') {
            proof {
                assert(!is_digit(digits[i - start]));
                if start == 0 {
                    assert(digits =~= v@);
                }
            }
            return Err(ValueError::NoInteger(s.to_owned()));
        }
        let digit: i128 = (c as u32 - '0' as u32) as i128;
        let scaled = value.checked_mul(10);
        let grown = match scaled {
            Some(m) => if negative {
                m.checked_sub(digit)
            } else {
                m.checked_add(digit)
            },
            None => None,
        };
        match grown {
            Some(g) => {
                proof {
                    assert forall|k: int| 0 <= k < next.len() implies is_digit(
                        #[trigger] next[k],
                    ) by {
                        if k < done.len() {
                            assert(next[k] == done[k]);
                        }
                    }
                }
                value = g;
            },
            None => {
                proof {
                    if start == 0 {
                        assert(digits =~= v@);
                    }
                    if all_digits(digits) {
                        lemma_digits_grow(digits, i + 1 - start);
                    }
                }
                return Err(ValueError::NoInteger(s.to_owned()));
            },
        }
        i += 1;
    }
    proof {
        assert(digits.take(v.len() - start) =~= digits);
        if start == 0 {
            assert(digits =~= v@);
        }
    }
    Ok(value)
}

} // verus!
