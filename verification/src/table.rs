//! Tables of text in columns, as command-line tools print them: a line of
//! labels, then one line per row, each value under its label.

use crate::arg_parser::{lemma_text_values_insert, text_values};
use crate::search::{find_from, lemma_first_match, parts, ranges_fit, stands_at};
use crate::string_utils::{line_ranges, lines_of, position_of};
use crate::text::{
    char_is_whitespace, chars_of, is_whitespace, lemma_trim_end_at, push_range, string_of, texts,
    trim, trim_end, trim_range, utf8_len, utf8_width, word_ranges, words,
};
use crate::text_map::TextMap;
use vstd::prelude::*;

verus! {

/// The index of the character of `s` before which `offset` bytes of UTF-8
/// stand, or -1 if `offset` falls inside a character or beyond the end.
pub open spec fn char_place(s: Seq<char>, offset: int) -> int
    decreases s.len(),
{
    if offset == 0 {
        0
    } else if s.len() == 0 || offset < 0 {
        -1
    } else {
        let rest = char_place(s.drop_first(), offset - utf8_width(s[0]));
        if rest < 0 {
            -1
        } else {
            rest + 1
        }
    }
}

/// A place is no further than the end.
pub proof fn lemma_char_place(s: Seq<char>, offset: int)
    ensures
        -1 <= char_place(s, offset) <= s.len(),
    decreases s.len(),
{
    if offset != 0 && s.len() > 0 && offset > 0 {
        lemma_char_place(s.drop_first(), offset - utf8_width(s[0]));
    }
}

/// `count` blanks.
pub open spec fn blanks(count: int) -> Seq<char> {
    Seq::new(
        if count > 0 {
            count as nat
        } else {
            0
        },
        |i: int| ' ',
    )
}

/// The line with the default in the place of a missing value: if the
/// character at index `place` is a blank, the bytes from byte `place` on, as
/// many as the default has, give way to the default. None if the line has no
/// character at that index, or if those bytes do not begin and end between
/// characters of the line.
pub open spec fn with_default(line: Seq<char>, place: int, default: Seq<char>) -> Option<
    Seq<char>,
> {
    if !(0 <= place < line.len()) {
        None
    } else if line[place] != ' ' {
        Some(line)
    } else {
        let from = char_place(line, place);
        let to = char_place(line, place + utf8_len(default));
        if from < 0 || to < 0 || from > to || to > line.len() {
            None
        } else {
            Some(line.take(from) + default + line.skip(to))
        }
    }
}

/// The line after the default came in at each of the places in turn.
pub open spec fn with_defaults(line: Seq<char>, places: Seq<int>, default: Seq<char>) -> Option<
    Seq<char>,
>
    decreases places.len(),
{
    if places.len() == 0 {
        Some(line)
    } else {
        match with_defaults(line, places.drop_last(), default) {
            Some(filled) => with_default(filled, places.last(), default),
            None => None,
        }
    }
}

/// The first `count` labels, each with the word of the same rank, trimmed;
/// a label that comes again takes the later word.
pub open spec fn row_map(labels: Seq<Seq<char>>, values: Seq<Seq<char>>, count: nat) -> Map<
    Seq<char>,
    Seq<char>,
>
    decreases count,
{
    if count == 0 {
        Map::empty()
    } else {
        row_map(labels, values, (count - 1) as nat).insert(
            labels[count - 1],
            trim(values[count - 1]),
        )
    }
}

/// The byte at which each label first stands in the header.
pub open spec fn places_of(header: Seq<char>, labels: Seq<Seq<char>>) -> Seq<int> {
    Seq::new(labels.len(), |i: int| position_of(header, labels[i]))
}

/// The row that a line of the table holds: the line without the white space
/// at its end, filled with blanks to the header's length in bytes, the
/// default put where a value is missing under a label, and then the words of
/// the line given to the labels in order. None if the line is longer than
/// the header, if a default does not fit, or if words are wanting.
pub open spec fn row_of(line: Seq<char>, header: Seq<char>, default: Seq<char>) -> Option<
    Map<Seq<char>, Seq<char>>,
> {
    let labels = words(header);
    let short = trim_end(line);
    if utf8_len(short) > utf8_len(header) {
        None
    } else {
        let padded = short + blanks(utf8_len(header) - utf8_len(short));
        match with_defaults(padded, places_of(header, labels), default) {
            Some(filled) => if words(filled).len() < labels.len() {
                None
            } else {
                Some(row_map(labels, words(filled), labels.len()))
            },
            None => None,
        }
    }
}

/// The rows of the lines, if every line holds one.
pub open spec fn rows_of(lines: Seq<Seq<char>>, header: Seq<char>, default: Seq<char>) -> Option<
    Seq<Map<Seq<char>, Seq<char>>>,
>
    decreases lines.len(),
{
    if lines.len() == 0 {
        Some(Seq::empty())
    } else {
        match (rows_of(lines.drop_last(), header, default), row_of(lines.last(), header, default)) {
            (Some(rows), Some(row)) => Some(rows.push(row)),
            _ => None,
        }
    }
}

/// The rows of a table: its first line, without the white space at its end,
/// is the header, and every other line is a row. None if there is no line
/// at all or some line holds no row.
pub open spec fn table_of(input: Seq<char>, default: Seq<char>) -> Option<
    Seq<Map<Seq<char>, Seq<char>>>,
> {
    let lines = lines_of(input);
    if lines.len() == 0 {
        None
    } else {
        rows_of(lines.skip(1), trim_end(lines[0]), default)
    }
}

/// The rows as maps of texts.
pub open spec fn rows_view(rows: Seq<TextMap<String>>) -> Seq<Map<Seq<char>, Seq<char>>> {
    Seq::new(rows.len(), |i: int| text_values(rows[i]@))
}

/// Where the white space at the end of `v[from..to]` begins.
pub(crate) fn trim_end_range(v: &Vec<char>, from: usize, to: usize) -> (end: usize)
    requires
        from <= to <= v.len(),
    ensures
        from <= end <= to,
        v@.subrange(from as int, end as int) == trim_end(v@.subrange(from as int, to as int)),
{
    let ghost part = v@.subrange(from as int, to as int);
    let mut b: usize = to;
    while b > from && is_whitespace(v[b - 1])
        invariant
            from <= b <= to <= v.len(),
            part == v@.subrange(from as int, to as int),
            forall|i: int| b - from <= i < part.len() ==> char_is_whitespace(#[trigger] part[i]),
        decreases b,
    {
        b -= 1;
    }
    proof {
        lemma_trim_end_at(part, b - from);
        assert(part.take(b - from) =~= v@.subrange(from as int, b as int));
    }
    b
}

/// A copy of `v[from..to]`.
pub(crate) fn copy_range(v: &Vec<char>, from: usize, to: usize) -> (copy: Vec<char>)
    requires
        from <= to <= v.len(),
    ensures
        copy@ == v@.subrange(from as int, to as int),
{
    let mut copy: Vec<char> = Vec::new();
    let mut i: usize = from;
    while i < to
        invariant
            from <= i <= to <= v.len(),
            copy@ == v@.subrange(from as int, i as int),
        decreases to - i,
    {
        copy.push(v[i]);
        i += 1;
        assert(copy@ =~= v@.subrange(from as int, i as int));
    }
    copy
}

/// How many bytes the UTF-8 form of the first `upto` characters takes.
pub(crate) fn bytes_before(v: &Vec<char>, upto: usize) -> (bytes: u128)
    requires
        upto <= v.len(),
    ensures
        bytes == utf8_len(v@.take(upto as int)),
        bytes <= 4 * upto,
{
    let mut bytes: u128 = 0;
    let mut i: usize = 0;
    while i < upto
        invariant
            i <= upto <= v.len(),
            bytes == utf8_len(v@.take(i as int)),
            bytes <= 4 * i,
        decreases upto - i,
    {
        proof {
            assert(v@.take(i + 1).drop_last() =~= v@.take(i as int));
        }
        let code = v[i] as u32;
        let width: u128 = if code < 0x80 {
            1
        } else if code < 0x800 {
            2
        } else if code < 0x10000 {
            3
        } else {
            4
        };
        bytes += width;
        i += 1;
    }
    bytes
}

/// The index of the character before which `offset` bytes stand, if the
/// offset falls between characters or at an end.
pub fn place_at(v: &Vec<char>, offset: u128) -> (place: Option<usize>)
    ensures
        match place {
            Some(i) => i <= v.len() && i == char_place(v@, offset as int),
            None => char_place(v@, offset as int) == -1,
        },
{
    let mut i: usize = 0;
    let mut left: u128 = offset;
    assert(v@.skip(0) =~= v@);
    loop
        invariant
            i <= v.len(),
            left <= offset,
            char_place(v@, offset as int) == if char_place(v@.skip(i as int), left as int) < 0 {
                -1
            } else {
                i + char_place(v@.skip(i as int), left as int)
            },
        decreases v.len() - i,
    {
        if left == 0 {
            return Some(i);
        }
        if i >= v.len() {
            return None;
        }
        let code = v[i] as u32;
        let width: u128 = if code < 0x80 {
            1
        } else if code < 0x800 {
            2
        } else if code < 0x10000 {
            3
        } else {
            4
        };
        proof {
            let tail = v@.skip(i as int);
            assert(tail[0] == v@[i as int]);
            assert(tail.drop_first() =~= v@.skip(i + 1));
            lemma_char_place(v@.skip(i + 1), left - width);
        }
        if width > left {
            proof {
                lemma_negative_offset(v@.skip(i + 1), left - width);
            }
            return None;
        }
        left -= width;
        i += 1;
    }
}

/// A negative offset is no place.
pub proof fn lemma_negative_offset(s: Seq<char>, offset: int)
    requires
        offset < 0,
    ensures
        char_place(s, offset) == -1,
{
}

/// Puts the default in the place of a missing value, as `with_default`
/// tells.
pub(crate) fn fill_default(line: Vec<char>, place: u128, default: &Vec<char>, default_bytes: u128) -> (res:
    Option<Vec<char>>)
    requires
        default_bytes == utf8_len(default@),
        place + default_bytes <= u128::MAX,
    ensures
        match with_default(line@, place as int, default@) {
            Some(filled) => res matches Some(v) && v@ == filled,
            None => res is None,
        },
{
    if place >= line.len() as u128 {
        return None;
    }
    let at = place as usize;
    if line[at] != ' ' {
        return Some(line);
    }
    let from = match place_at(&line, place) {
        Some(from) => from,
        None => {
            return None;
        },
    };
    let to = match place_at(&line, place + default_bytes) {
        Some(to) => to,
        None => {
            return None;
        },
    };
    if from > to {
        return None;
    }
    let mut filled = copy_range(&line, 0, from);
    let mut i: usize = 0;
    while i < default.len()
        invariant
            i <= default.len(),
            filled@ == line@.take(from as int) + default@.take(i as int),
        decreases default.len() - i,
    {
        filled.push(default[i]);
        i += 1;
        assert(filled@ =~= line@.take(from as int) + default@.take(i as int));
    }
    assert(default@.take(default.len() as int) =~= default@);
    let mut k: usize = to;
    while k < line.len()
        invariant
            to <= k <= line.len(),
            filled@ == line@.take(from as int) + default@ + line@.subrange(to as int, k as int),
        decreases line.len() - k,
    {
        filled.push(line[k]);
        k += 1;
        assert(filled@ =~= line@.take(from as int) + default@ + line@.subrange(
            to as int,
            k as int,
        ));
    }
    assert(line@.subrange(to as int, line@.len() as int) =~= line@.skip(to as int));
    Some(filled)
}

/// The labels of a header, each with the byte at which it first stands.
pub fn header_labels(header: &Vec<char>) -> (res: (Vec<String>, Vec<u128>))
    ensures
        texts(res.0@) == words(header@),
        res.1@.len() == res.0@.len(),
        forall|i: int|
            0 <= i < res.1@.len() ==> (#[trigger] res.1@[i]) as int == position_of(
                header@,
                words(header@)[i],
            ) && res.1@[i] <= 4 * header@.len(),
{
    let ranges = word_ranges(header);
    let mut labels: Vec<String> = Vec::new();
    let mut places: Vec<u128> = Vec::new();
    let mut i: usize = 0;
    assert(header@.skip(0) =~= header@);
    while i < ranges.len()
        invariant
            i <= ranges.len(),
            header@.skip(0) == header@,
            ranges_fit(ranges@, header@.len()),
            parts(header@, ranges@) == words(header@),
            texts(labels@) == words(header@).take(i as int),
            places@.len() == i,
            forall|k: int|
                0 <= k < i ==> (#[trigger] places@[k]) as int == position_of(
                    header@,
                    words(header@)[k],
                ) && places@[k] <= 4 * header@.len(),
        decreases ranges.len() - i,
    {
        let (a, b) = ranges[i];
        let label = copy_range(header, a, b);
        proof {
            assert(parts(header@, ranges@)[i as int] == label@);
            assert(stands_at(header@, label@, a as int));
            lemma_first_match(header@, label@);
        }
        let at = match find_from(header, &label, 0) {
            Some(at) => at,
            None => {
                assert(false);
                0
            },
        };
        let place = bytes_before(header, at);
        let text = string_of(&label);
        let ghost before = texts(labels@);
        labels.push(text);
        places.push(place);
        i += 1;
        proof {
            assert(texts(labels@) =~= before.push(label@));
            assert(texts(labels@) =~= words(header@).take(i as int));
        }
    }
    assert(words(header@).take(ranges.len() as int) =~= words(header@));
    (labels, places)
}

/// The row that a line holds, as `row_of` tells.
pub(crate) fn table_row(
    line: &Vec<char>,
    from: usize,
    to: usize,
    header: &Vec<char>,
    labels: &Vec<String>,
    places: &Vec<u128>,
    default: &Vec<char>,
) -> (res: Option<TextMap<String>>)
    requires
        from <= to <= line.len(),
        texts(labels@) == words(header@),
        places@.len() == labels@.len(),
        forall|i: int|
            0 <= i < places@.len() ==> (#[trigger] places@[i]) as int == position_of(
                header@,
                words(header@)[i],
            ) && places@[i] <= 4 * header@.len(),
    ensures
        match row_of(line@.subrange(from as int, to as int), header@, default@) {
            Some(row) => res matches Some(map) && text_values(map@) == row,
            None => res is None,
        },
{
    let ghost raw = line@.subrange(from as int, to as int);
    let ghost names = words(header@);
    let ghost at = places_of(header@, names);
    let end = trim_end_range(line, from, to);
    let mut iline_copy = copy_range(line, from, end);
    let header_bytes = bytes_before(header, header.len());
    let line_bytes = bytes_before(&iline_copy, iline_copy.len());
    let default_bytes = bytes_before(default, default.len());
    proof {
        assert(header@.take(header@.len() as int) =~= header@);
        assert(iline_copy@.take(iline_copy@.len() as int) =~= iline_copy@);
        assert(default@.take(default@.len() as int) =~= default@);
    }
    if line_bytes > header_bytes {
        return None;
    }
    let spaces_needed = header_bytes - line_bytes;
    let ghost short = iline_copy@;
    let mut n: u128 = 0;
    while n < spaces_needed
        invariant
            n <= spaces_needed,
            iline_copy@ == short + blanks(n as int),
        decreases spaces_needed - n,
    {
        iline_copy.push(' ');
        n += 1;
        assert(iline_copy@ =~= short + blanks(n as int));
    }
    assert(short + blanks(0) =~= short);
    let ghost padded = iline_copy@;
    let mut j: usize = 0;
    assert(at.take(0) =~= Seq::<int>::empty());
    while j < places.len()
        invariant
            j <= places.len() == at.len(),
            at == places_of(header@, names),
            names == words(header@),
            default_bytes == utf8_len(default@),
            default_bytes <= 4 * default@.len(),
            forall|i: int|
                0 <= i < places@.len() ==> (#[trigger] places@[i]) as int == position_of(
                    header@,
                    words(header@)[i],
                ) && places@[i] <= 4 * header@.len(),
            with_defaults(padded, at.take(j as int), default@) == Some(iline_copy@),
            raw == line@.subrange(from as int, to as int),
            utf8_len(trim_end(raw)) <= utf8_len(header@),
            padded == trim_end(raw) + blanks(utf8_len(header@) - utf8_len(trim_end(raw))),
        decreases places.len() - j,
    {
        proof {
            assert(at.take(j + 1).drop_last() =~= at.take(j as int));
            assert(at.take(j + 1).last() == places@[j as int] as int);
            assert(places@[j as int] <= 4 * header@.len());
            assert(header@.len() == header.len());
            assert(default@.len() == default.len());
        }
        match fill_default(iline_copy, places[j], default, default_bytes) {
            Some(filled) => {
                iline_copy = filled;
            },
            None => {
                proof {
                    lemma_defaults_fail(padded, at, j + 1, default@);
                }
                return None;
            },
        }
        j += 1;
    }
    assert(at.take(places.len() as int) =~= at);
    let ghost filled = iline_copy@;
    let iline_copy_splitted = word_ranges(&iline_copy);
    if iline_copy_splitted.len() < labels.len() {
        return None;
    }
    let mut line_hash: TextMap<String> = TextMap::new();
    let mut index: usize = 0;
    assert(text_values(line_hash@) =~= Map::<Seq<char>, Seq<char>>::empty());
    while index < labels.len()
        invariant
            index <= labels.len() <= iline_copy_splitted.len(),
            iline_copy@ == filled,
            names == texts(labels@),
            ranges_fit(iline_copy_splitted@, filled.len()),
            parts(filled, iline_copy_splitted@) == words(filled),
            text_values(line_hash@) == row_map(names, words(filled), index as nat),
        decreases labels.len() - index,
    {
        let (a, b) = iline_copy_splitted[index];
        let (ta, tb) = trim_range(&iline_copy, a, b);
        let mut value = String::new();
        push_range(&mut value, &iline_copy, ta, tb);
        proof {
            assert(parts(filled, iline_copy_splitted@)[index as int] == filled.subrange(
                a as int,
                b as int,
            ));
            assert(value@ =~= trim(words(filled)[index as int]));
            assert(names[index as int] == labels@[index as int]@);
            lemma_text_values_insert(line_hash@, labels@[index as int]@, value);
        }
        line_hash.insert(labels[index].clone(), value);
        index += 1;
    }
    Some(line_hash)
}

/// Once a default does not fit, no later one mends it.
pub proof fn lemma_defaults_fail(line: Seq<char>, places: Seq<int>, upto: int, default: Seq<char>)
    requires
        0 <= upto <= places.len(),
        with_defaults(line, places.take(upto), default) is None,
    ensures
        with_defaults(line, places, default) is None,
    decreases places.len() - upto,
{
    if upto == places.len() {
        assert(places.take(upto) =~= places);
    } else {
        assert(places.take(upto + 1).drop_last() =~= places.take(upto));
        lemma_defaults_fail(line, places, upto + 1, default);
    }
}

/// Once a line holds no row, the table has none.
pub proof fn lemma_rows_fail(
    lines: Seq<Seq<char>>,
    upto: int,
    header: Seq<char>,
    default: Seq<char>,
)
    requires
        0 <= upto <= lines.len(),
        rows_of(lines.take(upto), header, default) is None,
    ensures
        rows_of(lines, header, default) is None,
    decreases lines.len() - upto,
{
    if upto == lines.len() {
        assert(lines.take(upto) =~= lines);
    } else {
        assert(lines.take(upto + 1).drop_last() =~= lines.take(upto));
        lemma_rows_fail(lines, upto + 1, header, default);
    }
}

/// Reads a table: the first line of `input` holds the labels of the
/// columns, and every other line holds a row, each value under its label. A
/// value that is missing under a label counts as `default`. The result has
/// one map per row, from the labels to the values. There is none if `input`
/// has no line at all, if a line is longer than the header, if the default
/// does not fit in the place of a missing value, or if a line is left with
/// fewer words than there are labels.
pub fn table_to_hashmap(input: &str, default: &str) -> (res: Option<Vec<TextMap<String>>>)
    ensures
        match table_of(input@, default@) {
            Some(rows) => res matches Some(list) && rows_view(list@) == rows,
            None => res is None,
        },
{
    let v = chars_of(input);
    let lines = line_ranges(&v);
    if lines.len() == 0 {
        return None;
    }
    let (header_from, header_to) = lines[0];
    let header_end = trim_end_range(&v, header_from, header_to);
    let header = copy_range(&v, header_from, header_end);
    let (header_tokens, header_tokens_pos) = header_labels(&header);
    let default_chars = chars_of(default);
    let ghost all = lines_of(input@);
    let ghost others = all.skip(1);
    let mut result: Vec<TextMap<String>> = Vec::new();
    let mut i: usize = 1;
    proof {
        assert(all[0] == v@.subrange(header_from as int, header_to as int));
        assert(others.take(0) =~= Seq::<Seq<char>>::empty());
        assert(rows_view(result@) =~= Seq::<Map<Seq<char>, Seq<char>>>::empty());
    }
    while i < lines.len()
        invariant
            1 <= i <= lines.len(),
            v@ == input@,
            default_chars@ == default@,
            all == lines_of(input@),
            others == all.skip(1),
            ranges_fit(lines@, v@.len()),
            parts(v@, lines@) == all,
            header@ == trim_end(all[0]),
            texts(header_tokens@) == words(header@),
            header_tokens_pos@.len() == header_tokens@.len(),
            forall|k: int|
                0 <= k < header_tokens_pos@.len() ==> (#[trigger] header_tokens_pos@[k]) as int
                    == position_of(header@, words(header@)[k]) && header_tokens_pos@[k] <= 4
                    * header@.len(),
            rows_of(others.take(i - 1), header@, default@) == Some(rows_view(result@)),
        decreases lines.len() - i,
    {
        let (from, to) = lines[i];
        proof {
            assert(others.take(i as int).drop_last() =~= others.take(i - 1));
            assert(others.take(i as int).last() == all[i as int]);
            assert(all[i as int] == v@.subrange(from as int, to as int));
        }
        match table_row(&v, from, to, &header, &header_tokens, &header_tokens_pos, &default_chars) {
            Some(line_hash) => {
                let ghost before = rows_view(result@);
                result.push(line_hash);
                assert(rows_view(result@) =~= before.push(text_values(line_hash@)));
            },
            None => {
                proof {
                    lemma_rows_fail(others, i as int, header@, default@);
                }
                return None;
            },
        }
        i += 1;
    }
    assert(others.take(lines.len() - 1) =~= others);
    Some(result)
}

} // verus!
