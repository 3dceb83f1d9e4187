//! The weather table read by line numbers: among the lines of a given
//! range, finds the day on which the highest temperature exceeds the lowest
//! by the least.

use crate::kata4::spec_words;
use crate::kata4::texts;
use crate::kata4::words;
use crate::text::chars_of;
use crate::text::parse_bounded;
use crate::text::spec_parse_bounded;
use vstd::prelude::*;

verus! {

/// The length of the run of characters other than `*` that `s` begins with.
pub open spec fn before_star(s: Seq<char>) -> nat
    decreases s.len(),
{
    if s.len() == 0 || s[0] == '*' {
        0
    } else {
        1 + before_star(s.skip(1))
    }
}

/// The integer that `text` writes in decimal, if it fits an `isize`.
pub open spec fn spec_parse_isize(text: Seq<char>) -> Option<int> {
    spec_parse_bounded(text, isize::MIN as int, isize::MAX as int)
}

/// The integer that `text` writes in decimal without a `-`, if it fits a
/// `usize`.
pub open spec fn spec_parse_usize(text: Seq<char>) -> Option<int> {
    spec_parse_bounded(text, 0, usize::MAX as int)
}

/// The temperature that `s` writes. Where `s` ends in a `*` mark, it is the
/// number before the first `*`; otherwise it is the number that `s` as a
/// whole writes.
pub open spec fn spec_temperature(s: Seq<char>) -> Option<int> {
    if s.len() > 0 && s.last() == '*' {
        spec_parse_isize(s.take(before_star(s) as int))
    } else {
        spec_parse_isize(s)
    }
}

/// The day and the spread of temperature that `line` records: the number
/// in its first column, and the temperature in its second column less that
/// in its third. `None` where the line has fewer than three columns or one
/// of the three cannot be read.
pub open spec fn spec_day(line: Seq<char>) -> Option<(int, int)> {
    let columns = spec_words(line);
    if columns.len() < 3 {
        None
    } else {
        match (
            spec_parse_usize(columns[0]),
            spec_temperature(columns[1]),
            spec_temperature(columns[2]),
        ) {
            (Some(day), Some(max), Some(min)) => Some((day, max - min)),
            _ => None,
        }
    }
}

/// Whether line `i` lies in the range from `line_begin` to `line_end`, both
/// included.
pub open spec fn in_range(lines: Seq<Seq<char>>, line_begin: usize, line_end: usize, i: int) -> bool {
    0 <= i < lines.len() && line_begin <= i <= line_end
}

/// Whether every line of the range records a day, with a spread that is
/// not below `isize::MIN`.
pub open spec fn all_days(lines: Seq<Seq<char>>, line_begin: usize, line_end: usize) -> bool {
    forall|i: int|
        in_range(lines, line_begin, line_end, i) ==> (#[trigger] spec_day(lines[i]) matches Some(
            (_, delta),
        ) && delta >= isize::MIN)
}

/// Whether line `r` is the first line of the range with the smallest
/// spread, and that spread is below `isize::MAX`.
pub open spec fn is_best_day(
    lines: Seq<Seq<char>>,
    line_begin: usize,
    line_end: usize,
    r: int,
) -> bool {
    &&& in_range(lines, line_begin, line_end, r)
    &&& spec_day(lines[r]) matches Some((_, delta))
    &&& delta < isize::MAX
    &&& forall|j: int|
        in_range(lines, line_begin, line_end, j) && j < r ==> (#[trigger] spec_day(
            lines[j],
        ) matches Some((_, other)) ==> other > delta)
    &&& forall|j: int|
        in_range(lines, line_begin, line_end, j) && j > r ==> (#[trigger] spec_day(
            lines[j],
        ) matches Some((_, other)) ==> other >= delta)
}

/// Whether no line of the range has a spread below `isize::MAX`.
pub open spec fn has_no_day(lines: Seq<Seq<char>>, line_begin: usize, line_end: usize) -> bool {
    forall|j: int|
        in_range(lines, line_begin, line_end, j) ==> (#[trigger] spec_day(lines[j]) matches Some(
            (_, other),
        ) ==> other >= isize::MAX)
}

/// Reads a temperature, which may carry `*` marks.
pub fn parse_temperature(s: &str) -> (value: Option<isize>)
    ensures
        value matches Some(v) ==> spec_temperature(s@) == Some(v as int),
        value is None ==> spec_temperature(s@) is None,
{
    let chars = chars_of(s);
    let n = chars.len();
    let text = if n > 0 && chars[n - 1] == '*' {
        let mut end: usize = 0;
        proof {
            assert(s@.skip(0) =~= s@);
        }
        while end < n && chars[end] != '*'
            invariant
                end <= n,
                n == s@.len(),
                chars@ == s@,
                before_star(s@) == end + before_star(s@.skip(end as int)),
            decreases n - end,
        {
            proof {
                assert(s@.skip(end as int).skip(1) =~= s@.skip(end + 1));
            }
            end += 1;
        }
        s.substring_char(0, end)
    } else {
        s
    };
    match parse_bounded(text, isize::MIN as i128, isize::MAX as i128) {
        Some(v) => Some(v as isize),
        None => None,
    }
}

/// Reads the day and the spread of temperature that `line` records.
fn parse_day(line: &str) -> (row: Option<(usize, i128)>)
    ensures
        row matches Some((day, delta)) ==> spec_day(line@) == Some((day as int, delta as int)),
        row is None ==> spec_day(line@) is None,
{
    let columns = words(line);
    proof {
        assert forall|ix: int| 0 <= ix < columns@.len() implies texts(columns@)[ix]
            == columns@[ix]@ by {}
    }
    if columns.len() < 3 {
        return None;
    }
    let day = match parse_bounded(columns[0], 0, usize::MAX as i128) {
        Some(day) => day as usize,
        None => return None,
    };
    let max = match parse_temperature(columns[1]) {
        Some(max) => max,
        None => return None,
    };
    let min = match parse_temperature(columns[2]) {
        Some(min) => min,
        None => return None,
    };
    Some((day, max as i128 - min as i128))
}

/// Finds, among the lines numbered from `line_begin` to `line_end`, the
/// first one with the smallest spread of temperature, and returns that
/// spread and the day. Where no line has a spread below `isize::MAX`,
/// returns `isize::MAX` and day 0. Returns `None` where a line of the range
/// records no day, or a spread below `isize::MIN`.
pub fn parse_weather(lines: &[&str], line_begin: usize, line_end: usize) -> (best: Option<
    (isize, usize),
>)
    ensures
        best is Some <==> all_days(texts(lines@), line_begin, line_end),
        best matches Some((delta, day)) ==> {
            ||| has_no_day(texts(lines@), line_begin, line_end) && delta == isize::MAX && day == 0
            ||| exists|r: int|
                #[trigger] is_best_day(texts(lines@), line_begin, line_end, r) && spec_day(
                    lines@[r]@,
                ) == Some((day as int, delta as int))
        },
{
    let ghost all = texts(lines@);
    let mut min_delta: isize = isize::MAX;
    let mut min_day: usize = 0;
    let ghost mut chosen: Option<int> = None;
    let n = lines.len();
    for i in 0..n
        invariant
            n == lines@.len(),
            all == texts(lines@),
            all_days(all.take(i as int), line_begin, line_end),
            chosen is None ==> has_no_day(all.take(i as int), line_begin, line_end) && min_delta
                == isize::MAX && min_day == 0,
            chosen matches Some(r) ==> is_best_day(all.take(i as int), line_begin, line_end, r)
                && spec_day(all[r]) == Some((min_day as int, min_delta as int)),
    {
        let ghost seen = all.take(i as int);
        let ghost grown = all.take(i + 1);
        proof {
            assert forall|j: int| 0 <= j < i implies grown[j] == seen[j] by {}
        }
        if i >= line_begin && i <= line_end {
            match parse_day(lines[i]) {
                Some((day, delta)) => {
                    if delta < isize::MIN as i128 {
                        proof {
                            assert(all[i as int] == lines@[i as int]@);
                        }
                        return None;
                    }
                    if delta < min_delta as i128 {
                        min_day = day;
                        min_delta = delta as isize;
                        proof {
                            chosen = Some(i as int);
                        }
                    }
                },
                None => {
                    return None;
                },
            }
        }
    }
    proof {
        assert(all.take(n as int) =~= all);
    }
    Some((min_delta, min_day))
}

} // verus!
