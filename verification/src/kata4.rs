//! Data munging: in a table of text, finds the row in which two columns of
//! numbers lie closest together.
//!
//! A row is a line of columns separated by white space. A column may carry
//! trailing `*` marks, which are dropped before it is read. Lines that do
//! not hold the columns asked for, or hold no numbers there, are passed
//! over.

use crate::text::is_whitespace;
use crate::text::parse_bounded;
use crate::text::spec_is_whitespace;
use crate::text::spec_parse_bounded;
use vstd::prelude::*;
use vstd::string::StringExecFns;

pub mod data;

verus! {

/// `s` without its trailing `*` marks.
pub open spec fn spec_trim(s: Seq<char>) -> Seq<char>
    decreases s.len(),
{
    if s.len() > 0 && s.last() == '*' {
        spec_trim(s.drop_last())
    } else {
        s
    }
}

/// The length of the run of characters other than white space that `s`
/// begins with.
pub open spec fn word_len(s: Seq<char>) -> nat
    decreases s.len(),
{
    if s.len() == 0 || spec_is_whitespace(s[0]) {
        0
    } else {
        1 + word_len(s.skip(1))
    }
}

/// The words of `s`: its longest runs of characters other than white space,
/// in order.
pub open spec fn spec_words(s: Seq<char>) -> Seq<Seq<char>>
    decreases s.len(),
    via spec_words_decreases
{
    if s.len() == 0 {
        Seq::empty()
    } else if spec_is_whitespace(s[0]) {
        spec_words(s.skip(1))
    } else {
        seq![s.take(word_len(s) as int)] + spec_words(s.skip(word_len(s) as int))
    }
}

#[via_fn]
proof fn spec_words_decreases(s: Seq<char>) {
    lemma_word_len_bound(s);
}

/// The texts of a sequence of string slices.
pub open spec fn texts(strs: Seq<&str>) -> Seq<Seq<char>> {
    Seq::new(strs.len(), |i: int| strs[i]@)
}

/// A run of characters other than white space is no longer than the text.
proof fn lemma_word_len_bound(s: Seq<char>)
    ensures
        word_len(s) <= s.len(),
    decreases s.len(),
{
    if s.len() > 0 && !spec_is_whitespace(s[0]) {
        lemma_word_len_bound(s.skip(1));
    }
}

/// Drops the trailing `*` marks of `s`.
pub fn trim(s: &str) -> (trimmed: &str)
    ensures
        trimmed@ == spec_trim(s@),
{
    let mut end = s.unicode_len();
    proof {
        assert(s@.take(end as int) =~= s@);
    }
    while end > 0 && s.get_char(end - 1) == '*'
        invariant
            end <= s@.len(),
            spec_trim(s@) == spec_trim(s@.take(end as int)),
        decreases end,
    {
        proof {
            assert(s@.take(end as int).drop_last() =~= s@.take(end - 1));
        }
        end -= 1;
    }
    s.substring_char(0, end)
}

/// Splits `s` into its words: the runs of characters between white space.
pub fn words(s: &str) -> (columns: Vec<&str>)
    ensures
        texts(columns@) == spec_words(s@),
{
    let chars = crate::text::chars_of(s);
    let n = chars.len();
    let mut columns: Vec<&str> = Vec::new();
    let mut pos: usize = 0;
    proof {
        assert(s@.skip(0) =~= s@);
    }
    while pos < n
        invariant
            pos <= n,
            n == s@.len(),
            chars@ == s@,
            texts(columns@) + spec_words(s@.skip(pos as int)) == spec_words(s@),
        decreases n - pos,
    {
        let ghost tail = s@.skip(pos as int);
        if is_whitespace(chars[pos]) {
            proof {
                assert(tail.skip(1) =~= s@.skip(pos + 1));
            }
            pos += 1;
        } else {
            let mut end = pos + 1;
            proof {
                assert(tail.skip(1) =~= s@.skip(pos + 1));
            }
            while end < n && !is_whitespace(chars[end])
                invariant
                    pos < end <= n,
                    n == s@.len(),
                    chars@ == s@,
                    word_len(s@.skip(pos as int)) == (end - pos) + word_len(s@.skip(end as int)),
                decreases n - end,
            {
                proof {
                    assert(s@.skip(end as int).skip(1) =~= s@.skip(end + 1));
                }
                end += 1;
            }
            let ghost before = texts(columns@);
            let word = s.substring_char(pos, end);
            columns.push(word);
            proof {
                assert(tail.take(end - pos) =~= s@.subrange(pos as int, end as int));
                assert(tail.skip(end - pos) =~= s@.skip(end as int));
                assert(before.push(word@) + spec_words(s@.skip(end as int)) =~= before + (seq![
                    word@,
                ] + spec_words(s@.skip(end as int))));
            }
            pos = end;
        }
    }
    columns
}

/// A value that can be read from the text of a column: the key by which a
/// row is known.
pub trait Column: Sized {
    /// Whether `text` writes a value.
    spec fn spec_readable(text: Seq<char>) -> bool;

    /// Whether `value` is the value that `text` writes.
    spec fn spec_reads(text: Seq<char>, value: Self) -> bool;

    /// Reads the value that `text` writes, if it writes one.
    fn read(text: &str) -> (value: Option<Self>)
        ensures
            value is Some <==> Self::spec_readable(text@),
            value matches Some(v) ==> Self::spec_reads(text@, v),
    ;
}

/// The integer that `text` writes in decimal, if it fits an `i32`.
pub open spec fn spec_parse_i32(text: Seq<char>) -> Option<int> {
    spec_parse_bounded(text, i32::MIN as int, i32::MAX as int)
}

impl Column for i32 {
    open spec fn spec_readable(text: Seq<char>) -> bool {
        spec_parse_i32(text) is Some
    }

    open spec fn spec_reads(text: Seq<char>, value: i32) -> bool {
        spec_parse_i32(text) == Some(value as int)
    }

    /// Reads a decimal integer.
    fn read(text: &str) -> (value: Option<i32>) {
        match parse_bounded(text, i32::MIN as i128, i32::MAX as i128) {
            Some(v) => Some(v as i32),
            None => None,
        }
    }
}

impl Column for String {
    open spec fn spec_readable(text: Seq<char>) -> bool {
        true
    }

    open spec fn spec_reads(text: Seq<char>, value: String) -> bool {
        value@ == text
    }

    /// Takes the text as it stands.
    fn read(text: &str) -> (value: Option<String>) {
        Some(String::from_str(text))
    }
}

/// The text of column `ix` of `line`, without trailing `*` marks, if the
/// line has that many columns.
pub open spec fn column_text(line: Seq<char>, ix: usize) -> Option<Seq<char>> {
    let columns = spec_words(line);
    if ix < columns.len() {
        Some(spec_trim(columns[ix as int]))
    } else {
        None
    }
}

/// The number in column `ix` of `line`, if there is one.
pub open spec fn column_number(line: Seq<char>, ix: usize) -> Option<int> {
    match column_text(line, ix) {
        Some(text) => spec_parse_i32(text),
        None => None,
    }
}

/// The distance between two integers.
pub open spec fn distance(a: int, b: int) -> int {
    if a >= b {
        a - b
    } else {
        b - a
    }
}

/// The spread of a row: the distance between the numbers in its columns
/// `first` and `second`. `None` where the line is no row: where it lacks
/// one of the three columns, its key cannot be read, or one of the two is
/// no number.
pub open spec fn row_spread<K: Column>(
    line: Seq<char>,
    key: usize,
    first: usize,
    second: usize,
) -> Option<int> {
    match (column_text(line, key), column_number(line, first), column_number(line, second)) {
        (Some(text), Some(a), Some(b)) => if K::spec_readable(text) {
            Some(distance(a, b))
        } else {
            None
        },
        _ => None,
    }
}

/// Whether row `r` is the first of the rows of `lines` with the smallest
/// spread, and that spread is below `i32::MAX`.
pub open spec fn is_best_row<K: Column>(
    lines: Seq<Seq<char>>,
    key: usize,
    first: usize,
    second: usize,
    r: int,
) -> bool {
    &&& 0 <= r < lines.len()
    &&& row_spread::<K>(lines[r], key, first, second) matches Some(spread)
    &&& spread < i32::MAX
    &&& forall|j: int|
        0 <= j < r ==> (#[trigger] row_spread::<K>(lines[j], key, first, second) matches Some(other)
            ==> other > spread)
    &&& forall|j: int|
        r < j < lines.len() ==> (#[trigger] row_spread::<K>(
            lines[j],
            key,
            first,
            second,
        ) matches Some(other) ==> other >= spread)
}

/// Whether no row of `lines` has a spread below `i32::MAX`.
pub open spec fn has_no_row<K: Column>(
    lines: Seq<Seq<char>>,
    key: usize,
    first: usize,
    second: usize,
) -> bool {
    forall|j: int|
        0 <= j < lines.len() ==> (#[trigger] row_spread::<K>(lines[j], key, first, second) matches Some(
            other,
        ) ==> other >= i32::MAX)
}

/// Whether `best` holds the key and the spread of the best row of `lines`.
pub open spec fn is_best<K: Column>(
    lines: Seq<Seq<char>>,
    key: usize,
    first: usize,
    second: usize,
    best: (K, i32),
) -> bool {
    exists|r: int|
        {
            &&& #[trigger] is_best_row::<K>(lines, key, first, second, r)
            &&& row_spread::<K>(lines[r], key, first, second) == Some(best.1 as int)
            &&& K::spec_reads(column_text(lines[r], key).unwrap(), best.0)
        }
}

/// A row: its key and its two numbers.
struct Data<K>(K, i32, i32);

/// The best row so far: its key and its spread.
struct Fold<K>(K, i32);

/// Picks column `ix` of a row and drops its trailing `*` marks.
fn column<'a>(columns: &Vec<&'a str>, ix: usize) -> (text: Option<&'a str>)
    ensures
        text is Some <==> ix < columns@.len(),
        text matches Some(t) ==> t@ == spec_trim(columns@[ix as int]@),
{
    if ix >= columns.len() {
        None
    } else {
        Some(trim(columns[ix]))
    }
}

/// Reads a row: its key and its two numbers.
fn read_row<K: Column>(line: &str, ixs: [usize; 3]) -> (row: Option<Data<K>>)
    ensures
        row is Some <==> row_spread::<K>(line@, ixs[0], ixs[1], ixs[2]) is Some,
        row matches Some(Data(key, a, b)) ==> {
            &&& K::spec_reads(column_text(line@, ixs[0]).unwrap(), key)
            &&& column_number(line@, ixs[1]) == Some(a as int)
            &&& column_number(line@, ixs[2]) == Some(b as int)
        },
{
    let columns = words(line);
    proof {
        assert forall|ix: usize| ix < columns@.len() implies texts(columns@)[ix as int]
            == columns@[ix as int]@ by {}
    }
    let key = match column(&columns, ixs[0]) {
        Some(text) => match K::read(text) {
            Some(key) => key,
            None => return None,
        },
        None => return None,
    };
    let a = match column(&columns, ixs[1]) {
        Some(text) => match i32::read(text) {
            Some(a) => a,
            None => return None,
        },
        None => return None,
    };
    let b = match column(&columns, ixs[2]) {
        Some(text) => match i32::read(text) {
            Some(b) => b,
            None => return None,
        },
        None => return None,
    };
    Some(Data(key, a, b))
}

/// Finds, among the rows of `lines`, the first one with the smallest
/// spread between the numbers in columns `ixs[1]` and `ixs[2]`, and returns
/// its key, read from column `ixs[0]`, with that spread. Where no row has a
/// spread below `i32::MAX`, returns `default` with `i32::MAX`.
pub fn parse_file<K: Column>(lines: &[&str], default: K, ixs: [usize; 3]) -> (best: (K, i32))
    ensures
        has_no_row::<K>(texts(lines@), ixs[0], ixs[1], ixs[2]) ==> best.0 == default && best.1
            == i32::MAX,
        !has_no_row::<K>(texts(lines@), ixs[0], ixs[1], ixs[2]) ==> is_best::<K>(
            texts(lines@),
            ixs[0],
            ixs[1],
            ixs[2],
            best,
        ),
{
    let ghost all = texts(lines@);
    let mut state = Fold(default, i32::MAX);
    let ghost mut chosen: Option<int> = None;
    let n = lines.len();
    for i in 0..n
        invariant
            n == lines@.len(),
            all == texts(lines@),
            chosen is None ==> has_no_row::<K>(all.take(i as int), ixs[0], ixs[1], ixs[2])
                && state.0 == default && state.1 == i32::MAX,
            chosen matches Some(r) ==> {
                &&& is_best_row::<K>(all.take(i as int), ixs[0], ixs[1], ixs[2], r)
                &&& row_spread::<K>(all[r], ixs[0], ixs[1], ixs[2]) == Some(state.1 as int)
                &&& K::spec_reads(column_text(all[r], ixs[0]).unwrap(), state.0)
            },
    {
        let ghost seen = all.take(i as int);
        let ghost grown = all.take(i + 1);
        proof {
            assert forall|j: int| 0 <= j < i implies grown[j] == seen[j] by {}
        }
        match read_row::<K>(lines[i], ixs) {
            Some(item) => {
                let delta: i64 = if item.1 >= item.2 {
                    item.1 as i64 - item.2 as i64
                } else {
                    item.2 as i64 - item.1 as i64
                };
                if delta < state.1 as i64 {
                    state = Fold(item.0, delta as i32);
                    proof {
                        chosen = Some(i as int);
                    }
                }
            },
            None => {},
        }
    }
    proof {
        assert(all.take(n as int) =~= all);
    }
    let Fold(key, value) = state;
    (key, value)
}

/// Finds the day with the smallest spread of temperature in a weather
/// table: the day number, from the first column, and the distance between
/// the second and third columns.
pub fn parse_weather(lines: &[&str]) -> (best: (i32, i32))
    ensures
        has_no_row::<i32>(texts(lines@), 0, 1, 2) ==> best == (0i32, i32::MAX),
        !has_no_row::<i32>(texts(lines@), 0, 1, 2) ==> is_best::<i32>(texts(lines@), 0, 1, 2, best),
{
    parse_file(lines, 0, [0, 1, 2])
}

/// Finds the team with the smallest difference between goals scored and
/// goals conceded in a league table: the team's name, from the second
/// column, and the distance between the seventh and ninth columns.
pub fn parse_football(lines: &[&str]) -> (best: (String, i32))
    ensures
        has_no_row::<String>(texts(lines@), 1, 6, 8) ==> best.0@ == Seq::<char>::empty() && best.1
            == i32::MAX,
        !has_no_row::<String>(texts(lines@), 1, 6, 8) ==> is_best::<String>(
            texts(lines@),
            1,
            6,
            8,
            best,
        ),
{
    parse_file(lines, String::new(), [1, 6, 8])
}

} // verus!
