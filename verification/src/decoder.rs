//! The line decoder: from one raw telegram line to the OBIS code and the
//! numeric text of a monitored reading.
use crate::catalog::{entries_view, CatalogEntry, EntryView, MetricKind};
use crate::decimal::{is_decimal, is_decimal_text, is_unsigned_decimal};
use crate::text::{
    find_first, find_first_in, find_last_end, find_last_end_in, lemma_find_first,
    lemma_find_last_end, to_chars, window, window_equals, CharTest,
};
use vstd::prelude::*;
use vstd::string::StrSliceExecFns;

verus! {

/// A decoded line: the OBIS code and the numeric text, both as they stand in
/// the line. The text is a decimal number, not yet scaled.
#[derive(Debug)]
pub struct ParsedLine<'a> {
    pub obis_code: &'a str,
    pub raw_value: &'a str,
}

/// A decoded line as plain values.
pub struct ParsedView {
    pub obis_code: Seq<char>,
    pub raw_value: Seq<char>,
}

impl<'a> View for ParsedLine<'a> {
    type V = ParsedView;

    open spec fn view(&self) -> ParsedView {
        ParsedView { obis_code: self.obis_code@, raw_value: self.raw_value@ }
    }
}

/// Index of the first entry of `c` at or after `from` with the OBIS code
/// `obis`, or the length of `c`.
pub open spec fn first_entry_for(c: Seq<EntryView>, obis: Seq<char>, from: int) -> int
    decreases c.len() - from,
{
    if from >= c.len() {
        c.len() as int
    } else if c[from].obis_code == obis {
        from
    } else {
        first_entry_for(c, obis, from + 1)
    }
}

/// Where the trimmed line starts: at its first character that is no whitespace.
pub open spec fn content_start(line: Seq<char>) -> int {
    find_first(line, 0, line.len() as int, CharTest::NotWhitespace)
}

/// Where the trimmed line ends: behind its last character that is no whitespace.
pub open spec fn content_end(line: Seq<char>) -> int {
    find_last_end(line, content_start(line), line.len() as int, CharTest::NotWhitespace)
}

/// Where the first `(` of the trimmed line stands, or its end.
pub open spec fn first_open(line: Seq<char>) -> int {
    find_first(line, content_start(line), content_end(line), CharTest::Exactly('('))
}

/// The OBIS code of a line: the text of the trimmed line before its first `(`.
pub open spec fn obis_code_of(line: Seq<char>) -> Seq<char> {
    line.subrange(content_start(line), first_open(line))
}

/// For a counter reading: the window of the numeric prefix of the first
/// parenthesized group. The group opens at `open` and must close before
/// `end`; the prefix is the leading run of digits and decimal points before
/// any `*`, and must be a decimal number.
pub open spec fn first_group_number(line: Seq<char>, open: int, end: int) -> Option<(int, int)> {
    let close = find_first(line, open, end, CharTest::Exactly(')'));
    if close == end {
        None
    } else {
        let star = find_first(line, open + 1, close, CharTest::Exactly('*'));
        let stop = find_first(line, open + 1, star, CharTest::NotNumeric);
        if is_unsigned_decimal(line.subrange(open + 1, stop)) {
            Some((open + 1, stop))
        } else {
            None
        }
    }
}

/// For any other reading: the window of the value of the last parenthesized
/// group of `start..end`. The group opens at the last `(` and must close
/// before `end`; the value is the text before any `*`, trimmed, and must be a
/// decimal number.
pub open spec fn last_group_value(line: Seq<char>, start: int, end: int) -> Option<(int, int)> {
    let open = find_last_end(line, start, end, CharTest::Exactly('(')) - 1;
    let close = find_first(line, open, end, CharTest::Exactly(')'));
    if close == end {
        None
    } else {
        let star = find_first(line, open + 1, close, CharTest::Exactly('*'));
        let from = find_first(line, open + 1, star, CharTest::NotWhitespace);
        let to = find_last_end(line, from, star, CharTest::NotWhitespace);
        if is_decimal(line.subrange(from, to)) {
            Some((from, to))
        } else {
            None
        }
    }
}

/// What a line decodes to under the catalog `c`.
///
/// Nothing, where the trimmed line is empty, starts with `!`, holds no `(`,
/// or names an OBIS code (the text before the first `(`) that the catalog
/// lacks. Otherwise the first catalog entry with that code decides where the
/// number stands: for an integer counter in the first group, for every other
/// kind in the last. Nothing again, where that group is not closed or holds
/// no decimal number.
pub open spec fn decode(c: Seq<EntryView>, line: Seq<char>) -> Option<ParsedView> {
    let start = content_start(line);
    let end = content_end(line);
    if start == end || line[start] == '!' {
        None
    } else {
        let open = first_open(line);
        let obis = obis_code_of(line);
        let k = first_entry_for(c, obis, 0);
        if open == end || k == c.len() {
            None
        } else {
            let number = if c[k].kind == MetricKind::CounterIntDelta {
                first_group_number(line, open, end)
            } else {
                last_group_value(line, start, end)
            };
            match number {
                Some((from, to)) => Some(
                    ParsedView { obis_code: obis, raw_value: line.subrange(from, to) },
                ),
                None => None,
            }
        }
    }
}

fn first_entry_index(catalog: &Vec<CatalogEntry>, chars: &Vec<char>, from: usize, to: usize) -> (r:
    usize)
    requires
        from <= to <= chars.len(),
    ensures
        r == first_entry_for(entries_view(catalog@), chars@.subrange(from as int, to as int), 0),
        r <= catalog.len(),
{
    let ghost c = entries_view(catalog@);
    let ghost obis = chars@.subrange(from as int, to as int);
    let mut k: usize = 0;
    while k < catalog.len()
        invariant
            0 <= k <= catalog.len(),
            from <= to <= chars.len(),
            c == entries_view(catalog@),
            obis == chars@.subrange(from as int, to as int),
            first_entry_for(c, obis, 0) == first_entry_for(c, obis, k as int),
        decreases catalog.len() - k,
    {
        assert(c[k as int] == catalog@[k as int]@);
        if window_equals(chars, from, to, catalog[k].obis_code.as_str()) {
            return k;
        }
        k = k + 1;
    }
    k
}

fn find_first_group_number(chars: &Vec<char>, open: usize, end: usize) -> (r: Option<
    (usize, usize),
>)
    requires
        open < end <= chars.len(),
        chars@[open as int] == '(',
    ensures
        r matches Some((from, to)) ==> from <= to <= chars.len(),
        match r {
            Some((from, to)) => first_group_number(chars@, open as int, end as int) == Some(
                (from as int, to as int),
            ),
            None => first_group_number(chars@, open as int, end as int) is None,
        },
{
    let close: usize = find_first_in(chars, open, end, CharTest::Exactly(')'));
    if close == end {
        return None;
    }
    proof {
        lemma_find_first(chars@, open as int, end as int, CharTest::Exactly(')'));
    }
    let star: usize = find_first_in(chars, open + 1, close, CharTest::Exactly('*'));
    let stop: usize = find_first_in(chars, open + 1, star, CharTest::NotNumeric);
    let text = window(chars, open + 1, stop);
    let n: usize = text.len();
    if n > 0 && (text[0] == '+' || text[0] == '-') {
        return None;
    }
    if is_decimal_text(&text) {
        Some((open + 1, stop))
    } else {
        None
    }
}

fn find_last_group_value(chars: &Vec<char>, start: usize, end: usize) -> (r: Option<(usize, usize)>)
    requires
        start <= end <= chars.len(),
        find_last_end(chars@, start as int, end as int, CharTest::Exactly('(')) > start,
    ensures
        r matches Some((from, to)) ==> from <= to <= chars.len(),
        match r {
            Some((from, to)) => last_group_value(chars@, start as int, end as int) == Some(
                (from as int, to as int),
            ),
            None => last_group_value(chars@, start as int, end as int) is None,
        },
{
    let open: usize = find_last_end_in(chars, start, end, CharTest::Exactly('(')) - 1;
    let close: usize = find_first_in(chars, open, end, CharTest::Exactly(')'));
    if close == end {
        return None;
    }
    proof {
        lemma_find_last_end(chars@, start as int, end as int, CharTest::Exactly('('));
        lemma_find_first(chars@, open as int, end as int, CharTest::Exactly(')'));
    }
    let star: usize = find_first_in(chars, open + 1, close, CharTest::Exactly('*'));
    let from: usize = find_first_in(chars, open + 1, star, CharTest::NotWhitespace);
    let to: usize = find_last_end_in(chars, from, star, CharTest::NotWhitespace);
    let text = window(chars, from, to);
    if is_decimal_text(&text) {
        Some((from, to))
    } else {
        None
    }
}

/// Decodes one raw line against the catalog.
pub fn parse_p1_line<'a>(catalog: &Vec<CatalogEntry>, line: &'a str) -> (r: Option<ParsedLine<'a>>)
    ensures
        match r {
            Some(p) => decode(entries_view(catalog@), line@) == Some(p@),
            None => decode(entries_view(catalog@), line@) is None,
        },
{
    let chars = to_chars(line);
    let n: usize = chars.len();
    let start: usize = find_first_in(&chars, 0, n, CharTest::NotWhitespace);
    let end: usize = find_last_end_in(&chars, start, n, CharTest::NotWhitespace);
    if start == end || chars[start] == '!' {
        return None;
    }
    let open: usize = find_first_in(&chars, start, end, CharTest::Exactly('('));
    if open == end {
        return None;
    }
    proof {
        lemma_find_first(chars@, start as int, end as int, CharTest::Exactly('('));
    }
    let k: usize = first_entry_index(catalog, &chars, start, open);
    if k == catalog.len() {
        return None;
    }
    assert(entries_view(catalog@)[k as int] == catalog@[k as int]@);
    let number: Option<(usize, usize)> = if catalog[k].kind == MetricKind::CounterIntDelta {
        find_first_group_number(&chars, open, end)
    } else {
        proof {
            lemma_find_last_end(chars@, start as int, end as int, CharTest::Exactly('('));
        }
        find_last_group_value(&chars, start, end)
    };
    match number {
        Some((from, to)) => Some(
            ParsedLine {
                obis_code: line.substring_char(start, open),
                raw_value: line.substring_char(from, to),
            },
        ),
        None => None,
    }
}

/// `first_entry_for` yields the least entry with the code.
pub proof fn lemma_first_entry_for(c: Seq<EntryView>, obis: Seq<char>, from: int)
    requires
        0 <= from <= c.len(),
    ensures
        from <= first_entry_for(c, obis, from) <= c.len(),
        forall|k: int|
            from <= k < first_entry_for(c, obis, from) ==> (#[trigger] c[k]).obis_code != obis,
        first_entry_for(c, obis, from) < c.len() ==> c[first_entry_for(c, obis, from)].obis_code
            == obis,
    decreases c.len() - from,
{
    if from < c.len() && c[from].obis_code != obis {
        lemma_first_entry_for(c, obis, from + 1);
    }
}

} // verus!
