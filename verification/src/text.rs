//! Character classes and first/last searches over a window of a character
//! sequence. Telegram lines are decoded with nothing but these.
use vstd::prelude::*;

verus! {

/// ASCII decimal digit.
pub open spec fn is_digit(c: char) -> bool {
    '0' <= c && c <= '9'
}

/// Numeric value of an ASCII decimal digit.
pub open spec fn digit_value(c: char) -> nat
    recommends
        is_digit(c),
{
    (c as int - '0' as int) as nat
}

/// Characters with the Unicode `White_Space` property, which is what trimming
/// a line removes from both ends.
pub open spec fn is_whitespace(c: char) -> bool {
    let u: u32 = c as u32;
    ||| (0x09 <= u && u <= 0x0D)
    ||| u == 0x20
    ||| u == 0x85
    ||| u == 0xA0
    ||| u == 0x1680
    ||| (0x2000 <= u && u <= 0x200A)
    ||| u == 0x2028
    ||| u == 0x2029
    ||| u == 0x202F
    ||| u == 0x205F
    ||| u == 0x3000
}

/// A character that may occur in the numeric prefix of a counter reading:
/// a digit or the decimal point.
pub open spec fn is_numeric(c: char) -> bool {
    is_digit(c) || c == '.'
}

/// What a search looks for.
#[derive(Clone, Copy, Debug)]
pub enum CharTest {
    /// This very character.
    Exactly(char),
    /// Any character that is not whitespace.
    NotWhitespace,
    /// Any character that is neither a digit nor the decimal point.
    NotNumeric,
}

impl CharTest {
    pub open spec fn accepts(self, c: char) -> bool {
        match self {
            CharTest::Exactly(x) => c == x,
            CharTest::NotWhitespace => !is_whitespace(c),
            CharTest::NotNumeric => !is_numeric(c),
        }
    }

    pub fn test(self, c: char) -> (r: bool)
        ensures
            r == self.accepts(c),
    {
        match self {
            CharTest::Exactly(x) => c == x,
            CharTest::NotWhitespace => !is_whitespace_char(c),
            CharTest::NotNumeric => !(is_ascii_digit(c) || c == '.'),
        }
    }
}

/// Index of the first accepted character of `s` in the window `from..to`,
/// or `to` when the window holds none.
pub open spec fn find_first(s: Seq<char>, from: int, to: int, t: CharTest) -> int
    decreases to - from,
{
    if from >= to {
        to
    } else if t.accepts(s[from]) {
        from
    } else {
        find_first(s, from + 1, to, t)
    }
}

/// One past the index of the last accepted character of `s` in the window
/// `from..to`, or `from` when the window holds none.
pub open spec fn find_last_end(s: Seq<char>, from: int, to: int, t: CharTest) -> int
    decreases to - from,
{
    if to <= from {
        from
    } else if t.accepts(s[to - 1]) {
        to
    } else {
        find_last_end(s, from, to - 1, t)
    }
}

/// `find_first` yields the least accepted index of the window.
pub proof fn lemma_find_first(s: Seq<char>, from: int, to: int, t: CharTest)
    requires
        from <= to,
    ensures
        from <= find_first(s, from, to, t) <= to,
        forall|i: int| from <= i < find_first(s, from, to, t) ==> !t.accepts(#[trigger] s[i]),
        find_first(s, from, to, t) < to ==> t.accepts(s[find_first(s, from, to, t)]),
    decreases to - from,
{
    if from < to && !t.accepts(s[from]) {
        lemma_find_first(s, from + 1, to, t);
    }
}

/// `find_last_end` yields the end of the greatest accepted index of the window.
pub proof fn lemma_find_last_end(s: Seq<char>, from: int, to: int, t: CharTest)
    requires
        from <= to,
    ensures
        from <= find_last_end(s, from, to, t) <= to,
        forall|i: int| find_last_end(s, from, to, t) <= i < to ==> !t.accepts(#[trigger] s[i]),
        find_last_end(s, from, to, t) > from ==> t.accepts(s[find_last_end(s, from, to, t) - 1]),
    decreases to - from,
{
    if from < to && !t.accepts(s[to - 1]) {
        lemma_find_last_end(s, from, to - 1, t);
    }
}

pub fn is_ascii_digit(c: char) -> (r: bool)
    ensures
        r == is_digit(c),
{
    c >= '0' && c <= '9'
}

pub fn digit_of(c: char) -> (r: u8)
    requires
        is_digit(c),
    ensures
        r as nat == digit_value(c),
        r <= 9,
{
    (c as u32 - '0' as u32) as u8
}

pub fn is_whitespace_char(c: char) -> (r: bool)
    ensures
        r == is_whitespace(c),
{
    let u: u32 = c as u32;
    (0x09 <= u && u <= 0x0D) || u == 0x20 || u == 0x85 || u == 0xA0 || u == 0x1680 || (0x2000 <= u
        && u <= 0x200A) || u == 0x2028 || u == 0x2029 || u == 0x202F || u == 0x205F || u == 0x3000
}

/// The characters of a string, in order.
pub fn to_chars(s: &str) -> (r: Vec<char>)
    ensures
        r@ == s@,
{
    broadcast use vstd::string::group_string_axioms;

    let mut out: Vec<char> = Vec::new();
    for c in it: s.chars()
        invariant
            it.seq() == s@,
            out@ == s@.take(it.index()),
    {
        out.push(c);
    }
    assert(s@.take(s@.len() as int) == s@);
    out
}

pub fn find_first_in(s: &Vec<char>, from: usize, to: usize, t: CharTest) -> (r: usize)
    requires
        from <= to <= s.len(),
    ensures
        r == find_first(s@, from as int, to as int, t),
        from <= r <= to,
{
    let mut i: usize = from;
    while i < to && !t.test(s[i])
        invariant
            from <= i <= to <= s.len(),
            find_first(s@, from as int, to as int, t) == find_first(s@, i as int, to as int, t),
        decreases to - i,
    {
        i = i + 1;
    }
    i
}

pub fn find_last_end_in(s: &Vec<char>, from: usize, to: usize, t: CharTest) -> (r: usize)
    requires
        from <= to <= s.len(),
    ensures
        r == find_last_end(s@, from as int, to as int, t),
        from <= r <= to,
{
    let mut j: usize = to;
    while j > from && !t.test(s[j - 1])
        invariant
            from <= j <= to <= s.len(),
            find_last_end(s@, from as int, to as int, t) == find_last_end(
                s@,
                from as int,
                j as int,
                t,
            ),
        decreases j - from,
    {
        j = j - 1;
    }
    j
}

/// A copy of the window `from..to` of `chars`.
pub fn window(chars: &Vec<char>, from: usize, to: usize) -> (r: Vec<char>)
    requires
        from <= to <= chars.len(),
    ensures
        r@ == chars@.subrange(from as int, to as int),
{
    let mut out: Vec<char> = Vec::new();
    let mut i: usize = from;
    while i < to
        invariant
            from <= i <= to <= chars.len(),
            out@ == chars@.subrange(from as int, i as int),
        decreases to - i,
    {
        out.push(chars[i]);
        assert(out@ =~= chars@.subrange(from as int, i + 1));
        i = i + 1;
    }
    out
}

/// Whether the string `s` is exactly the window `from..to` of `chars`.
pub fn window_equals(chars: &Vec<char>, from: usize, to: usize, s: &str) -> (r: bool)
    requires
        from <= to <= chars.len(),
    ensures
        r == (chars@.subrange(from as int, to as int) == s@),
{
    let other = to_chars(s);
    if other.len() != to - from {
        return false;
    }
    let n: usize = other.len();
    let mut i: usize = 0;
    while i < n
        invariant
            n == other.len(),
            n == to - from,
            other@ == s@,
            from <= to <= chars.len(),
            0 <= i <= n,
            forall|k: int| 0 <= k < i ==> chars@[from + k] == other@[k],
        decreases n - i,
    {
        if chars[from + i] != other[i] {
            assert(chars@.subrange(from as int, to as int)[i as int] != other@[i as int]);
            return false;
        }
        i = i + 1;
    }
    assert(chars@.subrange(from as int, to as int) =~= other@);
    true
}

} // verus!
