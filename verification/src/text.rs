//! Text as sequences of characters: conversion from and to `String`, and the
//! searching, splitting and trimming that the parsers of this crate are built
//! from.

use vstd::prelude::*;

verus! {

/// `String::push` appends one character to the end of the string.
pub assume_specification[ String::push ](s: &mut String, ch: char)
    ensures
        final(s)@ == old(s)@.push(ch),
;

/// The characters of `s`, in order.
pub fn chars_of(s: &str) -> (r: Vec<char>)
    ensures
        r@ == s@,
{
    let mut out: Vec<char> = Vec::new();
    for c in it: s.chars()
        invariant
            it.seq() == s@,
            out@ == s@.take(it.index()),
    {
        out.push(c);
    }
    out
}

/// The string made of the characters `chars`.
pub fn string_of(chars: &Vec<char>) -> (r: String)
    ensures
        r@ == chars@,
{
    let mut out = String::new();
    let mut i: usize = 0;
    while i < chars.len()
        invariant
            i <= chars.len(),
            out@ == chars@.take(i as int),
        decreases chars.len() - i,
    {
        out.push(chars[i]);
        i += 1;
        assert(chars@.take(i as int) =~= chars@.take(i as int - 1).push(chars@[i as int - 1]));
    }
    assert(chars@.take(i as int) =~= chars@);
    out
}

/// `needle` occurs in `hay` at position `at`.
pub open spec fn matches_at(hay: Seq<char>, needle: Seq<char>, at: int) -> bool {
    &&& 0 <= at
    &&& at + needle.len() <= hay.len()
    &&& hay.subrange(at, at + needle.len()) == needle
}

/// The position of the first occurrence of `needle` in `hay` that starts at
/// `from` or later.
pub open spec fn first_match(hay: Seq<char>, needle: Seq<char>, from: int) -> Option<int>
    decreases hay.len() + 1 - from,
{
    if from < 0 || from + needle.len() > hay.len() {
        None
    } else if matches_at(hay, needle, from) {
        Some(from)
    } else {
        first_match(hay, needle, from + 1)
    }
}

/// `needle` occurs somewhere in `hay`.
pub open spec fn contains(hay: Seq<char>, needle: Seq<char>) -> bool {
    exists|at: int| matches_at(hay, needle, at)
}

/// What `first_match` finds is an occurrence, no occurrence lies between
/// `from` and it, and it finds nothing only where there is no occurrence.
pub proof fn lemma_first_match(hay: Seq<char>, needle: Seq<char>, from: int)
    requires
        0 <= from,
    ensures
        match first_match(hay, needle, from) {
            Some(at) => {
                &&& from <= at
                &&& matches_at(hay, needle, at)
                &&& forall|j: int| from <= j < at ==> !matches_at(hay, needle, j)
            },
            None => forall|j: int| from <= j ==> !matches_at(hay, needle, j),
        },
    decreases hay.len() + 1 - from,
{
    if from + needle.len() > hay.len() {
    } else if matches_at(hay, needle, from) {
    } else {
        lemma_first_match(hay, needle, from + 1);
    }
}

/// `hay[at..]` starts with `needle`.
fn starts_at(hay: &Vec<char>, needle: &Vec<char>, at: usize) -> (r: bool)
    requires
        at + needle.len() <= hay.len(),
    ensures
        r == matches_at(hay@, needle@, at as int),
{
    let mut k: usize = 0;
    while k < needle.len()
        invariant
            k <= needle.len(),
            at + needle.len() <= hay.len(),
            forall|j: int| 0 <= j < k ==> hay@[at + j] == needle@[j],
        decreases needle.len() - k,
    {
        if hay[at + k] != needle[k] {
            assert(hay@.subrange(at as int, at + needle.len())[k as int] == hay@[at + k]);
            return false;
        }
        k += 1;
    }
    assert(hay@.subrange(at as int, at + needle.len()) =~= needle@);
    true
}

/// Finds the first occurrence of `needle` in `hay` that starts at `from` or
/// later.
pub fn find(hay: &Vec<char>, needle: &Vec<char>, from: usize) -> (r: Option<usize>)
    ensures
        match r {
            Some(at) => first_match(hay@, needle@, from as int) == Some(at as int),
            None => first_match(hay@, needle@, from as int) is None,
        },
{
    if needle.len() > hay.len() || from > hay.len() - needle.len() {
        return None;
    }
    let last: usize = hay.len() - needle.len();
    let mut i: usize = from;
    loop
        invariant
            from <= i <= last,
            last == hay.len() - needle.len(),
            first_match(hay@, needle@, from as int) == first_match(hay@, needle@, i as int),
        decreases last - i,
    {
        if starts_at(hay, needle, i) {
            return Some(i);
        }
        if i == last {
            return None;
        }
        i += 1;
    }
}

/// Whether `needle` occurs in `hay`.
pub fn occurs(hay: &Vec<char>, needle: &Vec<char>) -> (r: bool)
    ensures
        r == contains(hay@, needle@),
{
    proof {
        lemma_first_match(hay@, needle@, 0);
    }
    find(hay, needle, 0).is_some()
}

/// The pieces of `hay[from..]` between the occurrences of `sep`, found from
/// left to right without overlap. With an empty `sep` the text is one piece.
pub open spec fn split_from(hay: Seq<char>, sep: Seq<char>, from: int) -> Seq<Seq<char>>
    decreases hay.len() + 1 - from,
{
    match first_match(hay, sep, from) {
        Some(at) => if sep.len() > 0 && from <= at && at + sep.len() <= hay.len() {
            seq![hay.subrange(from, at)] + split_from(hay, sep, at + sep.len())
        } else {
            seq![hay.subrange(from, hay.len() as int)]
        },
        None => seq![hay.subrange(from, hay.len() as int)],
    }
}

/// The pieces of `hay` between the occurrences of `sep`.
pub open spec fn split(hay: Seq<char>, sep: Seq<char>) -> Seq<Seq<char>> {
    split_from(hay, sep, 0)
}

/// The rows of `v` as sequences.
pub open spec fn rows(v: &Vec<Vec<char>>) -> Seq<Seq<char>> {
    Seq::new(v@.len(), |i: int| v@[i]@)
}

/// Splits `hay` at every occurrence of `sep`.
pub fn split_at_each(hay: &Vec<char>, sep: &Vec<char>) -> (r: Vec<Vec<char>>)
    ensures
        rows(&r) == split(hay@, sep@),
{
    let mut out: Vec<Vec<char>> = Vec::new();
    let mut from: usize = 0;
    loop
        invariant
            from <= hay.len(),
            split(hay@, sep@) == rows(&out) + split_from(hay@, sep@, from as int),
        decreases hay.len() - from,
    {
        proof {
            lemma_first_match(hay@, sep@, from as int);
        }
        let found = find(hay, sep, from);
        let ghost before = rows(&out);
        match found {
            Some(at) => {
                if sep.len() > 0 {
                    out.push(slice_of(hay, from, at));
                    assert(rows(&out) =~= before.push(hay@.subrange(from as int, at as int)));
                    from = at + sep.len();
                } else {
                    out.push(slice_of(hay, from, hay.len()));
                    assert(rows(&out) =~= before.push(
                        hay@.subrange(from as int, hay.len() as int),
                    ));
                    return out;
                }
            },
            None => {
                out.push(slice_of(hay, from, hay.len()));
                assert(rows(&out) =~= before.push(
                    hay@.subrange(from as int, hay.len() as int),
                ));
                return out;
            },
        }
    }
}

/// A copy of `chars[from..to]`.
fn slice_of(chars: &Vec<char>, from: usize, to: usize) -> (r: Vec<char>)
    requires
        from <= to <= chars.len(),
    ensures
        r@ == chars@.subrange(from as int, to as int),
{
    let mut out: Vec<char> = Vec::new();
    let mut i: usize = from;
    while i < to
        invariant
            from <= i <= to <= chars.len(),
            out@ == chars@.subrange(from as int, i as int),
        decreases to - i,
    {
        out.push(chars[i]);
        i += 1;
        assert(chars@.subrange(from as int, i as int) == chars@.subrange(
            from as int,
            i as int - 1,
        ).push(chars@[i as int - 1]));
    }
    out
}

/// Whether `a` and `b` hold the same characters.
pub fn same(a: &Vec<char>, b: &Vec<char>) -> (r: bool)
    ensures
        r == (a@ == b@),
{
    if a.len() != b.len() {
        return false;
    }
    let r = starts_at(a, b, 0);
    assert(a@.subrange(0, a@.len() as int) =~= a@);
    r
}

/// The characters that have the Unicode property `White_Space`.
pub open spec fn is_space(c: char) -> bool {
    ||| '\u{9}' <= c <= '\u{d}'
    ||| c == ' '
    ||| c == '\u{85}'
    ||| c == '\u{a0}'
    ||| c == '\u{1680}'
    ||| '\u{2000}' <= c <= '\u{200a}'
    ||| c == '\u{2028}'
    ||| c == '\u{2029}'
    ||| c == '\u{202f}'
    ||| c == '\u{205f}'
    ||| c == '\u{3000}'
}

/// Whether `c` is white space.
pub fn space(c: char) -> (r: bool)
    ensures
        r == is_space(c),
{
    ('\u{9}' <= c && c <= '\u{d}') || c == ' ' || c == '\u{85}' || c == '\u{a0}' || c
        == '\u{1680}' || ('\u{2000}' <= c && c <= '\u{200a}') || c == '\u{2028}' || c
        == '\u{2029}' || c == '\u{202f}' || c == '\u{205f}' || c == '\u{3000}'
}

/// `s` without the white space at its start.
pub open spec fn trim_start(s: Seq<char>) -> Seq<char>
    decreases s.len(),
{
    if s.len() > 0 && is_space(s.first()) {
        trim_start(s.drop_first())
    } else {
        s
    }
}

/// `s` without the white space at its end.
pub open spec fn trim_end(s: Seq<char>) -> Seq<char>
    decreases s.len(),
{
    if s.len() > 0 && is_space(s.last()) {
        trim_end(s.drop_last())
    } else {
        s
    }
}

/// `s` without the white space at its start and at its end.
pub open spec fn trim(s: Seq<char>) -> Seq<char> {
    trim_end(trim_start(s))
}

/// Removes the white space at both ends of `chars`.
pub fn trimmed(chars: &Vec<char>) -> (r: Vec<char>)
    ensures
        r@ == trim(chars@),
{
    let n = chars.len();
    let mut a: usize = 0;
    assert(chars@.subrange(0, n as int) =~= chars@);
    while a < n && space(chars[a])
        invariant
            a <= n == chars.len(),
            trim_start(chars@) == trim_start(chars@.subrange(a as int, n as int)),
        decreases n - a,
    {
        assert(chars@.subrange(a as int, n as int).drop_first() =~= chars@.subrange(
            a as int + 1,
            n as int,
        ));
        a += 1;
    }
    let mut b: usize = n;
    while b > a && space(chars[b - 1])
        invariant
            a <= b <= n == chars.len(),
            trim(chars@) == trim_end(chars@.subrange(a as int, b as int)),
        decreases b - a,
    {
        assert(chars@.subrange(a as int, b as int).drop_last() =~= chars@.subrange(
            a as int,
            b as int - 1,
        ));
        b -= 1;
    }
    slice_of(chars, a, b)
}

/// `line` without one carriage return at its end.
pub open spec fn strip_cr(line: Seq<char>) -> Seq<char> {
    if line.len() > 0 && line.last() == '\r' {
        line.drop_last()
    } else {
        line
    }
}

/// The lines of `text`. A line ends with a line feed, or with a carriage
/// return and a line feed; neither belongs to the line. What follows the last
/// line feed is a line of its own unless it is empty.
pub open spec fn lines(text: Seq<char>) -> Seq<Seq<char>> {
    let pieces = split(text, seq!['\n']);
    let ended = Seq::new((pieces.len() - 1) as nat, |i: int| strip_cr(pieces[i]));
    if pieces.last().len() == 0 {
        ended
    } else {
        ended.push(pieces.last())
    }
}

/// A text splits into at least one piece.
pub proof fn lemma_split_nonempty(hay: Seq<char>, sep: Seq<char>, from: int)
    ensures
        split_from(hay, sep, from).len() >= 1,
{
}

/// Splits `text` into its lines.
pub fn lines_of(text: &Vec<char>) -> (r: Vec<Vec<char>>)
    ensures
        rows(&r) == lines(text@),
{
    let mut sep: Vec<char> = Vec::new();
    sep.push('\n');
    assert(sep@ =~= seq!['\n']);
    let pieces = split_at_each(text, &sep);
    proof {
        lemma_split_nonempty(text@, sep@, 0);
    }
    let count = pieces.len();
    let ghost ended = Seq::new((count - 1) as nat, |i: int| strip_cr(rows(&pieces)[i]));
    let mut out: Vec<Vec<char>> = Vec::new();
    let mut i: usize = 0;
    while i + 1 < count
        invariant
            i + 1 <= count == pieces.len(),
            ended == Seq::new((count - 1) as nat, |i: int| strip_cr(rows(&pieces)[i])),
            rows(&out) == ended.take(i as int),
        decreases count - i,
    {
        let piece = &pieces[i];
        let n = piece.len();
        let line = if n > 0 && piece[n - 1] == '\r' {
            slice_of(piece, 0, n - 1)
        } else {
            slice_of(piece, 0, n)
        };
        assert(piece@.subrange(0, n as int) =~= piece@);
        assert(piece@.subrange(0, n as int - 1) =~= piece@.drop_last());
        assert(line@ == ended[i as int]);
        let ghost before = rows(&out);
        out.push(line);
        assert(rows(&out) =~= before.push(ended[i as int]));
        i += 1;
        assert(ended.take(i as int) =~= ended.take(i as int - 1).push(ended[i as int - 1]));
    }
    assert(ended.take(i as int) =~= ended);
    let last = &pieces[count - 1];
    assert(last@ == rows(&pieces).last());
    if last.len() > 0 {
        let ghost before = rows(&out);
        out.push(slice_of(last, 0, last.len()));
        assert(last@.subrange(0, last@.len() as int) =~= last@);
        assert(rows(&out) =~= before.push(last@));
    }
    out
}

/// The character that stands for the digit `d`.
pub open spec fn digit(d: int) -> char {
    if d == 0 {
        '0'
    } else if d == 1 {
        '1'
    } else if d == 2 {
        '2'
    } else if d == 3 {
        '3'
    } else if d == 4 {
        '4'
    } else if d == 5 {
        '5'
    } else if d == 6 {
        '6'
    } else if d == 7 {
        '7'
    } else if d == 8 {
        '8'
    } else {
        '9'
    }
}

/// The decimal numeral of `n`, without leading zeros.
pub open spec fn decimal(n: nat) -> Seq<char>
    decreases n,
{
    if n < 10 {
        seq![digit(n as int)]
    } else {
        decimal(n / 10).push(digit((n % 10) as int))
    }
}

fn digit_char(d: u64) -> (c: char)
    requires
        d < 10,
    ensures
        c == digit(d as int),
{
    if d == 0 {
        '0'
    } else if d == 1 {
        '1'
    } else if d == 2 {
        '2'
    } else if d == 3 {
        '3'
    } else if d == 4 {
        '4'
    } else if d == 5 {
        '5'
    } else if d == 6 {
        '6'
    } else if d == 7 {
        '7'
    } else if d == 8 {
        '8'
    } else {
        '9'
    }
}

/// Appends the decimal numeral of `n` to `out`.
pub fn push_decimal(out: &mut String, n: u64)
    ensures
        final(out)@ == old(out)@ + decimal(n as nat),
    decreases n,
{
    if n < 10 {
        out.push(digit_char(n));
        assert(out@ =~= old(out)@ + decimal(n as nat));
    } else {
        push_decimal(out, n / 10);
        out.push(digit_char(n % 10));
        assert(out@ =~= old(out)@ + decimal(n as nat));
    }
}

/// `text` ends with `suffix`.
pub open spec fn ends_with(text: Seq<char>, suffix: Seq<char>) -> bool {
    matches_at(text, suffix, text.len() - suffix.len())
}

/// Whether `text` ends with `suffix`.
pub fn ends(text: &Vec<char>, suffix: &Vec<char>) -> (r: bool)
    ensures
        r == ends_with(text@, suffix@),
{
    if suffix.len() > text.len() {
        return false;
    }
    starts_at(text, suffix, text.len() - suffix.len())
}

/// `text` starts with `prefix`.
pub open spec fn starts_with(text: Seq<char>, prefix: Seq<char>) -> bool {
    matches_at(text, prefix, 0)
}

/// Whether `text` starts with `prefix`.
pub fn starts(text: &Vec<char>, prefix: &Vec<char>) -> (r: bool)
    ensures
        r == starts_with(text@, prefix@),
{
    if prefix.len() > text.len() {
        return false;
    }
    starts_at(text, prefix, 0)
}

/// `text` without `suffix` at its end, where it ends with it, and else
/// `text` as it is.
pub open spec fn without_suffix(text: Seq<char>, suffix: Seq<char>) -> Seq<char> {
    if ends_with(text, suffix) {
        text.subrange(0, text.len() - suffix.len())
    } else {
        text
    }
}

/// Takes `suffix` from the end of `text`, where `text` ends with it.
pub fn strip_suffix(text: &Vec<char>, suffix: &Vec<char>) -> (r: Vec<char>)
    ensures
        r@ == without_suffix(text@, suffix@),
{
    if ends(text, suffix) {
        slice_of(text, 0, text.len() - suffix.len())
    } else {
        let r = slice_of(text, 0, text.len());
        assert(text@.subrange(0, text@.len() as int) =~= text@);
        r
    }
}

} // verus!
