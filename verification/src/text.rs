//! Plain text: splitting, trimming, searching and decimal numbers.
//!
//! Text is worked on as a slice of characters, which [`chars_of`] makes from a
//! string and [`string_of`] turns back.

use vstd::prelude::*;

verus! {

/// Where text is split.
#[derive(Debug, Clone, Copy, PartialEq, Eq, Structural)]
pub enum Separator {
    /// At every occurrence of one character.
    At(char),
    /// At every white-space character.
    White,
}

/// That `c` has the Unicode property `White_Space`.
pub open spec fn white_space(c: char) -> bool {
    ||| '\u{9}' <= c <= '\u{d}'
    ||| c == ' '
    ||| c == '\u{85}'
    ||| c == '\u{a0}'
    ||| c == '\u{1680}'
    ||| '\u{2000}' <= c <= '\u{200a}'
    ||| c == '\u{2028}'
    ||| c == '\u{2029}'
    ||| c == '\u{202f}'
    ||| c == '\u{205f}'
    ||| c == '\u{3000}'
}

impl Separator {
    /// That text is split at `c`.
    pub open spec fn cuts(self, c: char) -> bool {
        match self {
            Separator::At(at) => c == at,
            Separator::White => white_space(c),
        }
    }
}

/// The pieces of `text` between its separators, in order; one more than there
/// are separators.
pub open spec fn split(text: Seq<char>, sep: Separator) -> Seq<Seq<char>>
    decreases text.len(),
{
    if text.len() == 0 {
        seq![Seq::empty()]
    } else {
        let before = split(text.drop_last(), sep);
        if sep.cuts(text.last()) {
            before.push(Seq::empty())
        } else {
            before.drop_last().push(before.last().push(text.last()))
        }
    }
}

/// `text` without the white space at its end.
pub open spec fn trim_end(text: Seq<char>) -> Seq<char>
    decreases text.len(),
{
    if text.len() > 0 && white_space(text.last()) {
        trim_end(text.drop_last())
    } else {
        text
    }
}

/// `text` without the white space at its beginning.
pub open spec fn trim_start(text: Seq<char>) -> Seq<char>
    decreases text.len(),
{
    if text.len() > 0 && white_space(text.first()) {
        trim_start(text.drop_first())
    } else {
        text
    }
}

/// `text` without the white space around it.
pub open spec fn trimmed(text: Seq<char>) -> Seq<char> {
    trim_start(trim_end(text))
}

/// That `text` has `part` somewhere in it.
pub open spec fn has_part(text: Seq<char>, part: Seq<char>) -> bool {
    exists|i: int|
        0 <= i <= text.len() - part.len() && #[trigger] text.subrange(i, i + part.len()) == part
}

/// The first of `pieces` that begins with `prefix`.
pub open spec fn first_beginning(pieces: Seq<Seq<char>>, prefix: Seq<char>) -> Option<Seq<char>>
    decreases pieces.len(),
{
    if pieces.len() == 0 {
        None
    } else if prefix.is_prefix_of(pieces.first()) {
        Some(pieces.first())
    } else {
        first_beginning(pieces.drop_first(), prefix)
    }
}

/// The value of a decimal digit.
pub open spec fn digit_value(c: char) -> Option<nat> {
    if '0' <= c <= '9' {
        Some((c as u32 - '0' as u32) as nat)
    } else {
        None
    }
}

/// The number that a run of decimal digits writes; zero for no digits at all.
pub open spec fn digits_value(digits: Seq<char>) -> Option<nat>
    decreases digits.len(),
{
    if digits.len() == 0 {
        Some(0)
    } else {
        match (digits_value(digits.drop_last()), digit_value(digits.last())) {
            (Some(high), Some(low)) => Some(10 * high + low),
            _ => None,
        }
    }
}

/// The number that `text` writes: decimal digits, at least one, after a `+` that
/// may be left out.
pub open spec fn number_of(text: Seq<char>) -> Option<nat> {
    let digits = if text.len() > 0 && text.first() == '+' {
        text.drop_first()
    } else {
        text
    };
    if digits.len() == 0 {
        None
    } else {
        digits_value(digits)
    }
}

/// The number that `text` writes, where it is at most `max`.
pub open spec fn number_up_to(text: Seq<char>, max: nat) -> Option<nat> {
    match number_of(text) {
        Some(n) => if n <= max {
            Some(n)
        } else {
            None
        },
        None => None,
    }
}

/// The characters of `text`.
pub fn chars_of(text: &str) -> (chars: Vec<char>)
    ensures
        chars@ == text@,
{
    let mut chars: Vec<char> = Vec::new();
    for c in iter: text.chars()
        invariant
            chars@ == iter.seq().take(iter.index() as int),
            iter.seq() == text@,
    {
        chars.push(c);
    }
    chars
}

/// The string of `chars`.
pub fn string_of(chars: &[char]) -> (text: String)
    ensures
        text@ == chars@,
{
    let mut text = String::new();
    let mut i: usize = 0;
    while i < chars.len()
        invariant
            i <= chars@.len(),
            text@ == chars@.take(i as int),
        decreases chars@.len() - i,
    {
        text.push(chars[i]);
        i += 1;
    }
    assert(chars@.take(i as int) =~= chars@);
    text
}

/// Whether `c` is white space.
pub fn is_white_space(c: char) -> (r: bool)
    ensures
        r == white_space(c),
{
    ('\u{9}' <= c && c <= '\u{d}') || c == ' ' || c == '\u{85}' || c == '\u{a0}' || c == '\u{1680}'
        || ('\u{2000}' <= c && c <= '\u{200a}') || c == '\u{2028}' || c == '\u{2029}' || c
        == '\u{202f}' || c == '\u{205f}' || c == '\u{3000}'
}

/// The views of a list of character vectors.
pub open spec fn views(pieces: Seq<Vec<char>>) -> Seq<Seq<char>> {
    pieces.map_values(|p: Vec<char>| p@)
}

/// Splits `text` at its separators.
pub fn split_text(text: &[char], sep: Separator) -> (pieces: Vec<Vec<char>>)
    ensures
        views(pieces@) == split(text@, sep),
{
    let mut pieces: Vec<Vec<char>> = Vec::new();
    let mut current: Vec<char> = Vec::new();
    let mut i: usize = 0;
    assert(views(pieces@).push(current@) =~= split(text@.take(0), sep));
    while i < text.len()
        invariant
            i <= text@.len(),
            views(pieces@).push(current@) == split(text@.take(i as int), sep),
        decreases text@.len() - i,
    {
        let c: char = text[i];
        assert(text@.take(i + 1).drop_last() =~= text@.take(i as int));
        let cut: bool = match sep {
            Separator::At(at) => c == at,
            Separator::White => is_white_space(c),
        };
        let ghost before = views(pieces@).push(current@);
        if cut {
            pieces.push(current);
            current = Vec::new();
            assert(views(pieces@) =~= before);
            assert(views(pieces@).push(current@) =~= before.push(Seq::empty()));
        } else {
            let ghost last = current@;
            current.push(c);
            assert(before.drop_last() =~= views(pieces@));
            assert(before.last() == last);
        }
        i += 1;
    }
    assert(text@.take(i as int) =~= text@);
    pieces.push(current);
    assert(views(pieces@) =~= split(text@, sep));
    pieces
}

/// What trimming leaves of text that is white space up to `from` and from `to`
/// on, and not just inside of these.
pub proof fn lemma_trimmed_at(text: Seq<char>, from: int, to: int)
    requires
        0 <= from <= to <= text.len(),
        forall|i: int| to <= i < text.len() ==> white_space(#[trigger] text[i]),
        forall|i: int| 0 <= i < from ==> white_space(#[trigger] text[i]),
        from < to ==> !white_space(text[from]) && !white_space(text[to - 1]),
        from == to ==> to == 0,
    ensures
        trimmed(text) == text.subrange(from, to),
    decreases text.len(), from,
{
    if to < text.len() {
        lemma_trimmed_at(text.drop_last(), from, to);
        assert(text.drop_last().subrange(from, to) =~= text.subrange(from, to));
    } else if from > 0 {
        assert(trim_end(text) == text);
        let rest = text.drop_first();
        assert(rest.last() == text.last());
        assert forall|i: int| 0 <= i < from - 1 implies white_space(#[trigger] rest[i]) by {
            assert(rest[i] == text[i + 1]);
        }
        lemma_trimmed_at(rest, from - 1, to - 1);
        assert(trim_end(rest) == rest);
        assert(rest.subrange(from - 1, to - 1) =~= text.subrange(from, to));
    } else {
        assert(text.subrange(from, to) =~= text);
    }
}

/// `text` without the white space around it.
pub fn trim_text(text: &[char]) -> (r: Vec<char>)
    ensures
        r@ == trimmed(text@),
{
    let mut to: usize = text.len();
    while to > 0 && is_white_space(text[to - 1])
        invariant
            to <= text@.len(),
            forall|i: int| to <= i < text@.len() ==> white_space(#[trigger] text@[i]),
        ensures
            to <= text@.len(),
            forall|i: int| to <= i < text@.len() ==> white_space(#[trigger] text@[i]),
            to > 0 ==> !white_space(text@[to - 1]),
        decreases to,
    {
        to -= 1;
    }
    let mut from: usize = 0;
    while from < to && is_white_space(text[from])
        invariant
            from <= to <= text@.len(),
            to > 0 ==> !white_space(text@[to - 1]),
            to > 0 ==> from < to,
            forall|i: int| 0 <= i < from ==> white_space(#[trigger] text@[i]),
        ensures
            from <= to <= text@.len(),
            to > 0 ==> from < to,
            from < to ==> !white_space(text@[from as int]),
            forall|i: int| 0 <= i < from ==> white_space(#[trigger] text@[i]),
        decreases to - from,
    {
        from += 1;
    }
    proof {
        lemma_trimmed_at(text@, from as int, to as int);
    }
    let mut r: Vec<char> = Vec::new();
    let mut i: usize = from;
    while i < to
        invariant
            from <= i <= to <= text@.len(),
            r@ == text@.subrange(from as int, i as int),
        decreases to - i,
    {
        r.push(text[i]);
        i += 1;
    }
    r
}

/// `text` without the white space around it, as a string.
pub fn trim(text: &str) -> (r: String)
    ensures
        r@ == trimmed(text@),
{
    let chars = chars_of(text);
    let kept = trim_text(chars.as_slice());
    string_of(kept.as_slice())
}

/// Whether `part` stands in `text` at position `at`.
fn part_at(text: &[char], at: usize, part: &[char]) -> (r: bool)
    requires
        at + part@.len() <= text@.len(),
    ensures
        r == (text@.subrange(at as int, at + part@.len()) == part@),
{
    let end: usize = text.len();
    let mut i: usize = 0;
    while i < part.len()
        invariant
            i <= part@.len(),
            at + part@.len() <= text@.len() == end,
            forall|j: int| 0 <= j < i ==> text@[at + j] == part@[j],
        decreases part@.len() - i,
    {
        if text[at + i] != part[i] {
            assert(text@.subrange(at as int, at + part@.len())[i as int] != part@[i as int]);
            return false;
        }
        i += 1;
    }
    assert(text@.subrange(at as int, at + part@.len()) =~= part@);
    true
}

/// Whether `text` begins with `prefix`.
pub fn starts_with(text: &[char], prefix: &[char]) -> (r: bool)
    ensures
        r == prefix@.is_prefix_of(text@),
{
    if text.len() < prefix.len() {
        return false;
    }
    part_at(text, 0, prefix)
}

/// Whether `text` is `other`.
pub fn same_text(text: &str, other: &str) -> (r: bool)
    ensures
        r == (text@ == other@),
{
    let a = chars_of(text);
    let b = chars_of(other);
    if a.len() != b.len() {
        return false;
    }
    assert(text@.subrange(0, text@.len() as int) =~= text@);
    part_at(a.as_slice(), 0, b.as_slice())
}

/// Whether `text` has `part` somewhere in it.
pub fn contains_part(text: &[char], part: &[char]) -> (r: bool)
    ensures
        r == has_part(text@, part@),
{
    if text.len() < part.len() {
        return false;
    }
    let last: usize = text.len() - part.len();
    let mut i: usize = 0;
    loop
        invariant
            i <= last,
            last == text@.len() - part@.len(),
            forall|j: int|
                0 <= j < i ==> #[trigger] text@.subrange(j, j + part@.len()) != part@,
        decreases last - i,
    {
        if part_at(text, i, part) {
            return true;
        }
        if i == last {
            return false;
        }
        i += 1;
    }
}

/// The index of the first of `pieces` that begins with `prefix`.
pub fn find_beginning(pieces: &Vec<Vec<char>>, prefix: &[char]) -> (r: Option<usize>)
    ensures
        r is Some <==> first_beginning(views(pieces@), prefix@) is Some,
        r matches Some(i) ==> i < pieces@.len() && first_beginning(views(pieces@), prefix@) == Some(
            pieces@[i as int]@,
        ),
        r matches Some(i) ==> prefix@.is_prefix_of(pieces@[i as int]@) && forall|j: int|
            0 <= j < i ==> !prefix@.is_prefix_of((#[trigger] pieces@[j])@),
        r is None ==> forall|j: int|
            0 <= j < pieces@.len() ==> !prefix@.is_prefix_of((#[trigger] pieces@[j])@),
{
    let ghost all = views(pieces@);
    let mut i: usize = 0;
    assert(all.skip(0) =~= all);
    while i < pieces.len()
        invariant
            i <= pieces@.len(),
            all == views(pieces@),
            forall|j: int| 0 <= j < i ==> !prefix@.is_prefix_of((#[trigger] pieces@[j])@),
            first_beginning(all, prefix@) == first_beginning(all.skip(i as int), prefix@),
        decreases pieces@.len() - i,
    {
        assert(all.skip(i as int).first() == pieces@[i as int]@);
        assert(all.skip(i as int).drop_first() =~= all.skip(i + 1));
        if starts_with(pieces[i].as_slice(), prefix) {
            return Some(i);
        }
        i += 1;
    }
    None
}

/// A prefix of digits writes no larger a number than the whole.
proof fn lemma_digits_grow(digits: Seq<char>, n: int)
    requires
        0 <= n <= digits.len(),
        digits_value(digits) is Some,
    ensures
        digits_value(digits.take(n)) is Some,
        digits_value(digits.take(n))->0 <= digits_value(digits)->0,
    decreases digits.len(),
{
    if n == digits.len() {
        assert(digits.take(n) =~= digits);
    } else {
        lemma_digits_grow(digits.drop_last(), n);
        assert(digits.drop_last().take(n) =~= digits.take(n));
    }
}

/// The number that `text` writes in decimal, where it is at most `max`.
pub fn parse_number(text: &[char], max: u64) -> (r: Option<u64>)
    ensures
        r is Some <==> number_up_to(text@, max as nat) is Some,
        r matches Some(n) ==> number_up_to(text@, max as nat) == Some(n as nat),
{
    let start: usize = if text.len() > 0 && text[0] == '+' {
        1
    } else {
        0
    };
    if start == text.len() {
        return None;
    }
    let ghost digits = text@.skip(start as int);
    assert(start == 1 ==> digits =~= text@.drop_first());
    assert(start == 0 ==> digits =~= text@);
    let mut n: u64 = 0;
    let mut i: usize = start;
    while i < text.len()
        invariant
            start <= i <= text@.len(),
            digits == text@.skip(start as int),
            digits_value(digits.take(i - start)) == Some(n as nat),
            n <= max,
            start < text@.len(),
            number_of(text@) == digits_value(digits),
        decreases text@.len() - i,
    {
        let c: char = text[i];
        assert(digits.take(i + 1 - start).drop_last() =~= digits.take(i - start));
        assert(digits.take(i + 1 - start).last() == c);
        if c < '0' || c > '9' {
            proof {
                if digits_value(digits) is Some {
                    lemma_digits_grow(digits, i + 1 - start);
                }
            }
            return None;
        }
        let d: u64 = (c as u32 - '0' as u32) as u64;
        assert(digits_value(digits.take(i + 1 - start)) == Some((10 * n + d) as nat));
        let grown: u128 = 10 * (n as u128) + d as u128;
        if grown > max as u128 {
            proof {
                if digits_value(digits) is Some {
                    lemma_digits_grow(digits, i + 1 - start);
                }
            }
            return None;
        }
        n = grown as u64;
        i += 1;
    }
    assert(digits.take(i - start) =~= digits);
    Some(n)
}

} // verus!
