//! Laws of plain text.

use crate::text::{
    chars_of, contains_part, digits_value, find_beginning, is_white_space, lemma_trimmed_at,
    number_of, parse_number, same_text, split, split_text, starts_with, string_of, trim, trim_text,
    views, white_space, Separator,
};
use vstd::prelude::*;

verus! {

/// That `c` is a white-space character, by its code point.
pub open spec fn white(c: char) -> bool {
    let u = c as u32;
    ||| 9 <= u <= 13
    ||| u == 32
    ||| u == 0x85
    ||| u == 0xa0
    ||| u == 0x1680
    ||| 0x2000 <= u <= 0x200a
    ||| u == 0x2028
    ||| u == 0x2029
    ||| u == 0x202f
    ||| u == 0x205f
    ||| u == 0x3000
}

pub proof fn lemma_white(c: char)
    ensures
        white(c) <==> white_space(c),
{
}

/// The characters of a string are those of its text, in order.
pub proof fn law_chars_of(text: &str, chars: Vec<char>, i: int)
    requires
        call_ensures(chars_of, (text,), chars),
    ensures
        chars@.len() == text@.len(),
        0 <= i < text@.len() ==> chars@[i] == text@[i],
{
}

/// A string of characters has them as its text, in order.
pub proof fn law_string_of(chars: &[char], text: String, i: int)
    requires
        call_ensures(string_of, (chars,), text),
    ensures
        text@.len() == chars@.len(),
        0 <= i < chars@.len() ==> text@[i] == chars@[i],
{
}

/// White space is known by its code point.
pub proof fn law_is_white_space(c: char, r: bool)
    requires
        call_ensures(is_white_space, (c,), r),
    ensures
        ({
            let u = c as u32;
            r <==> 9 <= u <= 13 || u == 32 || u == 0x85 || u == 0xa0 || u == 0x1680 || 0x2000 <= u
                <= 0x200a || u == 0x2028 || u == 0x2029 || u == 0x202f || u == 0x205f || u == 0x3000
        }),
        r <==> white(c),
{
}

/// That text is split at `c`.
pub open spec fn cut_at(sep: Separator, c: char) -> bool {
    match sep {
        Separator::At(at) => at == c,
        Separator::White => white(c),
    }
}

/// There is always a piece.
pub proof fn lemma_split_nonempty(text: Seq<char>, sep: Separator)
    ensures
        split(text, sep).len() >= 1,
    decreases text.len(),
{
    if text.len() > 0 {
        lemma_split_nonempty(text.drop_last(), sep);
    }
}

/// Text without separators is one piece.
pub proof fn lemma_split_none(text: Seq<char>, sep: Separator)
    requires
        forall|i: int| 0 <= i < text.len() ==> !cut_at(sep, #[trigger] text[i]),
    ensures
        split(text, sep) == seq![text],
    decreases text.len(),
{
    if text.len() == 0 {
        assert(text =~= Seq::empty());
    } else {
        let before = text.drop_last();
        assert forall|i: int| 0 <= i < before.len() implies !cut_at(sep, #[trigger] before[i]) by {
            assert(before[i] == text[i]);
        }
        lemma_split_none(before, sep);
        assert(!cut_at(sep, text[text.len() - 1]));
        assert(before.push(text.last()) =~= text);
        assert(seq![before].drop_last().push(before.push(text.last())) =~= seq![text]);
    }
}

/// Splitting goes on behind a separator as if the text began there.
pub proof fn lemma_split_concat(a: Seq<char>, c: char, b: Seq<char>, sep: Separator)
    requires
        cut_at(sep, c),
    ensures
        split(a + seq![c] + b, sep) == split(a, sep) + split(b, sep),
    decreases b.len(),
{
    let text = a + seq![c] + b;
    lemma_split_nonempty(a, sep);
    if b.len() == 0 {
        assert(text.drop_last() =~= a);
        assert(b =~= Seq::empty());
        assert(split(a, sep).push(Seq::empty()) =~= split(a, sep) + split(b, sep));
    } else {
        let fewer = b.drop_last();
        lemma_split_concat(a, c, fewer, sep);
        lemma_split_nonempty(fewer, sep);
        assert(text.drop_last() =~= a + seq![c] + fewer);
        assert(text.last() == b.last());
        let before = split(a, sep) + split(fewer, sep);
        assert(before.last() == split(fewer, sep).last());
        if sep.cuts(b.last()) {
            assert(before.push(Seq::empty()) =~= split(a, sep) + split(b, sep));
        } else {
            assert(before.drop_last().push(before.last().push(b.last())) =~= split(a, sep) + split(
                b,
                sep,
            ));
        }
    }
}

/// Text in which nothing cuts is its only piece.
pub proof fn law_split_whole(text: &[char], sep: Separator, pieces: Vec<Vec<char>>)
    requires
        call_ensures(split_text, (text, sep), pieces),
        forall|i: int|
            0 <= i < text@.len() ==> match sep {
                Separator::At(at) => #[trigger] text@[i] != at,
                Separator::White => !white(text@[i]),
            },
    ensures
        pieces@.len() == 1,
        pieces@[0]@ == text@,
{
    assert forall|i: int| 0 <= i < text@.len() implies !cut_at(sep, #[trigger] text@[i]) by {}
    lemma_split_none(text@, sep);
    assert(views(pieces@).len() == 1);
    assert(views(pieces@)[0] == pieces@[0]@);
}

/// A separator parts the text: its pieces are those before it and then those
/// behind it.
pub proof fn law_split_parts(
    text: &[char],
    a: &[char],
    c: char,
    b: &[char],
    sep: Separator,
    pieces: Vec<Vec<char>>,
    before: Vec<Vec<char>>,
    behind: Vec<Vec<char>>,
    i: int,
)
    requires
        text@ == a@ + seq![c] + b@,
        match sep {
            Separator::At(at) => c == at,
            Separator::White => white(c),
        },
        call_ensures(split_text, (text, sep), pieces),
        call_ensures(split_text, (a, sep), before),
        call_ensures(split_text, (b, sep), behind),
    ensures
        pieces@.len() == before@.len() + behind@.len(),
        0 <= i < before@.len() ==> pieces@[i]@ == before@[i]@,
        0 <= i < behind@.len() ==> pieces@[before@.len() + i]@ == behind@[i]@,
{
    lemma_split_concat(a@, c, b@, sep);
    let (p, x, y) = (views(pieces@), views(before@), views(behind@));
    assert(p == x + y);
    assert(p.len() == pieces@.len() && x.len() == before@.len() && y.len() == behind@.len());
    if 0 <= i < before@.len() {
        assert(p[i] == pieces@[i]@ && x[i] == before@[i]@);
    }
    if 0 <= i < behind@.len() {
        assert(p[x.len() + i] == pieces@[before@.len() + i]@ && y[i] == behind@[i]@);
    }
}

/// That trimming `text` leaves what stands from `from` up to `to`: there is white
/// space around it, and none at its ends.
pub open spec fn trims_to(text: Seq<char>, from: int, to: int) -> bool {
    &&& 0 <= from <= to <= text.len()
    &&& forall|i: int| 0 <= i < from ==> white(#[trigger] text[i])
    &&& forall|i: int| to <= i < text.len() ==> white(#[trigger] text[i])
    &&& from < to ==> !white(text[from]) && !white(text[to - 1])
}

pub proof fn lemma_trims(text: Seq<char>, from: int, to: int)
    requires
        trims_to(text, from, to),
    ensures
        crate::text::trimmed(text) == text.subrange(from, to),
{
    assert forall|i: int| to <= i < text.len() implies white_space(#[trigger] text[i]) by {
        lemma_white(text[i]);
    }
    assert forall|i: int| 0 <= i < from implies white_space(#[trigger] text[i]) by {
        lemma_white(text[i]);
    }
    if from < to {
        lemma_white(text[from]);
        lemma_white(text[to - 1]);
    }
    if from == to {
        lemma_trimmed_at(text, 0, 0);
        assert(text.subrange(0, 0) =~= text.subrange(from, to));
    } else {
        lemma_trimmed_at(text, from, to);
    }
}

/// Trimming takes away the white space around the text and nothing else.
pub proof fn law_trim_text(text: &[char], r: Vec<char>, from: int, to: int)
    requires
        call_ensures(trim_text, (text,), r),
        0 <= from <= to <= text@.len(),
        forall|i: int| 0 <= i < from ==> white(#[trigger] text@[i]),
        forall|i: int| to <= i < text@.len() ==> white(#[trigger] text@[i]),
        from < to ==> !white(text@[from]) && !white(text@[to - 1]),
    ensures
        r@ == text@.subrange(from, to),
{
    lemma_trims(text@, from, to);
}

/// The same of a string.
pub proof fn law_trim(text: &str, r: String, from: int, to: int)
    requires
        call_ensures(trim, (text,), r),
        0 <= from <= to <= text@.len(),
        forall|i: int| 0 <= i < from ==> white(#[trigger] text@[i]),
        forall|i: int| to <= i < text@.len() ==> white(#[trigger] text@[i]),
        from < to ==> !white(text@[from]) && !white(text@[to - 1]),
    ensures
        r@ == text@.subrange(from, to),
{
    lemma_trims(text@, from, to);
}

/// That `part` stands in `text` at `at`.
pub open spec fn stands_at(text: Seq<char>, part: Seq<char>, at: int) -> bool {
    &&& 0 <= at <= text.len() - part.len()
    &&& forall|k: int| 0 <= k < part.len() ==> text[at + k] == #[trigger] part[k]
}

pub proof fn lemma_prefix(text: Seq<char>, prefix: Seq<char>)
    ensures
        prefix.is_prefix_of(text) <==> stands_at(text, prefix, 0),
{
    if stands_at(text, prefix, 0) {
        assert(prefix =~= text.subrange(0, prefix.len() as int));
    } else if prefix.is_prefix_of(text) {
        assert forall|k: int| 0 <= k < prefix.len() implies text[0 + k] == #[trigger] prefix[k] by {
            assert(text.subrange(0, prefix.len() as int)[k] == text[k]);
        }
    }
}

/// Text starts with a prefix when its first characters are those of the prefix.
pub proof fn law_starts_with(text: &[char], prefix: &[char], r: bool)
    requires
        call_ensures(starts_with, (text, prefix), r),
    ensures
        r <==> prefix@.len() <= text@.len() && forall|k: int|
            0 <= k < prefix@.len() ==> #[trigger] text@[k] == prefix@[k],
        r <==> stands_at(text@, prefix@, 0),
{
    lemma_prefix(text@, prefix@);
    if stands_at(text@, prefix@, 0) {
        assert forall|k: int| 0 <= k < prefix@.len() implies #[trigger] text@[k] == prefix@[k] by {
            assert(text@[0 + k] == prefix@[k]);
        }
    }
}

/// Texts are the same when they have the same characters.
pub proof fn law_same_text(a: &str, b: &str, r: bool)
    requires
        call_ensures(same_text, (a, b), r),
    ensures
        r <==> a@.len() == b@.len() && forall|i: int| 0 <= i < a@.len() ==> #[trigger] a@[i] == b@[i],
{
    if a@.len() == b@.len() && (forall|i: int| 0 <= i < a@.len() ==> #[trigger] a@[i] == b@[i]) {
        assert(a@ =~= b@);
    }
}

/// Text has a part exactly when it stands somewhere in it.
pub proof fn law_contains_part(text: &[char], part: &[char], r: bool, at: int)
    requires
        call_ensures(contains_part, (text, part), r),
    ensures
        0 <= at <= text@.len() - part@.len() && (forall|k: int|
            0 <= k < part@.len() ==> text@[at + k] == #[trigger] part@[k]) ==> r,
        r ==> exists|i: int| stands_at(text@, part@, i),
{
    lemma_part(text@, part@, at);
}

pub proof fn lemma_part(text: Seq<char>, part: Seq<char>, at: int)
    ensures
        stands_at(text, part, at) ==> crate::text::has_part(text, part),
        crate::text::has_part(text, part) ==> exists|i: int| stands_at(text, part, i),
{
    if stands_at(text, part, at) {
        assert(text.subrange(at, at + part.len()) =~= part);
    }
    if crate::text::has_part(text, part) {
        let i = choose|i: int|
            0 <= i <= text.len() - part.len() && #[trigger] text.subrange(i, i + part.len())
                == part;
        assert forall|k: int| 0 <= k < part.len() implies text[i + k] == #[trigger] part[k] by {
            assert(text.subrange(i, i + part.len())[k] == text[i + k]);
        }
        assert(stands_at(text, part, i));
    }
}

/// What is found is the first piece that begins with the prefix; nothing is found
/// only where there is none.
pub proof fn law_find_beginning(
    pieces: &Vec<Vec<char>>,
    prefix: &[char],
    r: Option<usize>,
    j: int,
)
    requires
        call_ensures(find_beginning, (pieces, prefix), r),
        0 <= j < pieces@.len(),
    ensures
        r matches Some(i) ==> i < pieces@.len() && stands_at(pieces@[i as int]@, prefix@, 0),
        r matches Some(i) ==> (j < i ==> !stands_at(pieces@[j]@, prefix@, 0)),
        r is None ==> !stands_at(pieces@[j]@, prefix@, 0),
{
    lemma_prefix(pieces@[j]@, prefix@);
    if let Some(i) = r {
        lemma_prefix(pieces@[i as int]@, prefix@);
    }
}

/// That `c` is a decimal digit.
pub open spec fn digit(c: char) -> bool {
    48 <= c as u32 <= 57
}

proof fn lemma_digit(c: char)
    ensures
        digit(c) <==> crate::text::digit_value(c) is Some,
        digit(c) ==> crate::text::digit_value(c)->0 == c as u32 - 48,
        digit(c) ==> c != '+',
{
}

/// No text and a lone sign are no numbers; a single character is one where it is a
/// digit.
pub proof fn law_number_short(text: &[char], max: u64, r: Option<u64>)
    requires
        call_ensures(parse_number, (text, max), r),
        text@.len() <= 1,
    ensures
        text@.len() == 0 ==> r is None,
        text@.len() == 1 ==> {
            let c = text@[0];
            &&& r is Some <==> 48 <= c as u32 <= 57 && c as u32 - 48 <= max
            &&& r matches Some(n) ==> n == c as u32 - 48
        },
{
    reveal_with_fuel(digits_value, 3);
    if text@.len() == 1 {
        let rest = text@.drop_first();
        assert(rest.len() == 0);
        assert(text@.drop_last() =~= Seq::empty());
        lemma_digit(text@[0]);
        assert(text@.last() == text@[0]);
    }
}

/// One character more at the end: it has to be a digit, and the number is ten times
/// the one before plus that digit, as long as that is not too large.
pub proof fn law_number_grows(
    text: &[char],
    longer: &[char],
    c: char,
    max: u64,
    a: Option<u64>,
    b: Option<u64>,
)
    requires
        longer@ == text@.push(c),
        text@.len() > 0,
        !(text@.len() == 1 && text@[0] == '+'),
        call_ensures(parse_number, (text, max), a),
        call_ensures(parse_number, (longer, max), b),
    ensures
        b is Some <==> (a matches Some(n) && 48 <= c as u32 <= 57 && 10 * n + (c as u32 - 48) <= max),
        b matches Some(m) ==> m == 10 * a->0 + (c as u32 - 48),
{
    let (t, l) = (text@, longer@);
    if t.first() == '+' {
        assert(l.drop_first() =~= t.drop_first().push(c));
        assert(l.drop_first().drop_last() =~= t.drop_first());
    } else {
        assert(l.drop_last() =~= t);
    }
    assert(l.first() == t.first());
    lemma_digit(c);
}

/// A sign in front of a digit changes nothing.
pub proof fn law_number_sign(
    text: &[char],
    signed: &[char],
    c: char,
    max: u64,
    a: Option<u64>,
    b: Option<u64>,
)
    requires
        text@ == seq![c],
        signed@ == seq!['+', c],
        call_ensures(parse_number, (text, max), a),
        call_ensures(parse_number, (signed, max), b),
        c != '+',
    ensures
        a is Some <==> b is Some,
        a is Some ==> a->0 == b->0,
{
    assert(signed@.drop_first() =~= text@);
}

/// Two signs are no number.
pub proof fn law_number_two_signs(text: &[char], max: u64, r: Option<u64>)
    requires
        text@ == seq!['+', '+'],
        call_ensures(parse_number, (text, max), r),
    ensures
        r is None,
{
    reveal_with_fuel(digits_value, 3);
    assert(text@.drop_first() =~= seq!['+']);
}

} // verus!
