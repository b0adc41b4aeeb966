//! Laws of the settings and of what the system reports about itself.

use crate::environ::{
    cpu_model, device_recorded, isolcpus, numbers_in, parse_count, parse_rates, tsc_flags,
    valid_tail_environment,
};
use crate::laws::text::{
    cut_at, lemma_part, lemma_prefix, lemma_split_concat, lemma_split_none, stands_at, trims_to,
};
use crate::text::{first_beginning, parse_number, split, trim_text, Separator};
use vstd::prelude::*;

verus! {

/// A setting that is missing gives the default; one that is a number that fits gives
/// that number, and any other the default.
pub proof fn law_parse_count(
    text: &str,
    chars: &[char],
    default: usize,
    missing: usize,
    n: usize,
    number: Option<u64>,
)
    requires
        call_ensures(parse_count, (None, default), missing),
        call_ensures(parse_count, (Some(text), default), n),
        chars@ == text@,
        call_ensures(parse_number, (chars, usize::MAX as u64), number),
    ensures
        missing == default,
        number matches Some(v) ==> n == v,
        number is None ==> n == default,
{
}

/// The rates where none are asked for.
pub proof fn law_default_rates(rates: Vec<u64>)
    requires
        call_ensures(parse_rates, (None,), rates),
    ensures
        rates@ == seq![10_000u64, 100_000, 1_000_000],
{
}

/// The numbers of two lists one after the other.
proof fn lemma_numbers_concat(a: Seq<Seq<char>>, b: Seq<Seq<char>>)
    ensures
        numbers_in(a + b) == numbers_in(a) + numbers_in(b),
    decreases b.len(),
{
    if b.len() == 0 {
        assert(a + b =~= a);
        assert(numbers_in(a) + numbers_in(b) =~= numbers_in(a));
    } else {
        lemma_numbers_concat(a, b.drop_last());
        assert((a + b).drop_last() =~= a + b.drop_last());
        assert((a + b).last() == b.last());
        assert(numbers_in(a + b) =~= numbers_in(a) + numbers_in(b));
    }
}

/// The number of a list of one.
proof fn lemma_numbers_one(item: Seq<char>)
    ensures
        numbers_in(seq![item]).len() <= 1,
{
    reveal_with_fuel(numbers_in, 2);
    assert(seq![item].drop_last() =~= Seq::empty());
}

/// A list of one item gives its number, without the white space around it, where it
/// is one, and else the defaults.
pub proof fn law_one_rate(
    text: &str,
    item: &[char],
    bare: Vec<char>,
    digits: &[char],
    number: Option<u64>,
    rates: Vec<u64>,
)
    requires
        item@ == text@,
        forall|i: int| 0 <= i < text@.len() ==> #[trigger] text@[i] != ',',
        call_ensures(trim_text, (item,), bare),
        digits@ == bare@,
        call_ensures(parse_number, (digits, u64::MAX), number),
        call_ensures(parse_rates, (Some(text),), rates),
    ensures
        number matches Some(n) ==> rates@ == seq![n],
        number is None ==> rates@ == seq![10_000u64, 100_000, 1_000_000],
{
    let sep = Separator::At(',');
    assert forall|i: int| 0 <= i < text@.len() implies !cut_at(sep, #[trigger] text@[i]) by {}
    lemma_split_none(text@, sep);
    reveal_with_fuel(numbers_in, 2);
    assert(seq![text@].drop_last() =~= Seq::empty());
    assert(seq![text@].last() == text@);
    if let Some(n) = number {
        assert(Seq::<u64>::empty().push(n) =~= seq![n]);
    }
}

/// A list goes on behind a comma. With a first item that is a number, the rates of
/// `first,a,b` are those of `first,a` and then those of `first,b` without the first.
pub proof fn law_rates_of_lists(
    first: &str,
    a: &str,
    b: &str,
    only: Vec<u64>,
    first_a: &str,
    first_b: &str,
    first_a_b: &str,
    with_a: Vec<u64>,
    with_b: Vec<u64>,
    with_both: Vec<u64>,
)
    requires
        forall|i: int| 0 <= i < first@.len() ==> #[trigger] first@[i] != ',',
        call_ensures(parse_rates, (Some(first),), only),
        only@.len() == 1,
        first_a@ == first@ + seq![','] + a@,
        first_b@ == first@ + seq![','] + b@,
        first_a_b@ == first@ + seq![','] + (a@ + seq![','] + b@),
        call_ensures(parse_rates, (Some(first_a),), with_a),
        call_ensures(parse_rates, (Some(first_b),), with_b),
        call_ensures(parse_rates, (Some(first_a_b),), with_both),
    ensures
        with_a@.len() >= 1 && with_a@[0] == only@[0],
        with_b@.len() >= 1 && with_b@[0] == only@[0],
        with_both@ == with_a@ + with_b@.skip(1),
{
    let sep = Separator::At(',');
    let (x, y) = (numbers_in(split(a@, sep)), numbers_in(split(b@, sep)));
    assert forall|i: int| 0 <= i < first@.len() implies !cut_at(sep, #[trigger] first@[i]) by {}
    lemma_split_none(first@, sep);
    lemma_split_concat(first@, ',', a@, sep);
    lemma_split_concat(first@, ',', b@, sep);
    lemma_split_concat(first@, ',', a@ + seq![','] + b@, sep);
    lemma_split_concat(a@, ',', b@, sep);
    lemma_numbers_concat(split(first@, sep), split(a@, sep));
    lemma_numbers_concat(split(first@, sep), split(b@, sep));
    lemma_numbers_concat(split(first@, sep), split(a@ + seq![','] + b@, sep));
    lemma_numbers_concat(split(a@, sep), split(b@, sep));
    lemma_numbers_one(first@);
    let f = numbers_in(split(first@, sep));
    assert(f == only@);
    assert(with_a@ == f + x);
    assert(with_b@ == f + y);
    assert(with_both@ =~= f + (x + y));
    assert(with_b@.skip(1) =~= y);
    assert(with_both@ =~= with_a@ + with_b@.skip(1));
}

/// Without the first item the rates are the same, and the defaults where there is
/// none left.
pub proof fn law_rates_without_first(
    first: &str,
    only: Vec<u64>,
    a: &str,
    first_a: &str,
    with_first: Vec<u64>,
    without: Vec<u64>,
)
    requires
        forall|i: int| 0 <= i < first@.len() ==> #[trigger] first@[i] != ',',
        call_ensures(parse_rates, (Some(first),), only),
        only@.len() == 1,
        first_a@ == first@ + seq![','] + a@,
        call_ensures(parse_rates, (Some(first_a),), with_first),
        call_ensures(parse_rates, (Some(a),), without),
    ensures
        with_first@.len() > 1 ==> without@ == with_first@.skip(1),
        with_first@.len() == 1 ==> without@ == seq![10_000u64, 100_000, 1_000_000],
{
    let sep = Separator::At(',');
    let x = numbers_in(split(a@, sep));
    assert forall|i: int| 0 <= i < first@.len() implies !cut_at(sep, #[trigger] first@[i]) by {}
    lemma_split_none(first@, sep);
    lemma_split_concat(first@, ',', a@, sep);
    lemma_numbers_concat(split(first@, sep), split(a@, sep));
    lemma_numbers_one(first@);
    let f = numbers_in(split(first@, sep));
    assert(with_first@ == f + x);
    assert((f + x).skip(1) =~= x);
}

/// That a piece of `text` begins at `p`.
pub open spec fn begins(text: Seq<char>, sep: Separator, p: int) -> bool {
    0 <= p <= text.len() && (p == 0 || cut_at(sep, text[p - 1]))
}

/// That the piece of `text` that begins at `p` ends at `e`.
pub open spec fn ends(text: Seq<char>, sep: Separator, p: int, e: int) -> bool {
    &&& p <= e <= text.len()
    &&& forall|i: int| p <= i < e ==> !cut_at(sep, #[trigger] text[i])
    &&& e == text.len() || cut_at(sep, text[e])
}

/// The first piece, and then those of the rest.
proof fn lemma_first_piece(text: Seq<char>, sep: Separator, e: int)
    requires
        ends(text, sep, 0, e),
    ensures
        e == text.len() ==> split(text, sep) == seq![text],
        e < text.len() ==> split(text, sep) == seq![text.take(e)] + split(text.skip(e + 1), sep),
{
    if e == text.len() {
        lemma_split_none(text, sep);
    } else {
        let head = text.take(e);
        assert forall|i: int| 0 <= i < head.len() implies !cut_at(sep, #[trigger] head[i]) by {
            assert(head[i] == text[i]);
        }
        lemma_split_none(head, sep);
        lemma_split_concat(head, text[e], text.skip(e + 1), sep);
        assert(head + seq![text[e]] + text.skip(e + 1) =~= text);
    }
}

/// Where the first piece ends.
spec fn first_end(text: Seq<char>, sep: Separator) -> int
    decreases text.len(),
{
    if text.len() == 0 || cut_at(sep, text[0]) {
        0
    } else {
        1 + first_end(text.drop_first(), sep)
    }
}

proof fn lemma_first_end(text: Seq<char>, sep: Separator)
    ensures
        ends(text, sep, 0, first_end(text, sep)),
    decreases text.len(),
{
    if text.len() > 0 && !cut_at(sep, text[0]) {
        let rest = text.drop_first();
        lemma_first_end(rest, sep);
        let e = first_end(rest, sep);
        assert forall|i: int| 0 <= i < e + 1 implies !cut_at(sep, #[trigger] text[i]) by {
            if i > 0 {
                assert(rest[i - 1] == text[i]);
            }
        }
        if e < rest.len() {
            assert(rest[e] == text[e + 1]);
        }
    }
}

/// A prefix that no separator is in stands inside a piece.
proof fn lemma_fits(text: Seq<char>, sep: Separator, prefix: Seq<char>, e: int)
    requires
        forall|k: int| 0 <= k < prefix.len() ==> !cut_at(sep, #[trigger] prefix[k]),
        ends(text, sep, 0, e),
    ensures
        stands_at(text, prefix, 0) <==> prefix.is_prefix_of(text.take(e)),
{
    let piece = text.take(e);
    lemma_prefix(piece, prefix);
    if stands_at(text, prefix, 0) {
        if e < prefix.len() {
            assert(text[0 + e] == prefix[e]);
            assert(false);
        }
        assert forall|k: int| 0 <= k < prefix.len() implies piece[0 + k] == #[trigger] prefix[k] by {
            assert(text[0 + k] == prefix[k]);
        }
    } else if prefix.is_prefix_of(piece) {
        assert forall|k: int| 0 <= k < prefix.len() implies text[0 + k] == #[trigger] prefix[k] by {
            assert(piece[0 + k] == prefix[k]);
        }
    }
}

/// The first piece that begins with `prefix` is the one at `p`, where it does and no
/// earlier one does.
proof fn lemma_find(text: Seq<char>, sep: Separator, prefix: Seq<char>, p: int, e: int)
    requires
        forall|k: int| 0 <= k < prefix.len() ==> !cut_at(sep, #[trigger] prefix[k]),
        begins(text, sep, p),
        ends(text, sep, p, e),
        stands_at(text, prefix, p),
        forall|q: int| 0 <= q < p && begins(text, sep, q) ==> !#[trigger] stands_at(text, prefix, q),
    ensures
        first_beginning(split(text, sep), prefix) == Some(text.subrange(p, e)),
    decreases text.len(),
{
    if p == 0 {
        lemma_first_piece(text, sep, e);
        lemma_fits(text, sep, prefix, e);
        assert(text.take(e) =~= text.subrange(0, e));
        if e == text.len() {
            assert(text.take(e) =~= text);
        }
        assert(split(text, sep).first() == text.take(e));
    } else {
        let c = first_end(text, sep);
        lemma_first_end(text, sep);
        assert(c < p) by {
            if c >= p {
                assert(!cut_at(sep, text[p - 1]));
            }
        }
        let rest = text.skip(c + 1);
        lemma_first_piece(text, sep, c);
        lemma_fits(text, sep, prefix, c);
        assert(begins(text, sep, 0));
        assert(!stands_at(text, prefix, 0));
        assert(split(text, sep).first() == text.take(c));
        assert(split(text, sep).drop_first() =~= split(rest, sep));
        let (p1, e1) = (p - c - 1, e - c - 1);
        assert forall|i: int| p1 <= i < e1 implies !cut_at(sep, #[trigger] rest[i]) by {
            assert(rest[i] == text[i + c + 1]);
        }
        if e1 < rest.len() {
            assert(rest[e1] == text[e]);
        }
        if p1 > 0 {
            assert(rest[p1 - 1] == text[p - 1]);
        }
        assert forall|k: int| 0 <= k < prefix.len() implies rest[p1 + k] == #[trigger] prefix[k] by {
            assert(text[p + k] == prefix[k]);
        }
        assert forall|q: int| 0 <= q < p1 && begins(rest, sep, q) implies !#[trigger] stands_at(
            rest,
            prefix,
            q,
        ) by {
            lemma_shifted(text, sep, prefix, c, q);
        }
        lemma_find(rest, sep, prefix, p1, e1);
        assert(rest.subrange(p1, e1) =~= text.subrange(p, e));
    }
}

/// What stands at the beginning of a piece of the rest stands at one of the whole.
proof fn lemma_shifted(text: Seq<char>, sep: Separator, prefix: Seq<char>, c: int, q: int)
    requires
        0 <= c < text.len(),
        cut_at(sep, text[c]),
        begins(text.skip(c + 1), sep, q),
    ensures
        begins(text, sep, q + c + 1),
        stands_at(text.skip(c + 1), prefix, q) ==> stands_at(text, prefix, q + c + 1),
{
    let rest = text.skip(c + 1);
    if q > 0 {
        assert(rest[q - 1] == text[q + c]);
    }
    if stands_at(rest, prefix, q) {
        assert forall|k: int| 0 <= k < prefix.len() implies text[q + c + 1 + k]
            == #[trigger] prefix[k] by {
            assert(rest[q + k] == prefix[k]);
        }
    }
}

/// No piece begins with `prefix` where it stands at the beginning of none.
proof fn lemma_find_none(text: Seq<char>, sep: Separator, prefix: Seq<char>)
    requires
        forall|k: int| 0 <= k < prefix.len() ==> !cut_at(sep, #[trigger] prefix[k]),
        forall|q: int| begins(text, sep, q) ==> !#[trigger] stands_at(text, prefix, q),
    ensures
        first_beginning(split(text, sep), prefix) is None,
    decreases text.len(),
{
    reveal_with_fuel(first_beginning, 2);
    let c = first_end(text, sep);
    lemma_first_end(text, sep);
    lemma_first_piece(text, sep, c);
    lemma_fits(text, sep, prefix, c);
    assert(begins(text, sep, 0));
    assert(!stands_at(text, prefix, 0));
    if c == text.len() {
        assert(text.take(c) =~= text);
        assert(split(text, sep).drop_first() =~= Seq::empty());
    } else {
        let rest = text.skip(c + 1);
        assert(split(text, sep).first() == text.take(c));
        assert(split(text, sep).drop_first() =~= split(rest, sep));
        assert forall|q: int| begins(rest, sep, q) implies !#[trigger] stands_at(
            rest,
            prefix,
            q,
        ) by {
            lemma_shifted(text, sep, prefix, c, q);
        }
        lemma_find_none(rest, sep, prefix);
    }
}

proof fn lemma_model_name()
    ensures
        forall|k: int|
            0 <= k < "model name"@.len() ==> !cut_at(
                Separator::At('\n'),
                #[trigger] "model name"@[k],
            ),
        forall|k: int|
            0 <= k < "model name"@.len() ==> !cut_at(Separator::At(':'), #[trigger] "model name"@[k]),
{
    reveal_strlit("model name");
}

/// The processor's name. Let the line at `p` be the first that begins with
/// `model name`, let its first colon stand at `colon`, and let what follows go up to
/// `end`, where the line or another colon is: that text, without the white space
/// around it, is the name.
pub proof fn law_cpu_model(
    info: &str,
    name: String,
    p: int,
    colon: int,
    end: int,
    from: int,
    to: int,
)
    requires
        call_ensures(cpu_model, (info,), name),
        begins(info@, Separator::At('\n'), p),
        stands_at(info@, "model name"@, p),
        forall|q: int|
            0 <= q < p && begins(info@, Separator::At('\n'), q) ==> !#[trigger] stands_at(
                info@,
                "model name"@,
                q,
            ),
        p <= colon < end <= info@.len(),
        info@[colon] == ':',
        forall|i: int| p <= i < colon ==> #[trigger] info@[i] != ':' && info@[i] != '\n',
        forall|i: int| colon < i < end ==> #[trigger] info@[i] != ':' && info@[i] != '\n',
        end == info@.len() || info@[end] == ':' || info@[end] == '\n',
        trims_to(info@.subrange(colon + 1, end), from, to),
    ensures
        name@ == info@.subrange(colon + 1 + from, colon + 1 + to),
{
    let text = info@;
    let nl = Separator::At('\n');
    let co = Separator::At(':');
    lemma_model_name();
    let tail = text.skip(colon);
    lemma_first_end(tail, nl);
    let e = colon + first_end(tail, nl);
    assert forall|i: int| p <= i < e implies !cut_at(nl, #[trigger] text[i]) by {
        if i >= colon {
            assert(tail[i - colon] == text[i]);
        }
    }
    if e < text.len() {
        assert(tail[e - colon] == text[e]);
    }
    assert(e >= end) by {
        if e < end {
            assert(e == colon || text[e] != '\n');
            assert(tail[e - colon] == text[e]);
        }
    }
    lemma_find(text, nl, "model name"@, p, e);
    let line = text.subrange(p, e);
    let at = colon - p;
    assert forall|i: int| 0 <= i < at implies !cut_at(co, #[trigger] line[i]) by {
        assert(line[i] == text[p + i]);
    }
    assert(line[at] == text[colon]);
    lemma_first_piece(line, co, at);
    let rest = line.skip(at + 1);
    let n = end - colon - 1;
    assert forall|i: int| 0 <= i < n implies !cut_at(co, #[trigger] rest[i]) by {
        assert(rest[i] == text[colon + 1 + i]);
    }
    if n < rest.len() {
        assert(rest[n] == text[end]);
        assert(end < e);
        assert(!cut_at(nl, text[end]));
    }
    lemma_first_piece(rest, co, n);
    let field = text.subrange(colon + 1, end);
    assert(rest.take(n) =~= field);
    if n == rest.len() {
        assert(rest =~= field);
    }
    assert(split(rest, co)[0] == field);
    assert(split(line, co)[1] == split(rest, co)[0]);
    crate::laws::text::lemma_trims(field, from, to);
    assert(field.subrange(from, to) =~= text.subrange(colon + 1 + from, colon + 1 + to));
}

/// Where no line begins with `model name`, the name is unknown.
pub proof fn law_cpu_model_unknown(info: &str, name: String)
    requires
        call_ensures(cpu_model, (info,), name),
        forall|q: int|
            begins(info@, Separator::At('\n'), q) ==> !#[trigger] stands_at(
                info@,
                "model name"@,
                q,
            ),
    ensures
        name@ == "unknown"@,
{
    lemma_model_name();
    lemma_find_none(info@, Separator::At('\n'), "model name"@);
}

/// Where the first line that begins with `model name` has no colon, the name is
/// unknown too.
pub proof fn law_cpu_model_without_colon(info: &str, name: String, p: int, e: int)
    requires
        call_ensures(cpu_model, (info,), name),
        begins(info@, Separator::At('\n'), p),
        ends(info@, Separator::At('\n'), p, e),
        stands_at(info@, "model name"@, p),
        forall|q: int|
            0 <= q < p && begins(info@, Separator::At('\n'), q) ==> !#[trigger] stands_at(
                info@,
                "model name"@,
                q,
            ),
        forall|i: int| p <= i < e ==> #[trigger] info@[i] != ':',
    ensures
        name@ == "unknown"@,
{
    lemma_model_name();
    lemma_find(info@, Separator::At('\n'), "model name"@, p, e);
    let line = info@.subrange(p, e);
    assert forall|i: int| 0 <= i < line.len() implies !cut_at(
        Separator::At(':'),
        #[trigger] line[i],
    ) by {
        assert(line[i] == info@[p + i]);
    }
    lemma_split_none(line, Separator::At(':'));
}

/// The flags are named exactly where they stand in the text.
pub proof fn law_tsc_flags(info: &str, flags: String, constant: bool, nonstop: bool)
    requires
        call_ensures(tsc_flags, (info,), flags),
        constant <==> exists|i: int| stands_at(info@, "constant_tsc"@, i),
        nonstop <==> exists|i: int| stands_at(info@, "nonstop_tsc"@, i),
    ensures
        constant && nonstop ==> flags@ == "constant_tsc,nonstop_tsc"@,
        constant && !nonstop ==> flags@ == "constant_tsc"@,
        !constant && nonstop ==> flags@ == "nonstop_tsc"@,
        !constant && !nonstop ==> flags@ == "none (TSC may be unreliable)"@,
{
    let a = choose|i: int| stands_at(info@, "constant_tsc"@, i);
    let b = choose|i: int| stands_at(info@, "nonstop_tsc"@, i);
    lemma_part(info@, "constant_tsc"@, a);
    lemma_part(info@, "nonstop_tsc"@, b);
}

proof fn lemma_isolcpus()
    ensures
        forall|k: int|
            0 <= k < "isolcpus="@.len() ==> !cut_at(Separator::White, #[trigger] "isolcpus="@[k]),
{
    reveal_strlit("isolcpus=");
}

/// The setting is the first word that begins with `isolcpus=`, up to the next white
/// space.
pub proof fn law_isolcpus(cmdline: &str, word: String, p: int, e: int)
    requires
        call_ensures(isolcpus, (cmdline,), word),
        begins(cmdline@, Separator::White, p),
        ends(cmdline@, Separator::White, p, e),
        stands_at(cmdline@, "isolcpus="@, p),
        forall|q: int|
            0 <= q < p && begins(cmdline@, Separator::White, q) ==> !#[trigger] stands_at(
                cmdline@,
                "isolcpus="@,
                q,
            ),
    ensures
        word@ == cmdline@.subrange(p, e),
{
    lemma_isolcpus();
    lemma_find(cmdline@, Separator::White, "isolcpus="@, p, e);
}

/// Without such a word there is none.
pub proof fn law_isolcpus_none(cmdline: &str, word: String)
    requires
        call_ensures(isolcpus, (cmdline,), word),
        forall|q: int|
            begins(cmdline@, Separator::White, q) ==> !#[trigger] stands_at(
                cmdline@,
                "isolcpus="@,
                q,
            ),
    ensures
        word@ == "none"@,
{
    lemma_isolcpus();
    lemma_find_none(cmdline@, Separator::White, "isolcpus="@);
}

/// Tail latencies mean something on Linux with cores isolated, and nowhere else.
pub proof fn law_valid_tail_environment(os: &str, cores: &str, r: bool)
    requires
        call_ensures(valid_tail_environment, (os, cores), r),
    ensures
        r <==> os@ == "linux"@ && !(cores@ == "none"@),
{
}

/// A device is recorded unless its text begins with `unset`.
pub proof fn law_device_recorded(device: &str, r: bool)
    requires
        call_ensures(device_recorded, (device,), r),
    ensures
        r <==> !stands_at(device@, "unset"@, 0),
{
    lemma_prefix(device@, "unset"@);
}

} // verus!
