//! Base64 text of binary data, with the standard alphabet and `=` padding.

use vstd::prelude::*;

verus! {

/// The letter of the base64 alphabet for a six-bit value.
pub open spec fn letter(value: int) -> char {
    if value < 26 {
        (value + 'A' as int) as char
    } else if value < 52 {
        (value - 26 + 'a' as int) as char
    } else if value < 62 {
        (value - 52 + '0' as int) as char
    } else if value == 62 {
        '+'
    } else {
        '/'
    }
}

/// The six-bit value of a letter of the base64 alphabet.
pub open spec fn letter_value(c: char) -> int {
    if 'A' <= c <= 'Z' {
        c as int - 'A' as int
    } else if 'a' <= c <= 'z' {
        c as int - 'a' as int + 26
    } else if '0' <= c <= '9' {
        c as int - '0' as int + 52
    } else if c == '+' {
        62
    } else {
        63
    }
}

/// The four letters of a group of one, two or three bytes: the 24 bits of the
/// group, six by six, with `=` for the letters that no byte reaches.
pub open spec fn group_text(group: Seq<u8>) -> Seq<char> {
    let b0 = group[0] as int;
    let b1 = if group.len() > 1 {
        group[1] as int
    } else {
        0
    };
    let b2 = if group.len() > 2 {
        group[2] as int
    } else {
        0
    };
    let n = b0 * 65536 + b1 * 256 + b2;
    seq![
        letter(n / 262144),
        letter(n / 4096 % 64),
        if group.len() > 1 {
            letter(n / 64 % 64)
        } else {
            '='
        },
        if group.len() > 2 {
            letter(n % 64)
        } else {
            '='
        },
    ]
}

/// The base64 text of `data`: that of its groups of three bytes, the last of
/// which may be shorter.
pub open spec fn base64_text(data: Seq<u8>) -> Seq<char>
    decreases data.len(),
{
    if data.len() == 0 {
        Seq::empty()
    } else if data.len() <= 3 {
        group_text(data)
    } else {
        group_text(data.subrange(0, 3)) + base64_text(data.subrange(3, data.len() as int))
    }
}

/// The bytes that four letters stand for.
pub open spec fn group_bytes(text: Seq<char>) -> Seq<u8> {
    let n = letter_value(text[0]) * 262144 + letter_value(text[1]) * 4096;
    if text[2] == '=' {
        seq![(n / 65536) as u8]
    } else {
        let n = n + letter_value(text[2]) * 64;
        if text[3] == '=' {
            seq![(n / 65536) as u8, (n / 256 % 256) as u8]
        } else {
            let n = n + letter_value(text[3]);
            seq![(n / 65536) as u8, (n / 256 % 256) as u8, (n % 256) as u8]
        }
    }
}

/// The data that a base64 text stands for.
pub open spec fn base64_data(text: Seq<char>) -> Seq<u8>
    decreases text.len(),
{
    if text.len() < 4 {
        Seq::empty()
    } else {
        group_bytes(text.subrange(0, 4)) + base64_data(text.subrange(4, text.len() as int))
    }
}

/// `String::push`: appends a character to the string.
pub assume_specification[ String::push ](s: &mut String, c: char)
    ensures
        final(s)@ == old(s)@.push(c),
;

/// The letter for a six-bit value.
fn base64_letter(value: u32) -> (c: char)
    requires
        value < 64,
    ensures
        c == letter(value as int),
{
    let v: u8 = value as u8;
    if v < 26 {
        (v + 65u8) as char
    } else if v < 52 {
        (v - 26u8 + 97u8) as char
    } else if v < 62 {
        (v - 52u8 + 48u8) as char
    } else if v == 62 {
        '+'
    } else {
        '/'
    }
}

/// Minimal base64 encoder.
pub fn base64_encode(input: &[u8]) -> (out: String)
    ensures
        out@ == base64_text(input@),
{
    let mut out = String::new();
    let mut i: usize = 0;
    assert(input@.subrange(0, input@.len() as int) =~= input@);
    while i < input.len()
        invariant
            i <= input@.len(),
            base64_text(input@) == out@ + base64_text(input@.subrange(i as int, input@.len() as int)),
        decreases input@.len() - i,
    {
        let left: usize = input.len() - i;
        let b0: u32 = input[i] as u32;
        let b1: u32 = if left > 1 {
            input[i + 1] as u32
        } else {
            0
        };
        let b2: u32 = if left > 2 {
            input[i + 2] as u32
        } else {
            0
        };
        let n: u32 = b0 * 65536 + b1 * 256 + b2;
        let ghost before = out@;
        let ghost rest = input@.subrange(i as int, input@.len() as int);
        out.push(base64_letter(n / 262144));
        out.push(base64_letter(n / 4096 % 64));
        out.push(
            if left > 1 {
                base64_letter(n / 64 % 64)
            } else {
                '='
            },
        );
        out.push(
            if left > 2 {
                base64_letter(n % 64)
            } else {
                '='
            },
        );
        let step: usize = if left < 3 {
            left
        } else {
            3
        };
        proof {
            let group = rest.subrange(0, step as int);
            assert(out@ =~= before + group_text(group));
            let tail = input@.subrange(i + step, input@.len() as int);
            if left <= 3 {
                assert(group =~= rest);
                assert(tail =~= Seq::empty());
            } else {
                assert(rest.subrange(3, rest.len() as int) =~= tail);
            }
            assert(base64_text(rest) =~= group_text(group) + base64_text(tail));
            assert(before + (group_text(group) + base64_text(tail)) =~= out@ + base64_text(tail));
        }
        i = i + step;
    }
    assert(input@.subrange(i as int, input@.len() as int) =~= Seq::empty());
    assert(out@ + Seq::<char>::empty() =~= out@);
    out
}

proof fn lemma_letter_value(value: int)
    requires
        0 <= value < 64,
    ensures
        letter_value(letter(value)) == value,
        letter(value) != '=',
{
}

/// A 24-bit number is put together again from its six-bit parts.
proof fn lemma_six_bits(n: int)
    requires
        0 <= n < 16777216,
    ensures
        n == n / 262144 * 262144 + n / 4096 % 64 * 4096 + n / 64 % 64 * 64 + n % 64,
        0 <= n / 262144 < 64,
{
}

/// The bytes of a 24-bit number.
proof fn lemma_three_bytes(b0: int, b1: int, b2: int)
    requires
        0 <= b0 < 256,
        0 <= b1 < 256,
        0 <= b2 < 256,
    ensures
        ({
            let n = b0 * 65536 + b1 * 256 + b2;
            &&& 0 <= n < 16777216
            &&& n / 65536 == b0
            &&& n / 256 % 256 == b1
            &&& n % 256 == b2
            &&& b2 == 0 ==> n % 64 == 0
            &&& b1 == 0 && b2 == 0 ==> n / 64 % 64 == 0
        }),
{
}

/// The bits of a group survive the regrouping into letters.
#[verifier::spinoff_prover]
proof fn lemma_group_round_trip(group: Seq<u8>)
    requires
        1 <= group.len() <= 3,
    ensures
        group_bytes(group_text(group)) == group,
{
    let b0 = group[0] as int;
    let b1 = if group.len() > 1 {
        group[1] as int
    } else {
        0
    };
    let b2 = if group.len() > 2 {
        group[2] as int
    } else {
        0
    };
    let n = b0 * 65536 + b1 * 256 + b2;
    lemma_three_bytes(b0, b1, b2);
    lemma_six_bits(n);
    let v0 = n / 262144;
    let v1 = n / 4096 % 64;
    let v2 = n / 64 % 64;
    let v3 = n % 64;
    lemma_letter_value(v0);
    lemma_letter_value(v1);
    lemma_letter_value(v2);
    lemma_letter_value(v3);
    let text = group_text(group);
    assert(text[0] == letter(v0) && text[1] == letter(v1));
    if group.len() == 1 {
        assert(v0 * 262144 + v1 * 4096 == n);
        assert(group_bytes(text) =~= seq![(n / 65536) as u8]);
    } else if group.len() == 2 {
        assert(text[2] == letter(v2));
        assert(v0 * 262144 + v1 * 4096 + v2 * 64 == n);
        assert(group_bytes(text) =~= seq![(n / 65536) as u8, (n / 256 % 256) as u8]);
    } else {
        assert(text[2] == letter(v2) && text[3] == letter(v3));
        assert(group_bytes(text) =~= seq![
            (n / 65536) as u8,
            (n / 256 % 256) as u8,
            (n % 256) as u8,
        ]);
    }
    assert(group_bytes(text) =~= group);
}

/// Encoding loses nothing: the text determines the data, it has four letters
/// for every three bytes begun.
pub proof fn law_base64_round_trip(data: Seq<u8>)
    ensures
        base64_data(base64_text(data)) == data,
        base64_text(data).len() == (data.len() + 2) / 3 * 4,
    decreases data.len(),
{
    let text = base64_text(data);
    if data.len() == 0 {
        assert(base64_data(text) =~= data);
    } else if data.len() <= 3 {
        lemma_group_round_trip(data);
        assert(text.subrange(0, 4) =~= text);
        assert(text.subrange(4, text.len() as int) =~= Seq::empty());
        assert(base64_data(Seq::<char>::empty()) =~= Seq::empty());
        assert(base64_data(text) =~= data);
    } else {
        let head = data.subrange(0, 3);
        let tail = data.subrange(3, data.len() as int);
        law_base64_round_trip(tail);
        lemma_group_round_trip(head);
        assert(text.subrange(0, 4) =~= group_text(head));
        assert(text.subrange(4, text.len() as int) =~= base64_text(tail));
        assert(head + tail =~= data);
    }
}

} // verus!
