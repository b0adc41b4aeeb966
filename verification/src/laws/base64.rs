//! Laws of the base64 text.

use crate::base64::{base64_encode, base64_text, group_text, law_base64_round_trip, letter};
use vstd::arithmetic::div_mod::lemma_fundamental_div_mod_converse;
use vstd::prelude::*;

verus! {

/// The letters of a group of bytes stand where the group does.
proof fn lemma_group_at(data: Seq<u8>, i: int, end: int)
    requires
        0 <= i,
        3 * i < data.len(),
        end == (if 3 * i + 3 < data.len() {
            3 * i + 3
        } else {
            data.len() as int
        }),
    ensures
        base64_text(data).len() >= 4 * i + 4,
        base64_text(data).subrange(4 * i, 4 * i + 4) == group_text(data.subrange(3 * i, end)),
    decreases data.len(),
{
    law_base64_round_trip(data);
    let text = base64_text(data);
    if data.len() <= 3 {
        assert(data.subrange(0, end) =~= data);
        assert(text.subrange(0, 4) =~= group_text(data));
    } else if i == 0 {
        assert(text.subrange(0, 4) =~= group_text(data.subrange(0, 3)));
    } else {
        let rest = data.subrange(3, data.len() as int);
        lemma_group_at(rest, i - 1, end - 3);
        assert(rest.subrange(3 * (i - 1), end - 3) =~= data.subrange(3 * i, end));
        assert(text.subrange(4 * i, 4 * i + 4) =~= base64_text(rest).subrange(
            4 * (i - 1),
            4 * (i - 1) + 4,
        ));
    }
}

/// That `c` is the letter for the six bits `v`.
pub open spec fn is_letter(c: char, v: int) -> bool {
    c == "ABCDEFGHIJKLMNOPQRSTUVWXYZabcdefghijklmnopqrstuvwxyz0123456789+/"@[v]
}

/// Three bytes make 24 bits, `b0 * 65536 + b1 * 256 + b2`, and these four letters
/// of six bits each. A group at the end that is short has zero bits for what is
/// missing and `=` for the letters that no byte reaches. The text is that of its
/// groups and no more.
#[verifier::spinoff_prover]
pub proof fn law_letters(input: &[u8], out: String, i: int, groups: int)
    requires
        call_ensures(base64_encode, (input,), out),
        0 <= i,
        3 * i < input@.len(),
        3 * (groups - 1) < input@.len() <= 3 * groups,
    ensures
        out@.len() == 4 * groups,
        ({
            let alphabet = "ABCDEFGHIJKLMNOPQRSTUVWXYZabcdefghijklmnopqrstuvwxyz0123456789+/"@;
            let n = input@.len();
            let b0 = input@[3 * i] as int;
            let b1 = if 3 * i + 1 < n {
                input@[3 * i + 1] as int
            } else {
                0
            };
            let b2 = if 3 * i + 2 < n {
                input@[3 * i + 2] as int
            } else {
                0
            };
            &&& out@[4 * i] == alphabet[b0 / 4]
            &&& out@[4 * i + 1] == alphabet[b0 % 4 * 16 + b1 / 16]
            &&& 3 * i + 1 < n ==> out@[4 * i + 2] == alphabet[b1 % 16 * 4 + b2 / 64]
            &&& 3 * i + 1 >= n ==> out@[4 * i + 2] == '='
            &&& 3 * i + 2 < n ==> out@[4 * i + 3] == alphabet[b2 % 64]
            &&& 3 * i + 2 >= n ==> out@[4 * i + 3] == '='
        }),
{
    let data = input@;
    let end = if 3 * i + 3 < data.len() {
        3 * i + 3
    } else {
        data.len() as int
    };
    law_base64_round_trip(data);
    lemma_group_at(data, i, end);
    let group = data.subrange(3 * i, end);
    let text = out@.subrange(4 * i, 4 * i + 4);
    assert(text[0] == out@[4 * i] && text[1] == out@[4 * i + 1] && text[2] == out@[4 * i + 2]
        && text[3] == out@[4 * i + 3]);
    assert(group[0] == data[3 * i]);
    assert(group.len() > 1 ==> group[1] == data[3 * i + 1]);
    assert(group.len() > 2 ==> group[2] == data[3 * i + 2]);
    lemma_group_letters(group);
}

proof fn lemma_letter(v: int)
    requires
        0 <= v < 64,
    ensures
        is_letter(letter(v), v),
{
    reveal_strlit("ABCDEFGHIJKLMNOPQRSTUVWXYZabcdefghijklmnopqrstuvwxyz0123456789+/");
}

#[verifier::spinoff_prover]
proof fn lemma_group_letters(group: Seq<u8>)
    requires
        1 <= group.len() <= 3,
    ensures
        ({
            let b0 = group[0] as int;
            let b1 = if group.len() > 1 {
                group[1] as int
            } else {
                0
            };
            let b2 = if group.len() > 2 {
                group[2] as int
            } else {
                0
            };
            let text = group_text(group);
            &&& is_letter(text[0], b0 / 4)
            &&& is_letter(text[1], b0 % 4 * 16 + b1 / 16)
            &&& group.len() > 1 ==> is_letter(text[2], b1 % 16 * 4 + b2 / 64)
            &&& group.len() <= 1 ==> text[2] == '='
            &&& group.len() > 2 ==> is_letter(text[3], b2 % 64)
            &&& group.len() <= 2 ==> text[3] == '='
        }),
{
    let b0 = group[0] as int;
    let b1 = if group.len() > 1 {
        group[1] as int
    } else {
        0
    };
    let b2 = if group.len() > 2 {
        group[2] as int
    } else {
        0
    };
    lemma_bits(b0, b1, b2);
    lemma_letter(b0 / 4);
    lemma_letter(b0 % 4 * 16 + b1 / 16);
    lemma_letter(b1 % 16 * 4 + b2 / 64);
    lemma_letter(b2 % 64);
}

proof fn lemma_bits(b0: int, b1: int, b2: int)
    requires
        0 <= b0 < 256,
        0 <= b1 < 256,
        0 <= b2 < 256,
    ensures
        ({
            let n = b0 * 65536 + b1 * 256 + b2;
            &&& n / 262144 == b0 / 4
            &&& n / 4096 % 64 == b0 % 4 * 16 + b1 / 16
            &&& n / 64 % 64 == b1 % 16 * 4 + b2 / 64
            &&& n % 64 == b2 % 64
        }),
{
    let n = b0 * 65536 + b1 * 256 + b2;
    let (v0, r0) = (b0 / 4, b0 % 4);
    let (v1, r1) = (b1 / 16, b1 % 16);
    let (v2, r2) = (b2 / 64, b2 % 64);
    let low = (r1 * 4 + v2) * 64 + r2;
    let mid = (r0 * 16 + v1) * 64 + (r1 * 4 + v2);
    assert(n == v0 * 262144 + (r0 * 16 + v1) * 4096 + low);
    assert(0 <= low < 4096);
    lemma_fundamental_div_mod_converse(n, 262144, v0, (r0 * 16 + v1) * 4096 + low);
    lemma_fundamental_div_mod_converse(n, 4096, v0 * 64 + (r0 * 16 + v1), low);
    lemma_fundamental_div_mod_converse(v0 * 64 + (r0 * 16 + v1), 64, v0, r0 * 16 + v1);
    lemma_fundamental_div_mod_converse(n, 64, v0 * 4096 + mid, r2);
    lemma_fundamental_div_mod_converse(
        v0 * 4096 + mid,
        64,
        v0 * 64 + (r0 * 16 + v1),
        r1 * 4 + v2,
    );
}

/// No data, no text.
pub proof fn law_empty(input: &[u8], out: String)
    requires
        call_ensures(base64_encode, (input,), out),
    ensures
        out@.len() == 0 <==> input@.len() == 0,
{
    law_base64_round_trip(input@);
}

} // verus!
