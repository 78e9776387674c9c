//! The codec: a lossless, deterministic conversion between a non-negative
//! 64-bit identifier and a short token over a fixed 64-symbol alphabet
//! (`A`-`Z`, `a`-`z`, `0`-`9`, `-`, `_`; index 0 is `A`, index 63 is `_`).
//!
//! A token lists base-64 digits least-significant first: each character is
//! worth 64 times more than the one before it.

use vstd::arithmetic::div_mod::lemma_multiply_divide_lt;
use vstd::arithmetic::power::pow;
use vstd::prelude::*;
use vstd::string::*;

use crate::errors::ShortyError;

verus! {

/// Index of `c` in the 64-symbol alphabet, or -1 when `c` is not in it.
pub open spec fn char_index(c: char) -> int {
    if 'A' <= c && c <= 'Z' {
        c as u32 - 'A' as u32
    } else if 'a' <= c && c <= 'z' {
        26 + c as u32 - 'a' as u32
    } else if '0' <= c && c <= '9' {
        52 + c as u32 - '0' as u32
    } else if c == '-' {
        62
    } else if c == '_' {
        63
    } else {
        -1
    }
}

/// Whether `c` belongs to the 64-symbol alphabet.
pub open spec fn is_token_char(c: char) -> bool {
    char_index(c) >= 0
}

/// Whether every character of `s` belongs to the alphabet.
pub open spec fn is_valid_token(s: Seq<char>) -> bool {
    forall|i: int| 0 <= i < s.len() ==> is_token_char(#[trigger] s[i])
}

/// The alphabet character at index `d` (meaningful for `0 <= d < 64`).
pub open spec fn index_char(d: int) -> char {
    if d < 26 {
        (('A' as u8) + d) as u8 as char
    } else if d < 52 {
        (('a' as u8) + (d - 26)) as u8 as char
    } else if d < 62 {
        (('0' as u8) + (d - 52)) as u8 as char
    } else if d == 62 {
        '-'
    } else {
        '_'
    }
}

/// The base-64 digits of `v`, least-significant first; empty for `v <= 0`.
pub open spec fn spec_digits(v: int) -> Seq<char>
    decreases v,
{
    if v <= 0 {
        Seq::empty()
    } else {
        seq![index_char(v % 64)] + spec_digits(v / 64)
    }
}

/// The canonical token of identifier `v`: `A` for zero, else the base-64
/// digits of `v`, least-significant first.
pub open spec fn spec_encode(v: int) -> Seq<char> {
    if v == 0 {
        seq!['A']
    } else {
        spec_digits(v)
    }
}

/// The integer a token stands for: the character at position `k` is a
/// base-64 digit of weight `64^k`.
pub open spec fn spec_decode(s: Seq<char>) -> int
    decreases s.len(),
{
    if s.len() == 0 {
        0
    } else {
        char_index(s[0]) + 64 * spec_decode(s.skip(1))
    }
}

/// Relies on String::push: appends the given character to the end of the
/// string.
#[verifier::external_body]
fn push_char(s: &mut String, c: char)
    ensures
        final(s)@ == old(s)@.push(c),
{
    s.push(c)
}

/// The alphabet character at index `d`.
fn index_to_char(d: u8) -> (c: char)
    requires
        d < 64,
    ensures
        c == index_char(d as int),
{
    if d < 26 {
        (('A' as u8) + d) as char
    } else if d < 52 {
        (('a' as u8) + (d - 26)) as char
    } else if d < 62 {
        (('0' as u8) + (d - 52)) as char
    } else if d == 62 {
        '-'
    } else {
        '_'
    }
}

/// The index of `c` in the alphabet, or `None` when `c` is not in it.
fn char_to_index(c: char) -> (r: Option<u8>)
    ensures
        match r {
            Some(d) => d < 64 && char_index(c) == d as int,
            None => !is_token_char(c),
        },
{
    if 'A' <= c && c <= 'Z' {
        Some((c as u32 - 'A' as u32) as u8)
    } else if 'a' <= c && c <= 'z' {
        Some((26 + c as u32 - 'a' as u32) as u8)
    } else if '0' <= c && c <= '9' {
        Some((52 + c as u32 - '0' as u32) as u8)
    } else if c == '-' {
        Some(62)
    } else if c == '_' {
        Some(63)
    } else {
        None
    }
}

/// Encodes a non-negative identifier as its canonical token.
///
/// The token lists the base-64 digits of `value` least-significant first;
/// identifier 0 becomes the single character `A`.
pub fn encode(value: i64) -> (token: String)
    requires
        value >= 0,
    ensures
        token@ == spec_encode(value as int),
{
    let mut token = String::new();
    if value == 0 {
        push_char(&mut token, 'A');
        return token;
    }
    let mut v: u64 = value as u64;
    while v != 0
        invariant
            token@ + spec_digits(v as int) == spec_digits(value as int),
        decreases v,
    {
        let d: u8 = (v % 64) as u8;
        let c = index_to_char(d);
        let ghost before = token@;
        push_char(&mut token, c);
        proof {
            assert(spec_digits(v as int) == seq![index_char(v as int % 64)] + spec_digits(
                v as int / 64,
            ));
            assert(token@ + spec_digits(v as int / 64) =~= before + spec_digits(v as int));
        }
        v = v / 64;
    }
    proof {
        assert(token@ + spec_digits(0) =~= token@);
    }
    token
}

/// Decodes a token back to the identifier it stands for.
///
/// Fails with `InvalidToken` exactly when some character of the token is
/// outside the 64-symbol alphabet, or when the token denotes an integer
/// above `i64::MAX`; otherwise returns that integer.
pub fn decode(token: &str) -> (r: Result<i64, ShortyError>)
    ensures
        match r {
            Ok(id) => is_valid_token(token@) && 0 <= id && id as int == spec_decode(token@),
            Err(e) => e == ShortyError::InvalidToken && (!is_valid_token(token@) || spec_decode(
                token@,
            ) > i64::MAX),
        },
{
    let len = token.unicode_len();
    let mut i = len;
    let mut acc: u64 = 0;
    while i > 0
        invariant
            i <= len,
            len == token@.len(),
            acc <= i64::MAX as u64,
            is_valid_token(token@.skip(i as int)),
            acc as int == spec_decode(token@.skip(i as int)),
        decreases i,
    {
        i = i - 1;
        let c = token.get_char(i);
        let ghost suffix = token@.skip(i as int);
        proof {
            assert(suffix =~= seq![token@[i as int]] + token@.skip(i as int + 1));
        }
        match char_to_index(c) {
            None => {
                proof {
                    assert(!is_token_char(token@[i as int]));
                }
                return Err(ShortyError::InvalidToken);
            },
            Some(d) => {
                let next: u128 = (acc as u128) * 64 + (d as u128);
                proof {
                    assert(suffix.skip(1) =~= token@.skip(i as int + 1));
                    assert(spec_decode(suffix) == d as int + 64 * (acc as int));
                }
                if next > i64::MAX as u128 {
                    proof {
                        if is_valid_token(token@) {
                            lemma_decode_skip_le(token@, i as int);
                        }
                    }
                    return Err(ShortyError::InvalidToken);
                }
                acc = next as u64;
            },
        }
    }
    proof {
        assert(token@.skip(0) =~= token@);
    }
    Ok(acc as i64)
}

/// The integer a valid token stands for is never negative.
proof fn lemma_decode_nonneg(s: Seq<char>)
    requires
        is_valid_token(s),
    ensures
        spec_decode(s) >= 0,
    decreases s.len(),
{
    if s.len() > 0 {
        assert(is_valid_token(s.skip(1))) by {
            assert(forall|j: int| 0 <= j < s.skip(1).len() ==> #[trigger] s.skip(1)[j] == s[j + 1]);
        }
        lemma_decode_nonneg(s.skip(1));
    }
}

/// Dropping a prefix of a valid token never increases its value.
proof fn lemma_decode_skip_le(s: Seq<char>, i: int)
    requires
        0 <= i <= s.len(),
        is_valid_token(s),
    ensures
        spec_decode(s.skip(i)) <= spec_decode(s),
    decreases i,
{
    if i > 0 {
        lemma_decode_skip_le(s, i - 1);
        let t = s.skip(i - 1);
        assert(t.skip(1) =~= s.skip(i));
        assert(is_valid_token(t)) by {
            assert(forall|j: int| 0 <= j < t.len() ==> #[trigger] t[j] == s[j + i - 1]);
        }
        lemma_decode_nonneg(s.skip(i));
        assert(t.len() > 0);
        assert(is_token_char(t[0]));
        assert(spec_decode(t) == char_index(t[0]) + 64 * spec_decode(s.skip(i)));
        assert(64 * spec_decode(s.skip(i)) >= spec_decode(s.skip(i)));
        assert(spec_decode(s.skip(i)) <= spec_decode(t));
    } else {
        assert(s.skip(0) =~= s);
    }
}

/// Taking an alphabet character's index gives back the index it was made
/// from.
proof fn lemma_index_char_roundtrip(d: int)
    requires
        0 <= d < 64,
    ensures
        is_token_char(index_char(d)),
        char_index(index_char(d)) == d,
{
}

/// The digit sequence of a non-negative integer is a valid token and
/// decodes back to that integer.
proof fn lemma_digits_decode(v: int)
    requires
        v >= 0,
    ensures
        is_valid_token(spec_digits(v)),
        spec_decode(spec_digits(v)) == v,
    decreases v,
{
    if v > 0 {
        lemma_index_char_roundtrip(v % 64);
        lemma_digits_decode(v / 64);
        let s = spec_digits(v);
        assert(s == seq![index_char(v % 64)] + spec_digits(v / 64));
        assert(s.skip(1) =~= spec_digits(v / 64));
        assert(is_valid_token(s)) by {
            assert(forall|j: int|
                1 <= j < s.len() ==> #[trigger] s[j] == spec_digits(v / 64)[j - 1]);
        }
        assert(spec_decode(s) == char_index(index_char(v % 64)) + 64 * spec_decode(
            spec_digits(v / 64),
        ));
        assert(v % 64 + 64 * (v / 64) == v);
    }
}

/// Law: decoding the canonical token of any identifier representable in
/// 63 bits gives that identifier back, and that token is made of alphabet
/// characters only.
pub proof fn lemma_round_trip(id: int)
    requires
        0 <= id <= i64::MAX,
    ensures
        is_valid_token(spec_encode(id)),
        spec_decode(spec_encode(id)) == id,
{
    if id == 0 {
        let s = spec_encode(0);
        assert(s == seq!['A']);
        assert(s.len() == 1);
        assert(s[0] == 'A');
        assert(s.skip(1) =~= Seq::<char>::empty());
        assert(spec_decode(s.skip(1)) == 0);
        assert(char_index('A') == 0);
        assert(spec_decode(s) == 0);
    } else {
        lemma_digits_decode(id);
    }
}

/// The digit sequence of `v` has at most `k` digits when `v < 64^k`.
proof fn lemma_digits_len(v: int, k: nat)
    requires
        0 <= v < pow(64, k),
    ensures
        spec_digits(v).len() <= k,
    decreases v,
{
    if v > 0 {
        reveal(pow);
        assert(pow(64, 0) == 1);
        assert(k > 0);
        assert(pow(64, k) == 64 * pow(64, (k - 1) as nat));
        lemma_multiply_divide_lt(v, 64, pow(64, (k - 1) as nat));
        lemma_digits_len(v / 64, (k - 1) as nat);
    }
}

/// Law: the canonical token of an identifier representable in 63 bits is
/// 1 to 11 characters long.
pub proof fn lemma_token_len(id: int)
    requires
        0 <= id <= i64::MAX,
    ensures
        1 <= spec_encode(id).len() <= 11,
{
    if id == 0 {
        assert(spec_encode(0).len() == 1);
    } else {
        assert(pow(64, 11) == 0x4_0000_0000_0000_0000) by {
            reveal_with_fuel(pow, 12);
        }
        lemma_digits_len(id, 11);
        assert(spec_digits(id).len() >= 1);
    }
}

/// Law: two distinct identifiers never share a canonical token.
pub proof fn lemma_encode_injective(id1: int, id2: int)
    requires
        0 <= id1 <= i64::MAX,
        0 <= id2 <= i64::MAX,
        id1 != id2,
    ensures
        spec_encode(id1) != spec_encode(id2),
{
    lemma_round_trip(id1);
    lemma_round_trip(id2);
}

} // verus!
