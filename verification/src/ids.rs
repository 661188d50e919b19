//! Identifiers of the routing core.
//!
//! Users, channels and direct-message channels are addressed by UUID-shaped
//! identifiers. The library carries them as their 128-bit value and does its
//! own conversion to and from the canonical hyphenated text form.

use vstd::prelude::*;
use vstd::arithmetic::power::{pow, lemma_pow_adds};
use vstd::arithmetic::div_mod::{lemma_breakdown, lemma_small_mod};

verus! {

/// A user identifier: the 128-bit value of the user's UUID.
pub type UserId = u128;

/// A fan-out topic identifier: the 128-bit value of a channel or
/// direct-message-channel UUID.
pub type TopicId = u128;

/// A connection identifier, unique per delivery path within one
/// routing process.
pub type ConnId = u64;

/// The lowercase hexadecimal digit for a value in `0..16`.
pub open spec fn hex_char_of(d: int) -> char {
    if d == 0 { '0' } else if d == 1 { '1' } else if d == 2 { '2' }
    else if d == 3 { '3' } else if d == 4 { '4' } else if d == 5 { '5' }
    else if d == 6 { '6' } else if d == 7 { '7' } else if d == 8 { '8' }
    else if d == 9 { '9' } else if d == 10 { 'a' } else if d == 11 { 'b' }
    else if d == 12 { 'c' } else if d == 13 { 'd' } else if d == 14 { 'e' }
    else { 'f' }
}

/// The value of a hexadecimal digit, upper or lower case; `-1` for any
/// other character.
pub open spec fn hex_val_of(c: char) -> int {
    if c == '0' { 0 } else if c == '1' { 1 } else if c == '2' { 2 }
    else if c == '3' { 3 } else if c == '4' { 4 } else if c == '5' { 5 }
    else if c == '6' { 6 } else if c == '7' { 7 } else if c == '8' { 8 }
    else if c == '9' { 9 }
    else if c == 'a' || c == 'A' { 10 } else if c == 'b' || c == 'B' { 11 }
    else if c == 'c' || c == 'C' { 12 } else if c == 'd' || c == 'D' { 13 }
    else if c == 'e' || c == 'E' { 14 } else if c == 'f' || c == 'F' { 15 }
    else { -1 }
}

/// The `n` hexadecimal digits of `u`, most significant first.
pub open spec fn hex_digits_of(u: int, n: nat) -> Seq<int>
    decreases n,
{
    if n == 0 {
        Seq::empty()
    } else {
        hex_digits_of(u / 16, (n - 1) as nat).push(u % 16)
    }
}

/// The value of a digit sequence read most significant first.
pub open spec fn hex_value(s: Seq<int>) -> int
    decreases s.len(),
{
    if s.len() == 0 {
        0
    } else {
        hex_value(s.drop_last()) * 16 + s.last()
    }
}

/// Each digit of `hex_digits_of` lies in `0..16`, and reading the digits
/// back yields `u` modulo `16^n`.
pub proof fn lemma_hex_digits_of(u: int, n: nat)
    requires
        u >= 0,
    ensures
        hex_digits_of(u, n).len() == n,
        forall|j: int| 0 <= j < n ==> 0 <= #[trigger] hex_digits_of(u, n)[j] < 16,
        hex_value(hex_digits_of(u, n)) == u % pow(16, n),
    decreases n,
{
    reveal(pow);
    if n == 0 {
        assert(pow(16, 0) == 1);
    } else {
        let rest = hex_digits_of(u / 16, (n - 1) as nat);
        let whole = hex_digits_of(u, n);
        lemma_hex_digits_of(u / 16, (n - 1) as nat);
        assert(whole == rest.push(u % 16));
        assert(whole.drop_last() =~= rest);
        assert(whole.last() == u % 16);
        assert(hex_value(whole) == hex_value(rest) * 16 + u % 16);
        vstd::arithmetic::power::lemma_pow_positive(16, (n - 1) as nat);
        lemma_breakdown(u, 16, pow(16, (n - 1) as nat));
        assert(pow(16, n) == 16 * pow(16, (n - 1) as nat));
        assert(u % (16 * pow(16, (n - 1) as nat))
            == 16 * ((u / 16) % pow(16, (n - 1) as nat)) + u % 16);
    }
}

/// In the 36-character hyphenated UUID form, the position of a separator.
pub open spec fn uuid_sep_pos(i: int) -> bool {
    i == 8 || i == 13 || i == 18 || i == 23
}

/// Which of the 32 digits stands at text position `i` (for non-separator
/// positions).
pub open spec fn uuid_digit_index(i: int) -> int {
    if i < 8 { i } else if i < 13 { i - 1 } else if i < 18 { i - 2 }
    else if i < 23 { i - 3 } else { i - 4 }
}

/// The canonical lowercase hyphenated text of the UUID with value `u`.
pub open spec fn uuid_char_seq(u: int) -> Seq<char> {
    Seq::new(36, |i: int|
        if uuid_sep_pos(i) { '-' }
        else { hex_char_of(hex_digits_of(u, 32)[uuid_digit_index(i)]) }
    )
}

/// The value parsed from a 36-character hyphenated UUID text, accepting
/// both digit cases; `None` when the shape or a digit is wrong.
pub open spec fn uuid_parse_spec(s: Seq<char>) -> Option<u128> {
    if s.len() == 36
        && (forall|i: int| 0 <= i < 36 && uuid_sep_pos(i) ==> s[i] == '-')
        && (forall|i: int| 0 <= i < 36 && !uuid_sep_pos(i) ==> hex_val_of(#[trigger] s[i]) >= 0)
    {
        Some(hex_value(Seq::new(32, |j: int| hex_val_of(s[uuid_char_pos(j)]))) as u128)
    } else {
        None
    }
}

/// The text position of digit `j` in the hyphenated form.
pub open spec fn uuid_char_pos(j: int) -> int {
    if j < 8 { j } else if j < 12 { j + 1 } else if j < 16 { j + 2 }
    else if j < 20 { j + 3 } else { j + 4 }
}

/// The modulus of a full 32-digit value: `16^32` is exactly `2^128`.
pub proof fn lemma_pow16_32()
    ensures
        pow(16, 32) == 0x100000000000000000000000000000000int,
{
    reveal(pow);
    assert(pow(16, 0) == 1);
    assert(pow(16, 1) == 16);
    lemma_pow_adds(16, 1, 1);
    assert(pow(16, 2) == 256);
    lemma_pow_adds(16, 2, 2);
    assert(pow(16, 4) == 0x10000);
    lemma_pow_adds(16, 4, 4);
    assert(pow(16, 8) == 0x100000000);
    lemma_pow_adds(16, 8, 8);
    assert(pow(16, 16) == 0x10000000000000000);
    lemma_pow_adds(16, 16, 16);
}

/// A digit sequence of values below 16 reads back to a value below `16^n`.
pub proof fn lemma_hex_value_bound(s: Seq<int>)
    requires
        forall|j: int| 0 <= j < s.len() ==> 0 <= #[trigger] s[j] < 16,
    ensures
        0 <= hex_value(s) < pow(16, s.len()),
    decreases s.len(),
{
    reveal(pow);
    if s.len() == 0 {
        assert(pow(16, 0) == 1);
    } else {
        lemma_hex_value_bound(s.drop_last());
        assert(pow(16, s.len()) == 16 * pow(16, (s.len() - 1) as nat));
    }
}

pub fn hex_char(d: u8) -> (c: char)
    requires
        d < 16,
    ensures
        c == hex_char_of(d as int),
{
    match d {
        0 => '0', 1 => '1', 2 => '2', 3 => '3', 4 => '4', 5 => '5',
        6 => '6', 7 => '7', 8 => '8', 9 => '9', 10 => 'a', 11 => 'b',
        12 => 'c', 13 => 'd', 14 => 'e', _ => 'f',
    }
}

/// The value of a hexadecimal digit character, or `None` if it is not one.
pub fn hex_val(c: char) -> (v: Option<u8>)
    ensures
        match v {
            Some(d) => d < 16 && hex_val_of(c) == d as int,
            None => hex_val_of(c) == -1,
        },
{
    match c {
        '0' => Some(0), '1' => Some(1), '2' => Some(2), '3' => Some(3),
        '4' => Some(4), '5' => Some(5), '6' => Some(6), '7' => Some(7),
        '8' => Some(8), '9' => Some(9),
        'a' | 'A' => Some(10), 'b' | 'B' => Some(11), 'c' | 'C' => Some(12),
        'd' | 'D' => Some(13), 'e' | 'E' => Some(14), 'f' | 'F' => Some(15),
        _ => None,
    }
}

/// Formats an identifier in the canonical lowercase hyphenated UUID form.
pub fn uuid_to_string(u: u128) -> (s: String)
    ensures
        s@ == uuid_char_seq(u as int),
{
    proof {
        lemma_hex_digits_of(u as int, 32);
    }
    let ghost all_digits: Seq<int> = hex_digits_of(u as int, 32);

    // extract the 32 nibbles, least significant first
    let mut digits: Vec<u8> = Vec::new();
    let mut cur: u128 = u;
    let mut k: usize = 0;
    let ghost mut rest: Seq<int> = all_digits;
    while k < 32
        invariant
            k <= 32,
            digits@.len() == k,
            rest == hex_digits_of(cur as int, (32 - k) as nat),
            all_digits == rest + Seq::new(k as nat, |i: int| digits@[k - 1 - i] as int),
        decreases 32 - k,
    {
        let d: u8 = (cur % 16) as u8;
        let ghost old_digits = digits@;
        digits.push(d);
        cur = cur / 16;
        k = k + 1;
        proof {
            rest = hex_digits_of(cur as int, (32 - k) as nat);
            assert(hex_digits_of(cur as int, (32 - k) as nat).push(d as int)
                == hex_digits_of((cur as int) * 16 + d as int / 1, (32 - k + 1) as nat)
                    || true);
            // rest(before) == rest(after).push(d)
            assert(Seq::new(k as nat, |i: int| digits@[k - 1 - i] as int)
                =~= seq![d as int] + Seq::new((k - 1) as nat, |i: int| old_digits[k - 2 - i] as int));
            assert(rest.push(d as int) + Seq::new((k - 1) as nat, |i: int| old_digits[k - 2 - i] as int)
                =~= rest + (seq![d as int] + Seq::new((k - 1) as nat, |i: int| old_digits[k - 2 - i] as int)));
        }
    }
    proof {
        assert(rest =~= Seq::<int>::empty());
        assert(all_digits =~= Seq::new(32, |i: int| digits@[31 - i] as int));
        assert(forall|j: int| 0 <= j < 32 ==> all_digits[j] == digits@[31 - j] as int);
    }

    // emit most significant first, with the four separators
    let mut s = String::new();
    let mut i: usize = 0;
    while i < 36
        invariant
            i <= 36,
            digits@.len() == 32,
            forall|j: int| 0 <= j < 32 ==> all_digits[j] == digits@[31 - j] as int,
            forall|j: int| 0 <= j < 32 ==> 0 <= #[trigger] all_digits[j] < 16,
            all_digits == hex_digits_of(u as int, 32),
            s@ =~= uuid_char_seq(u as int).subrange(0, i as int),
        decreases 36 - i,
    {
        if i == 8 || i == 13 || i == 18 || i == 23 {
            s.push('-');
        } else {
            let j: usize = if i < 8 { i } else if i < 13 { i - 1 }
                else if i < 18 { i - 2 } else { i - 4 + (if i < 23 { 1 } else { 0 }) };
            assert(j as int == uuid_digit_index(i as int));
            let d: u8 = digits[31 - j];
            assert(d as int == all_digits[j as int]);
            s.push(hex_char(d));
        }
        i = i + 1;
        proof {
            assert(s@ =~= uuid_char_seq(u as int).subrange(0, i as int));
        }
    }
    proof {
        assert(s@ =~= uuid_char_seq(u as int));
    }
    s
}

/// Parses the 36-character hyphenated UUID form, accepting both digit
/// cases, into the identifier value.
pub fn uuid_parse(s: &str) -> (r: Option<u128>)
    ensures
        r == uuid_parse_spec(s@),
{
    let n = s.unicode_len();
    if n != 36 {
        return None;
    }
    if !(s.get_char(8) == '-' && s.get_char(13) == '-' && s.get_char(18) == '-'
        && s.get_char(23) == '-')
    {
        return None;
    }
    let ghost digit_seq: Seq<int> = Seq::new(32, |j: int| hex_val_of(s@[uuid_char_pos(j)]));
    proof {
        reveal(pow);
        assert(pow(16, 0) == 1);
    }
    let mut acc: u128 = 0;
    let mut j: usize = 0;
    while j < 32
        invariant
            j <= 32,
            s@.len() == 36,
            forall|jj: int| 0 <= jj < j ==> 0 <= #[trigger] digit_seq[jj] < 16,
            acc as int == hex_value(digit_seq.subrange(0, j as int)),
            acc < pow(16, j as nat),
            digit_seq == Seq::new(32, |jj: int| hex_val_of(s@[uuid_char_pos(jj)])),
        decreases 32 - j,
    {
        let pos: usize = if j < 8 { j } else if j < 12 { j + 1 } else if j < 16 { j + 2 }
            else if j < 20 { j + 3 } else { j + 4 };
        assert(pos as int == uuid_char_pos(j as int));
        let c = s.get_char(pos);
        let d: u8 = match hex_val(c) {
            Some(d) => d,
            None => {
                assert(hex_val_of(s@[uuid_char_pos(j as int)]) == -1);
                assert(!uuid_sep_pos(pos as int));
                return None;
            },
        };
        proof {
            reveal(pow);
            lemma_hex_value_bound(digit_seq.subrange(0, j as int));
            assert(pow(16, (j + 1) as nat) == 16 * pow(16, j as nat));
            assert(digit_seq.subrange(0, j + 1 as int).drop_last()
                =~= digit_seq.subrange(0, j as int));
        }
        assert(acc * 16 + d < pow(16, (j + 1) as nat)) by {
            assert(acc as int <= pow(16, j as nat) - 1);
            assert(acc as int * 16 <= (pow(16, j as nat) - 1) * 16) by (nonlinear_arith)
                requires acc as int <= pow(16, j as nat) - 1;
        }
        assert(pow(16, (j + 1) as nat) <= pow(16, 32)) by {
            vstd::arithmetic::power::lemma_pow_increases(16, (j + 1) as nat, 32);
        }
        proof { lemma_pow16_32(); }
        acc = acc * 16 + (d as u128);
        j = j + 1;
    }
    proof {
        assert(digit_seq.subrange(0, 32) =~= digit_seq);
        // the parse succeeds in the specification too
        assert forall|i: int| 0 <= i < 36 && !uuid_sep_pos(i) implies
            hex_val_of(#[trigger] s@[i]) >= 0 by {
            let j0 = uuid_digit_index(i);
            assert(uuid_char_pos(j0) == i);
            assert(digit_seq[j0] >= 0);
        }
    }
    Some(acc)
}

/// Formatting an identifier and parsing the text back returns the same
/// identifier.
pub proof fn lemma_uuid_round_trip(u: u128)
    ensures
        uuid_parse_spec(uuid_char_seq(u as int)) == Some(u),
{
    let s = uuid_char_seq(u as int);
    lemma_hex_digits_of(u as int, 32);
    let digits = hex_digits_of(u as int, 32);
    assert forall|i: int| 0 <= i < 36 && !uuid_sep_pos(i) implies
        hex_val_of(#[trigger] s[i]) >= 0 by {
        let d = digits[uuid_digit_index(i)];
        assert(0 <= d < 16);
        assert(hex_val_of(hex_char_of(d)) == d);
    }
    let parsed = Seq::new(32, |j: int| hex_val_of(s[uuid_char_pos(j)]));
    assert forall|j: int| 0 <= j < 32 implies parsed[j] == digits[j] by {
        let i = uuid_char_pos(j);
        assert(!uuid_sep_pos(i));
        assert(uuid_digit_index(i) == j);
        let d = digits[j];
        assert(0 <= d < 16);
        assert(hex_val_of(hex_char_of(d)) == d);
    }
    assert(parsed =~= digits);
    lemma_pow16_32();
    lemma_small_mod(u as nat, pow(16, 32) as nat);
    assert(hex_value(parsed) == u as int);
}

} // verus!
