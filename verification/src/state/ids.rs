//! Deterministic, opaque entry identifiers.
//!
//! An entry id encodes a sequence number and the block time of its creation
//! as twenty-six characters over a 32-letter alphabet, least significant
//! digit first. The same pair always yields the same token, and distinct
//! pairs yield distinct tokens, so an id generated from a fresh sequence
//! number can never collide with a stored one.

use vstd::prelude::*;
use vstd::string::StringExecFns;

use crate::time::Timestamp;

verus! {

/// The letter of a single base-32 digit.
pub open spec fn char_of_digit(d: int) -> char {
    if d == 0 {
        '0'
    } else if d == 1 {
        '1'
    } else if d == 2 {
        '2'
    } else if d == 3 {
        '3'
    } else if d == 4 {
        '4'
    } else if d == 5 {
        '5'
    } else if d == 6 {
        '6'
    } else if d == 7 {
        '7'
    } else if d == 8 {
        '8'
    } else if d == 9 {
        '9'
    } else if d == 10 {
        'a'
    } else if d == 11 {
        'b'
    } else if d == 12 {
        'c'
    } else if d == 13 {
        'd'
    } else if d == 14 {
        'e'
    } else if d == 15 {
        'f'
    } else if d == 16 {
        'g'
    } else if d == 17 {
        'h'
    } else if d == 18 {
        'j'
    } else if d == 19 {
        'k'
    } else if d == 20 {
        'm'
    } else if d == 21 {
        'n'
    } else if d == 22 {
        'p'
    } else if d == 23 {
        'q'
    } else if d == 24 {
        'r'
    } else if d == 25 {
        's'
    } else if d == 26 {
        't'
    } else if d == 27 {
        'v'
    } else if d == 28 {
        'w'
    } else if d == 29 {
        'x'
    } else if d == 30 {
        'y'
    } else {
        'z'
    }
}

/// The digit of a letter, or a negative value for a letter outside the
/// alphabet.
pub open spec fn digit_of_char(c: char) -> int {
    if c == '0' {
        0
    } else if c == '1' {
        1
    } else if c == '2' {
        2
    } else if c == '3' {
        3
    } else if c == '4' {
        4
    } else if c == '5' {
        5
    } else if c == '6' {
        6
    } else if c == '7' {
        7
    } else if c == '8' {
        8
    } else if c == '9' {
        9
    } else if c == 'a' {
        10
    } else if c == 'b' {
        11
    } else if c == 'c' {
        12
    } else if c == 'd' {
        13
    } else if c == 'e' {
        14
    } else if c == 'f' {
        15
    } else if c == 'g' {
        16
    } else if c == 'h' {
        17
    } else if c == 'j' {
        18
    } else if c == 'k' {
        19
    } else if c == 'm' {
        20
    } else if c == 'n' {
        21
    } else if c == 'p' {
        22
    } else if c == 'q' {
        23
    } else if c == 'r' {
        24
    } else if c == 's' {
        25
    } else if c == 't' {
        26
    } else if c == 'v' {
        27
    } else if c == 'w' {
        28
    } else if c == 'x' {
        29
    } else if c == 'y' {
        30
    } else if c == 'z' {
        31
    } else {
        -1
    }
}

/// The digit at position `j` of `x`, least significant first.
pub open spec fn nth_digit(x: u64, j: int) -> u64 {
    (x >> ((5 * j) as u64)) & 31
}

/// The thirteen letters encoding `x`, least significant digit first.
pub open spec fn spec_encode_u64(x: u64) -> Seq<char> {
    Seq::new(13, |j: int| char_of_digit(nth_digit(x, j) as int))
}

/// What `external_id` returns: the sequence number's letters followed by the
/// block time's.
pub open spec fn spec_external_id(id_u64: u64, time_nanos: u64) -> Seq<char> {
    spec_encode_u64(id_u64) + spec_encode_u64(time_nanos)
}

/// The value whose letters, from position `j` on, `s` holds; `acc` carries
/// the digits before `j`.
pub open spec fn assemble(s: Seq<char>, j: int, acc: u64) -> u64
    decreases 13 - j,
{
    if j < 0 || j >= 13 {
        acc
    } else {
        assemble(s, j + 1, acc | ((digit_of_char(s[j]) as u64) << ((5 * j) as u64)))
    }
}

/// Whether every letter of `s` belongs to the alphabet.
pub open spec fn all_digits(s: Seq<char>) -> bool {
    forall|j: int| 0 <= j < s.len() ==> digit_of_char(s[j]) >= 0
}

/// The pair a token stands for, if it is a well-formed token.
pub open spec fn spec_decode_id(s: Seq<char>) -> Option<(u64, u64)> {
    if s.len() == 26 && all_digits(s) {
        Some((assemble(s.subrange(0, 13), 0, 0), assemble(s.subrange(13, 26), 0, 0)))
    } else {
        None
    }
}

/// Whether `key` is a generated id whose sequence number lies below `bound`.
pub open spec fn id_below(key: Seq<char>, bound: u64) -> bool {
    match spec_decode_id(key) {
        Some(p) => 1 <= p.0 < bound,
        None => false,
    }
}

/// Every digit is below 32.
proof fn lemma_mask31(y: u64)
    ensures
        y & 31 < 32,
{
    assert(y & 31 < 32) by (bit_vector);
}

/// The lowest `5 * j` bits of `x`: the part the first `j` digits carry.
pub open spec fn low_bits(x: u64, j: int) -> u64 {
    if j <= 0 {
        0
    } else if j >= 13 {
        x
    } else {
        x & ((((1 as u64) << ((5 * j) as u64)) - 1) as u64)
    }
}

/// Adding digit `j` to the lowest bits below it yields the lowest bits up to
/// and including it.
proof fn lemma_digit_step(x: u64, sh: u64)
    requires
        sh <= 55,
        sh % 5 == 0,
    ensures
        ((x & ((((1 as u64) << sh) - 1) as u64)) | (((x >> sh) & 31) << sh)) == (x & ((((1 as u64) << (sh + 5)) - 1) as u64)),
{
    assert(((x & ((((1 as u64) << sh) - 1) as u64)) | (((x >> sh) & 31) << sh)) == (x & ((((1 as u64) << (sh + 5)) - 1) as u64))) by (bit_vector)
        requires
            sh <= 55,
    ;
}

/// Adding the last digit completes the value.
proof fn lemma_last_digit(x: u64)
    ensures
        ((x & ((((1 as u64) << 60) - 1) as u64)) | (((x >> 60) & 31) << 60)) == x,
{
    assert(((x & ((((1 as u64) << 60) - 1) as u64)) | (((x >> 60) & 31) << 60)) == x) by (bit_vector);
}

/// From digit `j` on, assembling onto the bits below `j` rebuilds `x`.
proof fn lemma_assemble_from(s: Seq<char>, x: u64, j: int)
    requires
        0 <= j <= 13,
        forall|k: int| j <= k < 13 ==> (digit_of_char(s[k]) as u64) == nth_digit(x, k),
    ensures
        assemble(s, j, low_bits(x, j)) == x,
    decreases 13 - j,
{
    if j == 13 {
        assert(assemble(s, 13, x) == x);
    } else {
        let sh = (5 * j) as u64;
        let d = (x >> sh) & 31;
        assert((digit_of_char(s[j]) as u64) == nth_digit(x, j));
        assert(d == nth_digit(x, j));
        if j == 12 {
            lemma_last_digit(x);
            assert(low_bits(x, 12) == (x & ((((1 as u64) << 60) - 1) as u64)));
            assert(low_bits(x, 12) | (d << sh) == low_bits(x, 13));
        } else if j == 0 {
            assert(low_bits(x, 0) == 0);
            lemma_digit_step(x, 0);
            assert((x & ((((1 as u64) << 0) - 1) as u64)) == 0) by (bit_vector);
            assert(low_bits(x, 0) | (d << sh) == low_bits(x, 1));
        } else {
            lemma_digit_step(x, sh);
            assert(low_bits(x, j) | (d << sh) == low_bits(x, j + 1));
        }
        lemma_assemble_from(s, x, j + 1);
        assert(assemble(s, j, low_bits(x, j)) == assemble(s, j + 1, low_bits(x, j) | ((
        digit_of_char(s[j]) as u64) << sh)));
    }
}

/// Decoding the thirteen letters of `x` gives `x` back.
proof fn lemma_encode_u64_round_trip(x: u64)
    ensures
        all_digits(spec_encode_u64(x)),
        assemble(spec_encode_u64(x), 0, 0) == x,
{
    let s = spec_encode_u64(x);
    assert forall|j: int| 0 <= j < s.len() implies digit_of_char(s[j]) >= 0 by {
        lemma_mask31(x >> ((5 * j) as u64));
    }
    assert forall|k: int| 0 <= k < 13 implies (digit_of_char(s[k]) as u64) == nth_digit(x, k) by {
        lemma_mask31(x >> ((5 * k) as u64));
    }
    lemma_assemble_from(s, x, 0);
    assert(low_bits(x, 0) == 0);
}

/// A token decodes back to the very pair it was generated from: the encoding
/// is deterministic, reversible and injective.
pub proof fn lemma_external_id_round_trip(id_u64: u64, time_nanos: u64)
    ensures
        spec_decode_id(spec_external_id(id_u64, time_nanos)) == Some((id_u64, time_nanos)),
{
    let s = spec_external_id(id_u64, time_nanos);
    assert(s.subrange(0, 13) =~= spec_encode_u64(id_u64));
    assert(s.subrange(13, 26) =~= spec_encode_u64(time_nanos));
    lemma_encode_u64_round_trip(id_u64);
    lemma_encode_u64_round_trip(time_nanos);
    assert(all_digits(s));
}

/// The letter of one digit, as a one-character string.
fn digit_str(d: u64) -> (r: &'static str)
    requires
        d < 32,
    ensures
        r@.len() == 1,
        r@[0] == char_of_digit(d as int),
{
    proof {
        reveal_strlit("0");
        reveal_strlit("1");
        reveal_strlit("2");
        reveal_strlit("3");
        reveal_strlit("4");
        reveal_strlit("5");
        reveal_strlit("6");
        reveal_strlit("7");
        reveal_strlit("8");
        reveal_strlit("9");
        reveal_strlit("a");
        reveal_strlit("b");
        reveal_strlit("c");
        reveal_strlit("d");
        reveal_strlit("e");
        reveal_strlit("f");
        reveal_strlit("g");
        reveal_strlit("h");
        reveal_strlit("j");
        reveal_strlit("k");
        reveal_strlit("m");
        reveal_strlit("n");
        reveal_strlit("p");
        reveal_strlit("q");
        reveal_strlit("r");
        reveal_strlit("s");
        reveal_strlit("t");
        reveal_strlit("v");
        reveal_strlit("w");
        reveal_strlit("x");
        reveal_strlit("y");
        reveal_strlit("z");
    }
    match d {
        0 => "0",
        1 => "1",
        2 => "2",
        3 => "3",
        4 => "4",
        5 => "5",
        6 => "6",
        7 => "7",
        8 => "8",
        9 => "9",
        10 => "a",
        11 => "b",
        12 => "c",
        13 => "d",
        14 => "e",
        15 => "f",
        16 => "g",
        17 => "h",
        18 => "j",
        19 => "k",
        20 => "m",
        21 => "n",
        22 => "p",
        23 => "q",
        24 => "r",
        25 => "s",
        26 => "t",
        27 => "v",
        28 => "w",
        29 => "x",
        30 => "y",
        _ => "z",
    }
}

/// Appends the thirteen letters of `x` to `s`.
fn push_digits(s: &mut String, x: u64)
    ensures
        final(s)@ == old(s)@ + spec_encode_u64(x),
{
    let ghost base = old(s)@.len() as int;
    let mut i: u64 = 0;
    while i < 13
        invariant
            i <= 13,
            base == old(s)@.len(),
            s@.len() == old(s)@.len() + i,
            forall|j: int| 0 <= j < base ==> s@[j] == old(s)@[j],
            forall|j: int| 0 <= j < i ==> s@[base + j] == char_of_digit(nth_digit(x, j) as int),
        decreases 13 - i,
    {
        let shift: u64 = 5 * i;
        let d: u64 = (x >> shift) & 31;
        proof {
            lemma_mask31(x >> shift);
            assert(d == nth_digit(x, i as int));
        }
        let ghost pre = s@;
        s.append(digit_str(d));
        proof {
            assert(s@.len() == pre.len() + 1);
            assert(forall|j: int| 0 <= j < pre.len() ==> s@[j] == pre[j]);
            assert(s@[pre.len() as int] == char_of_digit(nth_digit(x, i as int) as int));
        }
        i = i + 1;
    }
    assert(s@ =~= old(s)@ + spec_encode_u64(x));
}

/// The externally visible id of the entry created at `block_time` with
/// sequence number `id_u64`: deterministic in its two inputs.
pub fn external_id(id_u64: u64, block_time: Timestamp) -> (r: String)
    ensures
        r@ == spec_external_id(id_u64, block_time.nanos),
{
    let mut s = String::new();
    push_digits(&mut s, id_u64);
    push_digits(&mut s, block_time.nanos());
    proof {
        assert(s@ =~= spec_external_id(id_u64, block_time.nanos));
    }
    s
}

} // verus!
