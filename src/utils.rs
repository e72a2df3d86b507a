//! Field codec: NUL-terminated text, octal numbers and the header checksum.
use vstd::prelude::*;
use vstd::utf8::{decode_utf8, valid_utf8};

use itertools::Itertools;

use crate::constants::{CHECKSUM_END, CHECKSUM_START};

verus! {

/// Declares std's `ParseIntError`, the error of the octal parses, to carry
/// it through unopened.
#[verifier::external_type_specification]
#[verifier::external_body]
pub struct ExParseIntError(core::num::ParseIntError);

/// True when `i` is the position of the first NUL byte of `field`.
pub open spec fn is_first_nul(field: Seq<u8>, i: int) -> bool {
    &&& 0 <= i < field.len()
    &&& field[i] == 0
    &&& forall|j: int| 0 <= j < i ==> field[j] != 0
}

/// The bytes of `field` before its first NUL byte; nothing when the field
/// holds no NUL byte or starts with one.
pub open spec fn nul_terminated(field: Seq<u8>) -> Option<Seq<u8>> {
    if exists|i: int| is_first_nul(field, i) {
        let i = choose|i: int| is_first_nul(field, i);
        if i == 0 {
            None
        } else {
            Some(field.subrange(0, i))
        }
    } else {
        None
    }
}

/// The text of `field` before its first NUL byte, when that prefix exists
/// and is valid UTF-8.
pub open spec fn trimmed_text(field: Seq<u8>) -> Option<Seq<char>> {
    match nul_terminated(field) {
        Some(p) => if valid_utf8(p) {
            Some(decode_utf8(p))
        } else {
            None
        },
        None => None,
    }
}

/// True for the digits `'0'` to `'7'`.
pub open spec fn is_octal_digit(c: char) -> bool {
    '0' <= c && c <= '7'
}

/// True when `d` is a non-empty run of octal digits.
pub open spec fn all_octal_digits(d: Seq<char>) -> bool {
    d.len() > 0 && forall|i: int| 0 <= i < d.len() ==> is_octal_digit(#[trigger] d[i])
}

/// The number that a run of octal digits denotes.
pub open spec fn octal_value(d: Seq<char>) -> nat
    decreases d.len(),
{
    if d.len() == 0 {
        0
    } else {
        octal_value(d.drop_last()) * 8 + ((d.last() as int) - 48) as nat
    }
}

/// An unsigned number in base 8: at least one octal digit and nothing else.
pub open spec fn unsigned_octal(s: Seq<char>) -> Option<int> {
    if all_octal_digits(s) {
        Some(octal_value(s) as int)
    } else {
        None
    }
}

/// A signed number in base 8: like `unsigned_octal`, or a `-` followed by
/// at least one octal digit.
pub open spec fn signed_octal(s: Seq<char>) -> Option<int> {
    if s.len() > 0 && s[0] == '-' {
        if all_octal_digits(s.drop_first()) {
            Some(-(octal_value(s.drop_first()) as int))
        } else {
            None
        }
    } else {
        unsigned_octal(s)
    }
}

/// True when the text starts with a `+` sign.
pub open spec fn starts_with_plus(s: Seq<char>) -> bool {
    s.len() > 0 && s[0] == '+'
}

/// How std's `from_str_radix` reads base 8 for an unsigned type: an
/// optional `+`, then at least one octal digit and nothing else.
pub open spec fn radix8_unsigned(s: Seq<char>) -> Option<int> {
    if starts_with_plus(s) {
        unsigned_octal(s.drop_first())
    } else {
        unsigned_octal(s)
    }
}

/// How std's `from_str_radix` reads base 8 for a signed type: an optional
/// `+` or `-`, then at least one octal digit and nothing else.
pub open spec fn radix8_signed(s: Seq<char>) -> Option<int> {
    if starts_with_plus(s) {
        unsigned_octal(s.drop_first())
    } else {
        signed_octal(s)
    }
}

/// True when `field` holds no text at all: it is empty or starts with NUL.
pub open spec fn is_empty_field(field: Seq<u8>) -> bool {
    field.len() == 0 || field[0] == 0
}

/// The value of an unsigned octal field. An empty field reads as zero; a
/// field whose text is missing, not UTF-8 or not octal has no value.
pub open spec fn octal_field(field: Seq<u8>) -> Option<int> {
    if is_empty_field(field) {
        Some(0)
    } else {
        match trimmed_text(field) {
            Some(t) => unsigned_octal(t),
            None => None,
        }
    }
}

/// The value of a signed octal field, read as `octal_field` reads an
/// unsigned one.
pub open spec fn signed_octal_field(field: Seq<u8>) -> Option<int> {
    if is_empty_field(field) {
        Some(0)
    } else {
        match trimmed_text(field) {
            Some(t) => signed_octal(t),
            None => None,
        }
    }
}

/// Relies on `Itertools::find_position` from itertools: the position of the
/// first item that the predicate accepts, if any.
#[verifier::external_body]
fn find_nul(contents: &[u8]) -> (r: Option<usize>)
    ensures
        match r {
            Some(i) => is_first_nul(contents@, i as int),
            None => forall|j: int| 0 <= j < contents@.len() ==> contents@[j] != 0,
        },
{
    contents.iter().find_position(|&&x| is_nul(x)).map(|(pos, _)| pos)
}

/// True for the NUL byte.
fn is_nul(b: u8) -> (r: bool)
    ensures
        r == (b == 0),
{
    b == 0
}

/// Relies on `std::str::from_utf8`: it succeeds exactly on valid UTF-8, and
/// the text is what the bytes encode.
#[verifier::external_body]
fn utf8_text(bytes: &[u8]) -> (r: Option<&str>)
    ensures
        r is Some <==> valid_utf8(bytes@),
        r matches Some(s) ==> s@ == decode_utf8(bytes@),
{
    std::str::from_utf8(bytes).ok()
}

pub proof fn lemma_first_nul_unique(field: Seq<u8>, i: int)
    requires
        is_first_nul(field, i),
    ensures
        nul_terminated(field) == (if i == 0 {
            None
        } else {
            Some(field.subrange(0, i))
        }),
{
    let c = choose|c: int| is_first_nul(field, c);
    assert(is_first_nul(field, c));
    if c < i {
        assert(field[c] != 0);
    } else if i < c {
        assert(field[i] != 0);
    }
}

/// The text of a NUL-terminated field, without the NUL.
///
/// Nothing comes back when the field is empty, starts with NUL, holds no
/// NUL byte, or its text is not valid UTF-8.
pub fn trimmed_str(contents: &[u8]) -> (r: Option<&str>)
    ensures
        r is Some <==> trimmed_text(contents@) is Some,
        r matches Some(s) ==> trimmed_text(contents@) == Some(s@),
{
    if contents.len() == 0 {
        return None;
    }
    match find_nul(contents) {
        Some(pos) => {
            proof {
                lemma_first_nul_unique(contents@, pos as int);
            }
            if pos == 0 {
                None
            } else {
                utf8_text(&contents[0..pos])
            }
        },
        None => None,
    }
}

/// The bytes of a NUL-terminated field, without the NUL.
///
/// Nothing comes back when the field is empty, starts with NUL or holds no
/// NUL byte. The bytes need not be valid UTF-8.
pub fn trimmed_osstr(contents: &[u8]) -> (r: Option<&[u8]>)
    ensures
        match r {
            Some(b) => nul_terminated(contents@) == Some(b@),
            None => nul_terminated(contents@) is None,
        },
{
    if contents.len() == 0 {
        return None;
    }
    match find_nul(contents) {
        Some(pos) => {
            proof {
                lemma_first_nul_unique(contents@, pos as int);
            }
            if pos != 0 {
                Some(&contents[0..pos])
            } else {
                None
            }
        },
        None => None,
    }
}

/// Relies on `num::Num::from_str_radix` for `u64`, which is
/// `u64::from_str_radix`: an optional `+` and at least one digit of the
/// radix, with a value that fits the type.
#[verifier::external_body]
fn octal_u64(text: &str) -> (r: Result<u64, core::num::ParseIntError>)
    ensures
        r is Ok <==> (radix8_unsigned(text@) matches Some(v) && v <= u64::MAX),
        r matches Ok(n) ==> radix8_unsigned(text@) == Some(n as int),
{
    <u64 as num::Num>::from_str_radix(text, 8)
}

/// Relies on `num::Num::from_str_radix` for `usize`, which is
/// `usize::from_str_radix`: an optional `+` and at least one digit of the
/// radix, with a value that fits the type.
#[verifier::external_body]
fn octal_usize(text: &str) -> (r: Result<usize, core::num::ParseIntError>)
    ensures
        r is Ok <==> (radix8_unsigned(text@) matches Some(v) && v <= usize::MAX),
        r matches Ok(n) ==> radix8_unsigned(text@) == Some(n as int),
{
    <usize as num::Num>::from_str_radix(text, 8)
}

/// Relies on `num::Num::from_str_radix` for `i32`, which is
/// `i32::from_str_radix`: an optional `+` or `-` and at least one digit of
/// the radix, with a value that fits the type.
#[verifier::external_body]
fn octal_i32(text: &str) -> (r: Result<i32, core::num::ParseIntError>)
    ensures
        r is Ok <==> (radix8_signed(text@) matches Some(v) && i32::MIN <= v <= i32::MAX),
        r matches Ok(n) ==> radix8_signed(text@) == Some(n as int),
{
    <i32 as num::Num>::from_str_radix(text, 8)
}

/// The first character of valid UTF-8 is `+` exactly when its first byte
/// is the ASCII `+` (43).
proof fn lemma_first_char_plus(p: Seq<u8>)
    requires
        valid_utf8(p),
        p.len() > 0,
    ensures
        (decode_utf8(p)[0] == '+') <==> p[0] == 43,
{
    let b0 = p[0];
    let x = vstd::utf8::decode_first_scalar(p);
    assert(decode_utf8(p)[0] == x as char);
    if b0 < 128 {
        assert(b0 & 0x7f == b0) by (bit_vector)
            requires
                b0 < 128,
        ;
        assert(x == b0 as u32);
    } else {
        assert(x >= 0x80);
    }
    vstd::utf8::decode_utf8_first_scalar(p);
    if x as char == '+' {
        assert(vstd::utf8::encode_scalar('+' as u32) =~= seq![43u8]);
        assert(vstd::utf8::take_first_scalar(p)[0] == p[0]);
    }
    if b0 == 43 {
        assert(43u32 as char == '+');
    }
}

/// The text that a non-empty numeric field is parsed from: its trimmed
/// text, or the empty text (which no parse accepts) when there is none or
/// it starts with a sign `+`, which a field may not hold.
fn number_text(field: &[u8]) -> (r: &str)
    requires
        !is_empty_field(field@),
    ensures
        r@ == match trimmed_text(field@) {
            Some(t) => if starts_with_plus(t) {
                Seq::<char>::empty()
            } else {
                t
            },
            None => Seq::<char>::empty(),
        },
{
    proof {
        reveal_strlit("");
        if let Some(t) = trimmed_text(field@) {
            let p = nul_terminated(field@)->0;
            let i = choose|i: int| is_first_nul(field@, i);
            assert(p[0] == field@[0]);
            lemma_first_char_plus(p);
        }
    }
    if field[0] == 43 {
        return "";
    }
    match trimmed_str(field) {
        Some(t) => t,
        None => "",
    }
}

/// Parse an unsigned octal field.
///
/// An empty field (empty, or starting with NUL) reads as zero. Otherwise
/// the text before the first NUL must be octal and fit in a `u64`.
pub fn parse_octal(field: &[u8]) -> (r: Result<u64, core::num::ParseIntError>)
    ensures
        r is Ok <==> (octal_field(field@) matches Some(v) && v <= u64::MAX),
        r matches Ok(n) ==> octal_field(field@) == Some(n as int),
{
    if field.len() == 0 || field[0] == 0 {
        return Ok(0);
    }
    octal_u64(number_text(field))
}

/// Parse the size field, as `parse_octal` does, into a `usize`.
///
/// The base-256 form that some writers use for large sizes is not read:
/// such a field fails to parse.
pub fn parse_size(size: &[u8]) -> (r: Result<usize, core::num::ParseIntError>)
    ensures
        r is Ok <==> (octal_field(size@) matches Some(v) && v <= usize::MAX),
        r matches Ok(n) ==> octal_field(size@) == Some(n as int),
{
    if size.len() == 0 || size[0] == 0 {
        return Ok(0);
    }
    octal_usize(number_text(size))
}

/// Parse a signed octal field, as `parse_octal` does, into an `i32`.
pub fn parse_signed_octal(field: &[u8]) -> (r: Result<i32, core::num::ParseIntError>)
    ensures
        r is Ok <==> (signed_octal_field(field@) matches Some(v) && i32::MIN <= v <= i32::MAX),
        r matches Ok(n) ==> signed_octal_field(field@) == Some(n as int),
{
    if field.len() == 0 || field[0] == 0 {
        return Ok(0);
    }
    octal_i32(number_text(field))
}

/// The block with its checksum field read as eight ASCII spaces.
pub open spec fn masked(block: Seq<u8>) -> Seq<u8> {
    Seq::new(
        block.len(),
        |i: int|
            if CHECKSUM_START <= i < CHECKSUM_END {
                32u8
            } else {
                block[i]
            },
    )
}

/// Sum of the bytes, each read as unsigned.
pub open spec fn byte_sum(s: Seq<u8>) -> int
    decreases s.len(),
{
    if s.len() == 0 {
        0
    } else {
        byte_sum(s.drop_last()) + s.last()
    }
}

/// A byte read as a signed two's complement number.
pub open spec fn signed_byte(b: u8) -> int {
    if b >= 128 {
        b - 256
    } else {
        b as int
    }
}

/// Sum of the bytes, each read as signed.
pub open spec fn signed_byte_sum(s: Seq<u8>) -> int
    decreases s.len(),
{
    if s.len() == 0 {
        0
    } else {
        signed_byte_sum(s.drop_last()) + signed_byte(s.last())
    }
}

/// The header checksum of a block, bytes read as unsigned.
pub open spec fn checksum_of(block: Seq<u8>) -> int {
    byte_sum(masked(block))
}

/// The header checksum of a block, bytes read as signed.
pub open spec fn signed_checksum_of(block: Seq<u8>) -> int {
    signed_byte_sum(masked(block))
}

/// The byte at `i` of the block, with the checksum field read as spaces.
fn masked_byte(block: &[u8; 512], i: usize) -> (r: u8)
    requires
        i < 512,
    ensures
        r == masked(block@)[i as int],
{
    if CHECKSUM_START <= i && i < CHECKSUM_END {
        32
    } else {
        block[i]
    }
}

/// Compute the checksum of a header block.
///
/// The checksum is the sum of all the bytes of the block, read as
/// unsigned, where the bytes of the checksum field count as ASCII spaces.
pub fn compute_checksum(block: &[u8; 512]) -> (r: i32)
    ensures
        r == checksum_of(block@),
{
    let mut sum: i32 = 0;
    let mut i: usize = 0;
    while i < 512
        invariant
            i <= 512,
            block@.len() == 512,
            sum == byte_sum(masked(block@).subrange(0, i as int)),
            0 <= sum <= 255 * i,
        decreases 512 - i,
    {
        let b: u8 = masked_byte(block, i);
        proof {
            let m = masked(block@);
            assert(m.subrange(0, i + 1).drop_last() =~= m.subrange(0, i as int));
        }
        sum = sum + b as i32;
        i = i + 1;
    }
    proof {
        assert(masked(block@).subrange(0, 512) =~= masked(block@));
    }
    sum
}

/// Compute the checksum of a header block with every byte read as signed,
/// as some tar writers do.
pub fn compute_signed_checksum(block: &[u8; 512]) -> (r: i32)
    ensures
        r == signed_checksum_of(block@),
{
    let mut sum: i32 = 0;
    let mut i: usize = 0;
    while i < 512
        invariant
            i <= 512,
            block@.len() == 512,
            sum == signed_byte_sum(masked(block@).subrange(0, i as int)),
            -128 * i <= sum <= 127 * i,
        decreases 512 - i,
    {
        let b: u8 = masked_byte(block, i);
        proof {
            let m = masked(block@);
            assert(m.subrange(0, i + 1).drop_last() =~= m.subrange(0, i as int));
        }
        let v: i32 = if b >= 128 {
            b as i32 - 256
        } else {
            b as i32
        };
        sum = sum + v;
        i = i + 1;
    }
    proof {
        assert(masked(block@).subrange(0, 512) =~= masked(block@));
    }
    sum
}

/// `8` raised to the power `n`.
pub open spec fn pow8(n: nat) -> nat
    decreases n,
{
    if n == 0 {
        1
    } else {
        8 * pow8((n - 1) as nat)
    }
}

proof fn lemma_pow8_monotonic(a: nat, b: nat)
    requires
        a <= b,
    ensures
        1 <= pow8(a) <= pow8(b),
    decreases b,
{
    if b > 0 {
        if a < b {
            lemma_pow8_monotonic(a, (b - 1) as nat);
        } else {
            lemma_pow8_monotonic((a - 1) as nat, (b - 1) as nat);
        }
    }
}

proof fn lemma_decode_utf8_len(bytes: Seq<u8>)
    requires
        valid_utf8(bytes),
    ensures
        decode_utf8(bytes).len() <= bytes.len(),
    decreases bytes.len(),
{
    if bytes.len() > 0 {
        let rest = vstd::utf8::pop_first_scalar(bytes);
        assert(rest.len() < bytes.len());
        lemma_decode_utf8_len(rest);
    }
}

proof fn lemma_octal_value_bound(d: Seq<char>)
    requires
        forall|i: int| 0 <= i < d.len() ==> is_octal_digit(#[trigger] d[i]),
    ensures
        octal_value(d) < pow8(d.len()),
    decreases d.len(),
{
    if d.len() > 0 {
        let init = d.drop_last();
        assert forall|i: int| 0 <= i < init.len() implies is_octal_digit(#[trigger] init[i]) by {
            assert(init[i] == d[i]);
        }
        lemma_octal_value_bound(init);
        assert(is_octal_digit(d[d.len() - 1]));
        let v = octal_value(init);
        let p = pow8(init.len());
        assert(v * 8 + 7 < p * 8) by (nonlinear_arith)
            requires
                v < p,
        ;
    }
}

/// The value of an octal field of `n` bytes is below `8` to the power
/// `n - 1`: at least one byte is the terminating NUL.
pub proof fn lemma_octal_field_bound(field: Seq<u8>)
    requires
        field.len() >= 1,
        octal_field(field) is Some,
    ensures
        octal_field(field) matches Some(v) && 0 <= v < pow8((field.len() - 1) as nat),
{
    lemma_pow8_monotonic(0, (field.len() - 1) as nat);
    if !is_empty_field(field) {
        let p = nul_terminated(field)->0;
        let i = choose|i: int| is_first_nul(field, i);
        assert(p.len() == i);
        lemma_decode_utf8_len(p);
        let t = decode_utf8(p);
        let d = t;
        lemma_octal_value_bound(d);
        lemma_pow8_monotonic(d.len(), (field.len() - 1) as nat);
    }
}

/// The value of a signed octal field of `n` bytes is, in magnitude, below
/// `8` to the power `n - 1`.
pub proof fn lemma_signed_octal_field_bound(field: Seq<u8>)
    requires
        field.len() >= 1,
        signed_octal_field(field) is Some,
    ensures
        signed_octal_field(field) matches Some(v) && -pow8((field.len() - 1) as nat) < v < pow8(
            (field.len() - 1) as nat,
        ),
{
    lemma_pow8_monotonic(0, (field.len() - 1) as nat);
    if !is_empty_field(field) {
        let p = nul_terminated(field)->0;
        let i = choose|i: int| is_first_nul(field, i);
        assert(p.len() == i);
        lemma_decode_utf8_len(p);
        let t = decode_utf8(p);
        let d = if t.len() > 0 && t[0] == '-' {
            t.drop_first()
        } else {
            t
        };
        lemma_octal_value_bound(d);
        lemma_pow8_monotonic(d.len(), (field.len() - 1) as nat);
    }
}

/// The powers of `8` that bound the values of the numeric header fields.
pub proof fn lemma_pow8_values()
    ensures
        pow8(7) == 2097152,
        pow8(11) == 8589934592,
{
    reveal_with_fuel(pow8, 12);
}

/// Valid UTF-8 of ASCII bytes decodes to the same characters.
pub proof fn lemma_ascii_decode(b: Seq<u8>)
    requires
        forall|i: int| 0 <= i < b.len() ==> b[i] < 128,
    ensures
        valid_utf8(b),
        decode_utf8(b).len() == b.len(),
        forall|i: int| 0 <= i < b.len() ==> decode_utf8(b)[i] as int == b[i] as int,
    decreases b.len(),
{
    if b.len() > 0 {
        let b0 = b[0];
        assert(b0 & 0x7f == b0) by (bit_vector)
            requires
                b0 < 128,
        ;
        let rest = b.subrange(1, b.len() as int);
        assert(vstd::utf8::pop_first_scalar(b) == rest);
        lemma_ascii_decode(rest);
        let t = decode_utf8(b);
        assert forall|i: int| 0 <= i < b.len() implies t[i] as int == b[i] as int by {
            if i > 0 {
                assert(rest[i - 1] == b[i]);
            }
        }
    }
}

/// The octal digits of `n` as ASCII bytes, most significant first.
pub open spec fn octal_ascii(n: nat) -> Seq<u8>
    decreases n,
{
    if n < 8 {
        seq![(48 + n) as u8]
    } else {
        octal_ascii(n / 8).push((48 + n % 8) as u8)
    }
}

proof fn lemma_octal_ascii_digits(n: nat)
    ensures
        octal_ascii(n).len() >= 1,
        forall|i: int| 0 <= i < octal_ascii(n).len() ==> 48 <= #[trigger] octal_ascii(n)[i] <= 55,
    decreases n,
{
    if n >= 8 {
        lemma_octal_ascii_digits(n / 8);
    }
}

/// The octal digits of `n`, read back as characters, denote `n`.
proof fn lemma_octal_ascii_value(n: nat, t: Seq<char>)
    requires
        t.len() == octal_ascii(n).len(),
        forall|i: int| 0 <= i < t.len() ==> t[i] as int == octal_ascii(n)[i] as int,
    ensures
        octal_value(t) == n,
        all_octal_digits(t),
    decreases n,
{
    lemma_octal_ascii_digits(n);
    assert forall|i: int| 0 <= i < t.len() implies is_octal_digit(#[trigger] t[i]) by {
        assert(48 <= octal_ascii(n)[i] <= 55);
    }
    if n >= 8 {
        let init = t.drop_last();
        assert forall|i: int| 0 <= i < init.len() implies init[i] as int == octal_ascii(n / 8)[i] as int by {
            assert(init[i] == t[i]);
            assert(octal_ascii(n)[i] == octal_ascii(n / 8)[i]);
        }
        lemma_octal_ascii_value(n / 8, init);
        assert(t.last() as int == octal_ascii(n)[t.len() - 1] as int);
        assert(octal_ascii(n)[t.len() - 1] == (48 + n % 8) as u8);
        assert(octal_value(t) == octal_value(init) * 8 + ((t.last() as int) - 48) as nat);
    } else {
        assert(t.last() as int == octal_ascii(n)[0] as int);
        assert(t.drop_last().len() == 0);
        assert(octal_value(t) == octal_value(t.drop_last()) * 8 + ((t.last() as int) - 48) as nat);
    }
}

/// A field that holds the octal digits of `n` followed by NUL has the
/// value `n`, read as unsigned or as signed.
pub proof fn lemma_octal_field_of_digits(f: Seq<u8>, n: nat)
    requires
        octal_ascii(n).len() < f.len(),
        f.subrange(0, octal_ascii(n).len() as int) == octal_ascii(n),
        f[octal_ascii(n).len() as int] == 0,
    ensures
        octal_field(f) == Some(n as int),
        signed_octal_field(f) == Some(n as int),
{
    let d = octal_ascii(n);
    lemma_octal_ascii_digits(n);
    assert forall|j: int| 0 <= j < d.len() implies f[j] != 0 by {
        assert(f[j] == d[j]);
        assert(48 <= d[j]);
    }
    assert(f[0] == d[0]);
    lemma_first_nul_unique(f, d.len() as int);
    assert forall|i: int| 0 <= i < d.len() implies d[i] < 128 by {
        assert(d[i] <= 55);
    }
    lemma_ascii_decode(d);
    let t = decode_utf8(d);
    lemma_octal_ascii_value(n, t);
    assert(is_octal_digit(t[0]));
}

/// The sum of bytes read as unsigned is never negative.
pub proof fn lemma_byte_sum_nonnegative(s: Seq<u8>)
    ensures
        byte_sum(s) >= 0,
    decreases s.len(),
{
    if s.len() > 0 {
        lemma_byte_sum_nonnegative(s.drop_last());
    }
}

} // verus!
