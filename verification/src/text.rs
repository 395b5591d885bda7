//! Values as text.
use cranelift_codegen::ir::immediates::{Ieee32, Ieee64};
use vstd::prelude::*;

verus! {

/// The digit of a number below sixteen, in lower case.
pub open spec fn digit_text(d: int) -> Seq<char> {
    if d == 0 {
        "0"@
    } else if d == 1 {
        "1"@
    } else if d == 2 {
        "2"@
    } else if d == 3 {
        "3"@
    } else if d == 4 {
        "4"@
    } else if d == 5 {
        "5"@
    } else if d == 6 {
        "6"@
    } else if d == 7 {
        "7"@
    } else if d == 8 {
        "8"@
    } else if d == 9 {
        "9"@
    } else if d == 10 {
        "a"@
    } else if d == 11 {
        "b"@
    } else if d == 12 {
        "c"@
    } else if d == 13 {
        "d"@
    } else if d == 14 {
        "e"@
    } else {
        "f"@
    }
}

/// The text of an unsigned integer in decimal: its digits, the highest
/// first, without leading zeros.
pub open spec fn unsigned_text(n: u64) -> Seq<char>
    decreases n,
{
    if n < 10 {
        digit_text(n as int)
    } else {
        unsigned_text(n / 10) + digit_text((n % 10) as int)
    }
}

/// The number without its sign.
pub open spec fn magnitude(n: i64) -> u64 {
    if n < 0 {
        (-(n as int)) as u64
    } else {
        n as u64
    }
}

/// The text of a signed integer in decimal: a minus sign where it is
/// negative, then its digits.
pub open spec fn decimal_text(n: i64) -> Seq<char> {
    if n < 0 {
        "-"@ + unsigned_text(magnitude(n))
    } else {
        unsigned_text(magnitude(n))
    }
}

/// The lowest `k` hexadecimal digits of `v`, the highest first.
pub open spec fn hex_text(v: u128, k: nat) -> Seq<char>
    decreases k,
{
    if k == 0 {
        Seq::empty()
    } else {
        hex_text(v / 16, (k - 1) as nat) + digit_text((v % 16) as int)
    }
}

/// The text of the sixteen bytes of a vector: `0x`, then the bytes in
/// hexadecimal, two digits each, the most significant byte first.
pub open spec fn vector_text(bytes: u128) -> Seq<char> {
    "0x"@ + hex_text(bytes, 32)
}

/// The text of the 32-bit float with the given bits, as `Ieee32` of
/// `cranelift_codegen` writes it.
pub uninterp spec fn ieee32_text(bits: u32) -> Seq<char>;

/// The text of the 64-bit float with the given bits, as `Ieee64` of
/// `cranelift_codegen` writes it.
pub uninterp spec fn ieee64_text(bits: u64) -> Seq<char>;

/// The text of the 32-bit float with the given bits, as the standard
/// library writes the float for debugging.
pub uninterp spec fn float32_debug_text(bits: u32) -> Seq<char>;

/// The text of the 64-bit float with the given bits, as the standard
/// library writes the float for debugging.
pub uninterp spec fn float64_debug_text(bits: u64) -> Seq<char>;

/// The text of a string as the standard library writes it for debugging:
/// between double quotes, with what cannot stand there written as an
/// escape.
pub uninterp spec fn quoted_text(s: Seq<char>) -> Seq<char>;

/// The digit of a number below sixteen; see [`digit_text`].
fn digit(d: u64) -> (r: &'static str)
    requires
        d < 16,
    ensures
        r@ == digit_text(d as int),
{
    if d == 0 {
        "0"
    } else if d == 1 {
        "1"
    } else if d == 2 {
        "2"
    } else if d == 3 {
        "3"
    } else if d == 4 {
        "4"
    } else if d == 5 {
        "5"
    } else if d == 6 {
        "6"
    } else if d == 7 {
        "7"
    } else if d == 8 {
        "8"
    } else if d == 9 {
        "9"
    } else if d == 10 {
        "a"
    } else if d == 11 {
        "b"
    } else if d == 12 {
        "c"
    } else if d == 13 {
        "d"
    } else if d == 14 {
        "e"
    } else {
        "f"
    }
}

/// The text of an unsigned integer in decimal; see [`unsigned_text`].
pub fn unsigned_decimal(n: u64) -> (r: String)
    ensures
        r@ == unsigned_text(n),
    decreases n,
{
    if n < 10 {
        String::from_str(digit(n))
    } else {
        let mut out = unsigned_decimal(n / 10);
        out.append(digit(n % 10));
        out
    }
}

/// The text of a signed integer in decimal; see [`decimal_text`].
pub fn decimal(n: i64) -> (r: String)
    ensures
        r@ == decimal_text(n),
{
    if n < 0 {
        let m: u64 = if n == i64::MIN {
            9223372036854775808u64
        } else {
            (-n) as u64
        };
        String::from_str("-").concat(unsigned_decimal(m).as_str())
    } else {
        unsigned_decimal(n as u64)
    }
}

/// `Ieee32::with_bits`, which keeps the bits as they are, and the `Display`
/// of `Ieee32`: the text depends on the bits alone.
#[verifier::external_body]
pub(crate) fn ieee32(bits: u32) -> (r: String)
    ensures
        r@ == ieee32_text(bits),
{
    Ieee32::with_bits(bits).to_string()
}

/// `Ieee64::with_bits`, which keeps the bits as they are, and the `Display`
/// of `Ieee64`: the text depends on the bits alone.
#[verifier::external_body]
pub(crate) fn ieee64(bits: u64) -> (r: String)
    ensures
        r@ == ieee64_text(bits),
{
    Ieee64::with_bits(bits).to_string()
}

/// `Ieee32::as_f32`, which gives the float that has the bits, and the
/// `Debug` of the standard library for it: the text depends on the bits
/// alone.
#[verifier::external_body]
pub(crate) fn float32_debug(bits: u32) -> (r: String)
    ensures
        r@ == float32_debug_text(bits),
{
    format!("{:?}", Ieee32::with_bits(bits).as_f32())
}

/// `Ieee64::as_f64`, which gives the float that has the bits, and the
/// `Debug` of the standard library for it: the text depends on the bits
/// alone.
#[verifier::external_body]
pub(crate) fn float64_debug(bits: u64) -> (r: String)
    ensures
        r@ == float64_debug_text(bits),
{
    format!("{:?}", Ieee64::with_bits(bits).as_f64())
}

/// The `Debug` of the standard library for a string: the text depends on
/// the characters of the string alone.
#[verifier::external_body]
pub(crate) fn quoted(s: &str) -> (r: String)
    ensures
        r@ == quoted_text(s@),
{
    format!("{:?}", s)
}

/// The lowest `k` hexadecimal digits of `v`; see [`hex_text`].
fn hex(v: u128, k: u32) -> (r: String)
    ensures
        r@ == hex_text(v, k as nat),
    decreases k,
{
    if k == 0 {
        String::new()
    } else {
        let mut out = hex(v / 16, k - 1);
        out.append(digit((v % 16) as u64));
        out
    }
}

/// The text of the sixteen bytes of a vector; see [`vector_text`].
pub fn vector(bytes: u128) -> (r: String)
    ensures
        r@ == vector_text(bytes),
{
    String::from_str("0x").concat(hex(bytes, 32).as_str())
}

} // verus!
