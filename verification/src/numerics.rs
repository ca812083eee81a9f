//! The double-precision arithmetic of the language, behind trusted wrappers.
//!
//! A number is carried everywhere as its canonical decimal text: the string
//! that Rust's `Display` renders for the `f64` value it denotes (`"3"`,
//! `"3.5"`, `"inf"`, `"NaN"`). Each operation below reads its operands back
//! into `f64`, applies the machine operation, and renders the result. The
//! results are functions of the argument texts alone, so each is named by an
//! uninterpreted spec function; nothing else is assumed of them.
//!
//! Reading an operand uses nom's `double` parser. `double` does not accept a
//! sign in front of its `inf`/`nan` exceptions, while `Display` renders
//! negative infinity as `-inf`, so the reader strips a leading minus sign and
//! restores it on the value.

use vstd::prelude::*;

verus! {

use nom::error::Error as NErr;
use nom::number::complete::double;

/// The canonical decimal text of the value a numeric literal denotes.
pub uninterp spec fn canon_of(lit: Seq<char>) -> Seq<char>;

/// The canonical text of the sum of the values two texts denote.
pub uninterp spec fn add_text(a: Seq<char>, b: Seq<char>) -> Seq<char>;

/// The canonical text of the difference of the values two texts denote.
pub uninterp spec fn sub_text(a: Seq<char>, b: Seq<char>) -> Seq<char>;

/// The canonical text of the product of the values two texts denote.
pub uninterp spec fn mul_text(a: Seq<char>, b: Seq<char>) -> Seq<char>;

/// The canonical text of the quotient of the values two texts denote.
/// Division follows floating-point semantics: a zero divisor yields the text
/// of an infinity or of a not-a-number, never an error.
pub uninterp spec fn div_text(a: Seq<char>, b: Seq<char>) -> Seq<char>;

/// Whether the value of the first text is strictly below the value of the
/// second, in the floating-point order.
pub uninterp spec fn lt_text(a: Seq<char>, b: Seq<char>) -> bool;

/// Whether the value of the first text is below or equal to the value of the
/// second, in the floating-point order.
pub uninterp spec fn le_text(a: Seq<char>, b: Seq<char>) -> bool;

/// Whether two texts denote equal values, in the floating-point sense.
pub uninterp spec fn eq_text(a: Seq<char>, b: Seq<char>) -> bool;

/// Relies on nom's `double` parser and `Display`: turns a recognized numeric
/// literal into the canonical text of the value it denotes.
#[verifier::external_body]
pub fn canon_number(lit: &str) -> (r: String)
    ensures
        r@ == canon_of(lit@),
{
    match double::<&str, NErr<&str>>(lit) {
        Ok((_, v)) => format!("{}", v),
        Err(_) => lit.to_owned(),
    }
}

/// Relies on `f64` addition; operands read with nom's `double`, result
/// rendered with `format!`.
#[verifier::external_body]
pub fn num_add(a: &str, b: &str) -> (r: String)
    ensures
        r@ == add_text(a@, b@),
{
    let read = |s: &str| match double::<&str, NErr<&str>>(s) {
        Ok((_, v)) => Some(v),
        Err(_) => s.strip_prefix('-').and_then(
            |t| double::<&str, NErr<&str>>(t).ok().map(|(_, v)| -v),
        ),
    };
    match (read(a), read(b)) {
        (Some(x), Some(y)) => format!("{}", x + y),
        _ => String::new(),
    }
}

/// Relies on `f64` subtraction; operands read with nom's `double`, result
/// rendered with `format!`.
#[verifier::external_body]
pub fn num_sub(a: &str, b: &str) -> (r: String)
    ensures
        r@ == sub_text(a@, b@),
{
    let read = |s: &str| match double::<&str, NErr<&str>>(s) {
        Ok((_, v)) => Some(v),
        Err(_) => s.strip_prefix('-').and_then(
            |t| double::<&str, NErr<&str>>(t).ok().map(|(_, v)| -v),
        ),
    };
    match (read(a), read(b)) {
        (Some(x), Some(y)) => format!("{}", x - y),
        _ => String::new(),
    }
}

/// Relies on `f64` multiplication; operands read with nom's `double`, result
/// rendered with `format!`.
#[verifier::external_body]
pub fn num_mul(a: &str, b: &str) -> (r: String)
    ensures
        r@ == mul_text(a@, b@),
{
    let read = |s: &str| match double::<&str, NErr<&str>>(s) {
        Ok((_, v)) => Some(v),
        Err(_) => s.strip_prefix('-').and_then(
            |t| double::<&str, NErr<&str>>(t).ok().map(|(_, v)| -v),
        ),
    };
    match (read(a), read(b)) {
        (Some(x), Some(y)) => format!("{}", x * y),
        _ => String::new(),
    }
}

/// Relies on `f64` division; operands read with nom's `double`, result
/// rendered with `format!`.
#[verifier::external_body]
pub fn num_div(a: &str, b: &str) -> (r: String)
    ensures
        r@ == div_text(a@, b@),
{
    let read = |s: &str| match double::<&str, NErr<&str>>(s) {
        Ok((_, v)) => Some(v),
        Err(_) => s.strip_prefix('-').and_then(
            |t| double::<&str, NErr<&str>>(t).ok().map(|(_, v)| -v),
        ),
    };
    match (read(a), read(b)) {
        (Some(x), Some(y)) => format!("{}", x / y),
        _ => String::new(),
    }
}

/// Relies on the `f64` order (`<`); operands read with nom's `double`.
#[verifier::external_body]
pub fn num_lt(a: &str, b: &str) -> (r: bool)
    ensures
        r == lt_text(a@, b@),
{
    let read = |s: &str| match double::<&str, NErr<&str>>(s) {
        Ok((_, v)) => Some(v),
        Err(_) => s.strip_prefix('-').and_then(
            |t| double::<&str, NErr<&str>>(t).ok().map(|(_, v)| -v),
        ),
    };
    match (read(a), read(b)) {
        (Some(x), Some(y)) => x < y,
        _ => false,
    }
}

/// Relies on the `f64` order (`<=`); operands read with nom's `double`.
#[verifier::external_body]
pub fn num_le(a: &str, b: &str) -> (r: bool)
    ensures
        r == le_text(a@, b@),
{
    let read = |s: &str| match double::<&str, NErr<&str>>(s) {
        Ok((_, v)) => Some(v),
        Err(_) => s.strip_prefix('-').and_then(
            |t| double::<&str, NErr<&str>>(t).ok().map(|(_, v)| -v),
        ),
    };
    match (read(a), read(b)) {
        (Some(x), Some(y)) => x <= y,
        _ => false,
    }
}

/// Relies on `f64` equality (`==`, where a not-a-number differs from
/// everything including itself); operands read with nom's `double`. Two `0`
/// texts read back as zero and zero equals zero, so the call returns true on
/// them: this is the fact that lets `+` keep accepting strings while its
/// running sum is still the initial zero.
#[verifier::external_body]
pub fn num_eq(a: &str, b: &str) -> (r: bool)
    ensures
        r == eq_text(a@, b@),
        a@ == "0"@ && b@ == "0"@ ==> r,
{
    let read = |s: &str| match double::<&str, NErr<&str>>(s) {
        Ok((_, v)) => Some(v),
        Err(_) => s.strip_prefix('-').and_then(
            |t| double::<&str, NErr<&str>>(t).ok().map(|(_, v)| -v),
        ),
    };
    match (read(a), read(b)) {
        (Some(x), Some(y)) => x == y,
        _ => false,
    }
}

} // verus!
