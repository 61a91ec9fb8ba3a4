//! Pairing codes: the six-digit code a pairing request carries.

use crate::text::{char_to_string, digit_char};
use vstd::prelude::*;
use vstd::string::StringExecFns;

verus! {

/// The six decimal digits of `n`, most significant first, zero-padded.
pub open spec fn code_digits(n: int) -> Seq<char>
    recommends
        0 <= n < 1000000,
{
    seq![
        digit_char(n / 100000 % 10),
        digit_char(n / 10000 % 10),
        digit_char(n / 1000 % 10),
        digit_char(n / 100 % 10),
        digit_char(n / 10 % 10),
        digit_char(n % 10),
    ]
}

/// Renders a code value as its six zero-padded digits.
pub fn format_pairing_code(n: u32) -> (r: String)
    requires
        n < 1000000,
    ensures
        r@ == code_digits(n as int),
        r@.len() == 6,
{
    let mut r = String::new();
    let d0 = ((n / 100000) % 10) as u8;
    let d1 = ((n / 10000) % 10) as u8;
    let d2 = ((n / 1000) % 10) as u8;
    let d3 = ((n / 100) % 10) as u8;
    let d4 = ((n / 10) % 10) as u8;
    let d5 = (n % 10) as u8;
    r = r.concat(char_to_string((48u8 + d0) as char).as_str());
    r = r.concat(char_to_string((48u8 + d1) as char).as_str());
    r = r.concat(char_to_string((48u8 + d2) as char).as_str());
    r = r.concat(char_to_string((48u8 + d3) as char).as_str());
    r = r.concat(char_to_string((48u8 + d4) as char).as_str());
    r = r.concat(char_to_string((48u8 + d5) as char).as_str());
    proof {
        assert(r@ =~= code_digits(n as int));
    }
    r
}

/// Relies on `rand::random_range`: a value drawn from the given range.
#[verifier::external_body]
fn draw_code() -> (r: u32)
    ensures
        r < 1000000,
{
    rand::random_range(0..1_000_000u32)
}

/// A fresh six-digit pairing code for an outgoing pairing request.
pub fn request_pairing_code() -> (r: String)
    ensures
        exists|n: int| 0 <= n < 1000000 && r@ == code_digits(n),
        r@.len() == 6,
{
    let n = draw_code();
    let r = format_pairing_code(n);
    proof {
        assert(0 <= n < 1000000 && r@ == code_digits(n as int));
    }
    r
}

} // verus!
