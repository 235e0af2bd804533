//! The register validator: turn a register token into one uppercase
//! hexadecimal digit.
//!
//! A register token is the letter `V` followed by hexadecimal digits
//! denoting a value between 0 and 15; any other token, and any value
//! outside that range, is rejected.

use vstd::prelude::*;
use crate::chars::is_hex_digit;
use crate::chars::is_radix_digit;
use crate::chars::hex_val;
use crate::chars::digit_of;
use crate::chars::upper_seq;
use crate::chars::hex_digit;
use crate::chars::digit_value;
use crate::chars::hex_digit_char;
use crate::chars::upper_vec;
use crate::errors::AsmError;
use crate::errors::ErrS;
use crate::numbers::all_radix_digits;
use crate::numbers::radix_val;

verus! {

/// The register number named by an upper-cased token: `V` followed by
/// hexadecimal digits whose value is at most 15; `None` otherwise.
pub open spec fn reg_val(u: Seq<char>) -> Option<nat> {
    if u.len() >= 2 && u[0] == 'V' && all_radix_digits(u.skip(1), 16) && radix_val(
        u.skip(1),
        16,
    ) <= 15 {
        Some(radix_val(u.skip(1), 16))
    } else {
        None
    }
}

/// Normalize a register token to the single uppercase hexadecimal digit
/// naming it. Fails with `InvalidRegister` exactly when the upper-cased
/// token is not `V` followed by hex digits with value at most 15.
pub fn register(input: &Vec<char>) -> (r: Result<Vec<char>, AsmError>)
    ensures
        (r is Ok) == (reg_val(upper_seq(input@)) is Some),
        r matches Ok(h) ==> h@ == seq![digit_of(reg_val(upper_seq(input@)).unwrap())],
        r matches Err(e) ==> e@ == ErrS::InvalidRegister(input@),
{
    let u = upper_vec(input);
    if u.len() < 2 || u[0] != 'V' {
        return Err(AsmError::InvalidRegister(input.clone()));
    }
    let ghost digits = u@.skip(1);
    let mut acc: u8 = 0;
    let mut i: usize = 1;
    proof {
        assert(digits.take(0) =~= Seq::<char>::empty());
    }
    while i < u.len()
        invariant
            1 <= i <= u@.len(),
            2 <= u@.len(),
            digits == u@.skip(1),
            u@ == upper_seq(input@),
            forall|j: int| 1 <= j < i ==> is_hex_digit(u@[j]),
            acc <= 16,
            radix_val(digits.take(i - 1), 16) <= 15 ==> acc == radix_val(digits.take(i - 1), 16),
            radix_val(digits.take(i - 1), 16) > 15 ==> acc == 16,
        decreases u@.len() - i,
    {
        if !hex_digit(u[i]) {
            proof {
                assert(digits[i - 1] == u@[i as int]);
                assert(!is_radix_digit(digits[i - 1], 16));
                assert(!all_radix_digits(digits, 16));
            }
            return Err(AsmError::InvalidRegister(input.clone()));
        }
        let d = digit_value(u[i]);
        proof {
            assert(digits.take(i - 1 + 1).drop_last() =~= digits.take(i - 1));
            assert(digits.take(i - 1 + 1).last() == u@[i as int]);
            assert(radix_val(digits.take(i - 1 + 1), 16) == radix_val(digits.take(i - 1), 16) * 16
                + hex_val(u@[i as int]));
        }
        if acc >= 16 {
            acc = 16;
        } else {
            let t = acc * 16 + d;
            if t > 15 {
                acc = 16;
            } else {
                acc = t;
            }
        }
        i += 1;
    }
    proof {
        assert(digits.take(i - 1) =~= digits);
        assert(all_radix_digits(digits, 16));
    }
    if acc > 15 {
        return Err(AsmError::InvalidRegister(input.clone()));
    }
    let c = hex_digit_char(acc);
    let mut out: Vec<char> = Vec::new();
    out.push(c);
    proof {
        assert(out@ =~= seq![digit_of(reg_val(upper_seq(input@)).unwrap())]);
    }
    Ok(out)
}

} // verus!
