//! The numeric normalizer: classify a literal token and render its value
//! as a fixed-width uppercase hexadecimal digit string.
//!
//! Classification is prefix-driven, in priority order on the upper-cased
//! token: a token containing `X` is hexadecimal (`0X` then hex digits);
//! one containing `B` is binary (`0B` then binary digits); one containing
//! `$` is a legacy decimal literal (`$` then decimal digits); a leading
//! `0` opens an octal literal; a leading nonzero digit opens a plain
//! decimal literal. The accepted value is rendered modulo `16^width` as
//! exactly `width` digits.

use vstd::prelude::*;
use crate::chars::is_radix_digit;
use crate::chars::is_hex_digit;
use crate::chars::hex_val;
use crate::chars::digit_of;
use crate::chars::upper_seq;
use crate::chars::seq_contains;
use crate::chars::radix_digit;
use crate::chars::is_digit;
use crate::chars::digit;
use crate::chars::digit_value;
use crate::chars::hex_digit_char;
use crate::chars::upper_vec;
use crate::chars::vec_contains;
use crate::errors::AsmError;
use crate::errors::ErrS;
use vstd::arithmetic::div_mod::lemma_mod_breakdown;
use vstd::arithmetic::div_mod::lemma_add_mod_noop;
use vstd::arithmetic::div_mod::lemma_mul_mod_noop_left;
use vstd::arithmetic::div_mod::lemma_small_mod;
use vstd::arithmetic::div_mod::lemma_fundamental_div_mod_converse;

verus! {

/// Every character of `s` is a digit of base `radix`.
pub open spec fn all_radix_digits(s: Seq<char>, radix: nat) -> bool {
    forall|i: int| 0 <= i < s.len() ==> is_radix_digit(s[i], radix)
}

/// Value of a digit string read most-significant digit first in base `radix`.
pub open spec fn radix_val(s: Seq<char>, radix: nat) -> nat
    decreases s.len(),
{
    if s.len() == 0 {
        0
    } else {
        radix_val(s.drop_last(), radix) * radix + hex_val(s.last())
    }
}

/// `16^w`.
pub open spec fn pow16(w: nat) -> nat
    decreases w,
{
    if w == 0 {
        1
    } else {
        16 * pow16((w - 1) as nat)
    }
}

/// The `w` uppercase hexadecimal digits of `v` modulo `16^w`,
/// most significant first.
pub open spec fn hex_render(v: nat, w: nat) -> Seq<char>
    decreases w,
{
    if w == 0 {
        Seq::empty()
    } else {
        hex_render(v / 16, (w - 1) as nat).push(digit_of(v % 16))
    }
}

/// The classes a numeric literal token can fall in, decided from its
/// prefix characters alone, in priority order.
pub enum NumClass {
    /// Contains `X`: hexadecimal, written `0X` then hex digits.
    Hex,
    /// Contains `B`: binary, written `0B` then binary digits.
    Binary,
    /// Contains `$`: legacy decimal, written `$` then decimal digits.
    Legacy,
    /// Leads with `0`: octal digits.
    Octal,
    /// Leads with a nonzero digit: decimal digits.
    Decimal,
    /// None of the above: not a numeric literal.
    Invalid,
}

/// Prefix-driven classification of an upper-cased token.
pub open spec fn classify_num(u: Seq<char>) -> NumClass {
    if seq_contains(u, 'X') {
        NumClass::Hex
    } else if seq_contains(u, 'B') {
        NumClass::Binary
    } else if seq_contains(u, '$') {
        NumClass::Legacy
    } else if u.len() >= 1 && u[0] == '0' {
        NumClass::Octal
    } else if u.len() >= 1 && is_digit(u[0]) {
        NumClass::Decimal
    } else {
        NumClass::Invalid
    }
}

/// The value denoted by an upper-cased numeric literal token, or `None`
/// where the token is not a well-formed literal of its class.
pub open spec fn num_val(u: Seq<char>) -> Option<nat> {
    match classify_num(u) {
        NumClass::Hex => if u.len() >= 3 && u[0] == '0' && u[1] == 'X'
            && all_radix_digits(u.skip(2), 16) {
            Some(radix_val(u.skip(2), 16))
        } else {
            None
        },
        NumClass::Binary => if u.len() >= 3 && u[0] == '0' && u[1] == 'B'
            && all_radix_digits(u.skip(2), 2) {
            Some(radix_val(u.skip(2), 2))
        } else {
            None
        },
        NumClass::Legacy => if u.len() >= 2 && u[0] == '$'
            && all_radix_digits(u.skip(1), 10) {
            Some(radix_val(u.skip(1), 10))
        } else {
            None
        },
        NumClass::Octal => if all_radix_digits(u, 8) {
            Some(radix_val(u, 8))
        } else {
            None
        },
        NumClass::Decimal => if all_radix_digits(u, 10) {
            Some(radix_val(u, 10))
        } else {
            None
        },
        NumClass::Invalid => None,
    }
}

/// `pow16` is monotone.
pub proof fn lemma_pow16_le(a: nat, b: nat)
    requires
        a <= b,
    ensures
        pow16(a) <= pow16(b),
    decreases b,
{
    if a < b {
        lemma_pow16_le(a, (b - 1) as nat);
    }
}

/// A rendering has exactly the asked-for width.
pub proof fn lemma_hex_render_len(v: nat, w: nat)
    ensures
        hex_render(v, w).len() == w,
    decreases w,
{
    if w > 0 {
        lemma_hex_render_len(v / 16, (w - 1) as nat);
    }
}

/// Rendering at width `w` only sees the value modulo `16^w`.
pub proof fn lemma_hex_render_mod(v: nat, w: nat)
    ensures
        hex_render(v % pow16(w), w) == hex_render(v, w),
    decreases w,
{
    if w > 0 {
        let p = pow16((w - 1) as nat);
        lemma_pow16_le(0, (w - 1) as nat);
        assert(pow16(w) == 16 * p);
        lemma_mod_breakdown(v as int, 16, p as int);
        assert(v % (16 * p) == 16 * ((v / 16) % p) + v % 16);
        let q = (v / 16) % p;
        let r = v % 16;
        lemma_fundamental_div_mod_converse((v % (16 * p)) as int, 16, q as int, r as int);
        assert((v % pow16(w)) / 16 == (v / 16) % p);
        assert((v % pow16(w)) % 16 == v % 16);
        lemma_hex_render_mod(v / 16, (w - 1) as nat);
    }
}

/// Law: a rendering at width `w` is made of hexadecimal digits and
/// reads back, in base 16, as the value modulo `16^w`: what `num`
/// returns represents its token's value.
pub proof fn lemma_hex_render_val(v: nat, w: nat)
    ensures
        all_radix_digits(hex_render(v, w), 16),
        radix_val(hex_render(v, w), 16) == v % pow16(w),
    decreases w,
{
    if w == 0 {
        assert(pow16(0) == 1);
    } else {
        let p = pow16((w - 1) as nat);
        lemma_pow16_le(0, (w - 1) as nat);
        lemma_hex_render_val(v / 16, (w - 1) as nat);
        let h = hex_render(v, w);
        let d = digit_of(v % 16);
        assert(h.drop_last() =~= hex_render(v / 16, (w - 1) as nat));
        assert(h.last() == d);
        assert(is_hex_digit(d) && hex_val(d) == v % 16);
        assert(forall|i: int| 0 <= i < h.len() - 1 ==> h[i] == h.drop_last()[i]);
        assert(all_radix_digits(h, 16));
        lemma_mod_breakdown(v as int, 16, p as int);
        assert(radix_val(h, 16) == ((v / 16) % p) * 16 + v % 16);
        assert(16 * ((v / 16) % p) == ((v / 16) % p) * 16);
    }
}

/// Parse the digits of `u` from position `start` on in base `radix`,
/// reduced modulo `16^length`. `None` exactly when there is no digit or
/// some character is not a digit of the base.
fn parse_digits(u: &Vec<char>, start: usize, radix: u8, length: u64) -> (r: Option<u64>)
    requires
        start <= u@.len(),
        radix == 2 || radix == 8 || radix == 10 || radix == 16,
        1 <= length <= 8,
    ensures
        (r is Some) == (start < u@.len() && all_radix_digits(u@.skip(start as int), radix as nat)),
        r matches Some(v) ==> v as nat == radix_val(u@.skip(start as int), radix as nat) % pow16(
            length as nat),
{
    proof {
        lemma_pow16_le(length as nat, 8);
        reveal_with_fuel(pow16, 9);
        assert(pow16(8) == 0x1_0000_0000);
    }
    let mut m: u64 = 1;
    let mut k: u64 = 0;
    while k < length
        invariant
            0 <= k <= length <= 8,
            m as nat == pow16(k as nat),
            m <= 0x1_0000_0000,
        decreases length - k,
    {
        proof {
            lemma_pow16_le((k + 1) as nat, 8);
            reveal_with_fuel(pow16, 9);
            assert(pow16(8) == 0x1_0000_0000);
        }
        m = m * 16;
        k = k + 1;
    }
    if start >= u.len() {
        return None;
    }
    let ghost digits = u@.skip(start as int);
    let mut acc: u64 = 0;
    let mut i: usize = start;
    proof {
        assert(digits.take(0) =~= Seq::<char>::empty());
        lemma_small_mod(0, m as nat);
    }
    while i < u.len()
        invariant
            start <= i <= u@.len(),
            start < u@.len(),
            1 <= length <= 8,
            radix == 2 || radix == 8 || radix == 10 || radix == 16,
            m as nat == pow16(length as nat),
            16 <= m <= 0x1_0000_0000,
            digits == u@.skip(start as int),
            forall|j: int| start <= j < i ==> is_radix_digit(u@[j], radix as nat),
            acc < m,
            acc as nat == radix_val(digits.take(i - start), radix as nat) % (m as nat),
        decreases u@.len() - i,
    {
        if !radix_digit(u[i], radix) {
            proof {
                assert(digits[i - start] == u@[i as int]);
                assert(!all_radix_digits(digits, radix as nat));
            }
            return None;
        }
        let d = digit_value(u[i]);
        let ghost a = radix_val(digits.take(i - start), radix as nat) as int;
        proof {
            assert((acc as int) * (radix as int) + (d as int) <= 0x1_0000_0000 * 16 + 16)
                by (nonlinear_arith)
                requires
                    acc <= 0x1_0000_0000,
                    radix <= 16,
                    d <= 16,
            ;
        }
        acc = (acc * (radix as u64) + (d as u64)) % m;
        proof {
            let mi = m as int;
            let ri = radix as int;
            let di = d as int;
            assert(digits.take(i + 1 - start).drop_last() =~= digits.take(i - start));
            assert(digits.take(i + 1 - start).last() == u@[i as int]);
            assert(radix_val(digits.take(i + 1 - start), radix as nat) == a * ri + hex_val(
                u@[i as int]));
            lemma_add_mod_noop((a % mi) * ri, di, mi);
            lemma_mul_mod_noop_left(a, ri, mi);
            lemma_add_mod_noop(a * ri, di, mi);
            lemma_small_mod(d as nat, m as nat);
            assert(((a % mi) * ri + di) % mi == (a * ri + di) % mi);
        }
        i += 1;
    }
    proof {
        assert(digits.take(i - start) =~= digits);
        assert(all_radix_digits(digits, radix as nat));
    }
    Some(acc)
}

/// Render `v` modulo `16^w` as exactly `w` uppercase hexadecimal digits.
pub fn render_hex(v: u64, w: u64) -> (r: Vec<char>)
    requires
        w <= 16,
    ensures
        r@ == hex_render(v as nat, w as nat),
        r@.len() == w,
    decreases w,
{
    proof {
        lemma_hex_render_len(v as nat, w as nat);
    }
    if w == 0 {
        Vec::new()
    } else {
        let mut r = render_hex(v / 16, w - 1);
        r.push(hex_digit_char((v % 16) as u8));
        r
    }
}

/// Normalize a numeric literal token to exactly `length` uppercase
/// hexadecimal digits, the token's value taken modulo `16^length`.
/// Fails with `InvalidNumber` exactly when the upper-cased token is not
/// a well-formed hexadecimal, binary, legacy-decimal or octal literal.
pub fn num(input: &Vec<char>, length: u64) -> (r: Result<Vec<char>, AsmError>)
    requires
        1 <= length <= 8,
    ensures
        (r is Ok) == (num_val(upper_seq(input@)) is Some),
        r matches Ok(h) ==> h@ == hex_render(num_val(upper_seq(input@)).unwrap(), length as nat)
            && h@.len() == length,
        r matches Ok(h) ==> all_radix_digits(h@, 16) && radix_val(h@, 16) == num_val(
            upper_seq(input@),
        ).unwrap() % pow16(length as nat),
        r matches Err(e) ==> e@ == ErrS::InvalidNumber(input@),
{
    let u = upper_vec(input);
    proof {
        assert(u@.skip(0) =~= u@);
    }
    let parsed: Option<u64> = if vec_contains(&u, 'X') {
        if u.len() >= 3 && u[0] == '0' && u[1] == 'X' {
            parse_digits(&u, 2, 16, length)
        } else {
            None
        }
    } else if vec_contains(&u, 'B') {
        if u.len() >= 3 && u[0] == '0' && u[1] == 'B' {
            parse_digits(&u, 2, 2, length)
        } else {
            None
        }
    } else if vec_contains(&u, '$') {
        if u.len() >= 2 && u[0] == '$' {
            parse_digits(&u, 1, 10, length)
        } else {
            None
        }
    } else if u.len() >= 1 && u[0] == '0' {
        parse_digits(&u, 0, 8, length)
    } else if u.len() >= 1 && digit(u[0]) {
        parse_digits(&u, 0, 10, length)
    } else {
        None
    };
    match parsed {
        Some(v) => {
            proof {
                lemma_hex_render_mod(num_val(u@).unwrap(), length as nat);
                lemma_hex_render_val(num_val(u@).unwrap(), length as nat);
            }
            Ok(render_hex(v, length))
        },
        None => Err(AsmError::InvalidNumber(input.clone())),
    }
}

} // verus!
