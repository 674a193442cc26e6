//! Small text-building helpers shared by the query serializer and the
//! range responder: appending single characters and decimal renderings
//! of integers to a `String`.

use vstd::prelude::*;

verus! {

/// The character for a single decimal digit.
pub open spec fn digit_char(d: nat) -> char {
    ((d + 48) as u8) as char
}

/// Decimal rendering of a natural number, most significant digit first.
pub open spec fn dec_rep(n: nat) -> Seq<char>
    decreases n,
{
    if n < 10 {
        seq![digit_char(n)]
    } else {
        dec_rep(n / 10) + seq![digit_char(n % 10)]
    }
}

/// Decimal rendering of a signed number: a leading minus sign when negative.
pub open spec fn dec_rep_signed(n: int) -> Seq<char> {
    if n < 0 {
        seq!['-'] + dec_rep((-n) as nat)
    } else {
        dec_rep(n as nat)
    }
}

/// Relies on `String::push`: appends exactly one character.
#[verifier::external_body]
pub(crate) fn push_char(out: &mut String, c: char)
    ensures
        final(out)@ == old(out)@ + seq![c],
{
    out.push(c);
}

/// Appends the decimal rendering of `n` to `out`.
pub(crate) fn push_decimal_u64(out: &mut String, n: u64)
    ensures
        final(out)@ == old(out)@ + dec_rep(n as nat),
{
    let mut digits: Vec<char> = Vec::new();
    let mut m: u64 = n;
    while m >= 10
        invariant
            dec_rep(n as nat) =~= dec_rep(m as nat) + digits@,
        decreases m,
    {
        let d: u8 = (m % 10) as u8;
        digits.insert(0, (48 + d) as char);
        m = m / 10;
    }
    digits.insert(0, (48 + (m as u8)) as char);
    assert(digits@ =~= dec_rep(n as nat));
    let mut i: usize = 0;
    while i < digits.len()
        invariant
            i <= digits.len(),
            out@ =~= old(out)@ + digits@.subrange(0, i as int),
        decreases digits.len() - i,
    {
        push_char(out, digits[i]);
        i = i + 1;
    }
    assert(out@ =~= old(out)@ + digits@);
}

/// Appends the decimal rendering of a signed number to `out`.
pub(crate) fn push_decimal_i64(out: &mut String, n: i64)
    ensures
        final(out)@ == old(out)@ + dec_rep_signed(n as int),
{
    if n < 0 {
        push_char(out, '-');
        // -(i64::MIN) does not fit in i64; negate around the edge in u64.
        let m: u64 = ((-(n + 1)) as u64) + 1;
        assert(m as nat == (-(n as int)) as nat);
        push_decimal_u64(out, m);
        assert(out@ =~= old(out)@ + dec_rep_signed(n as int));
    } else {
        push_decimal_u64(out, n as u64);
    }
}

} // verus!
