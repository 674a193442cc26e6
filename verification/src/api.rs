//! What the mocked player-facing API actually computes: reading the
//! cookie-backed fake state (numeric counters and the stored tarot
//! spread) and dealing a fresh spread of three distinct cards. The draw
//! itself comes from the process's random number generator; what is
//! proved holds for every number the generator returns.

use vstd::prelude::*;
use crate::media::{all_digits, digits_val, find_byte, find_byte_from, parse_u64};

verus! {

/// What a numeric cookie value denotes, exactly as the standard integer
/// parse reads it: an optional sign, then at least one digit, within the
/// 32-bit range; anything else denotes nothing.
pub open spec fn parse_i32_spec(s: Seq<u8>) -> Option<i32> {
    if s.len() > 0 && s[0] == 45 {
        parse_signed_digits(s.drop_first(), true)
    } else if s.len() > 0 && s[0] == 43 {
        parse_signed_digits(s.drop_first(), false)
    } else {
        parse_signed_digits(s, false)
    }
}

pub open spec fn parse_signed_digits(digits: Seq<u8>, neg: bool) -> Option<i32> {
    if digits.len() > 0 && all_digits(digits) {
        if neg {
            if -digits_val(digits) >= i32::MIN {
                Some((-digits_val(digits)) as i32)
            } else {
                None
            }
        } else {
            if digits_val(digits) <= i32::MAX {
                Some(digits_val(digits) as i32)
            } else {
                None
            }
        }
    } else {
        None
    }
}

/// Reads a numeric cookie value.
pub fn parse_cookie_i32(s: &[u8]) -> (r: Option<i32>)
    ensures
        r == parse_i32_spec(s@),
{
    let neg: bool;
    let start: usize;
    if s.len() > 0 && s[0] == 45 {
        neg = true;
        start = 1;
    } else if s.len() > 0 && s[0] == 43 {
        neg = false;
        start = 1;
    } else {
        neg = false;
        start = 0;
    }
    proof {
        if start == 1 {
            assert(s@.subrange(1, s@.len() as int) =~= s@.drop_first());
        } else {
            assert(s@.subrange(0, s@.len() as int) =~= s@);
        }
    }
    if s.len() == start {
        return None;
    }
    match parse_u64(s, start, s.len()) {
        Some(v) => {
            if neg {
                if v <= 0x8000_0000u64 {
                    Some((-(v as i64)) as i32)
                } else {
                    None
                }
            } else {
                if v <= 0x7FFF_FFFFu64 {
                    Some(v as i32)
                } else {
                    None
                }
            }
        },
        None => None,
    }
}

/// What a tarot-spread cookie denotes: comma-separated numbers, all of
/// them readable, in order; one unreadable piece spoils the whole.
pub open spec fn parse_spread_spec(s: Seq<u8>) -> Option<Seq<i32>>
    decreases s.len(),
{
    if find_byte(s, 44) < 0 || find_byte(s, 44) >= s.len() {
        match parse_i32_spec(s) {
            Some(v) => Some(seq![v]),
            None => None,
        }
    } else {
        match parse_i32_spec(s.subrange(0, find_byte(s, 44))) {
            Some(v) => match parse_spread_spec(s.skip(find_byte(s, 44) + 1)) {
                Some(rest) => Some(seq![v] + rest),
                None => None,
            },
            None => None,
        }
    }
}

/// Reads a tarot-spread cookie.
pub fn parse_spread(s: &[u8]) -> (r: Option<Vec<i32>>)
    ensures
        r is Some <==> parse_spread_spec(s@) is Some,
        r matches Some(v) ==> Some(v@) == parse_spread_spec(s@),
{
    let mut out: Vec<i32> = Vec::new();
    let mut seg_start: usize = 0;
    proof {
        assert(s@.skip(0) =~= s@);
    }
    loop
        invariant
            seg_start <= s@.len(),
            parse_spread_spec(s@) == (match parse_spread_spec(s@.skip(seg_start as int)) {
                Some(rest) => Some(out@ + rest),
                None => None::<Seq<i32>>,
            }),
        decreases s@.len() - seg_start,
    {
        let ghost tail = s@.skip(seg_start as int);
        let n = s.len();
        match find_byte_from(s, seg_start, 44) {
            Some(c) => {
                proof {
                    assert(tail.subrange(0, c - seg_start) =~= s@.subrange(
                        seg_start as int,
                        c as int,
                    ));
                    assert(tail.skip(c - seg_start + 1) =~= s@.skip(c + 1));
                }
                match parse_segment(s, seg_start, c) {
                    Some(v) => {
                        out.push(v);
                        proof {
                            match parse_spread_spec(s@.skip(c + 1)) {
                                Some(rest) => {
                                    assert(out@ + rest =~= out@.drop_last() + (seq![v] + rest));
                                },
                                None => {},
                            }
                        }
                        seg_start = c + 1;
                    },
                    None => {
                        return None;
                    },
                }
            },
            None => {
                proof {
                    assert(tail.subrange(0, tail.len() as int) =~= s@.subrange(
                        seg_start as int,
                        s@.len() as int,
                    ));
                }
                match parse_segment(s, seg_start, s.len()) {
                    Some(v) => {
                        out.push(v);
                        return Some(out);
                    },
                    None => {
                        return None;
                    },
                }
            },
        }
    }
}

/// Reads one comma-delimited segment as a 32-bit number.
fn parse_segment(s: &[u8], from: usize, to: usize) -> (r: Option<i32>)
    requires
        from <= to <= s@.len(),
    ensures
        r == parse_i32_spec(s@.subrange(from as int, to as int)),
{
    let ghost seg = s@.subrange(from as int, to as int);
    let neg: bool;
    let start: usize;
    if to > from && s[from] == 45 {
        neg = true;
        start = from + 1;
    } else if to > from && s[from] == 43 {
        neg = false;
        start = from + 1;
    } else {
        neg = false;
        start = from;
    }
    proof {
        assert(seg.len() > 0 ==> seg[0] == s@[from as int]);
        if start == from + 1 {
            assert(s@.subrange(start as int, to as int) =~= seg.drop_first());
        } else {
            assert(s@.subrange(start as int, to as int) =~= seg);
        }
    }
    if to == start {
        return None;
    }
    match parse_u64(s, start, to) {
        Some(v) => {
            if neg {
                if v <= 0x8000_0000u64 {
                    Some((-(v as i64)) as i32)
                } else {
                    None
                }
            } else {
                if v <= 0x7FFF_FFFFu64 {
                    Some(v as i32)
                } else {
                    None
                }
            }
        },
        None => None,
    }
}

/// Relies on `rand::random_range` over the thread-local generator: a
/// number drawn from the half-open range, anywhere in it.
#[verifier::external_body]
fn random_below(n: i32) -> (r: i32)
    requires
        1 <= n,
    ensures
        0 <= r < n,
{
    rand::random_range(0..n)
}

/// Deals a tarot spread: three pairwise distinct card numbers, each
/// between -1 and 19 inclusive. Drawing without replacement — each card
/// picked uniformly among those not yet dealt — never needs a retry.
pub fn gen_tarot() -> (r: Vec<i32>)
    ensures
        r@.len() == 3,
        forall|i: int| 0 <= i < 3 ==> -1 <= #[trigger] r@[i] < 20,
        r@[0] != r@[1] && r@[0] != r@[2] && r@[1] != r@[2],
{
    let a: i32 = random_below(21);
    let b0: i32 = random_below(20);
    let b: i32 = if b0 >= a {
        b0 + 1
    } else {
        b0
    };
    let lo: i32 = if a < b {
        a
    } else {
        b
    };
    let hi: i32 = if a < b {
        b
    } else {
        a
    };
    let c0: i32 = random_below(19);
    let c1: i32 = if c0 >= lo {
        c0 + 1
    } else {
        c0
    };
    let c: i32 = if c1 >= hi {
        c1 + 1
    } else {
        c1
    };
    let mut r: Vec<i32> = Vec::new();
    r.push(a - 1);
    r.push(b - 1);
    r.push(c - 1);
    r
}

} // verus!
