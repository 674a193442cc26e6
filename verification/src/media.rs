//! Byte-range-aware serving of static asset content: an exactly specified
//! parser for single-range `Range: bytes=...` headers, the content types
//! derived from a path's extension, the `Content-Range` rendering, and the
//! slicing of an asset's bytes for full or partial responses. Exactly one
//! range is supported; zero ranges, several ranges, malformed input and
//! out-of-bounds ranges are all rejected as a client error, distinct from
//! "not found".

use vstd::prelude::*;
use crate::text::{dec_rep, push_char, push_decimal_u64};
use vstd::string::StringExecFns;

verus! {

/// A contiguous sub-interval of an asset's bytes.
#[derive(Debug, Clone, Copy, PartialEq, Eq, Structural)]
pub struct ByteRange {
    pub start: u64,
    pub length: u64,
}

/// The client-error outcome for a malformed, absent-where-needed, or
/// out-of-bounds range request.
#[derive(Debug, Clone, Copy, PartialEq, Eq, Structural)]
pub struct InvalidRange;

/// A decimal digit byte.
pub open spec fn is_digit(b: u8) -> bool {
    48 <= b && b <= 57
}

pub open spec fn all_digits(s: Seq<u8>) -> bool {
    forall|i: int| 0 <= i < s.len() ==> is_digit(s[i])
}

/// The number a digit string denotes, most significant digit first.
pub open spec fn digits_val(s: Seq<u8>) -> int
    decreases s.len(),
{
    if s.len() == 0 {
        0
    } else {
        digits_val(s.drop_last()) * 10 + s.last() - 48
    }
}

/// Index of the first occurrence of `b`, or a negative number.
pub open spec fn find_byte(s: Seq<u8>, b: u8) -> int
    decreases s.len(),
{
    if s.len() == 0 {
        -1
    } else if s[0] == b {
        0
    } else {
        if find_byte(s.drop_first(), b) < 0 {
            -1
        } else {
            find_byte(s.drop_first(), b) + 1
        }
    }
}

/// Index of the last occurrence of `b`, or a negative number.
pub open spec fn rfind_byte(s: Seq<u8>, b: u8) -> int
    decreases s.len(),
{
    if s.len() == 0 {
        -1
    } else if s.last() == b {
        s.len() - 1
    } else {
        rfind_byte(s.drop_last(), b)
    }
}

/// The bytes of `bytes=`, the unit prefix every range header must carry.
pub open spec fn bytes_eq_prefix() -> Seq<u8> {
    seq![98u8, 121u8, 116u8, 101u8, 115u8, 61u8]
}

/// One range spec after the `bytes=` prefix, resolved against the total
/// length: `A-B` takes bytes A through B inclusive, `A-` everything from
/// A on, `-N` the final N bytes. Anything else — several ranges, an empty
/// spec, stray bytes, a bound past the content — is rejected.
pub open spec fn parse_after_prefix(r: Seq<u8>, total: u64) -> Option<ByteRange> {
    let d = find_byte(r, 45);
    if d < 0 {
        None
    } else if d == 0 {
        // "-N": the final N bytes
        let digits = r.drop_first();
        if digits.len() > 0 && all_digits(digits) && digits_val(digits) <= u64::MAX {
            if 1 <= digits_val(digits) && digits_val(digits) <= total {
                Some(ByteRange { start: (total - digits_val(digits)) as u64, length: digits_val(digits) as u64 })
            } else {
                None
            }
        } else {
            None
        }
    } else {
        let left = r.subrange(0, d);
        let right = r.subrange(d + 1, r.len() as int);
        if all_digits(left) && digits_val(left) <= u64::MAX {
            let a = digits_val(left);
            if right.len() == 0 {
                // "A-": everything from A on
                if a < total {
                    Some(ByteRange { start: a as u64, length: (total - a) as u64 })
                } else {
                    None
                }
            } else if all_digits(right) && digits_val(right) <= u64::MAX {
                // "A-B": bytes A through B inclusive
                let b = digits_val(right);
                if a <= b && b < total {
                    Some(ByteRange { start: a as u64, length: (b - a + 1) as u64 })
                } else {
                    None
                }
            } else {
                None
            }
        } else {
            None
        }
    }
}

/// The single byte range a header names against a total length, if any.
pub open spec fn parse_range(h: Seq<u8>, total: u64) -> Option<ByteRange> {
    if h.len() >= 6 && h.subrange(0, 6) == bytes_eq_prefix() {
        parse_after_prefix(h.skip(6), total)
    } else {
        None
    }
}

/// Every accepted range fits the content: at least one byte, and never
/// past the end.
pub proof fn lemma_parse_range_in_bounds(h: Seq<u8>, total: u64)
    ensures
        parse_range(h, total) matches Some(r) ==> 1 <= r.length && r.start + r.length <= total,
{
    if h.len() >= 6 && h.subrange(0, 6) == bytes_eq_prefix() {
        let r = h.skip(6);
        let d = find_byte(r, 45);
        if d == 0 {
            let digits = r.drop_first();
            if digits.len() > 0 && all_digits(digits) {
                lemma_digits_val_nonneg(digits);
            }
        } else if d > 0 {
            let left = r.subrange(0, d);
            let right = r.subrange(d + 1, r.len() as int);
            if all_digits(left) {
                lemma_digits_val_nonneg(left);
            }
            if all_digits(right) {
                lemma_digits_val_nonneg(right);
            }
        }
    }
}

/// The digit prefixes of a digit string never denote more than the whole.
proof fn lemma_digits_val_monotone(s: Seq<u8>, i: int)
    requires
        0 <= i <= s.len(),
        all_digits(s),
    ensures
        digits_val(s.subrange(0, i)) <= digits_val(s),
        digits_val(s) >= 0,
    decreases s.len() - i,
{
    if i == s.len() {
        assert(s.subrange(0, i) =~= s);
        lemma_digits_val_nonneg(s);
    } else {
        lemma_digits_val_monotone(s, i + 1);
        let p = s.subrange(0, i + 1);
        assert(p.drop_last() =~= s.subrange(0, i));
        lemma_digits_val_nonneg(s.subrange(0, i));
        assert(digits_val(p) == digits_val(s.subrange(0, i)) * 10 + p.last() - 48);
        assert(is_digit(s[i]));
    }
}

proof fn lemma_digits_val_nonneg(s: Seq<u8>)
    requires
        all_digits(s),
    ensures
        digits_val(s) >= 0,
    decreases s.len(),
{
    if s.len() > 0 {
        assert(all_digits(s.drop_last()));
        lemma_digits_val_nonneg(s.drop_last());
    }
}

/// Reads the digit string `s[from..to]` as a number; fails on a non-digit
/// or on a value past `u64::MAX`.
pub(crate) fn parse_u64(s: &[u8], from: usize, to: usize) -> (r: Option<u64>)
    requires
        from <= to <= s@.len(),
    ensures
        r matches Some(n) ==> all_digits(s@.subrange(from as int, to as int)) && n == digits_val(
            s@.subrange(from as int, to as int),
        ),
        r is None ==> !all_digits(s@.subrange(from as int, to as int)) || digits_val(
            s@.subrange(from as int, to as int),
        ) > u64::MAX,
{
    let ghost whole = s@.subrange(from as int, to as int);
    let mut acc: u64 = 0;
    let mut i: usize = from;
    assert(s@.subrange(from as int, from as int) =~= Seq::<u8>::empty());
    while i < to
        invariant
            from <= i <= to <= s@.len(),
            all_digits(s@.subrange(from as int, i as int)),
            acc == digits_val(s@.subrange(from as int, i as int)),
            whole == s@.subrange(from as int, to as int),
        decreases to - i,
    {
        let b = s[i];
        if b < 48 || b > 57 {
            proof {
                assert(whole[i - from] == s@[i as int]);
                assert(!all_digits(whole));
            }
            return None;
        }
        proof {
            let p = s@.subrange(from as int, i + 1);
            assert(p.drop_last() =~= s@.subrange(from as int, i as int));
            assert(p.last() == s@[i as int]);
            assert forall|j: int| 0 <= j < p.len() implies is_digit(p[j]) by {
                if j < p.len() - 1 {
                    assert(p[j] == s@.subrange(from as int, i as int)[j]);
                }
            }
            assert(digits_val(p) == digits_val(s@.subrange(from as int, i as int)) * 10 + p.last()
                - 48);
            assert(whole.subrange(0, i + 1 - from) =~= p);
        }
        if acc > 0xFFFF_FFFF_FFFF_FFFFu64 / 10 {
            proof {
                assert(digits_val(s@.subrange(from as int, i + 1)) > u64::MAX);
                lemma_prefix_overflow(whole, i + 1 - from);
            }
            return None;
        }
        let shifted: u64 = acc * 10;
        let d: u64 = (b - 48) as u64;
        if shifted > u64::MAX - d {
            proof {
                assert(digits_val(s@.subrange(from as int, i + 1)) > u64::MAX);
                lemma_prefix_overflow(whole, i + 1 - from);
            }
            return None;
        }
        acc = shifted + d;
        i = i + 1;
    }
    assert(s@.subrange(from as int, i as int) =~= whole);
    Some(acc)
}

/// A digit-string whose prefix already denotes more than `u64::MAX`
/// denotes more than `u64::MAX` itself; digit suffixes only grow it.
proof fn lemma_prefix_overflow(s: Seq<u8>, i: int)
    requires
        0 <= i <= s.len(),
        all_digits(s.subrange(0, i)),
        digits_val(s.subrange(0, i)) > u64::MAX,
    ensures
        !all_digits(s) || digits_val(s) > u64::MAX,
{
    if all_digits(s) {
        lemma_digits_val_monotone(s, i);
    }
}

/// Finds the first `b` at or after `from`, as the parser's dash search.
pub(crate) fn find_byte_from(s: &[u8], from: usize, b: u8) -> (r: Option<usize>)
    requires
        from <= s@.len(),
    ensures
        r matches Some(i) ==> from <= i < s@.len() && i - from == find_byte(
            s@.skip(from as int),
            b,
        ),
        r is None ==> find_byte(s@.skip(from as int), b) < 0,
{
    let mut i: usize = from;
    while i < s.len()
        invariant
            from <= i <= s@.len(),
            find_byte(s@.skip(from as int), b) == if find_byte(s@.skip(i as int), b) < 0 {
                -1int
            } else {
                find_byte(s@.skip(i as int), b) + i - from
            },
            forall|k: int| from <= k < i ==> s@[k] != b,
        decreases s@.len() - i,
    {
        proof {
            assert(s@.skip(i as int)[0] == s@[i as int]);
            assert(s@.skip(i as int).drop_first() =~= s@.skip(i + 1));
        }
        if s[i] == b {
            return Some(i);
        }
        i = i + 1;
    }
    proof {
        assert(s@.skip(i as int) =~= Seq::<u8>::empty());
    }
    None
}

/// Parses a whole `Range` header against a total content length.
pub fn parse_range_header(h: &[u8], total: u64) -> (r: Result<ByteRange, InvalidRange>)
    ensures
        r matches Ok(br) ==> parse_range(h@, total) == Some(br),
        r is Err ==> parse_range(h@, total) is None,
{
    if h.len() < 6 {
        return Err(InvalidRange);
    }
    if !(h[0] == 98 && h[1] == 121 && h[2] == 116 && h[3] == 101 && h[4] == 115 && h[5] == 61) {
        proof {
            assert(h@.subrange(0, 6) != bytes_eq_prefix());
        }
        return Err(InvalidRange);
    }
    proof {
        assert(h@.subrange(0, 6) =~= bytes_eq_prefix());
    }
    let ghost rest = h@.skip(6);
    let dash = match find_byte_from(h, 6, 45) {
        Some(d) => d,
        None => {
            return Err(InvalidRange);
        },
    };
    proof {
        assert(rest =~= h@.skip(6));
    }
    if dash == 6 {
        // "-N": the final N bytes
        if h.len() == 7 {
            proof {
                assert(rest.drop_first() =~= h@.subrange(7, h@.len() as int));
                assert(rest.drop_first().len() == 0);
            }
            return Err(InvalidRange);
        }
        match parse_u64(h, 7, h.len()) {
            Some(n) => {
                proof {
                    assert(rest.drop_first() =~= h@.subrange(7, h@.len() as int));
                }
                if 1 <= n && n <= total {
                    Ok(ByteRange { start: total - n, length: n })
                } else {
                    Err(InvalidRange)
                }
            },
            None => {
                proof {
                    assert(rest.drop_first() =~= h@.subrange(7, h@.len() as int));
                }
                Err(InvalidRange)
            },
        }
    } else {
        let ghost left = rest.subrange(0, dash - 6);
        let ghost right = rest.subrange(dash - 6 + 1, rest.len() as int);
        proof {
            assert(left =~= h@.subrange(6, dash as int));
            assert(right =~= h@.subrange(dash + 1, h@.len() as int));
        }
        let a = match parse_u64(h, 6, dash) {
            Some(a) => a,
            None => {
                return Err(InvalidRange);
            },
        };
        if dash + 1 == h.len() {
            // "A-": everything from A on
            proof {
                assert(right.len() == 0);
            }
            if a < total {
                Ok(ByteRange { start: a, length: total - a })
            } else {
                Err(InvalidRange)
            }
        } else {
            match parse_u64(h, dash + 1, h.len()) {
                Some(b) => {
                    if a <= b && b < total {
                        Ok(ByteRange { start: a, length: b - a + 1 })
                    } else {
                        Err(InvalidRange)
                    }
                },
                None => Err(InvalidRange),
            }
        }
    }
}

/// The `Content-Range` value of a partial response:
/// `bytes {start}-{end}/{total}` with `end = start + length - 1`.
pub open spec fn content_range_rep(r: ByteRange, total: u64) -> Seq<char> {
    "bytes "@ + dec_rep(r.start as nat) + seq!['-'] + dec_rep((r.start + r.length - 1) as nat)
        + seq!['/'] + dec_rep(total as nat)
}

pub fn content_range_value(r: &ByteRange, total: u64) -> (s: String)
    requires
        1 <= r.length,
        r.start + r.length <= total,
    ensures
        s@ == content_range_rep(*r, total),
{
    let mut s = String::new();
    s.append("bytes ");
    push_decimal_u64(&mut s, r.start);
    push_char(&mut s, '-');
    push_decimal_u64(&mut s, r.start + (r.length - 1));
    push_char(&mut s, '/');
    push_decimal_u64(&mut s, total);
    s
}

/// The last-occurrence index is the last occurrence: the byte stands
/// there and never later.
proof fn lemma_rfind(s: Seq<u8>, b: u8)
    ensures
        -1 <= rfind_byte(s, b) < s.len(),
        rfind_byte(s, b) >= 0 ==> s[rfind_byte(s, b)] == b,
        forall|k: int| rfind_byte(s, b) < k < s.len() ==> s[k] != b,
    decreases s.len(),
{
    if s.len() == 0 {
    } else if s.last() == b {
    } else {
        lemma_rfind(s.drop_last(), b);
        assert(s[s.len() - 1] == s.last());
        assert forall|k: int| rfind_byte(s, b) < k < s.len() implies s[k] != b by {
            if k < s.len() - 1 {
                assert(s.drop_last()[k] == s[k]);
            }
        }
        if rfind_byte(s, b) >= 0 {
            assert(s.drop_last()[rfind_byte(s.drop_last(), b)] == s[rfind_byte(s, b)]);
        }
    }
}

/// A path's extension: what follows the last dot of the last segment;
/// empty when the last segment has no dot.
pub open spec fn ext_of(s: Seq<u8>) -> Seq<u8> {
    if rfind_byte(s, 46) > rfind_byte(s, 47) {
        s.subrange(rfind_byte(s, 46) + 1, s.len() as int)
    } else {
        Seq::empty()
    }
}

/// Finds where the extension starts, scanning from the end for the first
/// dot or path separator.
fn ext_start(path: &[u8]) -> (r: Option<usize>)
    ensures
        r matches Some(j) ==> 1 <= j <= path@.len() && rfind_byte(path@, 46) == j - 1
            && rfind_byte(path@, 47) < j - 1,
        r is None ==> rfind_byte(path@, 46) <= rfind_byte(path@, 47),
{
    proof {
        lemma_rfind(path@, 46);
        lemma_rfind(path@, 47);
    }
    let mut i: usize = path.len();
    while i > 0
        invariant
            i <= path@.len(),
            forall|k: int| i <= k < path@.len() ==> path@[k] != 46 && path@[k] != 47,
        decreases i,
    {
        let b = path[i - 1];
        if b == 46 {
            proof {
                lemma_rfind(path@, 46);
                lemma_rfind(path@, 47);
                assert(path@[i - 1] == 46);
                if rfind_byte(path@, 46) > i - 1 {
                    assert(path@[rfind_byte(path@, 46)] == 46);
                    assert(false);
                }
                assert(rfind_byte(path@, 46) == i - 1);
                if rfind_byte(path@, 47) >= i - 1 {
                    assert(path@[rfind_byte(path@, 47)] == 47);
                    assert(false);
                }
            }
            return Some(i);
        }
        if b == 47 {
            proof {
                lemma_rfind(path@, 46);
                lemma_rfind(path@, 47);
                assert(path@[i - 1] == 47);
                if rfind_byte(path@, 47) > i - 1 {
                    assert(path@[rfind_byte(path@, 47)] == 47);
                    assert(false);
                }
                assert(rfind_byte(path@, 47) == i - 1);
                if rfind_byte(path@, 46) > i - 1 {
                    assert(path@[rfind_byte(path@, 46)] == 46);
                    assert(false);
                }
            }
            return None;
        }
        i = i - 1;
    }
    proof {
        if rfind_byte(path@, 46) >= 0 {
            assert(path@[rfind_byte(path@, 46)] == 46);
            assert(false);
        }
    }
    None
}

/// The content type served for an extension; anything unrecognized is
/// opaque binary.
pub open spec fn content_type_rep(ext: Seq<u8>) -> Seq<char> {
    if ext == seq![104u8, 116u8, 109u8, 108u8] {  // html
        "text/html; charset=utf-8"@
    } else if ext == seq![99u8, 115u8, 115u8] {  // css
        "text/css; charset=utf-8"@
    } else if ext == seq![106u8, 115u8] {  // js
        "application/javascript"@
    } else if ext == seq![106u8, 115u8, 111u8, 110u8] {  // json
        "application/json"@
    } else if ext == seq![112u8, 110u8, 103u8] {  // png
        "image/png"@
    } else if ext == seq![106u8, 112u8, 103u8] || ext == seq![106u8, 112u8, 101u8, 103u8] {  // jpg, jpeg
        "image/jpeg"@
    } else if ext == seq![103u8, 105u8, 102u8] {  // gif
        "image/gif"@
    } else if ext == seq![115u8, 118u8, 103u8] {  // svg
        "image/svg+xml"@
    } else if ext == seq![105u8, 99u8, 111u8] {  // ico
        "image/x-icon"@
    } else if ext == seq![116u8, 120u8, 116u8] {  // txt
        "text/plain; charset=utf-8"@
    } else if ext == seq![109u8, 112u8, 52u8] {  // mp4
        "video/mp4"@
    } else if ext == seq![119u8, 101u8, 98u8, 109u8] {  // webm
        "video/webm"@
    } else {
        "application/octet-stream"@
    }
}

fn ext_is2(e: &[u8], a: u8, b: u8) -> (r: bool)
    ensures
        r == (e@ == seq![a, b]),
{
    if e.len() == 2 && e[0] == a && e[1] == b {
        proof {
            assert(e@ =~= seq![a, b]);
        }
        true
    } else {
        proof {
            if e@ == seq![a, b] {
                assert(e@.len() == 2);
                assert(e@[0] == a && e@[1] == b);
            }
        }
        false
    }
}

fn ext_is3(e: &[u8], a: u8, b: u8, c: u8) -> (r: bool)
    ensures
        r == (e@ == seq![a, b, c]),
{
    if e.len() == 3 && e[0] == a && e[1] == b && e[2] == c {
        proof {
            assert(e@ =~= seq![a, b, c]);
        }
        true
    } else {
        proof {
            if e@ == seq![a, b, c] {
                assert(e@.len() == 3);
                assert(e@[0] == a && e@[1] == b && e@[2] == c);
            }
        }
        false
    }
}

fn ext_is4(e: &[u8], a: u8, b: u8, c: u8, d: u8) -> (r: bool)
    ensures
        r == (e@ == seq![a, b, c, d]),
{
    if e.len() == 4 && e[0] == a && e[1] == b && e[2] == c && e[3] == d {
        proof {
            assert(e@ =~= seq![a, b, c, d]);
        }
        true
    } else {
        proof {
            if e@ == seq![a, b, c, d] {
                assert(e@.len() == 4);
                assert(e@[0] == a && e@[1] == b && e@[2] == c && e@[3] == d);
            }
        }
        false
    }
}

/// The content type for a path, derived from its extension.
pub fn content_type_for(path: &[u8]) -> (ct: String)
    ensures
        ct@ == content_type_rep(ext_of(path@)),
{
    let e: &[u8] = match ext_start(path) {
        Some(j) => {
            let whole = path.len();
            let e = &path[j..whole];
            proof {
                assert(e@ =~= ext_of(path@));
            }
            e
        },
        None => {
            let e = &path[0..0];
            proof {
                assert(e@ =~= ext_of(path@));
            }
            e
        },
    };
    if ext_is4(e, 104, 116, 109, 108) {
        "text/html; charset=utf-8".to_owned()
    } else if ext_is3(e, 99, 115, 115) {
        "text/css; charset=utf-8".to_owned()
    } else if ext_is2(e, 106, 115) {
        "application/javascript".to_owned()
    } else if ext_is4(e, 106, 115, 111, 110) {
        "application/json".to_owned()
    } else if ext_is3(e, 112, 110, 103) {
        "image/png".to_owned()
    } else if ext_is3(e, 106, 112, 103) || ext_is4(e, 106, 112, 101, 103) {
        "image/jpeg".to_owned()
    } else if ext_is3(e, 103, 105, 102) {
        "image/gif".to_owned()
    } else if ext_is3(e, 115, 118, 103) {
        "image/svg+xml".to_owned()
    } else if ext_is3(e, 105, 99, 111) {
        "image/x-icon".to_owned()
    } else if ext_is3(e, 116, 120, 116) {
        "text/plain; charset=utf-8".to_owned()
    } else if ext_is3(e, 109, 112, 52) {
        "video/mp4".to_owned()
    } else if ext_is4(e, 119, 101, 98, 109) {
        "video/webm".to_owned()
    } else {
        "application/octet-stream".to_owned()
    }
}

/// A response body: the whole content, or one sub-range with its
/// `Content-Range` value.
#[derive(Debug)]
pub enum Served {
    Full { data: Vec<u8>, content_type: String },
    Partial { data: Vec<u8>, content_type: String, content_range: String },
}

/// Serves an asset's bytes: everything when no range was requested, and
/// exactly the requested sub-range — with its `Content-Range` value —
/// when one was; a header that does not name exactly one in-bounds range
/// is rejected.
pub fn serve_bytes(data: Vec<u8>, content_type: String, range_header: Option<&[u8]>) -> (r: Result<
    Served,
    InvalidRange,
>)
    ensures
        range_header is None ==> (r matches Ok(s) && s matches Served::Full {
            data: d,
            content_type: ct,
        } && d == data && ct == content_type),
        range_header matches Some(h) ==> match parse_range(h@, data@.len() as u64) {
            Some(br) => r matches Ok(s) && (s matches Served::Partial {
                data: d,
                content_type: ct,
                content_range: cr,
            } && d@ == data@.subrange(br.start as int, br.start + br.length) && ct == content_type
                && cr@ == content_range_rep(br, data@.len() as u64)),
            None => r is Err,
        },
{
    match range_header {
        None => Ok(Served::Full { data, content_type }),
        Some(h) => {
            let total: u64 = data.len() as u64;
            match parse_range_header(h, total) {
                Ok(br) => {
                    proof {
                        lemma_parse_range_in_bounds(h@, total);
                    }
                    let start: usize = br.start as usize;
                    let len: usize = br.length as usize;
                    let mut out: Vec<u8> = Vec::new();
                    let mut i: usize = 0;
                    while i < len
                        invariant
                            i <= len,
                            start + len <= data@.len(),
                            data@.len() <= usize::MAX,
                            out@ =~= data@.subrange(start as int, start + i),
                        decreases len - i,
                    {
                        out.push(data[start + i]);
                        proof {
                            assert(data@.subrange(start as int, start + i + 1) =~= data@.subrange(
                                start as int,
                                start + i,
                            ).push(data@[start + i]));
                        }
                        i = i + 1;
                    }
                    let cr = content_range_value(&br, total);
                    Ok(Served::Partial { data: out, content_type, content_range: cr })
                },
                Err(e) => Err(e),
            }
        },
    }
}


} // verus!
