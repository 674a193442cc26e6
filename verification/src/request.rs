//! Outbound queries for the versioned-entity endpoint: an immutable request
//! with one mandatory route and many optional filters, a builder for it, and
//! an exactly specified serialization to the query-string format the remote
//! expects (form-urlencoding: `*-._` and alphanumerics kept, space as `+`,
//! every other byte as an uppercase `%XX` escape).

use vstd::prelude::*;
use crate::text::{dec_rep, dec_rep_signed, digit_char, push_char, push_decimal_i64, push_decimal_u64};
use crate::time::{rfc3339, rfc3339_of, Timestamp, MAX_TIMESTAMP_SECS};
use vstd::string::StringExecFns;
use vstd::utf8::encode_utf8;

verus! {

/// Chronological direction of a version listing.
#[derive(Clone, Copy, Debug, PartialEq, Eq, Structural)]
pub enum Order {
    Asc,
    Desc,
}

/// The lowercase word the remote expects for an ordering.
pub open spec fn order_rep(o: Order) -> Seq<char> {
    match o {
        Order::Asc => "asc"@,
        Order::Desc => "desc"@,
    }
}

/// The word the remote expects for a boolean filter.
pub open spec fn bool_rep(b: bool) -> Seq<char> {
    if b {
        "true"@
    } else {
        "false"@
    }
}

/// Bytes kept verbatim by the form-urlencoding.
pub open spec fn unreserved(b: u8) -> bool {
    (48 <= b && b <= 57)  // 0-9
    || (97 <= b && b <= 122)  // a-z
    || (65 <= b && b <= 90)  // A-Z
    || b == 42 || b == 45 || b == 46 || b == 95  // * - . _
}

/// Uppercase hexadecimal digit.
pub open spec fn hex_digit(d: nat) -> char {
    if d < 10 {
        digit_char(d)
    } else {
        ((d + 55) as u8) as char
    }
}

/// Encoding of one byte: kept, `+` for space, or a `%XX` escape.
pub open spec fn enc_byte(b: u8) -> Seq<char> {
    if unreserved(b) {
        seq![b as char]
    } else if b == 32 {
        seq!['+']
    } else {
        seq!['%', hex_digit((b / 16) as nat), hex_digit((b % 16) as nat)]
    }
}

/// Form-urlencoding of a byte string.
pub open spec fn enc_bytes(s: Seq<u8>) -> Seq<char>
    decreases s.len(),
{
    if s.len() == 0 {
        Seq::empty()
    } else {
        enc_byte(s[0]) + enc_bytes(s.drop_first())
    }
}

/// Form-urlencoding of a character string: its UTF-8 bytes, encoded.
pub open spec fn enc_str(s: Seq<char>) -> Seq<char> {
    enc_bytes(encode_utf8(s))
}

proof fn lemma_enc_bytes_snoc(s: Seq<u8>, b: u8)
    ensures
        enc_bytes(s.push(b)) == enc_bytes(s) + enc_byte(b),
    decreases s.len(),
{
    if s.len() == 0 {
        assert(s.push(b)[0] == b);
        assert(s.push(b).drop_first() =~= Seq::<u8>::empty());
        assert(enc_bytes(Seq::<u8>::empty()) == Seq::<char>::empty());
        assert(enc_bytes(s.push(b)) =~= enc_byte(b));
        assert(enc_bytes(s) + enc_byte(b) =~= enc_byte(b));
    } else {
        assert(s.push(b)[0] == s[0]);
        assert(s.push(b).drop_first() =~= s.drop_first().push(b));
        lemma_enc_bytes_snoc(s.drop_first(), b);
        assert(enc_bytes(s.push(b)) =~= enc_bytes(s) + enc_byte(b));
    }
}

fn hex_char(d: u8) -> (c: char)
    requires
        d < 16,
    ensures
        c == hex_digit(d as nat),
{
    if d < 10 {
        (48 + d) as char
    } else {
        (55 + d) as char
    }
}

fn is_unreserved(b: u8) -> (r: bool)
    ensures
        r == unreserved(b),
{
    (48 <= b && b <= 57) || (97 <= b && b <= 122) || (65 <= b && b <= 90) || b == 42 || b == 45
        || b == 46 || b == 95
}

/// Appends the form-urlencoding of `bytes` to `out`.
fn push_urlencoded_bytes(out: &mut String, bytes: &[u8])
    ensures
        final(out)@ == old(out)@ + enc_bytes(bytes@),
{
    let mut i: usize = 0;
    while i < bytes.len()
        invariant
            i <= bytes@.len(),
            out@ =~= old(out)@ + enc_bytes(bytes@.subrange(0, i as int)),
        decreases bytes@.len() - i,
    {
        let b = bytes[i];
        if is_unreserved(b) {
            push_char(out, b as char);
        } else if b == 32 {
            push_char(out, '+');
        } else {
            push_char(out, '%');
            push_char(out, hex_char(b / 16));
            push_char(out, hex_char(b % 16));
        }
        proof {
            assert(bytes@.subrange(0, i + 1) =~= bytes@.subrange(0, i as int).push(
                bytes@[i as int],
            ));
            lemma_enc_bytes_snoc(bytes@.subrange(0, i as int), bytes@[i as int]);
            assert(out@ =~= old(out)@ + enc_bytes(bytes@.subrange(0, i + 1)));
        }
        i = i + 1;
    }
    assert(bytes@.subrange(0, bytes@.len() as int) =~= bytes@);
}

/// Appends the form-urlencoding of `value` to `out`.
fn push_urlencoded_str(out: &mut String, value: &str)
    ensures
        final(out)@ == old(out)@ + enc_str(value@),
{
    let bytes = value.as_bytes();
    push_urlencoded_bytes(out, bytes);
}

/// One outbound query: the mandatory route, and every optional filter the
/// endpoint understands. Only present fields are serialized.
#[derive(Debug, Clone)]
pub struct Request {
    pub route: String,
    pub page: Option<String>,
    pub ty: Option<String>,
    pub count: Option<usize>,
    pub order: Option<Order>,
    pub id: Option<String>,
    pub at: Option<Timestamp>,
    pub after: Option<Timestamp>,
    pub before: Option<Timestamp>,
    pub started: Option<bool>,
    pub season: Option<i64>,
    pub day: Option<i64>,
    pub game: Option<String>,
}

/// Zero or one `key=value` parts for an optional field.
pub open spec fn opt_part(key_eq: Seq<char>, v: Option<Seq<char>>) -> Seq<Seq<char>> {
    match v {
        Some(s) => seq![key_eq + s],
        None => Seq::empty(),
    }
}

pub open spec fn enc_opt_str(v: Option<String>) -> Option<Seq<char>> {
    match v {
        Some(s) => Some(enc_str(s@)),
        None => None,
    }
}

pub open spec fn enc_opt_time(v: Option<Timestamp>) -> Option<Seq<char>> {
    match v {
        Some(t) => Some(enc_str(rfc3339_of(t.secs, t.nanos))),
        None => None,
    }
}

pub open spec fn dec_opt_usize(v: Option<usize>) -> Option<Seq<char>> {
    match v {
        Some(c) => Some(dec_rep(c as nat)),
        None => None,
    }
}

pub open spec fn dec_opt_i64(v: Option<i64>) -> Option<Seq<char>> {
    match v {
        Some(n) => Some(dec_rep_signed(n as int)),
        None => None,
    }
}

pub open spec fn order_opt(v: Option<Order>) -> Option<Seq<char>> {
    match v {
        Some(o) => Some(order_rep(o)),
        None => None,
    }
}

pub open spec fn bool_opt(v: Option<bool>) -> Option<Seq<char>> {
    match v {
        Some(b) => Some(bool_rep(b)),
        None => None,
    }
}

/// The serialized `key=value` parts of a request, in the endpoint's
/// field order; the route itself is part of the path, never of the query.
pub open spec fn query_parts(r: Request) -> Seq<Seq<char>> {
    opt_part("page="@, enc_opt_str(r.page)) + opt_part("type="@, enc_opt_str(r.ty)) + opt_part(
        "count="@,
        dec_opt_usize(r.count),
    ) + opt_part("order="@, order_opt(r.order)) + opt_part("id="@, enc_opt_str(r.id)) + opt_part(
        "at="@,
        enc_opt_time(r.at),
    ) + opt_part("after="@, enc_opt_time(r.after)) + opt_part(
        "before="@,
        enc_opt_time(r.before),
    ) + opt_part("started="@, bool_opt(r.started)) + opt_part(
        "season="@,
        dec_opt_i64(r.season),
    ) + opt_part("day="@, dec_opt_i64(r.day)) + opt_part("game="@, enc_opt_str(r.game))
}

/// Parts joined with `&`.
pub open spec fn join_amp(parts: Seq<Seq<char>>) -> Seq<char>
    decreases parts.len(),
{
    if parts.len() == 0 {
        Seq::empty()
    } else if parts.len() == 1 {
        parts[0]
    } else {
        parts[0] + seq!['&'] + join_amp(parts.drop_first())
    }
}

/// The whole query string of a request.
pub open spec fn query_of(r: Request) -> Seq<char> {
    join_amp(query_parts(r))
}

/// The full URL of a request against a base: path, `?`, then the query.
pub open spec fn url_of(base: Seq<char>, r: Request) -> Seq<char> {
    base + r.route@ + seq!['?'] + query_of(r)
}

proof fn lemma_join_amp_snoc(parts: Seq<Seq<char>>, p: Seq<char>)
    ensures
        join_amp(parts.push(p)) == if parts.len() == 0 {
            p
        } else {
            join_amp(parts) + seq!['&'] + p
        },
    decreases parts.len(),
{
    if parts.len() == 0 {
        assert(parts.push(p) =~= seq![p]);
    } else {
        assert(parts.push(p).drop_first() =~= parts.drop_first().push(p));
        lemma_join_amp_snoc(parts.drop_first(), p);
        if parts.len() == 1 {
            assert(join_amp(parts.push(p)) =~= parts[0] + seq!['&'] + p);
            assert(join_amp(parts) == parts[0]);
        } else {
            assert(join_amp(parts.push(p)) =~= join_amp(parts) + seq!['&'] + p);
        }
    }
}

/// The separator owed before a new part.
spec fn sep_rep(first: bool) -> Seq<char> {
    if first {
        Seq::empty()
    } else {
        seq!['&']
    }
}

fn push_sep(out: &mut String, first: bool)
    ensures
        final(out)@ == old(out)@ + sep_rep(first),
{
    if !first {
        push_char(out, '&');
    } else {
        assert(out@ =~= old(out)@ + sep_rep(first));
    }
}


/// Appends `key` and an encoded text value when present, with its separator.
fn append_opt_text(
    q: &mut String,
    first: bool,
    key: &str,
    value: &Option<String>,
    Ghost(parts): Ghost<Seq<Seq<char>>>,
) -> (out: (bool, Ghost<Seq<Seq<char>>>))
    requires
        old(q)@ == join_amp(parts),
        first <==> parts.len() == 0,
    ensures
        out.1@ == parts + opt_part(key@, enc_opt_str(*value)),
        final(q)@ == join_amp(out.1@),
        out.0 <==> out.1@.len() == 0,
{
    match value {
        Some(v) => {
            push_sep(q, first);
            q.append(key);
            push_urlencoded_str(q, v.as_str());
            proof {
                lemma_join_amp_snoc(parts, key@ + enc_str(v@));
                assert(parts.push(key@ + enc_str(v@)) =~= parts + opt_part(
                    key@,
                    enc_opt_str(*value),
                ));
                assert(q@ =~= join_amp(parts.push(key@ + enc_str(v@))));
            }
            (false, Ghost(parts.push(key@ + enc_str(v@))))
        },
        None => {
            assert(parts + opt_part(key@, enc_opt_str(*value)) =~= parts);
            (first, Ghost(parts))
        },
    }
}

/// Appends `key` and a decimal count when present, with its separator.
fn append_opt_usize(
    q: &mut String,
    first: bool,
    key: &str,
    value: Option<usize>,
    Ghost(parts): Ghost<Seq<Seq<char>>>,
) -> (out: (bool, Ghost<Seq<Seq<char>>>))
    requires
        old(q)@ == join_amp(parts),
        first <==> parts.len() == 0,
    ensures
        out.1@ == parts + opt_part(key@, dec_opt_usize(value)),
        final(q)@ == join_amp(out.1@),
        out.0 <==> out.1@.len() == 0,
{
    match value {
        Some(c) => {
            push_sep(q, first);
            q.append(key);
            push_decimal_u64(q, c as u64);
            proof {
                lemma_join_amp_snoc(parts, key@ + dec_rep(c as nat));
                assert(parts.push(key@ + dec_rep(c as nat)) =~= parts + opt_part(
                    key@,
                    dec_opt_usize(value),
                ));
                assert(q@ =~= join_amp(parts.push(key@ + dec_rep(c as nat))));
            }
            (false, Ghost(parts.push(key@ + dec_rep(c as nat))))
        },
        None => {
            assert(parts + opt_part(key@, dec_opt_usize(value)) =~= parts);
            (first, Ghost(parts))
        },
    }
}

/// Appends `key` and a signed decimal when present, with its separator.
fn append_opt_i64(
    q: &mut String,
    first: bool,
    key: &str,
    value: Option<i64>,
    Ghost(parts): Ghost<Seq<Seq<char>>>,
) -> (out: (bool, Ghost<Seq<Seq<char>>>))
    requires
        old(q)@ == join_amp(parts),
        first <==> parts.len() == 0,
    ensures
        out.1@ == parts + opt_part(key@, dec_opt_i64(value)),
        final(q)@ == join_amp(out.1@),
        out.0 <==> out.1@.len() == 0,
{
    match value {
        Some(n) => {
            push_sep(q, first);
            q.append(key);
            push_decimal_i64(q, n);
            proof {
                lemma_join_amp_snoc(parts, key@ + dec_rep_signed(n as int));
                assert(parts.push(key@ + dec_rep_signed(n as int)) =~= parts + opt_part(
                    key@,
                    dec_opt_i64(value),
                ));
                assert(q@ =~= join_amp(parts.push(key@ + dec_rep_signed(n as int))));
            }
            (false, Ghost(parts.push(key@ + dec_rep_signed(n as int))))
        },
        None => {
            assert(parts + opt_part(key@, dec_opt_i64(value)) =~= parts);
            (first, Ghost(parts))
        },
    }
}

/// Appends `key` and the ordering word when present, with its separator.
fn append_opt_order(
    q: &mut String,
    first: bool,
    key: &str,
    value: Option<Order>,
    Ghost(parts): Ghost<Seq<Seq<char>>>,
) -> (out: (bool, Ghost<Seq<Seq<char>>>))
    requires
        old(q)@ == join_amp(parts),
        first <==> parts.len() == 0,
    ensures
        out.1@ == parts + opt_part(key@, order_opt(value)),
        final(q)@ == join_amp(out.1@),
        out.0 <==> out.1@.len() == 0,
{
    match value {
        Some(o) => {
            push_sep(q, first);
            q.append(key);
            match o {
                Order::Asc => q.append("asc"),
                Order::Desc => q.append("desc"),
            }
            proof {
                lemma_join_amp_snoc(parts, key@ + order_rep(o));
                assert(parts.push(key@ + order_rep(o)) =~= parts + opt_part(
                    key@,
                    order_opt(value),
                ));
                assert(q@ =~= join_amp(parts.push(key@ + order_rep(o))));
            }
            (false, Ghost(parts.push(key@ + order_rep(o))))
        },
        None => {
            assert(parts + opt_part(key@, order_opt(value)) =~= parts);
            (first, Ghost(parts))
        },
    }
}

/// Appends `key` and a boolean word when present, with its separator.
fn append_opt_bool(
    q: &mut String,
    first: bool,
    key: &str,
    value: Option<bool>,
    Ghost(parts): Ghost<Seq<Seq<char>>>,
) -> (out: (bool, Ghost<Seq<Seq<char>>>))
    requires
        old(q)@ == join_amp(parts),
        first <==> parts.len() == 0,
    ensures
        out.1@ == parts + opt_part(key@, bool_opt(value)),
        final(q)@ == join_amp(out.1@),
        out.0 <==> out.1@.len() == 0,
{
    match value {
        Some(b) => {
            push_sep(q, first);
            q.append(key);
            if b {
                q.append("true");
            } else {
                q.append("false");
            }
            proof {
                lemma_join_amp_snoc(parts, key@ + bool_rep(b));
                assert(parts.push(key@ + bool_rep(b)) =~= parts + opt_part(key@, bool_opt(value)));
                assert(q@ =~= join_amp(parts.push(key@ + bool_rep(b))));
            }
            (false, Ghost(parts.push(key@ + bool_rep(b))))
        },
        None => {
            assert(parts + opt_part(key@, bool_opt(value)) =~= parts);
            (first, Ghost(parts))
        },
    }
}

/// Appends `key` and an encoded timestamp rendering when present, with its
/// separator.
fn append_opt_time(
    q: &mut String,
    first: bool,
    key: &str,
    value: &Option<Timestamp>,
    Ghost(parts): Ghost<Seq<Seq<char>>>,
) -> (out: (bool, Ghost<Seq<Seq<char>>>))
    requires
        old(q)@ == join_amp(parts),
        first <==> parts.len() == 0,
        value matches Some(t) ==> t.wf() && 0 <= t.secs < MAX_TIMESTAMP_SECS,
    ensures
        out.1@ == parts + opt_part(key@, enc_opt_time(*value)),
        final(q)@ == join_amp(out.1@),
        out.0 <==> out.1@.len() == 0,
{
    match value {
        Some(t) => {
            push_sep(q, first);
            q.append(key);
            let rendered = rfc3339(t);
            push_urlencoded_str(q, rendered.as_str());
            proof {
                lemma_join_amp_snoc(parts, key@ + enc_str(rfc3339_of(t.secs, t.nanos)));
                assert(parts.push(key@ + enc_str(rfc3339_of(t.secs, t.nanos))) =~= parts
                    + opt_part(key@, enc_opt_time(*value)));
                assert(q@ =~= join_amp(parts.push(key@ + enc_str(rfc3339_of(t.secs, t.nanos)))));
            }
            (false, Ghost(parts.push(key@ + enc_str(rfc3339_of(t.secs, t.nanos)))))
        },
        None => {
            assert(parts + opt_part(key@, enc_opt_time(*value)) =~= parts);
            (first, Ghost(parts))
        },
    }
}

impl Request {
    /// A request for a route with every optional field absent.
    pub fn bare(route: String) -> (r: Request)
        ensures
            r.route == route,
            r.page is None,
            r.ty is None,
            r.count is None,
            r.order is None,
            r.id is None,
            r.at is None,
            r.after is None,
            r.before is None,
            r.started is None,
            r.season is None,
            r.day is None,
            r.game is None,
    {
        Request {
            route,
            page: None,
            ty: None,
            count: None,
            order: None,
            id: None,
            at: None,
            after: None,
            before: None,
            started: None,
            season: None,
            day: None,
            game: None,
        }
    }

    /// Every timestamp field representable by the remote's calendar.
    pub open spec fn times_wf(self) -> bool {
        &&& (self.at matches Some(t) ==> t.wf() && 0 <= t.secs < MAX_TIMESTAMP_SECS)
        &&& (self.after matches Some(t) ==> t.wf() && 0 <= t.secs < MAX_TIMESTAMP_SECS)
        &&& (self.before matches Some(t) ==> t.wf() && 0 <= t.secs < MAX_TIMESTAMP_SECS)
    }

    /// Serializes the optional fields as the remote's query string.
    pub fn query_string(&self) -> (q: String)
        requires
            self.times_wf(),
        ensures
            q@ == query_of(*self),
    {
        let ghost parts0: Seq<Seq<char>> = Seq::empty();
        let mut q = String::new();
        let (first, Ghost(parts1)) = append_opt_text(&mut q, true, "page=", &self.page, Ghost(parts0));
        let (first, Ghost(parts2)) = append_opt_text(&mut q, first, "type=", &self.ty, Ghost(parts1));
        let (first, Ghost(parts3)) = append_opt_usize(&mut q, first, "count=", self.count, Ghost(parts2));
        let (first, Ghost(parts4)) = append_opt_order(&mut q, first, "order=", self.order, Ghost(parts3));
        let (first, Ghost(parts5)) = append_opt_text(&mut q, first, "id=", &self.id, Ghost(parts4));
        let (first, Ghost(parts6)) = append_opt_time(&mut q, first, "at=", &self.at, Ghost(parts5));
        let (first, Ghost(parts7)) = append_opt_time(&mut q, first, "after=", &self.after, Ghost(parts6));
        let (first, Ghost(parts8)) = append_opt_time(&mut q, first, "before=", &self.before, Ghost(parts7));
        let (first, Ghost(parts9)) = append_opt_bool(&mut q, first, "started=", self.started, Ghost(parts8));
        let (first, Ghost(parts10)) = append_opt_i64(&mut q, first, "season=", self.season, Ghost(parts9));
        let (first, Ghost(parts11)) = append_opt_i64(&mut q, first, "day=", self.day, Ghost(parts10));
        let (first, Ghost(parts12)) = append_opt_text(&mut q, first, "game=", &self.game, Ghost(parts11));
        proof {
            let _ = first;
            assert(parts12 =~= query_parts(*self));
        }
        q
    }

    /// Whether every timestamp field is one the remote's calendar can
    /// render — the runtime check behind `times_wf`.
    pub fn times_ok(&self) -> (r: bool)
        ensures
            r == self.times_wf(),
    {
        let at_ok = match &self.at {
            Some(t) => t.nanos < 1_000_000_000 && 0 <= t.secs && t.secs < MAX_TIMESTAMP_SECS,
            None => true,
        };
        let after_ok = match &self.after {
            Some(t) => t.nanos < 1_000_000_000 && 0 <= t.secs && t.secs < MAX_TIMESTAMP_SECS,
            None => true,
        };
        let before_ok = match &self.before {
            Some(t) => t.nanos < 1_000_000_000 && 0 <= t.secs && t.secs < MAX_TIMESTAMP_SECS,
            None => true,
        };
        at_ok && after_ok && before_ok
    }

    /// An equal copy, usable in contracts (unlike the derived clone).
    pub fn duplicate(&self) -> (c: Request)
        ensures
            c == *self,
    {
        Request {
            route: self.route.clone(),
            page: match &self.page {
                Some(s) => Some(s.clone()),
                None => None,
            },
            ty: match &self.ty {
                Some(s) => Some(s.clone()),
                None => None,
            },
            count: self.count,
            order: self.order,
            id: match &self.id {
                Some(s) => Some(s.clone()),
                None => None,
            },
            at: self.at,
            after: self.after,
            before: self.before,
            started: self.started,
            season: self.season,
            day: self.day,
            game: match &self.game {
                Some(s) => Some(s.clone()),
                None => None,
            },
        }
    }

    /// The full URL for this request against a base URL.
    pub fn request_url(&self, base: &str) -> (u: String)
        requires
            self.times_wf(),
        ensures
            u@ == url_of(base@, *self),
    {
        let mut u = base.to_owned();
        u.append(self.route.as_str());
        push_char(&mut u, '?');
        let q = self.query_string();
        u.append(q.as_str());
        u
    }
}

/// Builds a `Request` one optional field at a time, starting from the
/// mandatory route.
#[derive(Debug, Clone)]
pub struct RequestBuilder {
    pub req: Request,
}

impl RequestBuilder {
    /// A builder for the given route, all optional fields absent.
    pub fn new(route: String) -> (b: RequestBuilder)
        ensures
            b.req.route == route,
            b.req.page is None,
            b.req.ty is None,
            b.req.count is None,
            b.req.order is None,
            b.req.id is None,
            b.req.at is None,
            b.req.after is None,
            b.req.before is None,
            b.req.started is None,
            b.req.season is None,
            b.req.day is None,
            b.req.game is None,
    {
        RequestBuilder { req: Request::bare(route) }
    }

    pub fn page(self, page: String) -> (b: RequestBuilder)
        ensures
            b.req == (Request { page: Some(page), ..self.req }),
    {
        RequestBuilder { req: Request { page: Some(page), ..self.req } }
    }

    pub fn ty(self, ty: String) -> (b: RequestBuilder)
        ensures
            b.req == (Request { ty: Some(ty), ..self.req }),
    {
        RequestBuilder { req: Request { ty: Some(ty), ..self.req } }
    }

    pub fn count(self, count: usize) -> (b: RequestBuilder)
        ensures
            b.req == (Request { count: Some(count), ..self.req }),
    {
        RequestBuilder { req: Request { count: Some(count), ..self.req } }
    }

    pub fn order(self, order: Order) -> (b: RequestBuilder)
        ensures
            b.req == (Request { order: Some(order), ..self.req }),
    {
        RequestBuilder { req: Request { order: Some(order), ..self.req } }
    }

    pub fn id(self, id: String) -> (b: RequestBuilder)
        ensures
            b.req == (Request { id: Some(id), ..self.req }),
    {
        RequestBuilder { req: Request { id: Some(id), ..self.req } }
    }

    pub fn at(self, at: Timestamp) -> (b: RequestBuilder)
        ensures
            b.req == (Request { at: Some(at), ..self.req }),
    {
        RequestBuilder { req: Request { at: Some(at), ..self.req } }
    }

    pub fn after(self, after: Timestamp) -> (b: RequestBuilder)
        ensures
            b.req == (Request { after: Some(after), ..self.req }),
    {
        RequestBuilder { req: Request { after: Some(after), ..self.req } }
    }

    pub fn before(self, before: Timestamp) -> (b: RequestBuilder)
        ensures
            b.req == (Request { before: Some(before), ..self.req }),
    {
        RequestBuilder { req: Request { before: Some(before), ..self.req } }
    }

    pub fn started(self, started: bool) -> (b: RequestBuilder)
        ensures
            b.req == (Request { started: Some(started), ..self.req }),
    {
        RequestBuilder { req: Request { started: Some(started), ..self.req } }
    }

    pub fn season(self, season: i64) -> (b: RequestBuilder)
        ensures
            b.req == (Request { season: Some(season), ..self.req }),
    {
        RequestBuilder { req: Request { season: Some(season), ..self.req } }
    }

    pub fn day(self, day: i64) -> (b: RequestBuilder)
        ensures
            b.req == (Request { day: Some(day), ..self.req }),
    {
        RequestBuilder { req: Request { day: Some(day), ..self.req } }
    }

    pub fn game(self, game: String) -> (b: RequestBuilder)
        ensures
            b.req == (Request { game: Some(game), ..self.req }),
    {
        RequestBuilder { req: Request { game: Some(game), ..self.req } }
    }

    /// The finished request.
    pub fn build(self) -> (r: Request)
        ensures
            r == self.req,
    {
        self.req
    }
}

/// A request with a route and no optional fields serializes to an empty
/// query string: its URL carries only the route path, with no extraneous
/// parameters.
pub proof fn lemma_bare_request_query_empty(base: Seq<char>, r: Request)
    requires
        r.page is None,
        r.ty is None,
        r.count is None,
        r.order is None,
        r.id is None,
        r.at is None,
        r.after is None,
        r.before is None,
        r.started is None,
        r.season is None,
        r.day is None,
        r.game is None,
    ensures
        query_of(r) == Seq::<char>::empty(),
        url_of(base, r) == base + r.route@ + seq!['?'],
{
    assert(query_parts(r) =~= Seq::<Seq<char>>::empty());
    assert(url_of(base, r) =~= base + r.route@ + seq!['?']);
}

} // verus!
