use vstd::prelude::*;
use crate::entry::{label_of, str_eq, EntryOrder, Timestamp};

verus! {

/// Names the result of `chrono::DateTime::parse_from_rfc2822` followed by
/// `timestamp`: the Unix seconds of an RFC 2822 date, or `None` where the
/// text is no such date; it depends on the text alone.
pub uninterp spec fn rfc2822_secs(s: Seq<char>) -> Option<i64>;

/// Relies on `chrono::DateTime::parse_from_rfc2822` and `DateTime::timestamp`.
#[verifier::external_body]
fn parse_http_date(s: &str) -> (r: Option<i64>)
    ensures
        r == rfc2822_secs(s@),
{
    chrono::DateTime::parse_from_rfc2822(s).ok().map(|d| d.timestamp())
}

/// The request method, as far as index pages tell methods apart.
#[derive(Clone, Copy, Debug, PartialEq, Eq, Structural)]
pub enum Method {
    Get,
    Head,
    Other,
}

/// The caching headers sent with a rendered index page.
#[derive(Clone, Debug)]
pub struct CacheHeaders {
    /// `Cache-Control: public, max-age=<max_age>`.
    pub max_age: u32,
    /// `Last-Modified`.
    pub last_modified: Timestamp,
    /// `ETag`.
    pub etag: String,
}

/// What an index request is answered with: its status, whether a body is
/// sent, and the caching headers of a rendered page.
#[derive(Clone, Debug)]
pub struct IndexDecision {
    pub status: u16,
    pub body: bool,
    pub cache: Option<CacheHeaders>,
}

pub open spec fn hex_digit(d: int) -> Seq<char> {
    if d == 0 { "0"@ } else if d == 1 { "1"@ } else if d == 2 { "2"@ } else if d == 3 { "3"@ }
    else if d == 4 { "4"@ } else if d == 5 { "5"@ } else if d == 6 { "6"@ } else if d == 7 { "7"@ }
    else if d == 8 { "8"@ } else if d == 9 { "9"@ } else if d == 10 { "a"@ } else if d == 11 { "b"@ }
    else if d == 12 { "c"@ } else if d == 13 { "d"@ } else if d == 14 { "e"@ } else { "f"@ }
}

/// Lower-case hexadecimal digits of `n`, without leading zeros.
pub open spec fn hex_of(n: nat) -> Seq<char>
    decreases n,
{
    if n < 16 {
        hex_digit(n as int)
    } else {
        hex_of(n / 16) + hex_digit((n % 16) as int)
    }
}

/// Milliseconds since the epoch of a timestamp.
pub open spec fn millis_of(t: Timestamp) -> int {
    t.secs * 1000 + t.nanos / 1_000_000
}

/// A timestamp whose nanoseconds lie within its second and whose
/// milliseconds fit in an `i64`.
pub open spec fn timestamp_ok(t: Timestamp) -> bool {
    t.nanos < 1_000_000_000 && i64::MIN <= millis_of(t) <= i64::MAX
}

/// The two's-complement bits of a signed 64-bit value, as hexadecimal
/// formatting of an `i64` shows them.
pub open spec fn bits_of(m: int) -> nat {
    if m < 0 {
        (m + 0x1_0000_0000_0000_0000) as nat
    } else {
        m as nat
    }
}

/// The weak entity tag of a listing: size, modification milliseconds and
/// nanoseconds in hexadecimal, and the label of the sort mode.
pub open spec fn etag_of(len: u64, mtime: Timestamp, order: EntryOrder) -> Seq<char> {
    "W/\""@ + hex_of(len as nat) + "-"@ + hex_of(bits_of(millis_of(mtime))) + "."@ + hex_of(
        mtime.nanos as nat,
    ) + "@"@ + label_of(order) + "\""@
}

/// Whether the client's copy is still fresh: caching is on and either its
/// entity tag equals ours or its `If-Modified-Since` is not before the
/// modification second.
pub open spec fn is_fresh(
    cache_secs: u32,
    len: u64,
    mtime: Timestamp,
    order: EntryOrder,
    if_none_match: Option<Seq<char>>,
    if_modified_since: Option<i64>,
) -> bool {
    cache_secs > 0 && ((if_none_match is Some && if_none_match->0 == etag_of(len, mtime, order)) || (
    if_modified_since is Some && if_modified_since->0 >= mtime.secs))
}

/// The status of an index request: 405 for a method other than GET and
/// HEAD, 304 for a fresh copy, 200 otherwise.
pub open spec fn status_of(
    method: Method,
    cache_secs: u32,
    len: u64,
    mtime: Timestamp,
    order: EntryOrder,
    if_none_match: Option<Seq<char>>,
    if_modified_since: Option<i64>,
) -> u16 {
    if method == Method::Other {
        405
    } else if is_fresh(cache_secs, len, mtime, order, if_none_match, if_modified_since) {
        304
    } else {
        200
    }
}

pub open spec fn opt_view(s: Option<&str>) -> Option<Seq<char>> {
    match s {
        Some(x) => Some(x@),
        None => None,
    }
}

fn hex_digit_str(d: u64) -> (r: &'static str)
    requires
        d < 16,
    ensures
        r@ == hex_digit(d as int),
{
    match d {
        0 => "0", 1 => "1", 2 => "2", 3 => "3", 4 => "4", 5 => "5", 6 => "6", 7 => "7",
        8 => "8", 9 => "9", 10 => "a", 11 => "b", 12 => "c", 13 => "d", 14 => "e", _ => "f",
    }
}

/// Appends the hexadecimal digits of `n`.
pub fn push_hex(s: &mut String, n: u64)
    ensures
        final(s)@ == old(s)@ + hex_of(n as nat),
    decreases n,
{
    if n < 16 {
        s.append(hex_digit_str(n));
    } else {
        push_hex(s, n / 16);
        s.append(hex_digit_str(n % 16));
        assert(old(s)@ + hex_of(n as nat) =~= old(s)@ + hex_of((n / 16) as nat) + hex_digit(
            (n % 16) as int,
        ));
    }
}

/// The entity tag of a listing of a directory of `len` bytes modified at
/// `mtime`, sorted by `order`.
pub fn etag(len: u64, mtime: Timestamp, order: EntryOrder) -> (r: String)
    requires
        timestamp_ok(mtime),
    ensures
        r@ == etag_of(len, mtime, order),
{
    let millis: i128 = mtime.secs as i128 * 1000 + (mtime.nanos / 1_000_000) as i128;
    let bits: u64 = if millis < 0 {
        (millis + 0x1_0000_0000_0000_0000) as u64
    } else {
        millis as u64
    };
    let mut s = String::from_str("W/\"");
    push_hex(&mut s, len);
    s.append("-");
    push_hex(&mut s, bits);
    s.append(".");
    push_hex(&mut s, mtime.nanos as u64);
    s.append("@");
    s.append(order.label());
    s.append("\"");
    s
}

/// Decides the answer to an index request from the request's validators,
/// `If-Modified-Since` already read as Unix seconds.
pub fn decide(
    method: Method,
    cache_secs: u32,
    len: u64,
    mtime: Timestamp,
    order: EntryOrder,
    if_none_match: Option<&str>,
    if_modified_since: Option<i64>,
) -> (r: IndexDecision)
    requires
        timestamp_ok(mtime),
    ensures
        r.status == status_of(
            method,
            cache_secs,
            len,
            mtime,
            order,
            opt_view(if_none_match),
            if_modified_since,
        ),
        r.body <==> (r.status == 200 && method == Method::Get),
        r.cache is Some <==> (r.status == 200 && cache_secs > 0),
        r.cache is Some ==> r.cache->0.max_age == cache_secs && r.cache->0.last_modified == mtime
            && r.cache->0.etag@ == etag_of(len, mtime, order),
{
    if method == Method::Other {
        return IndexDecision { status: 405, body: false, cache: None };
    }
    let mut cache: Option<CacheHeaders> = None;
    if cache_secs > 0 {
        let tag = etag(len, mtime, order);
        let tag_matches = match if_none_match {
            Some(t) => str_eq(t, tag.as_str()),
            None => false,
        };
        let not_modified = match if_modified_since {
            Some(s) => s >= mtime.secs,
            None => false,
        };
        if tag_matches || not_modified {
            return IndexDecision { status: 304, body: false, cache: None };
        }
        cache = Some(CacheHeaders { max_age: cache_secs, last_modified: mtime, etag: tag });
    }
    IndexDecision { status: 200, body: method == Method::Get, cache }
}

/// Decides the answer to an index request from its `If-None-Match` and
/// `If-Modified-Since` header texts; a date that does not parse counts as
/// absent.
pub fn decide_headers(
    method: Method,
    cache_secs: u32,
    len: u64,
    mtime: Timestamp,
    order: EntryOrder,
    if_none_match: Option<&str>,
    if_modified_since: Option<&str>,
) -> (r: IndexDecision)
    requires
        timestamp_ok(mtime),
    ensures
        r.status == status_of(
            method,
            cache_secs,
            len,
            mtime,
            order,
            opt_view(if_none_match),
            match if_modified_since {
                Some(s) => rfc2822_secs(s@),
                None => None,
            },
        ),
        r.body <==> (r.status == 200 && method == Method::Get),
        r.cache is Some <==> (r.status == 200 && cache_secs > 0),
        r.cache is Some ==> r.cache->0.max_age == cache_secs && r.cache->0.last_modified == mtime
            && r.cache->0.etag@ == etag_of(len, mtime, order),
{
    let since = match if_modified_since {
        Some(s) => parse_http_date(s),
        None => None,
    };
    decide(method, cache_secs, len, mtime, order, if_none_match, since)
}


/// Distinct sort modes have distinct labels.
pub proof fn lemma_label_injective(a: EntryOrder, b: EntryOrder)
    requires
        a != b,
    ensures
        label_of(a) != label_of(b),
{
    reveal_strlit("Empty");
    reveal_strlit("Name");
    reveal_strlit("NameRev");
    reveal_strlit("Size");
    reveal_strlit("SizeRev");
    reveal_strlit("Modified");
    reveal_strlit("ModifiedRev");
    if label_of(a) == label_of(b) {
        assert(label_of(a).len() == label_of(b).len());
        assert(label_of(a)[0] == label_of(b)[0]);
    }
}

/// Listings of one directory under two sort modes have distinct entity tags.
pub proof fn lemma_etag_tracks_order(len: u64, mtime: Timestamp, a: EntryOrder, b: EntryOrder)
    requires
        a != b,
    ensures
        etag_of(len, mtime, a) != etag_of(len, mtime, b),
{
    lemma_label_injective(a, b);
    let head = "W/\""@ + hex_of(len as nat) + "-"@ + hex_of(bits_of(millis_of(mtime))) + "."@
        + hex_of(mtime.nanos as nat) + "@"@;
    let la = label_of(a);
    let lb = label_of(b);
    let q = "\""@;
    if etag_of(len, mtime, a) == etag_of(len, mtime, b) {
        assert(etag_of(len, mtime, a) == head + la + q);
        assert(etag_of(len, mtime, b) == head + lb + q);
        assert(la.len() == lb.len());
        assert((head + la + q).subrange(head.len() as int, (head.len() + la.len()) as int) =~= la);
        assert((head + lb + q).subrange(head.len() as int, (head.len() + lb.len()) as int) =~= lb);
    }
}

/// With caching on, a request without validators is rendered; one that
/// presents the entity tag of that rendering is answered 304; and the same
/// tag presented under another sort mode no longer matches, so the listing
/// is rendered again.
pub proof fn lemma_revalidation(
    method: Method,
    cache_secs: u32,
    len: u64,
    mtime: Timestamp,
    first: EntryOrder,
    other: EntryOrder,
)
    requires
        cache_secs > 0,
        method != Method::Other,
        first != other,
    ensures
        status_of(method, cache_secs, len, mtime, first, None, None) == 200,
        status_of(method, cache_secs, len, mtime, first, Some(etag_of(len, mtime, first)), None)
            == 304,
        status_of(method, cache_secs, len, mtime, other, Some(etag_of(len, mtime, first)), None)
            == 200,
{
    lemma_etag_tracks_order(len, mtime, first, other);
}

/// HEAD is answered with the status GET gets, and any other method with
/// 405, whatever the cache state.
pub proof fn lemma_head_like_get(
    cache_secs: u32,
    len: u64,
    mtime: Timestamp,
    order: EntryOrder,
    if_none_match: Option<Seq<char>>,
    if_modified_since: Option<i64>,
)
    ensures
        status_of(Method::Head, cache_secs, len, mtime, order, if_none_match, if_modified_since)
            == status_of(Method::Get, cache_secs, len, mtime, order, if_none_match, if_modified_since),
        status_of(Method::Other, cache_secs, len, mtime, order, if_none_match, if_modified_since)
            == 405,
{
}

} // verus!
