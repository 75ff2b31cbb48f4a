use fht2p::cache::{decide, decide_headers, etag, Method};
use fht2p::entry::{EntryOrder, Timestamp};

const T: Timestamp = Timestamp { secs: 0x5d564a70, nanos: 0x3797f8b1 };

#[test]
fn etag_format() {
    // millis = 0x5d564a70 * 1000 + 932 = 1565936240932 = 0x16c9912c924
    assert_eq!(etag(0x80, T, EntryOrder::Empty), "W/\"80-16c9912c924.3797f8b1@Empty\"");
    assert_eq!(etag(0, Timestamp { secs: 0, nanos: 0 }, EntryOrder::Name), "W/\"0-0.0@Name\"");
}

#[test]
fn etag_of_negative_millis() {
    let t = Timestamp { secs: -1, nanos: 0 };
    assert_eq!(etag(1, t, EntryOrder::Size), "W/\"1-fffffffffffffc18.0@Size\"");
}

#[test]
fn revalidation_by_etag() {
    let first = decide(Method::Get, 60, 128, T, EntryOrder::Name, None, None);
    assert_eq!(first.status, 200);
    assert!(first.body);
    let cache = first.cache.unwrap();
    assert_eq!(cache.max_age, 60);
    assert_eq!(cache.last_modified, T);
    let tag = cache.etag;
    let second = decide(Method::Get, 60, 128, T, EntryOrder::Name, Some(&tag), None);
    assert_eq!(second.status, 304);
    assert!(!second.body);
    assert!(second.cache.is_none());
    let other = decide(Method::Get, 60, 128, T, EntryOrder::Size, Some(&tag), None);
    assert_eq!(other.status, 200);
    assert!(other.cache.unwrap().etag != tag);
}

#[test]
fn revalidation_by_date() {
    let fresh = decide(Method::Get, 60, 1, T, EntryOrder::Empty, None, Some(T.secs));
    assert_eq!(fresh.status, 304);
    let stale = decide(Method::Get, 60, 1, T, EntryOrder::Empty, None, Some(T.secs - 1));
    assert_eq!(stale.status, 200);
}

#[test]
fn cache_disabled_always_renders() {
    let tag = etag(1, T, EntryOrder::Empty);
    let r = decide(Method::Get, 0, 1, T, EntryOrder::Empty, Some(&tag), Some(T.secs + 5));
    assert_eq!(r.status, 200);
    assert!(r.cache.is_none());
}

#[test]
fn head_like_get_without_body() {
    let g = decide(Method::Get, 60, 1, T, EntryOrder::Empty, None, None);
    let h = decide(Method::Head, 60, 1, T, EntryOrder::Empty, None, None);
    assert_eq!(g.status, h.status);
    assert!(g.body);
    assert!(!h.body);
    let tag = etag(1, T, EntryOrder::Empty);
    assert_eq!(decide(Method::Head, 60, 1, T, EntryOrder::Empty, Some(&tag), None).status, 304);
}

#[test]
fn other_methods_not_allowed() {
    let tag = etag(1, T, EntryOrder::Empty);
    assert_eq!(decide(Method::Other, 60, 1, T, EntryOrder::Empty, Some(&tag), None).status, 405);
    assert_eq!(decide(Method::Other, 0, 1, T, EntryOrder::Empty, None, None).status, 405);
    assert!(!decide(Method::Other, 60, 1, T, EntryOrder::Empty, None, None).body);
}

#[test]
fn if_modified_since_header_text() {
    // 2019-08-16T06:17:20Z is 0x5d564a70.
    let fresh = decide_headers(Method::Get, 60, 1, T, EntryOrder::Empty, None, Some("Fri, 16 Aug 2019 06:17:20 +0000"));
    assert_eq!(fresh.status, 304);
    let stale = decide_headers(Method::Get, 60, 1, T, EntryOrder::Empty, None, Some("Fri, 16 Aug 2019 06:17:19 +0000"));
    assert_eq!(stale.status, 200);
    let junk = decide_headers(Method::Get, 60, 1, T, EntryOrder::Empty, None, Some("yesterday"));
    assert_eq!(junk.status, 200);
}
