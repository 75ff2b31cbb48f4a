use fht2p::config::{kv_parser, Auth, Cert, KvError, ProxyRoute, Route};

fn pair(r: Result<(String, String), KvError>) -> (String, String) {
    r.unwrap()
}

#[test]
fn kv_parser_test() {
    assert!(kv_parser(":").is_err());
    assert!(kv_parser("ab").is_err());
    assert!(kv_parser("ab:").is_err());
    assert!(kv_parser(":cd").is_err());
    let (k, v) = pair(kv_parser("a:b"));
    assert_eq!((k.as_str(), v.as_str()), ("a", "b"));
    let (k, v) = pair(kv_parser("a : b"));
    assert_eq!((k.as_str(), v.as_str()), ("a", "b"));
    let (k, v) = pair(kv_parser("a/b/c:/d/e/f"));
    assert_eq!((k.as_str(), v.as_str()), ("a/b/c", "/d/e/f"));
}

#[test]
fn kv_parser_errors() {
    assert_eq!(kv_parser("ab").unwrap_err(), KvError::Syntax);
    assert_eq!(kv_parser("a::b").unwrap_err(), KvError::Syntax);
    assert_eq!(kv_parser("  :b").unwrap_err(), KvError::Empty);
    assert_eq!(kv_parser("a:  ").unwrap_err(), KvError::Empty);
}

#[test]
fn kv_parser_ignores_after_second_colon() {
    let (k, v) = pair(kv_parser("a:b:c"));
    assert_eq!((k.as_str(), v.as_str()), ("a", "b"));
}

#[test]
fn auth_and_cert_from_str() {
    let a: Auth = " user : pass ".parse().unwrap();
    assert_eq!(a.username, "user");
    assert_eq!(a.password, "pass");
    let c: Cert = "cert.pem:key.pem".parse().unwrap();
    assert_eq!(c.pub_, "cert.pem");
    assert_eq!(c.key, "key.pem");
    assert!("nocolon".parse::<Auth>().is_err());
}

#[test]
fn route_builders() {
    let r = Route::new("/", ".").show_hider(true).follow_links(true);
    assert_eq!(r.url, "/");
    assert_eq!(r.path, ".");
    assert!(r.show_hider && r.follow_links);
    assert!(!r.authorized && !r.upload && !r.mkdir && !r.disable_index && !r.redirect_html);
}

#[test]
fn proxy_route_into_route() {
    let r = ProxyRoute::new(true, "^/api").into_route();
    assert_eq!(r.url, "proxy");
    assert_eq!(r.path, "^/api");
    assert!(r.authorized);
}
