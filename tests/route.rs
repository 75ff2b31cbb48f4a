use fht2p::config::Route;
use fht2p::route::{normalize, ResolveError, RouteTable};

fn table() -> RouteTable {
    RouteTable {
        routes: vec![Route::new("/", "/srv/www"), Route::new("/static", "/srv/static"), Route::new("/st", "/srv/st")],
    }
}

#[test]
fn resolve_longest_prefix() {
    let t = table();
    let r = t.resolve("/static/css/a.css").unwrap();
    assert_eq!(r.route, 1);
    assert_eq!(r.subpath, "/css/a.css");
    assert_eq!(r.fs_path, "/srv/static/css/a.css");
    let r = t.resolve("/docs/x").unwrap();
    assert_eq!(r.route, 0);
    assert_eq!(r.fs_path, "/srv/www/docs/x");
}

#[test]
fn resolve_normalizes_dots() {
    let t = table();
    let r = t.resolve("/a/./b//../c/").unwrap();
    assert_eq!(r.fs_path, "/srv/www/a/c");
    assert_eq!(t.resolve("/").unwrap().fs_path, "/srv/www");
}

#[test]
fn resolve_rejects_escape() {
    let t = table();
    assert_eq!(t.resolve("/../etc/passwd").unwrap_err(), ResolveError::Forbidden);
    assert_eq!(t.resolve("/static/a/../../x").unwrap_err(), ResolveError::Forbidden);
    assert!(t.resolve("/a/../b").is_ok());
}

#[test]
fn resolve_without_route() {
    let t = RouteTable { routes: vec![Route::new("/static", "/srv")] };
    assert_eq!(t.resolve("/other").unwrap_err(), ResolveError::NotFound);
}

#[test]
fn normalize_segments() {
    assert_eq!(normalize("a/b/../c").unwrap(), vec![(0, 1), (7, 8)]);
    assert!(normalize("..").is_none());
    assert_eq!(normalize("").unwrap(), vec![]);
}
