use vstd::prelude::*;

verus! {

/// A configured mapping from a URL prefix to a filesystem root, with its
/// policy flags.
#[derive(Clone, Debug, PartialEq)]
pub struct Route {
    /// The filesystem root.
    pub path: String,
    pub urlcs: usize,
    /// The URL prefix.
    pub url: String,
    pub follow_links: bool,
    pub redirect_html: bool,
    pub show_hider: bool,
    pub disable_index: bool,
    pub authorized: bool,
    pub upload: bool,
    pub mkdir: bool,
}

impl Route {
    /// A route from `url` to the filesystem root `path`, every flag off.
    pub fn new(url: &str, path: &str) -> (r: Self)
        ensures
            r.url@ == url@,
            r.path@ == path@,
            r.urlcs == 0,
            !r.follow_links && !r.redirect_html && !r.show_hider && !r.disable_index
                && !r.authorized && !r.upload && !r.mkdir,
    {
        Route {
            path: String::from_str(path),
            urlcs: 0,
            url: String::from_str(url),
            follow_links: false,
            redirect_html: false,
            show_hider: false,
            disable_index: false,
            authorized: false,
            upload: false,
            mkdir: false,
        }
    }

    /// This route with `disable_index` set to `b`.
    pub fn disable_index(self, b: bool) -> (r: Self)
        ensures
            r == (Route { disable_index: b, ..self }),
    {
        Route { disable_index: b, ..self }
    }

    /// This route with `redirect_html` set to `b`.
    pub fn redirect_html(self, b: bool) -> (r: Self)
        ensures
            r == (Route { redirect_html: b, ..self }),
    {
        Route { redirect_html: b, ..self }
    }

    /// This route with `follow_links` set to `b`.
    pub fn follow_links(self, b: bool) -> (r: Self)
        ensures
            r == (Route { follow_links: b, ..self }),
    {
        Route { follow_links: b, ..self }
    }

    /// This route with `show_hider` set to `b`.
    pub fn show_hider(self, b: bool) -> (r: Self)
        ensures
            r == (Route { show_hider: b, ..self }),
    {
        Route { show_hider: b, ..self }
    }

    /// This route with `authorized` set to `b`.
    pub fn authorized(self, b: bool) -> (r: Self)
        ensures
            r == (Route { authorized: b, ..self }),
    {
        Route { authorized: b, ..self }
    }

    /// This route with `upload` set to `b`.
    pub fn upload(self, b: bool) -> (r: Self)
        ensures
            r == (Route { upload: b, ..self }),
    {
        Route { upload: b, ..self }
    }

    /// This route with `mkdir` set to `b`.
    pub fn mkdir(self, b: bool) -> (r: Self)
        ensures
            r == (Route { mkdir: b, ..self }),
    {
        Route { mkdir: b, ..self }
    }
}


/// Names the result of `str::trim`: the text without its leading and
/// trailing Unicode white space, which depends on the text alone.
pub uninterp spec fn trim_of(s: Seq<char>) -> Seq<char>;

/// Relies on `str::trim`.
#[verifier::external_body]
fn trim(s: &str) -> (r: String)
    ensures
        r@ == trim_of(s@),
{
    s.trim().to_owned()
}

/// Why a `key:value` text was refused.
#[derive(Clone, Copy, Debug, PartialEq, Eq, Structural)]
pub enum KvError {
    /// No non-empty key, `:` and non-empty value in that order.
    Syntax,
    /// The key or the value is only white space.
    Empty,
}

/// The index of the first `:` of `s` at or after `i`, or its length.
pub open spec fn colon_from(s: Seq<char>, i: int) -> int
    decreases s.len() - i,
{
    if i >= s.len() {
        s.len() as int
    } else if s[i] == ':' {
        i
    } else {
        colon_from(s, i + 1)
    }
}

/// The raw key and value of `key:value`: a non-empty run without `:`, a
/// `:`, and the non-empty run without `:` that follows; anything after a
/// second `:` is ignored.
pub open spec fn kv_split(s: Seq<char>) -> Option<(Seq<char>, Seq<char>)> {
    let c = colon_from(s, 0);
    if c == 0 || c >= s.len() {
        None
    } else {
        let e = colon_from(s, c + 1);
        if e == c + 1 {
            None
        } else {
            Some((s.subrange(0, c), s.subrange(c + 1, e)))
        }
    }
}

fn find_colon(s: &str, from: usize) -> (r: usize)
    requires
        from <= s@.len(),
    ensures
        r == colon_from(s@, from as int),
        from <= r <= s@.len(),
{
    let n = s.unicode_len();
    let mut i = from;
    while i < n
        invariant
            n == s@.len(),
            from <= i <= n,
            colon_from(s@, from as int) == colon_from(s@, i as int),
        decreases n - i,
    {
        if s.get_char(i) == ':' {
            return i;
        }
        i = i + 1;
    }
    n
}

/// A key and a value, trimmed already: both must be non-empty.
pub fn kv_checked(key: String, value: String) -> (r: Result<(String, String), KvError>)
    ensures
        r is Ok <==> key@.len() > 0 && value@.len() > 0,
        r is Ok ==> (r->Ok_0).0@ == key@ && (r->Ok_0).1@ == value@,
        r is Err ==> r == Err::<(String, String), KvError>(KvError::Empty),
{
    if key.as_str().unicode_len() > 0 && value.as_str().unicode_len() > 0 {
        Ok((key, value))
    } else {
        Err(KvError::Empty)
    }
}

/// Parses `key:value`, each side trimmed of white space.
pub fn kv_parser(input: &str) -> (r: Result<(String, String), KvError>)
    ensures
        kv_split(input@) is None ==> r == Err::<(String, String), KvError>(KvError::Syntax),
        kv_split(input@) is Some ==> {
            let parts = kv_split(input@)->0;
            let k = trim_of(parts.0);
            let v = trim_of(parts.1);
            &&& r is Ok <==> k.len() > 0 && v.len() > 0
            &&& r is Ok ==> (r->Ok_0).0@ == k && (r->Ok_0).1@ == v
            &&& r is Err ==> r == Err::<(String, String), KvError>(KvError::Empty)
        },
{
    let n = input.unicode_len();
    let c = find_colon(input, 0);
    if c == 0 || c >= n {
        return Err(KvError::Syntax);
    }
    let e = find_colon(input, c + 1);
    if e == c + 1 {
        return Err(KvError::Syntax);
    }
    let key = input.substring_char(0, c);
    let value = input.substring_char(c + 1, e);
    kv_checked(trim(key), trim(value))
}

/// A user name and password, written `username:password`.
#[derive(Clone, Debug, PartialEq)]
pub struct Auth {
    pub username: String,
    pub password: String,
}

impl std::str::FromStr for Auth {
    type Err = KvError;

    fn from_str(s: &str) -> Result<Self, KvError> {
        match kv_parser(s) {
            Ok((username, password)) => Ok(Auth { username, password }),
            Err(e) => Err(e),
        }
    }
}

/// The paths of a certificate and its private key, written `pub:key`.
#[derive(Clone, Debug, PartialEq)]
pub struct Cert {
    pub pub_: String,
    pub key: String,
}

impl std::str::FromStr for Cert {
    type Err = KvError;

    fn from_str(s: &str) -> Result<Self, KvError> {
        match kv_parser(s) {
            Ok((pub_, key)) => Ok(Cert { pub_, key }),
            Err(e) => Err(e),
        }
    }
}

/// A reverse-proxy route: its path pattern and whether it asks for
/// authorization.
#[derive(Clone, Debug, PartialEq)]
pub struct ProxyRoute {
    authorized: bool,
    path: String,
}

impl ProxyRoute {
    pub closed spec fn spec_authorized(&self) -> bool {
        self.authorized
    }

    pub closed spec fn spec_path(&self) -> Seq<char> {
        self.path@
    }

    pub fn new(authorized: bool, path: &str) -> (r: Self)
        ensures
            r.spec_authorized() == authorized,
            r.spec_path() == path@,
    {
        ProxyRoute { authorized, path: String::from_str(path) }
    }

    /// The route that serves this proxy: URL `proxy`, this path pattern
    /// and this authorization flag.
    pub fn into_route(self) -> (r: Route)
        ensures
            r.url@ == "proxy"@,
            r.path@ == self.spec_path(),
            r.authorized == self.spec_authorized(),
            !r.follow_links && !r.redirect_html && !r.show_hider && !r.disable_index && !r.upload
                && !r.mkdir,
    {
        let authorized = self.authorized;
        Route::new("proxy", self.path.as_str()).authorized(authorized)
    }
}

/// Which referers and origins cross-origin requests may come from.
#[derive(Clone, Debug, PartialEq)]
pub struct CorsConfig {
    /// `None` allows the site itself only.
    pub allow_referers: Option<String>,
    /// `None` denies every origin.
    pub allow_origins: Option<String>,
}

} // verus!
