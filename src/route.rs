use vstd::prelude::*;
use crate::config::Route;

verus! {

/// Whether a path segment steps nowhere: empty or `.`.
pub open spec fn is_still(seg: Seq<char>) -> bool {
    seg.len() == 0 || seg == "."@
}

/// Whether a segment names its parent.
pub open spec fn is_up(seg: Seq<char>) -> bool {
    seg == ".."@
}

/// The stack of kept segments, as index ranges into `s`, after the segment
/// from `a` to `b` ends; `None` where `..` would climb above the root.
pub open spec fn close_seg(s: Seq<char>, stack: Seq<(int, int)>, a: int, b: int) -> Option<
    Seq<(int, int)>,
> {
    let seg = s.subrange(a, b);
    if is_still(seg) {
        Some(stack)
    } else if is_up(seg) {
        if stack.len() == 0 {
            None
        } else {
            Some(stack.drop_last())
        }
    } else {
        Some(stack.push((a, b)))
    }
}

/// The lexical normalisation of `s` from index `i` on, given the kept
/// segments so far and the start of the current one.
pub open spec fn walk(s: Seq<char>, i: int, stack: Seq<(int, int)>, start: int) -> Option<
    Seq<(int, int)>,
>
    decreases s.len() - i,
{
    if i >= s.len() {
        close_seg(s, stack, start, s.len() as int)
    } else if s[i] == '/' {
        match close_seg(s, stack, start, i) {
            Some(st) => walk(s, i + 1, st, i + 1),
            None => None,
        }
    } else {
        walk(s, i + 1, stack, start)
    }
}

/// The kept segments of a request sub-path, or `None` where it escapes.
pub open spec fn normalized(s: Seq<char>) -> Option<Seq<(int, int)>> {
    walk(s, 0, Seq::empty(), 0)
}

/// The segments joined, each after a `/`.
pub open spec fn joined(s: Seq<char>, segs: Seq<(int, int)>) -> Seq<char>
    decreases segs.len(),
{
    if segs.len() == 0 {
        Seq::empty()
    } else {
        joined(s, segs.drop_last()) + "/"@ + s.subrange(segs.last().0, segs.last().1)
    }
}

/// A kept segment: a non-empty range of `s` without `/` that is neither
/// `.` nor `..`.
pub open spec fn clean_seg(s: Seq<char>, r: (int, int)) -> bool {
    &&& 0 <= r.0 < r.1 <= s.len()
    &&& forall|k: int| r.0 <= k < r.1 ==> s[k] != '/'
    &&& !is_still(s.subrange(r.0, r.1))
    &&& !is_up(s.subrange(r.0, r.1))
}

pub open spec fn all_clean(s: Seq<char>, segs: Seq<(int, int)>) -> bool {
    forall|k: int| 0 <= k < segs.len() ==> clean_seg(s, #[trigger] segs[k])
}

/// Whether route `i` serves `p`: its URL prefix begins `p`.
pub open spec fn serves(routes: Seq<Route>, i: int, p: Seq<char>) -> bool {
    0 <= i < routes.len() && routes[i].url@.is_prefix_of(p)
}

/// Whether route `i` is the one chosen for `p`: the longest prefix that
/// serves it, the first registered among equally long ones.
pub open spec fn chosen(routes: Seq<Route>, i: int, p: Seq<char>) -> bool {
    &&& serves(routes, i, p)
    &&& forall|j: int| #[trigger] serves(routes, j, p) ==> routes[j].url@.len() <= routes[i].url@.len()
    &&& forall|j: int| 0 <= j < i && #[trigger] serves(routes, j, p) ==> routes[j].url@.len() < routes[i].url@.len()
}

/// A request path mapped to a filesystem path under the route chosen for it.
#[derive(Clone, Debug)]
pub struct Resolved {
    /// The index of the chosen route.
    pub route: usize,
    /// The request path after the route's prefix.
    pub subpath: String,
    /// The filesystem path: the route's root with the kept segments.
    pub fs_path: String,
}

/// Why a request path has no target.
#[derive(Clone, Copy, Debug, PartialEq, Eq, Structural)]
pub enum ResolveError {
    /// No route's prefix begins the path.
    NotFound,
    /// The path climbs above the route's root.
    Forbidden,
}

/// Routes in registration order.
#[derive(Clone, Debug)]
pub struct RouteTable {
    pub routes: Vec<Route>,
}

/// Whether `p` begins `s`.
pub fn starts_with(s: &str, p: &str) -> (r: bool)
    ensures
        r == p@.is_prefix_of(s@),
{
    let n = p.unicode_len();
    if n > s.unicode_len() {
        return false;
    }
    let mut i: usize = 0;
    while i < n
        invariant
            n == p@.len(),
            n <= s@.len(),
            i <= n,
            forall|k: int| 0 <= k < i ==> p@[k] == s@[k],
        decreases n - i,
    {
        if p.get_char(i) != s.get_char(i) {
            return false;
        }
        i = i + 1;
    }
    true
}

fn seg_kind(s: &str, a: usize, b: usize) -> (r: u8)
    requires
        a <= b <= s@.len(),
    ensures
        r == 0 <==> is_still(s@.subrange(a as int, b as int)),
        r == 1 <==> is_up(s@.subrange(a as int, b as int)),
        r <= 2,
{
    let ghost seg = s@.subrange(a as int, b as int);
    proof {
        reveal_strlit(".");
        reveal_strlit("..");
        assert("."@.len() == 1 && "."@[0] == '.');
        assert(".."@.len() == 2 && ".."@[0] == '.' && ".."@[1] == '.');
    }
    let len = b - a;
    if len == 0 {
        return 0;
    }
    let c0 = s.get_char(a);
    assert(seg[0] == c0);
    if len == 1 {
        if c0 == '.' {
            assert(seg =~= "."@);
            return 0;
        }
        return 2;
    }
    if len == 2 {
        let c1 = s.get_char(a + 1);
        assert(seg[1] == c1);
        if c0 == '.' && c1 == '.' {
            assert(seg =~= ".."@);
            return 1;
        }
        return 2;
    }
    2
}

/// The kept segments of `s`, or `None` where `..` climbs above the start.
pub fn normalize(s: &str) -> (r: Option<Vec<(usize, usize)>>)
    ensures
        r is None <==> normalized(s@) is None,
        r is Some ==> normalized(s@) == Some(r->0@.map_values(|x: (usize, usize)| (x.0 as int, x.1 as int))),
{
    let n = s.unicode_len();
    let mut stack: Vec<(usize, usize)> = Vec::new();
    let mut start: usize = 0;
    let mut i: usize = 0;
    assert(stack@.map_values(|x: (usize, usize)| (x.0 as int, x.1 as int)) =~= Seq::<(int, int)>::empty());
    while i < n
        invariant
            n == s@.len(),
            start <= i <= n,
            walk(s@, 0, Seq::empty(), 0) == walk(
                s@,
                i as int,
                stack@.map_values(|x: (usize, usize)| (x.0 as int, x.1 as int)),
                start as int,
            ),
            forall|k: int| 0 <= k < stack@.len() ==> #[trigger] stack@[k].1 <= i,
        decreases n - i,
    {
        if s.get_char(i) == '/' {
            let ghost st = stack@.map_values(|x: (usize, usize)| (x.0 as int, x.1 as int));
            let kind = seg_kind(s, start, i);
            if kind == 1 {
                if stack.len() == 0 {
                    return None;
                }
                stack.pop();
                assert(stack@.map_values(|x: (usize, usize)| (x.0 as int, x.1 as int)) =~= st.drop_last());
            } else if kind == 2 {
                stack.push((start, i));
                assert(stack@.map_values(|x: (usize, usize)| (x.0 as int, x.1 as int)) =~= st.push((start as int, i as int)));
            }
            start = i + 1;
        }
        i = i + 1;
    }
    let ghost st = stack@.map_values(|x: (usize, usize)| (x.0 as int, x.1 as int));
    let kind = seg_kind(s, start, n);
    if kind == 1 {
        if stack.len() == 0 {
            return None;
        }
        stack.pop();
        assert(stack@.map_values(|x: (usize, usize)| (x.0 as int, x.1 as int)) =~= st.drop_last());
    } else if kind == 2 {
        stack.push((start, n));
        assert(stack@.map_values(|x: (usize, usize)| (x.0 as int, x.1 as int)) =~= st.push((start as int, n as int)));
    }
    Some(stack)
}


pub open spec fn int_ranges(v: Seq<(usize, usize)>) -> Seq<(int, int)> {
    v.map_values(|x: (usize, usize)| (x.0 as int, x.1 as int))
}

proof fn lemma_close_clean(s: Seq<char>, stack: Seq<(int, int)>, a: int, b: int)
    requires
        0 <= a <= b <= s.len(),
        all_clean(s, stack),
        forall|k: int| a <= k < b ==> s[k] != '/',
    ensures
        close_seg(s, stack, a, b) is Some ==> all_clean(s, close_seg(s, stack, a, b)->0),
{
    let seg = s.subrange(a, b);
    if !is_still(seg) && !is_up(seg) {
        let st = stack.push((a, b));
        assert forall|k: int| 0 <= k < st.len() implies clean_seg(s, #[trigger] st[k]) by {
            if k < stack.len() {
                assert(st[k] == stack[k]);
            }
        }
    } else if is_up(seg) && stack.len() > 0 {
        let st = stack.drop_last();
        assert forall|k: int| 0 <= k < st.len() implies clean_seg(s, #[trigger] st[k]) by {
            assert(st[k] == stack[k]);
        }
    }
}

proof fn lemma_walk_clean(s: Seq<char>, i: int, stack: Seq<(int, int)>, start: int)
    requires
        0 <= start <= i <= s.len(),
        all_clean(s, stack),
        forall|k: int| start <= k < i ==> s[k] != '/',
    ensures
        walk(s, i, stack, start) is Some ==> all_clean(s, walk(s, i, stack, start)->0),
    decreases s.len() - i,
{
    if i >= s.len() {
        lemma_close_clean(s, stack, start, s.len() as int);
    } else if s[i] == '/' {
        lemma_close_clean(s, stack, start, i);
        if let Some(st) = close_seg(s, stack, start, i) {
            lemma_walk_clean(s, i + 1, st, i + 1);
        }
    } else {
        lemma_walk_clean(s, i + 1, stack, start);
    }
}

/// Whether `path` is `root` followed by segments that each name a child:
/// non-empty, without `/`, and neither `.` nor `..`.
pub open spec fn is_within(root: Seq<char>, path: Seq<char>) -> bool {
    exists|t: Seq<char>, segs: Seq<(int, int)>| path == root + joined(t, segs) && all_clean(t, segs)
}

/// Every segment kept by normalisation names a child, so a resolved
/// filesystem path never leaves its route's root.
pub proof fn lemma_resolved_within_root(root: Seq<char>, sub: Seq<char>)
    requires
        normalized(sub) is Some,
    ensures
        all_clean(sub, normalized(sub)->0),
        is_within(root, root + joined(sub, normalized(sub)->0)),
{
    lemma_walk_clean(sub, 0, Seq::empty(), 0);
}

/// A sub-path whose first segment is `..` climbs above the root and is
/// refused, whatever follows it.
pub proof fn lemma_leading_up_escapes(t: Seq<char>)
    requires
        t.len() == 0 || t[0] == '/',
    ensures
        normalized(".."@ + t) is None,
        normalized("/"@ + ".."@ + t) is None,
{
    reveal_strlit("..");
    reveal_strlit("/");
    let s = ".."@ + t;
    assert(s[0] == '.' && s[1] == '.');
    assert(s.subrange(0, 2) =~= ".."@);
    assert(walk(s, 0, Seq::empty(), 0) == walk(s, 1, Seq::empty(), 0));
    assert(walk(s, 1, Seq::empty(), 0) == walk(s, 2, Seq::empty(), 0));
    reveal_strlit(".");
    assert(!is_still(s.subrange(0, 2)));
    assert(close_seg(s, Seq::empty(), 0, 2) is None);
    if t.len() > 0 {
        assert(s[2] == '/');
    }
    assert(walk(s, 2, Seq::empty(), 0) is None);
    let u = "/"@ + ".."@ + t;
    assert(u[0] == '/' && u[1] == '.' && u[2] == '.');
    assert(u.subrange(0, 0) =~= Seq::<char>::empty());
    assert(u.subrange(1, 3) =~= ".."@);
    assert(walk(u, 0, Seq::empty(), 0) == walk(u, 1, Seq::empty(), 1));
    assert(walk(u, 1, Seq::empty(), 1) == walk(u, 2, Seq::empty(), 1));
    assert(walk(u, 2, Seq::empty(), 1) == walk(u, 3, Seq::empty(), 1));
    assert(!is_still(u.subrange(1, 3)));
    assert(close_seg(u, Seq::empty(), 1, 3) is None);
    if t.len() > 0 {
        assert(u[3] == '/');
    }
    assert(walk(u, 3, Seq::empty(), 1) is None);
}

proof fn lemma_chosen_unique(routes: Seq<Route>, i: int, j: int, p: Seq<char>)
    requires
        chosen(routes, i, p),
        chosen(routes, j, p),
    ensures
        i == j,
{
}

impl RouteTable {
    /// The route chosen for `req_path` and the filesystem path it names:
    /// `NotFound` where no prefix begins the path, `Forbidden` where the
    /// rest of the path climbs above the route's root.
    pub fn resolve(&self, req_path: &str) -> (r: Result<Resolved, ResolveError>)
        ensures
            r == Err::<Resolved, ResolveError>(ResolveError::NotFound) <==> !exists|i: int|
                serves(self.routes@, i, req_path@),
            r is Ok ==> {
                let x = r->Ok_0;
                let rt = self.routes@[x.route as int];
                &&& chosen(self.routes@, x.route as int, req_path@)
                &&& x.subpath@ == req_path@.skip(rt.url@.len() as int)
                &&& normalized(x.subpath@) is Some
                &&& x.fs_path@ == rt.path@ + joined(x.subpath@, normalized(x.subpath@)->0)
            },
            r == Err::<Resolved, ResolveError>(ResolveError::Forbidden) <==> exists|i: int|
                chosen(self.routes@, i, req_path@) && normalized(
                    req_path@.skip(self.routes@[i].url@.len() as int),
                ) is None,
    {
        let n = self.routes.len();
        let mut best: Option<usize> = None;
        let mut best_len: usize = 0;
        let mut i: usize = 0;
        while i < n
            invariant
                n == self.routes@.len(),
                i <= n,
                best is None <==> forall|j: int| 0 <= j < i ==> !serves(self.routes@, j, req_path@),
                best is Some ==> {
                    let b = best->0 as int;
                    &&& b < i
                    &&& serves(self.routes@, b, req_path@)
                    &&& best_len == self.routes@[b].url@.len()
                    &&& forall|j: int| 0 <= j < i && #[trigger] serves(self.routes@, j, req_path@)
                        ==> self.routes@[j].url@.len() <= best_len
                    &&& forall|j: int| 0 <= j < b && #[trigger] serves(self.routes@, j, req_path@)
                        ==> self.routes@[j].url@.len() < best_len
                },
            decreases n - i,
        {
            let url = self.routes[i].url.as_str();
            let sv = starts_with(req_path, url);
            assert(sv == serves(self.routes@, i as int, req_path@));
            if sv {
                let len = url.unicode_len();
                match best {
                    None => {
                        best = Some(i);
                        best_len = len;
                    },
                    Some(_) => {
                        if len > best_len {
                            best = Some(i);
                            best_len = len;
                        }
                    },
                }
            }
            i = i + 1;
        }
        let b = match best {
            None => return Err(ResolveError::NotFound),
            Some(b) => b,
        };
        assert(chosen(self.routes@, b as int, req_path@));
        let route = &self.routes[b];
        let rest = req_path.substring_char(best_len, req_path.unicode_len());
        assert(rest@ =~= req_path@.skip(best_len as int));
        let segs = match normalize(rest) {
            None => {
                return Err(ResolveError::Forbidden);
            },
            Some(v) => v,
        };
        proof {
            lemma_walk_clean(rest@, 0, Seq::empty(), 0);
        }
        let ghost ranges = int_ranges(segs@);
        let mut fs_path = String::from_str(route.path.as_str());
        let mut k: usize = 0;
        assert(ranges.subrange(0, 0) =~= Seq::<(int, int)>::empty());
        while k < segs.len()
            invariant
                ranges == int_ranges(segs@),
                ranges.len() == segs@.len(),
                all_clean(rest@, ranges),
                k <= segs@.len(),
                fs_path@ == route.path@ + joined(rest@, ranges.subrange(0, k as int)),
            decreases segs@.len() - k,
        {
            let (a, e) = segs[k];
            assert(ranges[k as int] == (a as int, e as int));
            assert(clean_seg(rest@, ranges[k as int]));
            fs_path.append("/");
            fs_path.append(rest.substring_char(a, e));
            assert(ranges.subrange(0, k + 1).drop_last() =~= ranges.subrange(0, k as int));
            k = k + 1;
        }
        assert(ranges.subrange(0, k as int) =~= ranges);
        Ok(Resolved { route: b, subpath: String::from_str(rest), fs_path })
    }
}

} // verus!
