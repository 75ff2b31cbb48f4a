use vstd::prelude::*;
use vstd::utf8::encode_utf8;

verus! {

/// Names the result of `str::to_lowercase`: the Unicode lower-case mapping
/// of each character, which depends on the characters alone.
pub uninterp spec fn lowercase_of(s: Seq<char>) -> Seq<char>;

/// Relies on `str::to_lowercase`.
#[verifier::external_body]
fn lowercase(s: &str) -> (r: String)
    ensures
        r@ == lowercase_of(s@),
{
    s.to_lowercase()
}

/// Character-wise equality of two string slices.
pub fn str_eq(a: &str, b: &str) -> (r: bool)
    ensures
        r == (a@ == b@),
{
    let n = a.unicode_len();
    if n != b.unicode_len() {
        return false;
    }
    let mut i: usize = 0;
    while i < n
        invariant
            n == a@.len(),
            n == b@.len(),
            i <= n,
            forall|k: int| 0 <= k < i ==> a@[k] == b@[k],
        decreases n - i,
    {
        if a.get_char(i) != b.get_char(i) {
            return false;
        }
        i = i + 1;
    }
    assert(a@ =~= b@);
    true
}

/// The sort mode of a directory listing.
#[derive(Clone, Copy, Debug, PartialEq, Eq, Structural)]
pub enum EntryOrder {
    /// Filesystem enumeration order.
    Empty,
    Name,
    NameRev,
    Size,
    SizeRev,
    Modified,
    ModifiedRev,
}

/// The sort mode selected by an already lower-cased query string.
pub open spec fn order_of_lowered(q: Seq<char>) -> EntryOrder {
    if q == "sort=name"@ {
        EntryOrder::Name
    } else if q == "sort=namerev"@ {
        EntryOrder::NameRev
    } else if q == "sort=size"@ {
        EntryOrder::Size
    } else if q == "sort=sizerev"@ {
        EntryOrder::SizeRev
    } else if q == "sort=modified"@ {
        EntryOrder::Modified
    } else if q == "sort=modifiedrev"@ {
        EntryOrder::ModifiedRev
    } else {
        EntryOrder::Empty
    }
}

/// The label of each sort mode.
pub open spec fn label_of(o: EntryOrder) -> Seq<char> {
    match o {
        EntryOrder::Empty => "Empty"@,
        EntryOrder::Name => "Name"@,
        EntryOrder::NameRev => "NameRev"@,
        EntryOrder::Size => "Size"@,
        EntryOrder::SizeRev => "SizeRev"@,
        EntryOrder::Modified => "Modified"@,
        EntryOrder::ModifiedRev => "ModifiedRev"@,
    }
}

/// The labels that the name, modified and size columns advertise as the
/// mode a click on them selects: the active ascending column flips to its
/// reverse, every other column offers its ascending mode.
pub open spec fn next_labels(o: EntryOrder) -> (Seq<char>, Seq<char>, Seq<char>) {
    match o {
        EntryOrder::Name => ("NameRev"@, "Modified"@, "Size"@),
        EntryOrder::Size => ("Name"@, "Modified"@, "SizeRev"@),
        EntryOrder::Modified => ("Name"@, "ModifiedRev"@, "Size"@),
        _ => ("Name"@, "Modified"@, "Size"@),
    }
}

impl EntryOrder {
    /// The sort mode of a query string, compared without regard to case;
    /// an absent or unrecognised query gives `Empty`.
    pub fn new(req_query: Option<&str>) -> (r: Self)
        ensures
            req_query is None ==> r == EntryOrder::Empty,
            req_query is Some ==> r == order_of_lowered(lowercase_of(req_query->0@)),
    {
        match req_query {
            None => EntryOrder::Empty,
            Some(s) => {
                let lower = lowercase(s);
                EntryOrder::from_lowered(lower.as_str())
            },
        }
    }

    /// The sort mode of a query string that is already in lower case.
    pub fn from_lowered(q: &str) -> (r: Self)
        ensures
            r == order_of_lowered(q@),
    {
        if str_eq(q, "sort=name") {
            EntryOrder::Name
        } else if str_eq(q, "sort=namerev") {
            EntryOrder::NameRev
        } else if str_eq(q, "sort=size") {
            EntryOrder::Size
        } else if str_eq(q, "sort=sizerev") {
            EntryOrder::SizeRev
        } else if str_eq(q, "sort=modified") {
            EntryOrder::Modified
        } else if str_eq(q, "sort=modifiedrev") {
            EntryOrder::ModifiedRev
        } else {
            EntryOrder::Empty
        }
    }

    /// The labels of the toggle links of the name, modified and size columns.
    pub fn next(&self) -> (r: (&'static str, &'static str, &'static str))
        ensures
            (r.0@, r.1@, r.2@) == next_labels(*self),
    {
        match *self {
            EntryOrder::Name => ("NameRev", "Modified", "Size"),
            EntryOrder::Size => ("Name", "Modified", "SizeRev"),
            EntryOrder::Modified => ("Name", "ModifiedRev", "Size"),
            _ => ("Name", "Modified", "Size"),
        }
    }

    /// The label of this sort mode.
    pub fn label(&self) -> (r: &'static str)
        ensures
            r@ == label_of(*self),
    {
        match *self {
            EntryOrder::Empty => "Empty",
            EntryOrder::Name => "Name",
            EntryOrder::NameRev => "NameRev",
            EntryOrder::Size => "Size",
            EntryOrder::SizeRev => "SizeRev",
            EntryOrder::Modified => "Modified",
            EntryOrder::ModifiedRev => "ModifiedRev",
        }
    }

    /// The label of this sort mode as an owned string.
    pub fn to_string(&self) -> (r: String)
        ensures
            r@ == label_of(*self),
    {
        String::from_str(self.label())
    }
}


/// A modification time: whole seconds since the Unix epoch and the
/// nanoseconds within that second.
#[derive(Clone, Copy, Debug, PartialEq, Eq, Structural)]
pub struct Timestamp {
    pub secs: i64,
    pub nanos: u32,
}

/// The kind of a directory child.
#[derive(Clone, Copy, Debug, PartialEq, Eq, Structural)]
pub enum EntryKind {
    File,
    Dir,
    Symlink,
    Other,
}

/// One child of a listed directory; fields whose metadata could not be
/// read are `None`.
#[derive(Clone, Debug)]
pub struct EntryMetadata {
    pub name: String,
    pub size: Option<u64>,
    pub modified: Option<Timestamp>,
    pub typo: Option<EntryKind>,
}

/// Lexicographic order of byte strings, as `Ord` on `str` compares them.
pub open spec fn bytes_lt(a: Seq<u8>, b: Seq<u8>) -> bool
    decreases a.len(),
{
    if b.len() == 0 {
        false
    } else if a.len() == 0 {
        true
    } else if a[0] != b[0] {
        a[0] < b[0]
    } else {
        bytes_lt(a.drop_first(), b.drop_first())
    }
}

pub open spec fn name_bytes(e: EntryMetadata) -> Seq<u8> {
    encode_utf8(e.name@)
}

pub open spec fn ts_lt(a: Timestamp, b: Timestamp) -> bool {
    a.secs < b.secs || (a.secs == b.secs && a.nanos < b.nanos)
}

/// Known sizes come first, in the given direction; unknown ones last.
pub open spec fn size_before(a: Option<u64>, b: Option<u64>, desc: bool) -> bool {
    match (a, b) {
        (Some(x), Some(y)) => if desc { y < x } else { x < y },
        (Some(_), None) => true,
        _ => false,
    }
}

/// Known times come first, in the given direction; unknown ones last.
pub open spec fn time_before(a: Option<Timestamp>, b: Option<Timestamp>, desc: bool) -> bool {
    match (a, b) {
        (Some(x), Some(y)) => if desc { ts_lt(y, x) } else { ts_lt(x, y) },
        (Some(_), None) => true,
        _ => false,
    }
}

/// Whether `a` strictly precedes `b` in a listing sorted by `o`.
pub open spec fn before(o: EntryOrder, a: EntryMetadata, b: EntryMetadata) -> bool {
    match o {
        EntryOrder::Empty => false,
        EntryOrder::Name => bytes_lt(name_bytes(a), name_bytes(b)),
        EntryOrder::NameRev => bytes_lt(name_bytes(b), name_bytes(a)),
        EntryOrder::Size => size_before(a.size, b.size, false),
        EntryOrder::SizeRev => size_before(a.size, b.size, true),
        EntryOrder::Modified => time_before(a.modified, b.modified, false),
        EntryOrder::ModifiedRev => time_before(a.modified, b.modified, true),
    }
}

/// Where `x` goes in `s`: before the first element that it precedes, so
/// that it stays behind every element equal to it.
pub open spec fn insert_pos(o: EntryOrder, s: Seq<EntryMetadata>, x: EntryMetadata) -> int
    decreases s.len(),
{
    if s.len() == 0 {
        0
    } else if before(o, x, s[0]) {
        0
    } else {
        1 + insert_pos(o, s.drop_first(), x)
    }
}

/// The stable sort of `s` by `o`.
pub open spec fn sorted_by(o: EntryOrder, s: Seq<EntryMetadata>) -> Seq<EntryMetadata>
    decreases s.len(),
{
    if s.len() == 0 {
        s
    } else {
        let t = sorted_by(o, s.drop_last());
        t.insert(insert_pos(o, t, s.last()), s.last())
    }
}

/// No element precedes one that stands before it.
pub open spec fn is_ordered(o: EntryOrder, s: Seq<EntryMetadata>) -> bool {
    forall|i: int, j: int| 0 <= i < j < s.len() ==> !#[trigger] before(o, s[j], s[i])
}

proof fn lemma_bytes_lt_trans(a: Seq<u8>, b: Seq<u8>, c: Seq<u8>)
    requires
        bytes_lt(a, b),
        bytes_lt(b, c),
    ensures
        bytes_lt(a, c),
    decreases a.len(),
{
    if a.len() > 0 && a[0] == b[0] && b[0] == c[0] {
        lemma_bytes_lt_trans(a.drop_first(), b.drop_first(), c.drop_first());
    }
}

proof fn lemma_bytes_lt_asym(a: Seq<u8>, b: Seq<u8>)
    ensures
        !(bytes_lt(a, b) && bytes_lt(b, a)),
    decreases a.len(),
{
    if a.len() > 0 && b.len() > 0 && a[0] == b[0] {
        lemma_bytes_lt_asym(a.drop_first(), b.drop_first());
    }
}

proof fn lemma_before_trans(o: EntryOrder, a: EntryMetadata, b: EntryMetadata, c: EntryMetadata)
    requires
        before(o, a, b),
        before(o, b, c),
    ensures
        before(o, a, c),
{
    match o {
        EntryOrder::Name => lemma_bytes_lt_trans(name_bytes(a), name_bytes(b), name_bytes(c)),
        EntryOrder::NameRev => lemma_bytes_lt_trans(name_bytes(c), name_bytes(b), name_bytes(a)),
        _ => {},
    }
}

proof fn lemma_before_asym(o: EntryOrder, a: EntryMetadata, b: EntryMetadata)
    ensures
        !(before(o, a, b) && before(o, b, a)),
{
    lemma_bytes_lt_asym(name_bytes(a), name_bytes(b));
}

/// `insert_pos` is the first index whose element `x` precedes.
proof fn lemma_insert_pos(o: EntryOrder, s: Seq<EntryMetadata>, x: EntryMetadata)
    ensures
        0 <= insert_pos(o, s, x) <= s.len(),
        forall|k: int| 0 <= k < insert_pos(o, s, x) ==> !before(o, x, #[trigger] s[k]),
        insert_pos(o, s, x) < s.len() ==> before(o, x, s[insert_pos(o, s, x)]),
    decreases s.len(),
{
    if s.len() > 0 && !before(o, x, s[0]) {
        lemma_insert_pos(o, s.drop_first(), x);
        assert forall|k: int| 0 <= k < insert_pos(o, s, x) implies !before(o, x, #[trigger] s[k]) by {
            if k > 0 {
                assert(s[k] == s.drop_first()[k - 1]);
            }
        }
    }
}

proof fn lemma_sorted_by_len(o: EntryOrder, s: Seq<EntryMetadata>)
    ensures
        sorted_by(o, s).len() == s.len(),
    decreases s.len(),
{
    if s.len() > 0 {
        lemma_sorted_by_len(o, s.drop_last());
        lemma_insert_pos(o, sorted_by(o, s.drop_last()), s.last());
    }
}

/// The stable sort leaves its result ordered.
pub proof fn lemma_sorted_by_is_ordered(o: EntryOrder, s: Seq<EntryMetadata>)
    ensures
        is_ordered(o, sorted_by(o, s)),
    decreases s.len(),
{
    if s.len() > 0 {
        let t = sorted_by(o, s.drop_last());
        let x = s.last();
        lemma_sorted_by_is_ordered(o, s.drop_last());
        lemma_insert_pos(o, t, x);
        let p = insert_pos(o, t, x);
        let u = t.insert(p, x);
        assert forall|i: int, j: int| 0 <= i < j < u.len() implies !#[trigger] before(o, u[j], u[i]) by {
            if j < p {
                assert(u[i] == t[i] && u[j] == t[j]);
            } else if j == p {
                assert(u[i] == t[i]);
            } else if i < p {
                assert(u[i] == t[i] && u[j] == t[j - 1]);
            } else if i == p {
                assert(u[i] == x && u[j] == t[j - 1]);
                lemma_before_asym(o, x, t[p]);
                if before(o, t[j - 1], x) && j - 1 > p {
                    lemma_before_trans(o, t[j - 1], x, t[p]);
                }
            } else {
                assert(u[i] == t[i - 1] && u[j] == t[j - 1]);
            }
        }
    }
}

/// The stable sort is a permutation: it keeps every entry, as often as it
/// occurs, and adds none.
pub proof fn lemma_sorted_by_permutes(o: EntryOrder, s: Seq<EntryMetadata>)
    ensures
        sorted_by(o, s).to_multiset() == s.to_multiset(),
    decreases s.len(),
{
    if s.len() > 0 {
        let t = sorted_by(o, s.drop_last());
        lemma_sorted_by_permutes(o, s.drop_last());
        lemma_insert_pos(o, t, s.last());
        vstd::seq_lib::to_multiset_insert(t, insert_pos(o, t, s.last()), s.last());
        vstd::seq_lib::to_multiset_build(s.drop_last(), s.last());
        assert(s.drop_last().push(s.last()) =~= s);
    }
}

/// An ordered sequence is its own stable sort.
pub proof fn lemma_ordered_is_fixed(o: EntryOrder, s: Seq<EntryMetadata>)
    requires
        is_ordered(o, s),
    ensures
        sorted_by(o, s) == s,
    decreases s.len(),
{
    if s.len() > 0 {
        let d = s.drop_last();
        assert(is_ordered(o, d)) by {
            assert forall|i: int, j: int| 0 <= i < j < d.len() implies !#[trigger] before(o, d[j], d[i]) by {
                assert(d[i] == s[i] && d[j] == s[j]);
            }
        }
        lemma_ordered_is_fixed(o, d);
        lemma_insert_pos(o, d, s.last());
        if insert_pos(o, d, s.last()) < d.len() {
            let p = insert_pos(o, d, s.last());
            assert(before(o, s[s.len() - 1], s[p]));
        }
        assert(d.insert(d.len() as int, s.last()) =~= s);
    }
}


/// Byte-wise comparison of two names: whether `a` sorts strictly before `b`.
fn name_lt(a: &String, b: &String) -> (r: bool)
    ensures
        r == bytes_lt(encode_utf8(a@), encode_utf8(b@)),
{
    let x = a.as_str().as_bytes();
    let y = b.as_str().as_bytes();
    let mut i: usize = 0;
    assert(x@.skip(0) =~= x@);
    assert(y@.skip(0) =~= y@);
    while i < x.len() && i < y.len()
        invariant
            x@ == encode_utf8(a@),
            y@ == encode_utf8(b@),
            i <= x@.len(),
            i <= y@.len(),
            bytes_lt(x@, y@) == bytes_lt(x@.skip(i as int), y@.skip(i as int)),
        decreases x@.len() - i,
    {
        if x[i] != y[i] {
            return x[i] < y[i];
        }
        assert(x@.skip(i as int).drop_first() =~= x@.skip(i + 1));
        assert(y@.skip(i as int).drop_first() =~= y@.skip(i + 1));
        i = i + 1;
    }
    i < y.len()
}

fn ts_before(a: &Timestamp, b: &Timestamp) -> (r: bool)
    ensures
        r == ts_lt(*a, *b),
{
    a.secs < b.secs || (a.secs == b.secs && a.nanos < b.nanos)
}

impl EntryOrder {
    /// Whether `a` strictly precedes `b` in a listing sorted by this mode.
    pub fn precedes(&self, a: &EntryMetadata, b: &EntryMetadata) -> (r: bool)
        ensures
            r == before(*self, *a, *b),
    {
        match *self {
            EntryOrder::Empty => false,
            EntryOrder::Name => name_lt(&a.name, &b.name),
            EntryOrder::NameRev => name_lt(&b.name, &a.name),
            EntryOrder::Size | EntryOrder::SizeRev => match (a.size, b.size) {
                (Some(x), Some(y)) => if *self == EntryOrder::SizeRev { y < x } else { x < y },
                (Some(_), None) => true,
                _ => false,
            },
            EntryOrder::Modified | EntryOrder::ModifiedRev => match (a.modified, b.modified) {
                (Some(x), Some(y)) => if *self == EntryOrder::ModifiedRev {
                    ts_before(&y, &x)
                } else {
                    ts_before(&x, &y)
                },
                (Some(_), None) => true,
                _ => false,
            },
        }
    }

    /// Sorts a listing in place, stably: entries that neither precedes keep
    /// their enumeration order, and `Empty` leaves the listing as it is.
    pub fn sort(&self, entries: &mut Vec<EntryMetadata>)
        ensures
            final(entries)@ == sorted_by(*self, old(entries)@),
    {
        let ghost orig = entries@;
        let mut out: Vec<EntryMetadata> = Vec::new();
        let n = entries.len();
        let mut k: usize = 0;
        while entries.len() > 0
            invariant
                n == orig.len(),
                k <= orig.len(),
                entries@ == orig.subrange(k as int, orig.len() as int),
                out@ == sorted_by(*self, orig.subrange(0, k as int)),
            decreases entries@.len(),
        {
            assert(k < orig.len());
            let x = entries.remove(0);
            proof {
                lemma_sorted_by_len(*self, orig.subrange(0, k as int));
                lemma_insert_pos(*self, out@, x);
            }
            let mut p: usize = 0;
            while p < out.len()
                invariant
                    p <= out@.len(),
                    forall|j: int| 0 <= j < p ==> !before(*self, x, #[trigger] out@[j]),
                ensures
                    p <= out@.len(),
                    forall|j: int| 0 <= j < p ==> !before(*self, x, #[trigger] out@[j]),
                    p < out@.len() ==> before(*self, x, out@[p as int]),
                decreases out@.len() - p,
            {
                if self.precedes(&x, &out[p]) {
                    break;
                }
                p = p + 1;
            }
            proof {
                let ip = insert_pos(*self, out@, x);
                if ip < p {
                    assert(!before(*self, x, out@[ip]));
                }
                if p < ip {
                    assert(!before(*self, x, out@[p as int]));
                }
                let s1 = orig.subrange(0, k + 1);
                assert(s1.drop_last() =~= orig.subrange(0, k as int));
                assert(s1.last() == x);
                assert(entries@ =~= orig.subrange(k + 1, orig.len() as int));
            }
            out.insert(p, x);
            k = k + 1;
        }
        assert(orig.subrange(0, k as int) =~= orig);
        *entries = out;
    }
}

/// Sorting twice by the same mode gives what sorting once gives.
pub proof fn lemma_sort_idempotent(o: EntryOrder, s: Seq<EntryMetadata>)
    ensures
        sorted_by(o, sorted_by(o, s)) == sorted_by(o, s),
{
    lemma_sorted_by_is_ordered(o, s);
    lemma_ordered_is_fixed(o, sorted_by(o, s));
}

/// Sorting by `Empty` never reorders.
pub proof fn lemma_empty_keeps_order(s: Seq<EntryMetadata>)
    ensures
        sorted_by(EntryOrder::Empty, s) == s,
{
    lemma_ordered_is_fixed(EntryOrder::Empty, s);
}

/// Under the size modes, an entry of unknown size stands after every entry
/// of known size.
pub proof fn lemma_unknown_size_last(o: EntryOrder, s: Seq<EntryMetadata>, i: int, j: int)
    requires
        o == EntryOrder::Size || o == EntryOrder::SizeRev,
        0 <= i < j < s.len(),
        sorted_by(o, s)[i].size is None,
    ensures
        sorted_by(o, s)[j].size is None,
{
    lemma_sorted_by_len(o, s);
    lemma_sorted_by_is_ordered(o, s);
    assert(!before(o, sorted_by(o, s)[j], sorted_by(o, s)[i]));
}

/// Under the modification-time modes, an entry of unknown time stands after
/// every entry of known time.
pub proof fn lemma_unknown_time_last(o: EntryOrder, s: Seq<EntryMetadata>, i: int, j: int)
    requires
        o == EntryOrder::Modified || o == EntryOrder::ModifiedRev,
        0 <= i < j < s.len(),
        sorted_by(o, s)[i].modified is None,
    ensures
        sorted_by(o, s)[j].modified is None,
{
    lemma_sorted_by_len(o, s);
    lemma_sorted_by_is_ordered(o, s);
    assert(!before(o, sorted_by(o, s)[j], sorted_by(o, s)[i]));
}


/// Whether a child is shown: a name that begins with `.` only where hidden
/// entries are shown, and, where links are not followed, only a child whose
/// kind is known and is no symbolic link.
pub open spec fn is_listed(
    name: Seq<char>,
    typo: Option<EntryKind>,
    follow_links: bool,
    show_hider: bool,
) -> bool {
    (show_hider || !(name.len() > 0 && name[0] == '.')) && (follow_links || (typo is Some
        && typo->0 != EntryKind::Symlink))
}

/// The entries of `s` that are shown, in their order.
pub open spec fn listed(s: Seq<EntryMetadata>, follow_links: bool, show_hider: bool) -> Seq<
    EntryMetadata,
>
    decreases s.len(),
{
    if s.len() == 0 {
        s
    } else {
        let t = listed(s.drop_last(), follow_links, show_hider);
        let e = s.last();
        if is_listed(e.name@, e.typo, follow_links, show_hider) {
            t.push(e)
        } else {
            t
        }
    }
}

impl EntryMetadata {
    /// The entry of a directory child, or `None` where the policy hides it.
    pub fn new(
        name: String,
        typo: Option<EntryKind>,
        size: Option<u64>,
        modified: Option<Timestamp>,
        follow_links: bool,
        show_hider: bool,
    ) -> (r: Option<Self>)
        ensures
            r is Some <==> is_listed(name@, typo, follow_links, show_hider),
            r is Some ==> r->0.name@ == name@ && r->0.typo == typo && r->0.size == size
                && r->0.modified == modified,
    {
        let e = EntryMetadata { name, size, modified, typo };
        if e.is_listed(follow_links, show_hider) {
            Some(e)
        } else {
            None
        }
    }

    /// Whether this entry is shown under the given policy.
    pub fn is_listed(&self, follow_links: bool, show_hider: bool) -> (r: bool)
        ensures
            r == is_listed(self.name@, self.typo, follow_links, show_hider),
    {
        let name = self.name.as_str();
        let hidden = name.unicode_len() > 0 && name.get_char(0) == '.';
        if !show_hider && hidden {
            return false;
        }
        if follow_links {
            return true;
        }
        match self.typo {
            Some(EntryKind::Symlink) => false,
            Some(_) => true,
            None => false,
        }
    }

    /// The listing of a directory: the children that the policy shows,
    /// sorted by `order`.
    pub fn listing(
        candidates: Vec<EntryMetadata>,
        follow_links: bool,
        show_hider: bool,
        order: &EntryOrder,
    ) -> (r: Vec<EntryMetadata>)
        ensures
            r@ == sorted_by(*order, listed(candidates@, follow_links, show_hider)),
    {
        let ghost orig = candidates@;
        let mut rest = candidates;
        let n = rest.len();
        let mut out: Vec<EntryMetadata> = Vec::new();
        let mut k: usize = 0;
        while rest.len() > 0
            invariant
                n == orig.len(),
                k <= n,
                rest@ == orig.subrange(k as int, n as int),
                out@ == listed(orig.subrange(0, k as int), follow_links, show_hider),
            decreases rest@.len(),
        {
            assert(k < n);
            let e = rest.remove(0);
            proof {
                let s1 = orig.subrange(0, k + 1);
                assert(s1.drop_last() =~= orig.subrange(0, k as int));
                assert(s1.last() == e);
                assert(rest@ =~= orig.subrange(k + 1, n as int));
            }
            if e.is_listed(follow_links, show_hider) {
                out.push(e);
            }
            k = k + 1;
        }
        assert(orig.subrange(0, n as int) =~= orig);
        order.sort(&mut out);
        out
    }
}

} // verus!
