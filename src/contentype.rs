use vstd::prelude::*;
use vstd::slice::slice_subrange;
use vstd::utf8::{is_continuation_byte, valid_utf8};
use crate::consts::CHARSET;
use crate::entry::str_eq;

verus! {

/// How many bytes of a file are read to sniff its content.
pub const BUF_LEN: usize = 1024;

/// A media type as its type and subtype.
pub struct MediaType {
    pub ty: String,
    pub sub: String,
}

/// Names the result of `mime_guess::from_path(path).first()`: the type and
/// subtype that the crate's table gives the path's extension, which depends
/// on the path alone.
pub uninterp spec fn mime_of_path(path: Seq<char>) -> Option<(Seq<char>, Seq<char>)>;

/// Relies on `mime_guess::from_path` and `MimeGuess::first`: the first media
/// type known for the extension of `path`, as its type and subtype.
#[verifier::external_body]
fn mime_by_extension(path: &str) -> (r: Option<MediaType>)
    ensures
        r is Some <==> mime_of_path(path@) is Some,
        r is Some ==> (r->0.ty@, r->0.sub@) == mime_of_path(path@)->0,
{
    mime_guess::from_path(path).first().map(
        |m| MediaType { ty: m.type_().as_str().to_owned(), sub: m.subtype().as_str().to_owned() },
    )
}

/// Relies on `std::str::from_utf8`, which succeeds exactly on valid UTF-8.
#[verifier::external_body]
fn is_utf8(b: &[u8]) -> (r: bool)
    ensures
        r == valid_utf8(b@),
{
    std::str::from_utf8(b).is_ok()
}

/// Where a character that may be cut off at the end of a full buffer
/// begins: the last of its final four bytes that is no UTF-8 continuation
/// byte, scanning backward from the end; 0 where all four are.
pub open spec fn tail_char_start(b: Seq<u8>) -> int {
    let n = b.len() as int;
    if n >= 1 && !is_continuation_byte(b[n - 1]) {
        n - 1
    } else if n >= 2 && !is_continuation_byte(b[n - 2]) {
        n - 2
    } else if n >= 3 && !is_continuation_byte(b[n - 3]) {
        n - 3
    } else if n >= 4 && !is_continuation_byte(b[n - 4]) {
        n - 4
    } else {
        0
    }
}

/// Whether the first `len` bytes read into `buf` look like text. Nothing
/// read is text. A full buffer is judged up to the start of its last,
/// possibly cut, character, and is binary where no such start is found;
/// a shorter read is judged whole.
pub open spec fn head_is_text(buf: Seq<u8>, len: int) -> bool {
    if len == 0 {
        true
    } else if len == buf.len() {
        let cut = tail_char_start(buf);
        cut != 0 && valid_utf8(buf.subrange(0, cut))
    } else {
        valid_utf8(buf.subrange(0, len))
    }
}

/// The start of the last character among the final four bytes of `buf`.
pub fn text_boundary(buf: &[u8]) -> (r: usize)
    ensures
        r == tail_char_start(buf@),
{
    let n = buf.len();
    let mut k: usize = 1;
    while k <= 4 && k <= n
        invariant
            n == buf@.len(),
            1 <= k <= 5,
            forall|j: int| 1 <= j < k ==> j <= n && is_continuation_byte(#[trigger] buf@[n - j]),
        decreases 5 - k,
    {
        let byte = buf[n - k];
        if !(0x80 <= byte && byte <= 0xbf) {
            return n - k;
        }
        k = k + 1;
    }
    0
}

/// Whether the first `len` bytes read into `buf` look like UTF-8 text.
pub fn is_text_head(buf: &[u8], len: usize) -> (r: bool)
    requires
        len <= buf@.len(),
    ensures
        r == head_is_text(buf@, len as int),
{
    if len == 0 {
        true
    } else if len == buf.len() {
        let cut = text_boundary(buf);
        if cut == 0 {
            false
        } else {
            is_utf8(slice_subrange(buf, 0, cut))
        }
    } else {
        is_utf8(slice_subrange(buf, 0, len))
    }
}

/// The content type of a file judged by its first bytes.
pub open spec fn sniffed_type(buf: Seq<u8>, len: int) -> Seq<char> {
    if head_is_text(buf, len) {
        "text/plain; charset=utf-8"@
    } else {
        "application/octet-stream"@
    }
}

/// The content type of a file whose extension is unknown, from the first
/// `len` bytes read into `buf`.
pub fn content_type_of_head(buf: &[u8], len: usize) -> (r: String)
    requires
        len <= buf@.len(),
    ensures
        r@ == sniffed_type(buf@, len as int),
{
    if is_text_head(buf, len) {
        String::from_str("text/plain; charset=utf-8")
    } else {
        String::from_str("application/octet-stream")
    }
}

/// The content type written for a known media type: `type/subtype`, with
/// the charset appended to text types.
pub open spec fn mime_text(ty: Seq<char>, sub: Seq<char>) -> Seq<char> {
    if ty == "text"@ {
        ty + "/"@ + sub + ";"@ + CHARSET@
    } else {
        ty + "/"@ + sub
    }
}

/// What is known of a file's content type before any of it is read: the
/// type of its extension, binary for a file at or over the size limit, and
/// `None` where its first bytes decide.
pub open spec fn guess_of(
    mime: Option<(Seq<char>, Seq<char>)>,
    len: u64,
    magic_limit: u64,
) -> Option<Seq<char>> {
    match mime {
        Some(m) => Some(mime_text(m.0, m.1)),
        None => if len >= magic_limit {
            Some("application/octet-stream"@)
        } else {
            None
        },
    }
}

/// `type/subtype` of a known media type, with the charset for text.
pub fn mime_string(ty: &str, sub: &str) -> (r: String)
    ensures
        r@ == mime_text(ty@, sub@),
{
    let mut s = String::from_str(ty);
    s.append("/");
    s.append(sub);
    if str_eq(ty, "text") {
        s.append(";");
        s.append(CHARSET);
    }
    s
}

/// The content type known before reading, from the extension lookup's
/// result.
pub fn guess_from_mime(mime: Option<(&str, &str)>, len: u64, magic_limit: u64) -> (r: Option<
    String,
>)
    ensures
        r is Some <==> guess_of(
            match mime {
                Some(m) => Some((m.0@, m.1@)),
                None => None,
            },
            len,
            magic_limit,
        ) is Some,
        r is Some ==> r->0@ == guess_of(
            match mime {
                Some(m) => Some((m.0@, m.1@)),
                None => None,
            },
            len,
            magic_limit,
        )->0,
{
    match mime {
        Some((ty, sub)) => Some(mime_string(ty, sub)),
        None => if len >= magic_limit {
            Some(String::from_str("application/octet-stream"))
        } else {
            None
        },
    }
}

/// The content type of the file at `path` of `len` bytes, as far as it is
/// known before reading; `None` where `content_type_of_head` decides.
pub fn guess_contentype(path: &str, len: u64, magic_limit: u64) -> (r: Option<String>)
    ensures
        r is Some <==> guess_of(mime_of_path(path@), len, magic_limit) is Some,
        r is Some ==> r->0@ == guess_of(mime_of_path(path@), len, magic_limit)->0,
{
    let m = mime_by_extension(path);
    match &m {
        Some(t) => guess_from_mime(Some((t.ty.as_str(), t.sub.as_str())), len, magic_limit),
        None => guess_from_mime(None, len, magic_limit),
    }
}

} // verus!
