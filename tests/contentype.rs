use fht2p::consts::MAGIC_LIMIT;
use fht2p::contentype::{content_type_of_head, guess_contentype, guess_from_mime, is_text_head, mime_string, text_boundary, BUF_LEN};

#[test]
fn full_buffer_with_cut_multibyte_char_is_text() {
    // 1020 ASCII bytes, then a euro sign (3 bytes) and the first byte of another.
    let mut buf = vec![b'a'; 1020];
    buf.extend_from_slice("€".as_bytes());
    buf.push(0xe2);
    assert_eq!(buf.len(), BUF_LEN);
    assert_eq!(text_boundary(&buf), 1023);
    assert!(is_text_head(&buf, BUF_LEN));
    assert_eq!(content_type_of_head(&buf, BUF_LEN), "text/plain; charset=utf-8");
}

#[test]
fn full_buffer_cut_inside_four_byte_char_is_text() {
    let mut buf = vec![b'x'; 1021];
    buf.extend_from_slice(&"😀".as_bytes()[0..3]);
    assert_eq!(buf.len(), BUF_LEN);
    assert_eq!(text_boundary(&buf), 1021);
    assert!(is_text_head(&buf, BUF_LEN));
}

#[test]
fn full_buffer_of_continuation_bytes_is_binary() {
    let buf = vec![0x80u8; BUF_LEN];
    assert_eq!(text_boundary(&buf), 0);
    assert!(!is_text_head(&buf, BUF_LEN));
}

#[test]
fn empty_read_is_text() {
    let buf = vec![0u8; BUF_LEN];
    assert!(is_text_head(&buf, 0));
}

#[test]
fn short_read_judged_whole() {
    let mut buf = vec![0u8; BUF_LEN];
    buf[0] = b'h';
    buf[1] = b'i';
    assert!(is_text_head(&buf, 2));
    buf[2] = 0xff;
    assert!(!is_text_head(&buf, 3));
    assert_eq!(content_type_of_head(&buf, 3), "application/octet-stream");
}

#[test]
fn guess_by_extension() {
    assert_eq!(guess_contentype("index.html", 10, MAGIC_LIMIT).unwrap(), "text/html;charset=utf-8");
    assert_eq!(guess_contentype("a/b/pic.png", 10, MAGIC_LIMIT).unwrap(), "image/png");
}

#[test]
fn guess_unknown_extension_by_size() {
    assert_eq!(guess_contentype("README", 10, MAGIC_LIMIT), None);
    assert_eq!(guess_contentype("README", MAGIC_LIMIT, MAGIC_LIMIT).unwrap(), "application/octet-stream");
}

#[test]
fn guess_from_lookup_result() {
    assert_eq!(guess_from_mime(Some(("text", "css")), 1, 2).unwrap(), "text/css;charset=utf-8");
    assert_eq!(guess_from_mime(Some(("application", "json")), 5, 2).unwrap(), "application/json");
    assert_eq!(guess_from_mime(None, 1, 2), None);
    assert_eq!(mime_string("image", "gif"), "image/gif");
}
