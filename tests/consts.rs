use fht2p::consts::{MutStatic, MAGIC_LIMIT, NAME};

#[test]
fn consts_test() {
    assert_eq!(NAME, "fht2p");
}

#[test]
fn magic_limit_is_ten_mebibytes() {
    assert_eq!(MAGIC_LIMIT, 10485760);
}

#[test]
fn mut_static_set_then_get() {
    let mut m = MutStatic::new(3u64);
    assert_eq!(*m.get(), 3);
    m.set(9);
    assert_eq!(*m.get(), 9);
}
