use fht2p::entry::{EntryKind, EntryMetadata, EntryOrder, Timestamp};

fn e(name: &str, size: Option<u64>, secs: Option<i64>) -> EntryMetadata {
    EntryMetadata {
        name: name.to_string(),
        size,
        modified: secs.map(|s| Timestamp { secs: s, nanos: 0 }),
        typo: Some(EntryKind::File),
    }
}

fn names(v: &[EntryMetadata]) -> Vec<&str> {
    v.iter().map(|x| x.name.as_str()).collect()
}

#[test]
fn order_from_query_is_case_insensitive() {
    assert_eq!(EntryOrder::new(Some("SORT=NAMEREV")), EntryOrder::NameRev);
    assert_eq!(EntryOrder::new(Some("sort=namerev")), EntryOrder::NameRev);
    assert_eq!(EntryOrder::new(Some("sort=NameRev")), EntryOrder::NameRev);
    assert_eq!(EntryOrder::new(Some("sort=size")), EntryOrder::Size);
    assert_eq!(EntryOrder::new(Some("Sort=SizeRev")), EntryOrder::SizeRev);
    assert_eq!(EntryOrder::new(Some("sort=modified")), EntryOrder::Modified);
    assert_eq!(EntryOrder::new(Some("sort=modifiedrev")), EntryOrder::ModifiedRev);
    assert_eq!(EntryOrder::new(Some("sort=name")), EntryOrder::Name);
}

#[test]
fn order_from_unknown_query_is_empty() {
    assert_eq!(EntryOrder::new(None), EntryOrder::Empty);
    assert_eq!(EntryOrder::new(Some("")), EntryOrder::Empty);
    assert_eq!(EntryOrder::new(Some("sort=date")), EntryOrder::Empty);
    assert_eq!(EntryOrder::from_lowered("SORT=NAME"), EntryOrder::Empty);
}

#[test]
fn next_labels_toggle_active_column() {
    assert_eq!(EntryOrder::Empty.next(), ("Name", "Modified", "Size"));
    assert_eq!(EntryOrder::Name.next(), ("NameRev", "Modified", "Size"));
    assert_eq!(EntryOrder::NameRev.next(), ("Name", "Modified", "Size"));
    assert_eq!(EntryOrder::Size.next(), ("Name", "Modified", "SizeRev"));
    assert_eq!(EntryOrder::SizeRev.next(), ("Name", "Modified", "Size"));
    assert_eq!(EntryOrder::Modified.next(), ("Name", "ModifiedRev", "Size"));
    assert_eq!(EntryOrder::ModifiedRev.next(), ("Name", "Modified", "Size"));
}

#[test]
fn labels() {
    assert_eq!(EntryOrder::ModifiedRev.label(), "ModifiedRev");
    assert_eq!(EntryOrder::Empty.to_string(), "Empty");
}

#[test]
fn sort_by_name_and_again() {
    let mut v = vec![e("b", None, None), e("a", None, None), e("c", None, None), e("B", None, None)];
    EntryOrder::Name.sort(&mut v);
    assert_eq!(names(&v), vec!["B", "a", "b", "c"]);
    EntryOrder::Name.sort(&mut v);
    assert_eq!(names(&v), vec!["B", "a", "b", "c"]);
    EntryOrder::NameRev.sort(&mut v);
    assert_eq!(names(&v), vec!["c", "b", "a", "B"]);
}

#[test]
fn sort_empty_keeps_order() {
    let mut v = vec![e("z", Some(1), None), e("a", Some(2), None), e("m", None, None)];
    EntryOrder::Empty.sort(&mut v);
    assert_eq!(names(&v), vec!["z", "a", "m"]);
}

#[test]
fn sort_by_size_missing_last() {
    let mut v = vec![e("x", None, None), e("big", Some(30), None), e("small", Some(1), None), e("y", None, None), e("mid", Some(7), None)];
    EntryOrder::Size.sort(&mut v);
    assert_eq!(names(&v), vec!["small", "mid", "big", "x", "y"]);
    EntryOrder::SizeRev.sort(&mut v);
    assert_eq!(names(&v), vec!["big", "mid", "small", "x", "y"]);
}

#[test]
fn sort_by_modified_missing_last() {
    let mut v = vec![e("x", None, None), e("old", None, Some(10)), e("new", None, Some(99)), e("y", None, None)];
    EntryOrder::Modified.sort(&mut v);
    assert_eq!(names(&v), vec!["old", "new", "x", "y"]);
    EntryOrder::ModifiedRev.sort(&mut v);
    assert_eq!(names(&v), vec!["new", "old", "x", "y"]);
}

#[test]
fn sort_is_stable_on_equal_keys() {
    let mut v = vec![e("first", Some(5), None), e("second", Some(5), None), e("third", Some(1), None)];
    EntryOrder::Size.sort(&mut v);
    assert_eq!(names(&v), vec!["third", "first", "second"]);
}

#[test]
fn entry_filter_policy() {
    let t = Some(Timestamp { secs: 1, nanos: 0 });
    assert!(EntryMetadata::new(".hidden".to_string(), Some(EntryKind::File), Some(1), t, true, false).is_none());
    assert!(EntryMetadata::new(".hidden".to_string(), Some(EntryKind::File), Some(1), t, true, true).is_some());
    assert!(EntryMetadata::new("link".to_string(), Some(EntryKind::Symlink), None, None, false, true).is_none());
    assert!(EntryMetadata::new("link".to_string(), Some(EntryKind::Symlink), None, None, true, true).is_some());
    assert!(EntryMetadata::new("gone".to_string(), None, None, None, false, true).is_none());
    assert!(EntryMetadata::new("gone".to_string(), None, None, None, true, false).is_some());
    let kept = EntryMetadata::new("f".to_string(), Some(EntryKind::Dir), Some(4), t, false, false).unwrap();
    assert_eq!(kept.size, Some(4));
}

#[test]
fn listing_filters_and_sorts() {
    let mut hidden = e(".git", Some(1), None);
    hidden.typo = Some(EntryKind::Dir);
    let mut link = e("ln", Some(2), None);
    link.typo = Some(EntryKind::Symlink);
    let v = vec![e("b", Some(3), None), hidden, link, e("a", Some(9), None)];
    let out = EntryMetadata::listing(v, false, false, &EntryOrder::Name);
    assert_eq!(names(&out), vec!["a", "b"]);
}
