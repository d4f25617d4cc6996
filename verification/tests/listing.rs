use crawler::listing::{insert_sorted, slot_for, sort_dedup};
use crawler::urls::Url;

fn urls(raw: &[&str]) -> Vec<Url> {
    raw.iter().map(|r| Url::parse(r).unwrap()).collect()
}

fn strs(urls: &[Url]) -> Vec<&str> {
    urls.iter().map(|u| u.as_str()).collect()
}

#[test]
fn sort_dedup_sorts_and_drops_repetitions() {
    let sorted = sort_dedup(urls(&[
        "http://c.test/",
        "http://a.test/z",
        "http://c.test/",
        "http://b.test/",
        "http://a.test/",
        "http://a.test/z",
    ]));
    assert_eq!(
        strs(&sorted),
        vec!["http://a.test/", "http://a.test/z", "http://b.test/", "http://c.test/"]
    );
}

#[test]
fn sort_dedup_of_nothing_is_nothing() {
    assert!(sort_dedup(Vec::new()).is_empty());
}

#[test]
fn insert_sorted_keeps_the_order() {
    let mut list = urls(&["http://a.test/", "http://c.test/"]);
    assert!(insert_sorted(&mut list, Url::parse("http://b.test/").unwrap()));
    assert!(!insert_sorted(&mut list, Url::parse("http://c.test/").unwrap()));
    assert!(insert_sorted(&mut list, Url::parse("http://d.test/").unwrap()));
    assert!(insert_sorted(&mut list, Url::parse("http://0.test/").unwrap()));
    assert_eq!(
        strs(&list),
        vec!["http://0.test/", "http://a.test/", "http://b.test/", "http://c.test/", "http://d.test/"]
    );
}

#[test]
fn slot_for_finds_the_place() {
    let list = urls(&["http://a.test/", "http://c.test/"]);
    assert_eq!(slot_for(&list, &Url::parse("http://0.test/").unwrap()), (0, false));
    assert_eq!(slot_for(&list, &Url::parse("http://a.test/").unwrap()), (0, true));
    assert_eq!(slot_for(&list, &Url::parse("http://b.test/").unwrap()), (1, false));
    assert_eq!(slot_for(&list, &Url::parse("http://c.test/").unwrap()), (1, true));
    assert_eq!(slot_for(&list, &Url::parse("http://d.test/").unwrap()), (2, false));
}
