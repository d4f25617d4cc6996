use crawler::frontier::Frontier;
use crawler::urls::Url;

fn url(raw: &str) -> Url {
    Url::parse(raw).unwrap()
}

#[test]
fn frontier_starts_empty() {
    let frontier = Frontier::new();
    assert_eq!(frontier.len(), 0);
    assert!(!frontier.contains(&url("http://root.test/")));
}

#[test]
fn frontier_admits_each_url_once() {
    let mut frontier = Frontier::new();
    assert!(frontier.insert(&url("http://root.test/")));
    assert!(frontier.insert(&url("http://root.test/a")));
    assert!(!frontier.insert(&url("http://ROOT.test")));
    assert!(!frontier.insert(&url("http://root.test/b/../a")));
    assert_eq!(frontier.len(), 2);
    assert!(frontier.contains(&url("http://root.test/")));
    assert!(frontier.contains(&url("http://root.test/a")));
    assert!(!frontier.contains(&url("http://root.test/b")));
    assert!(!frontier.contains(&url("http://root.test/a#part")));
}
