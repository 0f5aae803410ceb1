use searchllama::client::{chat_request, merge_entries, shown_entries, Searchllama};
use searchllama::messages::{chat_message, Entry, Fragment};

fn entry(url: &str, score: i64) -> Entry {
    Entry { score, url: url.to_string(), title: url.to_string(), description: String::new() }
}

#[test]
fn new_client_has_no_context() {
    let c = Searchllama::new("http://host:1");
    assert_eq!(c.api_url, "http://host:1");
    assert!(c.context.is_none());
    assert_eq!(c.endpoint("search"), "http://host:1/search");
}

#[test]
fn default_client_is_local() {
    let c = Searchllama::default();
    assert_eq!(c.endpoint("chat"), "http://127.0.0.1:3030/chat");
}

#[test]
fn chat_context_is_echoed() {
    let first = chat_request("hi", None);
    assert!(first.context.is_empty());
    let answer = chat_message(&vec![Fragment { response: "hello".to_string(), context: Some(vec![4, 5, 6]) }]);
    let c = answer.context.unwrap();
    let second = chat_request("and then?", Some(c.clone()));
    assert_eq!(second.message, "and then?");
    assert_eq!(second.context, vec![4, 5, 6]);
}

#[test]
fn merged_entries_are_keyed_by_url() {
    let mut board = vec![entry("a", 1), entry("b", 2)];
    merge_entries(&mut board, &vec![entry("c", 5), entry("a", 9), entry("c", 0)]);
    let urls: Vec<(String, i64)> = board.iter().map(|e| (e.url.clone(), e.score)).collect();
    assert_eq!(urls, vec![("a".to_string(), 9), ("b".to_string(), 2), ("c".to_string(), 0)]);
    let shown: Vec<String> = shown_entries(&board).iter().map(|e| e.url.clone()).collect();
    assert_eq!(shown, vec!["a", "b", "c"]);
}

#[test]
fn failed_fetch_leaves_other_entries() {
    // Only the pages that were fetched give an entry; the stream goes on.
    let mut board = Vec::new();
    merge_entries(&mut board, &vec![entry("http://one", 3)]);
    merge_entries(&mut board, &vec![entry("http://three", 4)]);
    assert_eq!(board.len(), 2);
}
