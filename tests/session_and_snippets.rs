use searchllama::embedding::{filter_images, LargeEmbedding, WebsiteEmbedding};
use searchllama::messages::{chat_message, summary_message, Fragment};
use searchllama::prompts::{
    cached_candidates, query_embedding_input, query_embedding_input_now, related_queries_prompt,
    results_cap, sub_queries, summary_prompt, summary_prompt_now,
};
use searchllama::session::{SearchSession, SessionEvent, SNIPPET_NUMBER};
use searchllama::snippet::{best_chunk_index, best_snippet_of, rank_snippets, Narrowing, SnippetInfo};
use searchllama::messages::Entry;

fn snippet(title: &str, score: i64) -> SnippetInfo {
    SnippetInfo {
        embedding: vec![],
        text: format!("text of {}", title),
        score,
        images: vec![],
        title: Some(title.to_string()),
        url: Some(format!("http://{}", title)),
    }
}

fn titles(v: &[SnippetInfo]) -> Vec<String> {
    v.iter().map(|s| s.title.clone().unwrap()).collect()
}

#[test]
fn best_chunk_is_first_maximum() {
    assert_eq!(best_chunk_index(&vec![3, 9, 2, 9]), Some(1));
    assert_eq!(best_chunk_index(&vec![-4]), Some(0));
    assert_eq!(best_chunk_index(&vec![]), None);
}

#[test]
fn best_snippet_takes_best_chunk_and_images() {
    let texts = vec!["a".to_string(), "b".to_string()];
    let embs = vec![vec![1u64], vec![2u64]];
    let images = vec![("http://i".to_string(), "alt".to_string())];
    let s = best_snippet_of(&texts, &embs, &vec![10, 20], &images).unwrap();
    assert_eq!(s.text, "b");
    assert_eq!(s.embedding, vec![2u64]);
    assert_eq!(s.score, 20);
    assert_eq!(s.images, images);
    assert!(s.title.is_none() && s.url.is_none());
    assert!(best_snippet_of(&vec![], &vec![], &vec![], &images).is_none());
}

#[test]
fn narrowing_halves_until_short() {
    let mut n = Narrowing::new(snippet("p", 1));
    n.snippet.text = "x".repeat(600);
    assert_eq!(n.next_chunk_size(), Some(512));
    let texts = n.cut();
    assert_eq!(texts, vec!["x".repeat(512), "x".repeat(88)]);
    n.narrow(&texts, &vec![vec![], vec![7]], &vec![5, 6]);
    assert_eq!(n.chunk_size, 256);
    assert_eq!(n.snippet.text, "x".repeat(88));
    assert_eq!(n.snippet.embedding, vec![7u64]);
    assert_eq!(n.snippet.score, 6);
    assert_eq!(n.snippet.title.as_deref(), Some("p"));
    assert_eq!(n.next_chunk_size(), None);
}

#[test]
fn narrowing_ends_under_target_size() {
    let page_text = "\u{1F600}".repeat(300) + " tail words here";
    let mut n = Narrowing::new(snippet("p", 1));
    n.snippet.text = page_text.clone();
    let mut sizes = Vec::new();
    while let Some(size) = n.next_chunk_size() {
        sizes.push(size);
        let texts = n.cut();
        let sims: Vec<i64> = texts.iter().map(|_| 0).collect();
        let embs: Vec<Vec<u64>> = texts.iter().map(|_| vec![]).collect();
        n.narrow(&texts, &embs, &sims);
        assert!(!n.snippet.text.is_empty());
        assert!(page_text.contains(&n.snippet.text));
    }
    assert_eq!(sizes, vec![512, 256, 128, 64]);
    assert!(n.snippet.text.len() < 512);
}

#[test]
fn narrowing_of_empty_text() {
    let mut n = Narrowing::new(snippet("p", 1));
    n.snippet.text = String::new();
    assert_eq!(n.next_chunk_size(), None);
    assert!(n.cut().is_empty());
    n.narrow(&vec![], &vec![], &vec![]);
    assert_eq!(n.chunk_size, 256);
    assert_eq!(n.snippet.text, "");
}

#[test]
fn rank_snippets_is_stable_descending() {
    let r = rank_snippets(&vec![snippet("a", 1), snippet("b", 5), snippet("c", 1), snippet("d", 9)]);
    assert_eq!(titles(&r), vec!["d", "b", "a", "c"]);
}

#[test]
fn two_confident_sources_launch_one_summary() {
    let mut s = SearchSession::new(true);
    let first = s.step(SessionEvent::Snippet(snippet("t1", 900_000_000)));
    assert_eq!(titles(&first.unwrap()), vec!["t1"]);
    assert!(!s.need_to_respond());
    assert!(s.step(SessionEvent::Snippet(snippet("t2", 900_000_000))).is_none());
    assert!(s.step(SessionEvent::WorkerDone).is_none());
    assert_eq!(titles(&s.best_snippets()), vec!["t1", "t2"]);
}

#[test]
fn low_confidence_summary_waits_for_worker() {
    let mut s = SearchSession::new(true);
    assert!(s.step(SessionEvent::Snippet(snippet("t", 400_000_000))).is_none());
    assert!(s.need_to_respond());
    let launched = s.step(SessionEvent::WorkerDone).unwrap();
    assert_eq!(titles(&launched), vec!["t"]);
    assert!(s.step(SessionEvent::WorkerDone).is_none());
}

#[test]
fn worker_done_launches_even_without_snippets() {
    let mut s = SearchSession::new(true);
    let launched = s.step(SessionEvent::WorkerDone).unwrap();
    assert!(launched.is_empty());
}

#[test]
fn no_summary_when_not_wanted() {
    let mut s = SearchSession::new(false);
    assert!(!s.wants_snippets());
    assert!(s.step(SessionEvent::Snippet(snippet("t", 1_000_000_000))).is_none());
    assert!(s.step(SessionEvent::WorkerDone).is_none());
    assert!(s.need_to_respond());
}

#[test]
fn gate_opens_when_mean_crosses() {
    let mut s = SearchSession::new(true);
    assert!(s.step(SessionEvent::Snippet(snippet("a", 700_000_000))).is_none());
    assert!(s.step(SessionEvent::Snippet(snippet("b", 740_000_000))).is_none());
    // mean of 0.70 and 0.74 is exactly 0.72: not above
    let launched = s.step(SessionEvent::Snippet(snippet("c", 730_000_000))).unwrap();
    assert_eq!(titles(&launched), vec!["b", "c", "a"]);
}

#[test]
fn cached_snippets_can_launch_early() {
    let mut s = SearchSession::new(true);
    let launched = s
        .step(SessionEvent::CachedSnippets(vec![snippet("a", 800_000_000), snippet("b", 900_000_000)]))
        .unwrap();
    assert_eq!(titles(&launched), vec!["b", "a"]);
    assert!(s.step(SessionEvent::Snippet(snippet("c", 1_000_000_000))).is_none());
}

#[test]
fn cached_snippets_of_empty_cache_do_not_launch() {
    let mut s = SearchSession::new(true);
    assert!(s.step(SessionEvent::CachedSnippets(vec![])).is_none());
    assert!(s.need_to_respond());
}

#[test]
fn at_most_one_summary_over_many_events() {
    let mut s = SearchSession::new(true);
    let mut launches = 0;
    for i in 0..30i64 {
        let ev = if i % 7 == 6 {
            SessionEvent::WorkerDone
        } else {
            SessionEvent::Snippet(snippet(&format!("s{}", i), (i % 5) * 300_000_000))
        };
        if s.step(ev).is_some() {
            launches += 1;
        }
    }
    assert_eq!(launches, 1);
    assert_eq!(s.best_snippets().len(), SNIPPET_NUMBER);
}

#[test]
fn kept_snippets_are_capped_and_ranked() {
    let mut s = SearchSession::new(false);
    for i in 0..15i64 {
        s.step(SessionEvent::Snippet(snippet(&format!("s{}", i), i % 4)));
    }
    let kept = s.best_snippets();
    assert_eq!(kept.len(), 10);
    let scores: Vec<i64> = kept.iter().map(|k| k.score).collect();
    assert_eq!(scores, vec![3, 3, 3, 2, 2, 2, 2, 1, 1, 1]);
    assert_eq!(titles(&kept)[0..3].to_vec(), vec!["s3", "s7", "s11"]);
}

#[test]
fn summary_prompt_quotes_sources() {
    let mut untitled = snippet("x", 1);
    untitled.title = None;
    untitled.url = None;
    let p = summary_prompt(&vec![snippet("t1", 1), untitled], "NOW", "why?");
    assert_eq!(
        p,
        "Sources:\n\"From \"t1\" ![](http://t1):\n\"text of t1\"\n\nFrom \"Unknown\" ![](Unknown):\n\"text of x\"\"\n\n\nlocal current time: NOW\n\n\nAnswer this question: 'why?'."
    );
}

#[test]
fn summary_prompt_now_holds_question_and_titles() {
    let p = summary_prompt_now(&vec![snippet("t1", 1), snippet("t2", 1)], "what?");
    assert!(p.starts_with("Sources:\n\"From \"t1\""));
    assert!(p.contains("From \"t2\""));
    assert!(p.ends_with("Answer this question: 'what?'."));
}

#[test]
fn query_embedding_text() {
    assert_eq!(query_embedding_input("Foo", "2024-01-01T00:00:00+00:00"), "Foo (2024-01-01T00:00:00+00:00)");
    let now = query_embedding_input_now("Foo");
    assert!(now.starts_with("Foo (") && now.ends_with(")") && now.len() > 7);
}

#[test]
fn fan_out_queries_and_caps() {
    let q = sub_queries("main", vec!["alt 1".to_string(), "alt 2".to_string()]);
    assert_eq!(q, vec!["main".to_string(), "alt 1".to_string(), "alt 2".to_string()]);
    assert_eq!(results_cap(0), 10);
    assert_eq!(results_cap(1), 3);
    assert_eq!(results_cap(7), 3);
    assert_eq!(related_queries_prompt("cats"), "Generate search queries for: cats");
}

#[test]
fn cached_candidates_take_top_ten() {
    let rows: Vec<Entry> = (0..12)
        .map(|i| Entry { score: 0, url: format!("u{}", i), title: format!("t{}", i), description: String::new() })
        .collect();
    let (urls, titles) = cached_candidates(&rows);
    assert_eq!(urls.len(), 10);
    assert_eq!(urls[9], "u9");
    assert_eq!(titles[0], "t0");
}

#[test]
fn summary_and_chat_messages_join_fragments() {
    let fs = vec![
        Fragment { response: "Hel".to_string(), context: None },
        Fragment { response: "lo".to_string(), context: Some(vec![1, 2]) },
        Fragment { response: "!".to_string(), context: Some(vec![3]) },
        Fragment { response: "".to_string(), context: None },
    ];
    let m = summary_message(&fs);
    assert!(m.results.is_empty());
    assert_eq!(m.summary, "Hello!");
    assert_eq!(m.summary_context, Some(vec![3]));
    let c = chat_message(&fs[..2].to_vec());
    assert_eq!(c.response, "Hello");
    assert_eq!(c.context, Some(vec![1, 2]));
    let none = chat_message(&vec![Fragment { response: "x".to_string(), context: None }]);
    assert!(none.context.is_none());
}

#[test]
fn images_are_filtered() {
    let long = format!("http://{}", "a".repeat(250));
    let raw = vec![
        ("http://ok".to_string(), Some("fine".to_string())),
        ("ftp://no".to_string(), Some("scheme".to_string())),
        ("http://noalt".to_string(), None),
        ("http://emptyalt".to_string(), Some(String::new())),
        (long, Some("too long".to_string())),
        ("".to_string(), Some("empty".to_string())),
        ("https://ok2".to_string(), Some("é".repeat(255))),
        ("https://bad2".to_string(), Some("é".repeat(256))),
        ("http".to_string(), Some("é".repeat(200))),
    ];
    let kept = filter_images(&raw);
    assert_eq!(
        kept,
        vec![
            ("http://ok".to_string(), "fine".to_string()),
            ("https://ok2".to_string(), "é".repeat(255)),
            ("http".to_string(), "é".repeat(200)),
        ]
    );
}

#[test]
fn website_embedding_keeps_page() {
    let page = LargeEmbedding { embeddings: vec![vec![1u64]], texts: vec!["t".to_string()] };
    let w = WebsiteEmbedding::new("http://p".to_string(), page, &vec![("http://i".to_string(), Some("a".to_string()))]);
    assert_eq!(w.url, "http://p");
    assert_eq!(w.link, "http://p");
    assert_eq!(w.texts, vec!["t".to_string()]);
    assert_eq!(w.images.len(), 1);
}
