use searchllama::index::{decode_embedding, encode_embedding, rank_entries, rank_rows, IndexRow};
use searchllama::messages::{entry_message, seed_message, Entry, MAX_ENTRIES};
use searchllama::scoring::{calculate_entry_similarity, score_within_limit, SCORE_UNIT};

fn bits(v: &[f64]) -> Vec<u64> {
    v.iter().map(|x| x.to_bits()).collect()
}

fn entry(url: &str, score: i64) -> Entry {
    Entry { score, url: url.to_string(), title: format!("t{}", url), description: String::new() }
}

#[test]
fn entry_score_adds_three_tenths_of_title() {
    let r = calculate_entry_similarity(&vec![Some(SCORE_UNIT)], Some(SCORE_UNIT));
    assert_eq!(r, Some(1_300_000_000));
}

#[test]
fn entry_score_takes_best_body_chunk() {
    let r = calculate_entry_similarity(&vec![Some(200_000_000), Some(900_000_000), Some(-5)], Some(0));
    assert_eq!(r, Some(900_000_000));
}

#[test]
fn entry_score_undefined_counts_minus_ten() {
    let r = calculate_entry_similarity(&vec![None], None);
    assert_eq!(r, Some(-13_000_000_000));
}

#[test]
fn entry_score_rounds_title_share_down() {
    let r = calculate_entry_similarity(&vec![Some(0)], Some(-1));
    assert_eq!(r, Some(-1));
    let r = calculate_entry_similarity(&vec![Some(0)], Some(1));
    assert_eq!(r, Some(0));
}

#[test]
fn entry_score_without_body() {
    assert_eq!(calculate_entry_similarity(&vec![], Some(SCORE_UNIT)), None);
}

#[test]
fn score_limit_is_ten() {
    assert!(score_within_limit(10_000_000_000));
    assert!(score_within_limit(-10_000_000_000));
    assert!(!score_within_limit(10_000_000_001));
    assert!(!score_within_limit(-10_000_000_001));
}

#[test]
fn entry_message_drops_corrupt_scores() {
    assert!(entry_message(entry("u", 10_000_000_001)).is_none());
    assert!(entry_message(entry("u", -13_000_000_000)).is_none());
    let m = entry_message(entry("u", 1_300_000_000)).unwrap();
    assert_eq!(m.results.len(), 1);
    assert_eq!(m.results[0].url, "u");
    assert_eq!(m.summary, "");
    assert!(m.summary_context.is_none());
}

#[test]
fn embedding_bytes_are_little_endian() {
    let b = encode_embedding(&vec![1u64, 0x0102030405060708]);
    assert_eq!(b, vec![1, 0, 0, 0, 0, 0, 0, 0, 8, 7, 6, 5, 4, 3, 2, 1]);
    assert_eq!(decode_embedding(&b), Some(vec![1u64, 0x0102030405060708]));
    assert_eq!(decode_embedding(&b[..7]), None);
}

#[test]
fn index_row_round_trip() {
    let te = bits(&[0.5, -1.0]);
    let bes = vec![bits(&[1.0, 0.0]), bits(&[0.25, 2.0]), bits(&[3.0, 4.0])];
    let row = IndexRow::new("http://a".into(), "Foo".into(), "Foo page".into(), &te, &bes);
    assert_eq!(row.body_embedding_count, 3);
    assert_eq!(row.body_embeddings.len(), 48);
    let back = row.embeddings().unwrap();
    assert_eq!(back.title_embedding, te);
    assert_eq!(back.body_embeddings, bes);
}

#[test]
fn index_row_inconsistent_sizes_are_skipped() {
    let te = bits(&[1.0]);
    let bes = vec![bits(&[1.0, 0.0])];
    let mut row = IndexRow::new("u".into(), "t".into(), "d".into(), &te, &bes);
    row.body_embedding_count = 3;
    assert!(row.embeddings().is_none());
    row.body_embedding_count = 0;
    assert!(row.embeddings().is_none());
    row.body_embedding_count = -1;
    assert!(row.embeddings().is_none());
    row.body_embedding_count = 1;
    row.title_embedding.pop();
    assert!(row.embeddings().is_none());
    let empty = IndexRow::new("u".into(), "t".into(), "d".into(), &te, &vec![]);
    assert!(empty.embeddings().is_none());
}

#[test]
fn cache_only_seed_message() {
    // One cached page whose title and body match the query exactly.
    let te = bits(&[1.0, 0.0]);
    let bes = vec![bits(&[1.0, 0.0])];
    let row = IndexRow::new("http://a".into(), "Foo".into(), "Foo page".into(), &te, &bes);
    let back = row.embeddings().unwrap();
    let q = [1.0f64, 0.0];
    let cos = |e: &Vec<u64>| {
        let v: Vec<f64> = e.iter().map(|b| f64::from_bits(*b)).collect();
        let dot: f64 = v.iter().zip(q.iter()).map(|(a, b)| a * b).sum();
        let na: f64 = v.iter().map(|a| a * a).sum::<f64>().sqrt();
        let nb: f64 = q.iter().map(|a| a * a).sum::<f64>().sqrt();
        Some((dot / (na * nb) * SCORE_UNIT as f64).round() as i64)
    };
    let body: Vec<Option<i64>> = back.body_embeddings.iter().map(cos).collect();
    let score = calculate_entry_similarity(&body, cos(&back.title_embedding)).unwrap();
    assert_eq!(score, 1_300_000_000);
    let rows = rank_rows(&vec![Entry {
        score,
        url: row.url.clone(),
        title: row.title.clone(),
        description: row.summary.clone(),
    }]);
    let m = seed_message(&rows);
    assert_eq!(m.results.len(), 1);
    assert_eq!(m.results[0].url, "http://a");
    assert_eq!(m.results[0].score, 1_300_000_000);
    assert_eq!(m.summary, "");
}

#[test]
fn rank_rows_filters_and_sorts_stably() {
    let rows = vec![
        entry("a", 5),
        entry("b", 20_000_000_000),
        entry("c", 7),
        entry("d", 5),
        entry("e", -11_000_000_000),
    ];
    let r = rank_rows(&rows);
    let urls: Vec<&str> = r.iter().map(|e| e.url.as_str()).collect();
    assert_eq!(urls, vec!["c", "a", "d"]);
}

#[test]
fn rank_entries_keeps_all() {
    let r = rank_entries(&vec![entry("a", 1), entry("b", 3), entry("c", 1)]);
    let urls: Vec<&str> = r.iter().map(|e| e.url.as_str()).collect();
    assert_eq!(urls, vec!["b", "a", "c"]);
}

#[test]
fn seed_message_holds_at_most_fifty() {
    let rows: Vec<Entry> = (0..60).map(|i| entry(&format!("u{}", i), 60 - i)).collect();
    let m = seed_message(&rows);
    assert_eq!(m.results.len(), MAX_ENTRIES);
    assert_eq!(m.results[0].url, "u0");
    assert_eq!(m.results[49].url, "u49");
}

#[test]
fn seed_message_of_empty_index() {
    assert!(seed_message(&vec![]).results.is_empty());
}
