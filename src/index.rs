//! The embedding index's row format and the ranking of its rows.
//!
//! An embedding is held as the IEEE-754 bit patterns of its components and
//! stored as their little-endian bytes. A row stores its body embeddings as
//! one blob: the concatenation of `body_embedding_count` equally long
//! embeddings.
use crate::messages::{entry_in_limit, entry_key, entry_views, Entry, EntryView};
use crate::ranking::{insert_ranked, lemma_ranked_sorted, rank_all, ranked, sorted_by_key, Ranked};
use vstd::bytes::{
    lemma_auto_spec_u64_to_from_le_bytes, spec_u64_from_le_bytes, spec_u64_to_le_bytes,
    u64_from_le_bytes, u64_to_le_bytes,
};
use crate::scoring::{calculate_entry_similarity, entry_score, similarity_in_range};
use vstd::prelude::*;
use vstd::slice::slice_subrange;

verus! {

/// The little-endian bytes of an embedding.
pub open spec fn embedding_bytes(e: Seq<u64>) -> Seq<u8>
    decreases e.len(),
{
    if e.len() == 0 {
        seq![]
    } else {
        embedding_bytes(e.drop_last()) + spec_u64_to_le_bytes(e.last())
    }
}

/// The embedding whose little-endian bytes these are (a trailing partial
/// component is ignored).
pub open spec fn bytes_embedding(b: Seq<u8>) -> Seq<u64> {
    Seq::new(b.len() / 8, |i: int| spec_u64_from_le_bytes(b.subrange(8 * i, 8 * i + 8)))
}

/// The blob of a list of body embeddings.
pub open spec fn body_blob(bes: Seq<Seq<u64>>) -> Seq<u8>
    decreases bes.len(),
{
    if bes.len() == 0 {
        seq![]
    } else {
        body_blob(bes.drop_last()) + embedding_bytes(bes.last())
    }
}

/// Whether a row's stored sizes fit together: the title embedding is whole
/// components, there is at least one body embedding, and the blob splits
/// into `count` equal, non-empty parts of whole components.
pub open spec fn sizes_consistent(title: Seq<u8>, count: int, blob: Seq<u8>) -> bool {
    &&& title.len() as int % 8 == 0
    &&& count > 0
    &&& blob.len() as int % count == 0
    &&& blob.len() as int / count > 0
    &&& (blob.len() as int / count) % 8 == 0
}

/// The body embeddings of a blob split into `count` equal parts.
pub open spec fn split_blob(blob: Seq<u8>, count: int) -> Seq<Seq<u64>> {
    let part = blob.len() as int / count;
    Seq::new(count as nat, |i: int| bytes_embedding(blob.subrange(i * part, i * part + part)))
}

/// The views of a list of embeddings.
pub open spec fn embedding_views(v: Seq<Vec<u64>>) -> Seq<Seq<u64>> {
    v.map_values(|e: Vec<u64>| e@)
}

/// One row of the index.
#[derive(Clone, Debug)]
pub struct IndexRow {
    pub url: String,
    pub title: String,
    pub title_embedding: Vec<u8>,
    pub body_embedding_count: i64,
    pub body_embeddings: Vec<u8>,
    pub summary: String,
}

/// The embeddings a row holds, read back.
#[derive(Clone, Debug)]
pub struct RowEmbeddings {
    pub title_embedding: Vec<u64>,
    pub body_embeddings: Vec<Vec<u64>>,
}

proof fn lemma_embedding_bytes_len(e: Seq<u64>)
    ensures
        embedding_bytes(e).len() == 8 * e.len(),
    decreases e.len(),
{
    lemma_auto_spec_u64_to_from_le_bytes();
    if e.len() > 0 {
        lemma_embedding_bytes_len(e.drop_last());
    }
}

proof fn lemma_body_blob_len(bes: Seq<Seq<u64>>, d: int)
    requires
        forall|i: int| 0 <= i < bes.len() ==> (#[trigger] bes[i]).len() == d,
    ensures
        body_blob(bes).len() == bes.len() * (8 * d),
    decreases bes.len(),
{
    if bes.len() > 0 {
        let init = bes.drop_last();
        assert forall|i: int| 0 <= i < init.len() implies (#[trigger] init[i]).len() == d by {
            assert(init[i] == bes[i]);
        }
        lemma_body_blob_len(init, d);
        lemma_embedding_bytes_len(bes.last());
        assert(bes.last() == bes[bes.len() - 1]);
        assert(bes.len() * (8 * d) == init.len() * (8 * d) + 8 * d) by (nonlinear_arith)
            requires
                bes.len() == init.len() + 1,
        ;
    }
}

proof fn lemma_embedding_round_trip(e: Seq<u64>)
    ensures
        bytes_embedding(embedding_bytes(e)) == e,
    decreases e.len(),
{
    lemma_auto_spec_u64_to_from_le_bytes();
    lemma_embedding_bytes_len(e);
    if e.len() > 0 {
        let init = e.drop_last();
        lemma_embedding_round_trip(init);
        lemma_embedding_bytes_len(init);
        let b = embedding_bytes(e);
        let bi = embedding_bytes(init);
        assert(b == bi + spec_u64_to_le_bytes(e.last()));
        assert forall|i: int| 0 <= i < e.len() implies #[trigger] spec_u64_from_le_bytes(
            b.subrange(8 * i, 8 * i + 8),
        ) == e[i] by {
            if i < init.len() {
                assert(b.subrange(8 * i, 8 * i + 8) == bi.subrange(8 * i, 8 * i + 8));
                assert(bytes_embedding(bi)[i] == init[i]);
            } else {
                assert(b.subrange(8 * i, 8 * i + 8) == spec_u64_to_le_bytes(e.last()));
            }
        }
        assert(bytes_embedding(b) =~= e);
    }
}

proof fn lemma_body_blob_parts(bes: Seq<Seq<u64>>, d: int)
    requires
        d > 0,
        forall|i: int| 0 <= i < bes.len() ==> (#[trigger] bes[i]).len() == d,
    ensures
        forall|i: int|
            0 <= i < bes.len() ==> #[trigger] body_blob(bes).subrange(i * (8 * d), i * (8 * d) + 8
                * d) == embedding_bytes(bes[i]),
    decreases bes.len(),
{
    if bes.len() > 0 {
        let init = bes.drop_last();
        assert forall|i: int| 0 <= i < init.len() implies (#[trigger] init[i]).len() == d by {
            assert(init[i] == bes[i]);
        }
        lemma_body_blob_parts(init, d);
        lemma_body_blob_len(init, d);
        lemma_embedding_bytes_len(bes.last());
        assert(bes.last() == bes[bes.len() - 1]);
        let b = body_blob(bes);
        let bi = body_blob(init);
        assert forall|i: int|
            0 <= i < bes.len() implies #[trigger] b.subrange(i * (8 * d), i * (8 * d) + 8 * d)
            == embedding_bytes(bes[i]) by {
            if i < init.len() {
                assert(i * (8 * d) + 8 * d <= init.len() * (8 * d)) by (nonlinear_arith)
                    requires
                        i < init.len(),
                        d > 0,
                ;
                assert(0 <= i * (8 * d)) by (nonlinear_arith)
                    requires
                        i >= 0,
                        d > 0,
                ;
                assert(b.subrange(i * (8 * d), i * (8 * d) + 8 * d) == bi.subrange(
                    i * (8 * d),
                    i * (8 * d) + 8 * d,
                ));
                assert(init[i] == bes[i]);
            } else {
                assert(i * (8 * d) == init.len() * (8 * d));
                assert(b.subrange(i * (8 * d), i * (8 * d) + 8 * d) =~= embedding_bytes(
                    bes.last(),
                ));
            }
        }
    }
}

/// What an upserted row gives back on a scan: the row's sizes are
/// consistent, and the title embedding and the body embeddings read back are
/// those stored, when there is at least one body embedding and all have the
/// same, non-zero, dimension.
pub proof fn lemma_index_round_trip(title_embedding: Seq<u64>, body_embeddings: Seq<Seq<u64>>)
    requires
        body_embeddings.len() > 0,
        body_embeddings[0].len() > 0,
        forall|i: int|
            0 <= i < body_embeddings.len() ==> (#[trigger] body_embeddings[i]).len()
                == body_embeddings[0].len(),
    ensures
        sizes_consistent(
            embedding_bytes(title_embedding),
            body_embeddings.len() as int,
            body_blob(body_embeddings),
        ),
        bytes_embedding(embedding_bytes(title_embedding)) == title_embedding,
        split_blob(body_blob(body_embeddings), body_embeddings.len() as int) == body_embeddings,
{
    let d = body_embeddings[0].len() as int;
    let n = body_embeddings.len() as int;
    lemma_embedding_bytes_len(title_embedding);
    lemma_embedding_round_trip(title_embedding);
    lemma_body_blob_len(body_embeddings, d);
    lemma_body_blob_parts(body_embeddings, d);
    let blob = body_blob(body_embeddings);
    assert(blob.len() == n * (8 * d));
    assert(blob.len() as int / n == 8 * d && blob.len() as int % n == 0) by (nonlinear_arith)
        requires
            blob.len() == n * (8 * d),
            n > 0,
    ;
    let parts = split_blob(blob, n);
    assert forall|i: int| 0 <= i < n implies #[trigger] parts[i] == body_embeddings[i] by {
        lemma_embedding_round_trip(body_embeddings[i]);
    }
    assert(parts =~= body_embeddings);
}

/// The little-endian bytes of an embedding.
pub fn encode_embedding(e: &Vec<u64>) -> (r: Vec<u8>)
    ensures
        r@ == embedding_bytes(e@),
{
    let mut r: Vec<u8> = Vec::new();
    for i in 0..e.len()
        invariant
            r@ == embedding_bytes(e@.take(i as int)),
    {
        proof {
            let t = e@.take(i + 1);
            assert(t.drop_last() == e@.take(i as int));
            assert(t.last() == e@[i as int]);
        }
        let mut b = u64_to_le_bytes(e[i]);
        r.append(&mut b);
    }
    assert(e@.take(e.len() as int) == e@);
    r
}

/// The embedding stored in these bytes; `None` when they are not whole
/// components.
pub fn decode_embedding(b: &[u8]) -> (r: Option<Vec<u64>>)
    ensures
        r is Some <==> b@.len() % 8 == 0,
        r matches Some(e) ==> e@ == bytes_embedding(b@),
{
    if b.len() % 8 != 0 {
        return None;
    }
    let n = b.len() / 8;
    let mut e: Vec<u64> = Vec::new();
    for i in 0..n
        invariant
            n == b@.len() / 8,
            8 * n <= b@.len(),
            n <= usize::MAX / 8,
            e@ =~= bytes_embedding(b@).take(i as int),
    {
        assert(8 * i + 8 <= 8 * n);
        let x = u64_from_le_bytes(slice_subrange(b, 8 * i, 8 * i + 8));
        e.push(x);
    }
    Some(e)
}

impl IndexRow {
    /// The row that stores a page: its URL, title, description, and the
    /// bytes of its title embedding and of its body embeddings.
    pub fn new(
        url: String,
        title: String,
        summary: String,
        title_embedding: &Vec<u64>,
        body_embeddings: &Vec<Vec<u64>>,
    ) -> (r: IndexRow)
        requires
            body_embeddings.len() <= i64::MAX,
        ensures
            r.url == url,
            r.title == title,
            r.summary == summary,
            r.title_embedding@ == embedding_bytes(title_embedding@),
            r.body_embedding_count == body_embeddings.len(),
            r.body_embeddings@ == body_blob(embedding_views(body_embeddings@)),
    {
        let ghost bes = embedding_views(body_embeddings@);
        let mut blob: Vec<u8> = Vec::new();
        for i in 0..body_embeddings.len()
            invariant
                bes == embedding_views(body_embeddings@),
                blob@ == body_blob(bes.take(i as int)),
        {
            proof {
                let t = bes.take(i + 1);
                assert(t.drop_last() == bes.take(i as int));
                assert(t.last() == body_embeddings@[i as int]@);
            }
            let mut b = encode_embedding(&body_embeddings[i]);
            blob.append(&mut b);
        }
        assert(bes.take(body_embeddings.len() as int) == bes);
        IndexRow {
            url,
            title,
            title_embedding: encode_embedding(title_embedding),
            body_embedding_count: body_embeddings.len() as i64,
            body_embeddings: blob,
            summary,
        }
    }

    /// Reads the row's embeddings back; `None` when its sizes are not
    /// consistent, and such a row is skipped.
    pub fn embeddings(&self) -> (r: Option<RowEmbeddings>)
        ensures
            r is Some <==> sizes_consistent(
                self.title_embedding@,
                self.body_embedding_count as int,
                self.body_embeddings@,
            ),
            r matches Some(re) ==> re.title_embedding@ == bytes_embedding(self.title_embedding@)
                && embedding_views(re.body_embeddings@) == split_blob(
                self.body_embeddings@,
                self.body_embedding_count as int,
            ),
    {
        let count = self.body_embedding_count;
        let len = self.body_embeddings.len();
        if count <= 0 || count as u64 > len as u64 {
            proof {
                if count > 0 {
                    let l = self.body_embeddings@.len() as int;
                    assert(l / (count as int) == 0) by (nonlinear_arith)
                        requires
                            0 <= l < count,
                    ;
                }
            }
            return None;
        }
        let c = count as usize;
        if len % c != 0 || (len / c) % 8 != 0 {
            return None;
        }
        let title_embedding = match decode_embedding(self.title_embedding.as_slice()) {
            Some(t) => t,
            None => {
                return None;
            },
        };
        let part = len / c;
        assert(part > 0) by (nonlinear_arith)
            requires
                part == len / c,
                c <= len,
                c > 0,
        ;
        let ghost blob = self.body_embeddings@;
        let mut body: Vec<Vec<u64>> = Vec::new();
        assert(embedding_views(body@) =~= split_blob(blob, c as int).take(0));
        let mut offset: usize = 0;
        let mut i: usize = 0;
        while i < c
            invariant
                i <= c,
                part == len / c,
                len == blob.len(),
                blob == self.body_embeddings@,
                c == count,
                len % c == 0,
                part % 8 == 0,
                offset == i * part,
                embedding_views(body@) =~= split_blob(blob, c as int).take(i as int),
            decreases c - i,
        {
            assert(offset + part <= len) by (nonlinear_arith)
                requires
                    offset == i * part,
                    i < c,
                    part == len / c,
                    len % c == 0,
                    c > 0,
            ;
            let piece = slice_subrange(self.body_embeddings.as_slice(), offset, offset + part);
            let e = decode_embedding(piece).unwrap();
            let ghost before = embedding_views(body@);
            body.push(e);
            assert(embedding_views(body@) =~= before.push(e@));
            offset = offset + part;
            assert(offset == (i + 1) * part) by (nonlinear_arith)
                requires
                    offset == i * part + part,
            ;
            i = i + 1;
        }
        assert(split_blob(blob, c as int).take(c as int) =~= split_blob(blob, c as int));
        Some(RowEmbeddings { title_embedding, body_embeddings: body })
    }
}

/// The scan entry of a row, given the similarities of its body embeddings
/// and of its title embedding to the query; `None` when the row has no
/// body embedding, and such a row is skipped.
pub fn scored_row(row: IndexRow, body_similarities: &Vec<Option<i64>>, title_similarity: Option<i64>) -> (r: Option<Entry>)
    requires
        forall|i: int| 0 <= i < body_similarities.len() ==> similarity_in_range(#[trigger] body_similarities@[i]),
        similarity_in_range(title_similarity),
    ensures
        r is None <==> body_similarities.len() == 0,
        r matches Some(e) ==> e.url == row.url && e.title == row.title && e.description == row.summary
            && entry_score(body_similarities@, title_similarity) == Some(e.score as int),
{
    match calculate_entry_similarity(body_similarities, title_similarity) {
        Some(score) => Some(Entry { score, url: row.url, title: row.title, description: row.summary }),
        None => None,
    }
}

/// The scan result: the rows within the score limit, ranked by descending
/// score, rows of equal score in scan order.
pub open spec fn scan_ranking(rows: Seq<EntryView>) -> Seq<EntryView> {
    ranked(rows.filter(entry_in_limit()), entry_key())
}

/// Ranks scored rows for a scan: drops those whose score is out of the
/// trustworthy range and sorts the rest by descending score.
pub fn rank_rows(rows: &Vec<Entry>) -> (r: Vec<Entry>)
    ensures
        entry_views(r@) == scan_ranking(entry_views(rows@)),
        sorted_by_key(entry_views(r@), entry_key()),
{
    let ghost all = entry_views(rows@);
    let mut r: Vec<Entry> = Vec::new();
    for i in 0..rows.len()
        invariant
            all == entry_views(rows@),
            entry_views(r@) == ranked(all.take(i as int).filter(entry_in_limit()), entry_key()),
    {
        proof {
            let t = all.take(i + 1);
            assert(t.drop_last() == all.take(i as int));
            assert(t.last() == rows@[i as int]@);
            reveal_with_fuel(Seq::filter, 1);
        }
        if crate::scoring::score_within_limit(rows[i].score) {
            let ghost f = all.take(i as int).filter(entry_in_limit());
            assert(f.push(rows@[i as int]@).drop_last() == f);
            insert_ranked(&mut r, rows[i].duplicate());
        }
    }
    assert(all.take(rows.len() as int) == all);
    proof {
        lemma_ranked_sorted(all.filter(entry_in_limit()), entry_key());
    }
    r
}

/// Ranks entries by descending score; entries of equal score keep their order.
pub fn rank_entries(entries: &Vec<Entry>) -> (r: Vec<Entry>)
    ensures
        entry_views(r@) == ranked(entry_views(entries@), entry_key()),
{
    rank_all(entries)
}

} // verus!
