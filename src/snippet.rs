//! Snippets: the best-matching piece of a page for a query, and their ranking.
use vstd::prelude::*;
use vstd::utf8::encode_utf8;
use crate::text::{lemma_chunk_coverage, split_into_chunks, string_views, text_chunks};
use crate::ranking::{key_fn, rank_all, ranked, views_of, Ranked};

verus! {

/// Number of characters per chunk when a page is first embedded.
pub const MAX_EMBEDDING_SIZE: usize = 1024;

/// A snippet shorter than this many bytes is not narrowed any further.
pub const SNIPPET_TARGET_SIZE: usize = 512;

/// A scored piece of evidence for the summarizer.
///
/// `embedding` holds the IEEE-754 bit patterns of the chunk's embedding,
/// `score` its similarity to the query in fixed-point units.
#[derive(Clone, Debug)]
pub struct SnippetInfo {
    pub embedding: Vec<u64>,
    pub text: String,
    pub score: i64,
    pub images: Vec<(String, String)>,
    pub title: Option<String>,
    pub url: Option<String>,
}

/// What a snippet holds, as mathematical values.
pub struct SnippetView {
    pub embedding: Seq<u64>,
    pub text: Seq<char>,
    pub score: i64,
    pub images: Seq<(Seq<char>, Seq<char>)>,
    pub title: Option<Seq<char>>,
    pub url: Option<Seq<char>>,
}

pub open spec fn pair_view(p: (String, String)) -> (Seq<char>, Seq<char>) {
    (p.0@, p.1@)
}

pub open spec fn option_view(o: Option<String>) -> Option<Seq<char>> {
    match o {
        Some(s) => Some(s@),
        None => None,
    }
}

impl View for SnippetInfo {
    type V = SnippetView;

    open spec fn view(&self) -> SnippetView {
        SnippetView {
            embedding: self.embedding@,
            text: self.text@,
            score: self.score,
            images: self.images@.map_values(|p: (String, String)| pair_view(p)),
            title: option_view(self.title),
            url: option_view(self.url),
        }
    }
}

/// The views of a list of snippets.
pub open spec fn snippet_views(v: Seq<SnippetInfo>) -> Seq<SnippetView> {
    views_of(v)
}

fn copy_images(images: &Vec<(String, String)>) -> (r: Vec<(String, String)>)
    ensures
        r@.map_values(|p: (String, String)| pair_view(p)) == images@.map_values(
            |p: (String, String)| pair_view(p),
        ),
{
    let mut r: Vec<(String, String)> = Vec::new();
    for i in 0..images.len()
        invariant
            r.len() == i,
            i <= images.len(),
            forall|k: int| 0 <= k < i ==> pair_view(#[trigger] r@[k]) == pair_view(images@[k]),
    {
        let p = &images[i];
        r.push((p.0.clone(), p.1.clone()));
    }
    assert(r@.map_values(|p: (String, String)| pair_view(p)) =~= images@.map_values(
        |p: (String, String)| pair_view(p),
    ));
    r
}

fn copy_option(o: &Option<String>) -> (r: Option<String>)
    ensures
        option_view(r) == option_view(*o),
{
    match o {
        Some(s) => Some(s.clone()),
        None => None,
    }
}

impl Ranked for SnippetInfo {
    open spec fn key_of(v: SnippetView) -> int {
        v.score as int
    }

    fn rank_key(&self) -> (r: i64) {
        self.score
    }

    /// A copy of this snippet with the same contents.
    fn duplicate(&self) -> (r: SnippetInfo) {
        SnippetInfo {
            embedding: self.embedding.clone(),
            text: self.text.clone(),
            score: self.score,
            images: copy_images(&self.images),
            title: copy_option(&self.title),
            url: copy_option(&self.url),
        }
    }
}

/// Copies a list of snippets.
pub fn duplicate_all(v: &Vec<SnippetInfo>) -> (r: Vec<SnippetInfo>)
    ensures
        snippet_views(r@) == snippet_views(v@),
{
    let mut r: Vec<SnippetInfo> = Vec::new();
    for i in 0..v.len()
        invariant
            r.len() == i,
            i <= v.len(),
            forall|k: int| 0 <= k < i ==> (#[trigger] r@[k])@ == v@[k]@,
    {
        r.push(v[i].duplicate());
    }
    assert(snippet_views(r@) =~= snippet_views(v@));
    r
}

/// `i` is the first position of a largest value of `s`.
pub open spec fn is_first_max(s: Seq<i64>, i: int) -> bool {
    &&& 0 <= i < s.len()
    &&& forall|j: int| 0 <= j < s.len() ==> s[j] <= s[i]
    &&& forall|j: int| 0 <= j < i ==> s[j] < s[i]
}

/// The chunk that best matches the query: the first one of highest
/// similarity. `None` when there is no chunk.
pub fn best_chunk_index(similarities: &Vec<i64>) -> (r: Option<usize>)
    ensures
        r is None <==> similarities.len() == 0,
        r matches Some(i) ==> is_first_max(similarities@, i as int),
{
    if similarities.len() == 0 {
        return None;
    }
    let mut best: usize = 0;
    let mut i: usize = 1;
    while i < similarities.len()
        invariant
            1 <= i <= similarities.len(),
            best < i,
            forall|j: int| 0 <= j < i ==> similarities@[j] <= similarities@[best as int],
            forall|j: int| 0 <= j < best ==> similarities@[j] < similarities@[best as int],
        decreases similarities.len() - i,
    {
        if similarities[i] > similarities[best] {
            best = i;
        }
        i = i + 1;
    }
    Some(best)
}

/// The key snippets are ranked by.
pub open spec fn snippet_key() -> spec_fn(SnippetView) -> int {
    key_fn::<SnippetInfo>()
}

/// Ranks snippets by descending score; snippets of equal score keep their order.
pub fn rank_snippets(snippets: &Vec<SnippetInfo>) -> (r: Vec<SnippetInfo>)
    ensures
        snippet_views(r@) == ranked(snippet_views(snippets@), snippet_key()),
{
    rank_all(snippets)
}

/// The snippet made of the chunk at `i`, with the page's images and no
/// title or URL yet.
pub open spec fn chunk_snippet(
    texts: Seq<String>,
    embeddings: Seq<Vec<u64>>,
    similarities: Seq<i64>,
    images: Seq<(Seq<char>, Seq<char>)>,
    i: int,
) -> SnippetView {
    SnippetView {
        embedding: embeddings[i]@,
        text: texts[i]@,
        score: similarities[i],
        images: images,
        title: None,
        url: None,
    }
}

/// The snippet of a page: its best-matching chunk, the first one of highest
/// similarity, together with the page's images. `None` when the page has no
/// chunk.
pub fn best_snippet_of(
    texts: &Vec<String>,
    embeddings: &Vec<Vec<u64>>,
    similarities: &Vec<i64>,
    images: &Vec<(String, String)>,
) -> (r: Option<SnippetInfo>)
    requires
        texts.len() == embeddings.len(),
        texts.len() == similarities.len(),
    ensures
        r is None <==> texts.len() == 0,
        r matches Some(sn) ==> exists|i: int|
            is_first_max(similarities@, i) && sn@ == chunk_snippet(
                texts@,
                embeddings@,
                similarities@,
                images@.map_values(|p: (String, String)| pair_view(p)),
                i,
            ),
{
    match best_chunk_index(similarities) {
        None => None,
        Some(i) => {
            let sn = SnippetInfo {
                embedding: embeddings[i].clone(),
                text: texts[i].clone(),
                score: similarities[i],
                images: copy_images(images),
                title: None,
                url: None,
            };
            assert(sn@ == chunk_snippet(
                texts@,
                embeddings@,
                similarities@,
                images@.map_values(|p: (String, String)| pair_view(p)),
                i as int,
            ));
            Some(sn)
        },
    }
}

/// The chunk size of the next narrowing step, if there is one.
pub open spec fn next_cut(text: Seq<char>, chunk_size: usize) -> Option<usize> {
    if encode_utf8(text).len() as usize >= SNIPPET_TARGET_SIZE && chunk_size > 0 {
        Some(chunk_size)
    } else {
        None
    }
}

/// A snippet replaced by the chunk at `i`, keeping its title, URL and images.
pub open spec fn narrowed_to(
    prev: SnippetView,
    texts: Seq<String>,
    embeddings: Seq<Vec<u64>>,
    similarities: Seq<i64>,
    i: int,
) -> SnippetView {
    SnippetView {
        title: prev.title,
        url: prev.url,
        ..chunk_snippet(texts, embeddings, similarities, prev.images, i)
    }
}

/// Recursive narrowing of a snippet: while its text is at least
/// `SNIPPET_TARGET_SIZE` bytes long and the chunk size is not zero, the text
/// is cut into chunks of `chunk_size` characters, the best chunk replaces
/// the snippet, and the chunk size halves.
#[derive(Clone, Debug)]
pub struct Narrowing {
    pub snippet: SnippetInfo,
    pub chunk_size: usize,
}

impl Narrowing {
    /// Starts narrowing a page's best snippet, at half the page chunk size.
    pub fn new(snippet: SnippetInfo) -> (r: Narrowing)
        ensures
            r.snippet@ == snippet@,
            r.chunk_size == MAX_EMBEDDING_SIZE / 2,
    {
        Narrowing { snippet, chunk_size: MAX_EMBEDDING_SIZE / 2 }
    }

    /// The chunk size to cut the snippet with next, or `None` when narrowing
    /// is over.
    pub fn next_chunk_size(&self) -> (r: Option<usize>)
        ensures
            r == next_cut(self.snippet.text@, self.chunk_size),
    {
        if self.snippet.text.as_str().len() >= SNIPPET_TARGET_SIZE && self.chunk_size > 0 {
            Some(self.chunk_size)
        } else {
            None
        }
    }

    /// The chunks of the snippet's text at the current chunk size, to be
    /// embedded and handed back to `narrow`.
    pub fn cut(&self) -> (r: Vec<String>)
        requires
            self.chunk_size > 0,
        ensures
            string_views(r@) == text_chunks(self.snippet.text@, self.chunk_size as nat),
    {
        split_into_chunks(self.snippet.text.as_str(), self.chunk_size)
    }

    /// Keeps the best of the chunks of the snippet's text at the current
    /// chunk size; the chunk size halves. Title, URL and images stay. The
    /// new text is a non-empty piece of the old one, at most the old chunk
    /// size long; after the step at chunk size one it is under the target
    /// size. An empty text stays as it is.
    pub fn narrow(&mut self, texts: &Vec<String>, embeddings: &Vec<Vec<u64>>, similarities: &Vec<i64>)
        requires
            old(self).chunk_size > 0,
            string_views(texts@) == text_chunks(old(self).snippet.text@, old(self).chunk_size as nat),
            texts.len() == embeddings.len(),
            texts.len() == similarities.len(),
        ensures
            final(self).chunk_size == old(self).chunk_size / 2,
            old(self).snippet.text@.len() == 0 ==> final(self).snippet@ == old(self).snippet@,
            old(self).snippet.text@.len() > 0 ==> exists|i: int|
                is_first_max(similarities@, i) && final(self).snippet@ == narrowed_to(
                    old(self).snippet@,
                    texts@,
                    embeddings@,
                    similarities@,
                    i,
                ),
            old(self).snippet.text@.len() > 0 ==> 0 < final(self).snippet.text@.len()
                <= old(self).chunk_size,
            old(self).snippet.text@.len() > 0 ==> exists|a: int, b: int|
                0 <= a <= b <= old(self).snippet.text@.len() && final(self).snippet.text@
                    == old(self).snippet.text@.subrange(a, b),
            old(self).chunk_size == 1 ==> encode_utf8(final(self).snippet.text@).len()
                < SNIPPET_TARGET_SIZE,
    {
        let ghost t = self.snippet.text@;
        let ghost size = self.chunk_size as nat;
        proof {
            lemma_chunk_coverage(t, size);
        }
        if let Some(i) = best_chunk_index(similarities) {
            proof {
                assert(texts@[i as int]@ == text_chunks(t, size)[i as int]);
            }
            self.snippet.embedding = embeddings[i].clone();
            self.snippet.text = texts[i].clone();
            self.snippet.score = similarities[i];
        } else {
            assert(text_chunks(t, size).len() == 0);
        }
        proof {
            if size == 1 && t.len() > 0 {
                lemma_short_text_bytes(self.snippet.text@);
            }
        }
        self.chunk_size = self.chunk_size / 2;
    }
}

/// A text of at most one character takes at most four bytes.
proof fn lemma_short_text_bytes(s: Seq<char>)
    requires
        s.len() <= 1,
    ensures
        encode_utf8(s).len() <= 4,
{
    if s.len() == 1 {
        assert(s.drop_first().len() == 0);
        assert(encode_utf8(s.drop_first()) == Seq::<u8>::empty());
    }
}

} // verus!
