//! A page as the embedding service sees it: its text chunks, their
//! embeddings, and the images worth keeping.
use crate::snippet::pair_view;
use vstd::prelude::*;

verus! {

/// The longest source or description, in characters, an image may have.
pub const MAX_IMAGE_FIELD: usize = 255;

/// A long text cut into chunks, with one embedding per chunk (as IEEE-754
/// bit patterns).
#[derive(Clone, Debug)]
pub struct LargeEmbedding {
    pub embeddings: Vec<Vec<u64>>,
    pub texts: Vec<String>,
}

/// A fetched page: its chunks, their embeddings, and its images as
/// (source, description) pairs.
#[derive(Clone, Debug)]
pub struct WebsiteEmbedding {
    pub url: String,
    pub embeddings: Vec<Vec<u64>>,
    pub texts: Vec<String>,
    pub images: Vec<(String, String)>,
    pub link: String,
}

/// An image is kept when both fields are present, non-empty and at most
/// `MAX_IMAGE_FIELD` characters long, and the source starts with "http".
pub open spec fn image_kept(src: Seq<char>, alt: Seq<char>) -> bool {
    &&& 0 < src.len() <= MAX_IMAGE_FIELD
    &&& 0 < alt.len() <= MAX_IMAGE_FIELD
    &&& src.len() >= 4
    &&& src.take(4) == seq!['h', 't', 't', 'p']
}

/// A raw image with a missing description given an empty one.
pub open spec fn raw_image_view(p: (String, Option<String>)) -> (Seq<char>, Seq<char>) {
    (
        p.0@,
        match p.1 {
            Some(a) => a@,
            None => seq![],
        },
    )
}

/// The images of a page that are kept, in page order.
pub open spec fn kept_images(raw: Seq<(String, Option<String>)>) -> Seq<(Seq<char>, Seq<char>)> {
    raw.map_values(|p: (String, Option<String>)| raw_image_view(p)).filter(
        |v: (Seq<char>, Seq<char>)| image_kept(v.0, v.1),
    )
}

fn starts_with_http(s: &str) -> (r: bool)
    ensures
        r == (s@.len() >= 4 && s@.take(4) == seq!['h', 't', 't', 'p']),
{
    if s.unicode_len() < 4 {
        return false;
    }
    let r = s.get_char(0) == 'h' && s.get_char(1) == 't' && s.get_char(2) == 't' && s.get_char(3)
        == 'p';
    assert(r ==> s@.take(4) =~= seq!['h', 't', 't', 'p']);
    assert(s@.take(4) == seq!['h', 't', 't', 'p'] ==> s@.take(4)[0] == 'h' && s@.take(4)[1] == 't'
        && s@.take(4)[2] == 't' && s@.take(4)[3] == 'p');
    r
}

/// Keeps the images worth showing: both fields present, non-empty and at
/// most `MAX_IMAGE_FIELD` characters long, with a source that starts with
/// "http". A missing description counts as empty.
pub fn filter_images(raw: &Vec<(String, Option<String>)>) -> (r: Vec<(String, String)>)
    ensures
        r@.map_values(|p: (String, String)| pair_view(p)) == kept_images(raw@),
{
    let ghost views = raw@.map_values(|p: (String, Option<String>)| raw_image_view(p));
    let ghost keep = |v: (Seq<char>, Seq<char>)| image_kept(v.0, v.1);
    let mut r: Vec<(String, String)> = Vec::new();
    for i in 0..raw.len()
        invariant
            views == raw@.map_values(|p: (String, Option<String>)| raw_image_view(p)),
            keep == (|v: (Seq<char>, Seq<char>)| image_kept(v.0, v.1)),
            r@.map_values(|p: (String, String)| pair_view(p)) == views.take(i as int).filter(keep),
    {
        proof {
            let t = views.take(i + 1);
            assert(t.drop_last() == views.take(i as int));
            assert(t.last() == raw_image_view(raw@[i as int]));
            reveal_with_fuel(Seq::filter, 1);
        }
        let src = &raw[i].0;
        let alt = match &raw[i].1 {
            Some(a) => a.clone(),
            None => String::new(),
        };
        let src_len = src.as_str().unicode_len();
        let alt_len = alt.as_str().unicode_len();
        let ok = 0 < src_len && src_len <= MAX_IMAGE_FIELD && 0 < alt_len && alt_len
            <= MAX_IMAGE_FIELD && starts_with_http(src.as_str());
        assert(raw_image_view(raw@[i as int]) == (src@, alt@));
        assert(ok == image_kept(src@, alt@));
        assert(views.take(i + 1).filter(keep) == if keep((src@, alt@)) {
            views.take(i as int).filter(keep).push((src@, alt@))
        } else {
            views.take(i as int).filter(keep)
        });
        if ok {
            let ghost before = r@.map_values(|p: (String, String)| pair_view(p));
            r.push((src.clone(), alt));
            assert(r@.map_values(|p: (String, String)| pair_view(p)) =~= before.push((src@, alt@)));
        }
    }
    assert(views.take(raw.len() as int) == views);
    r
}

impl WebsiteEmbedding {
    /// A fetched page: its chunks and their embeddings, and the images of
    /// the page that are kept.
    pub fn new(url: String, page: LargeEmbedding, raw_images: &Vec<(String, Option<String>)>) -> (r: WebsiteEmbedding)
        ensures
            r.url@ == url@,
            r.link@ == url@,
            r.embeddings == page.embeddings,
            r.texts == page.texts,
            r.images@.map_values(|p: (String, String)| pair_view(p)) == kept_images(raw_images@),
    {
        let link = url.clone();
        WebsiteEmbedding {
            url,
            embeddings: page.embeddings,
            texts: page.texts,
            images: filter_images(raw_images),
            link,
        }
    }
}

} // verus!
