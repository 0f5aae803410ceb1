//! The client side of the wire protocol: where requests go, and how the
//! entries of a search stream add up to one list.
use crate::index::rank_entries;
use crate::messages::{entry_key, entry_views, ChatRequest, Entry, EntryView};
use crate::ranking::{ranked, Ranked};
use vstd::prelude::*;

verus! {

/// The address a client talks to when none is given.
pub const DEFAULT_API_URL: &'static str = "http://127.0.0.1:3030";

/// A client of the search backend: where it is, and the chat context of the
/// last answer.
#[derive(Clone, Debug)]
pub struct Searchllama {
    pub api_url: String,
    pub context: Option<Vec<i32>>,
}

impl Searchllama {
    /// A client of the backend at `api_url`, with no chat context yet.
    pub fn new(api_url: &str) -> (r: Searchllama)
        ensures
            r.api_url@ == api_url@,
            r.context is None,
    {
        Searchllama { api_url: api_url.to_owned(), context: None }
    }

    /// The URL of one of the backend's endpoints, such as "search" or "chat".
    pub fn endpoint(&self, path: &str) -> (r: String)
        ensures
            r@ == self.api_url@ + "/"@ + path@,
    {
        let mut r = self.api_url.clone();
        r.append("/");
        r.append(path);
        r
    }
}

impl Default for Searchllama {
    fn default() -> (r: Searchllama)
        ensures
            r.api_url@ == DEFAULT_API_URL@,
            r.context is None,
    {
        Searchllama::new(DEFAULT_API_URL)
    }
}

/// The chat request for a message; without a context the model starts
/// afresh.
pub fn chat_request(message: &str, context: Option<Vec<i32>>) -> (r: ChatRequest)
    ensures
        r.message@ == message@,
        r.context@ == (match context {
            Some(c) => c@,
            None => seq![],
        }),
{
    let context = match context {
        Some(c) => c,
        None => Vec::new(),
    };
    ChatRequest { message: message.to_owned(), context }
}

/// The list with `e` in place of the first entry of the same URL, or with
/// `e` added at the end when there is none.
pub open spec fn upsert_entry(s: Seq<EntryView>, e: EntryView) -> Seq<EntryView>
    decreases s.len(),
{
    if s.len() == 0 {
        seq![e]
    } else if s[0].url == e.url {
        s.update(0, e)
    } else {
        seq![s[0]] + upsert_entry(s.drop_first(), e)
    }
}

/// The list after taking in each entry of `incoming` in turn.
pub open spec fn merged(s: Seq<EntryView>, incoming: Seq<EntryView>) -> Seq<EntryView>
    decreases incoming.len(),
{
    if incoming.len() == 0 {
        s
    } else {
        upsert_entry(merged(s, incoming.drop_last()), incoming.last())
    }
}

proof fn lemma_upsert_at(s: Seq<EntryView>, e: EntryView, j: int)
    requires
        0 <= j <= s.len(),
        forall|k: int| 0 <= k < j ==> s[k].url != e.url,
        j < s.len() ==> s[j].url == e.url,
    ensures
        upsert_entry(s, e) == if j < s.len() {
            s.update(j, e)
        } else {
            s.push(e)
        },
    decreases s.len(),
{
    if s.len() > 0 && j > 0 {
        let t = s.drop_first();
        assert forall|k: int| 0 <= k < j - 1 implies t[k].url != e.url by {
            assert(t[k] == s[k + 1]);
        }
        lemma_upsert_at(t, e, j - 1);
        if j < s.len() {
            assert(seq![s[0]] + t.update(j - 1, e) =~= s.update(j, e));
        } else {
            assert(seq![s[0]] + t.push(e) =~= s.push(e));
        }
    } else if s.len() == 0 {
        assert(seq![e] =~= s.push(e));
    }
}

/// Takes in the entries of one search message: an entry replaces the one
/// of the same URL, or joins the list.
pub fn merge_entries(entries: &mut Vec<Entry>, incoming: &Vec<Entry>)
    ensures
        entry_views(final(entries)@) == merged(entry_views(old(entries)@), entry_views(incoming@)),
{
    let ghost start = entry_views(entries@);
    let ghost inc = entry_views(incoming@);
    for i in 0..incoming.len()
        invariant
            inc == entry_views(incoming@),
            entry_views(entries@) == merged(start, inc.take(i as int)),
    {
        proof {
            let t = inc.take(i + 1);
            assert(t.drop_last() == inc.take(i as int));
            assert(t.last() == incoming@[i as int]@);
        }
        let e = incoming[i].duplicate();
        let ghost s = entry_views(entries@);
        let mut j: usize = 0;
        while j < entries.len() && entries[j].url != e.url
            invariant
                j <= entries.len(),
                s == entry_views(entries@),
                forall|k: int| 0 <= k < j ==> (#[trigger] s[k]).url != e@.url,
            decreases entries.len() - j,
        {
            j = j + 1;
        }
        proof {
            lemma_upsert_at(s, e@, j as int);
        }
        let ghost ev = e@;
        if j < entries.len() {
            entries.set(j, e);
            assert(entry_views(entries@) =~= s.update(j as int, ev));
        } else {
            entries.push(e);
            assert(entry_views(entries@) =~= s.push(ev));
        }
    }
    assert(inc.take(incoming.len() as int) == inc);
}

/// The entries as a client shows them: by descending score.
pub fn shown_entries(entries: &Vec<Entry>) -> (r: Vec<Entry>)
    ensures
        entry_views(r@) == ranked(entry_views(entries@), entry_key()),
{
    rank_entries(entries)
}

} // verus!
