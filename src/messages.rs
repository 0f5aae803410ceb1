//! The messages a search or a chat streams back, how model output fragments
//! become messages, and the tab-separated framing of the stream.
use crate::ranking::{key_fn, views_of, Ranked};
use crate::scoring::score_in_limit;
use crate::text::{kept_pieces, pieces, split_trimmed, trimmed};
use vstd::prelude::*;

verus! {

/// How many entries the first message of a search holds at most.
pub const MAX_ENTRIES: usize = 50;

/// A search result: a page with its score in fixed-point units.
#[derive(Clone, Debug)]
pub struct Entry {
    pub score: i64,
    pub url: String,
    pub title: String,
    pub description: String,
}

/// What an entry holds, as mathematical values.
pub struct EntryView {
    pub score: i64,
    pub url: Seq<char>,
    pub title: Seq<char>,
    pub description: Seq<char>,
}

impl View for Entry {
    type V = EntryView;

    open spec fn view(&self) -> EntryView {
        EntryView {
            score: self.score,
            url: self.url@,
            title: self.title@,
            description: self.description@,
        }
    }
}

/// The views of a list of entries.
pub open spec fn entry_views(v: Seq<Entry>) -> Seq<EntryView> {
    views_of(v)
}

/// The key entries are ranked by.
pub open spec fn entry_key() -> spec_fn(EntryView) -> int {
    key_fn::<Entry>()
}

/// Whether an entry's score may be shown.
pub open spec fn entry_in_limit() -> spec_fn(EntryView) -> bool {
    |e: EntryView| score_in_limit(e.score as int)
}

impl Ranked for Entry {
    open spec fn key_of(v: EntryView) -> int {
        v.score as int
    }

    fn rank_key(&self) -> (r: i64) {
        self.score
    }

    /// A copy of this entry.
    fn duplicate(&self) -> (r: Entry) {
        Entry {
            score: self.score,
            url: self.url.clone(),
            title: self.title.clone(),
            description: self.description.clone(),
        }
    }
}

/// A search request.
#[derive(Clone, Debug)]
pub struct SearchRequest {
    pub query: String,
}

/// A chat request: the message and the model context of the previous turn.
#[derive(Clone, Debug)]
pub struct ChatRequest {
    pub message: String,
    pub context: Vec<i32>,
}

/// One message of a search stream: entries, or a piece of the summary.
#[derive(Clone, Debug)]
pub struct SearchResponse {
    pub results: Vec<Entry>,
    pub summary: String,
    pub summary_context: Option<Vec<i32>>,
}

/// One message of a chat stream.
#[derive(Clone, Debug)]
pub struct ChatResponse {
    pub response: String,
    pub context: Option<Vec<i32>>,
}

/// A piece of streamed model output, with the model's context when it
/// carries one.
#[derive(Clone, Debug)]
pub struct Fragment {
    pub response: String,
    pub context: Option<Vec<i32>>,
}

pub open spec fn context_view(c: Option<Vec<i32>>) -> Option<Seq<i32>> {
    match c {
        Some(v) => Some(v@),
        None => None,
    }
}

/// The texts of the fragments, one after the other.
pub open spec fn joined_text(fs: Seq<Fragment>) -> Seq<char>
    decreases fs.len(),
{
    if fs.len() == 0 {
        seq![]
    } else {
        joined_text(fs.drop_last()) + fs.last().response@
    }
}

/// The context of the last fragment that carries one.
pub open spec fn last_context(fs: Seq<Fragment>) -> Option<Seq<i32>>
    decreases fs.len(),
{
    if fs.len() == 0 {
        None
    } else if fs.last().context is Some {
        context_view(fs.last().context)
    } else {
        last_context(fs.drop_last())
    }
}

fn merge_fragments(fs: &Vec<Fragment>) -> (r: (String, Option<Vec<i32>>))
    ensures
        r.0@ == joined_text(fs@),
        context_view(r.1) == last_context(fs@),
{
    let mut text = String::new();
    let mut context: Option<Vec<i32>> = None;
    for i in 0..fs.len()
        invariant
            text@ == joined_text(fs@.take(i as int)),
            context_view(context) == last_context(fs@.take(i as int)),
    {
        proof {
            let t = fs@.take(i + 1);
            assert(t.drop_last() == fs@.take(i as int));
            assert(t.last() == fs@[i as int]);
        }
        text.append(fs[i].response.as_str());
        match &fs[i].context {
            Some(c) => {
                context = Some(c.clone());
            },
            None => {},
        }
    }
    assert(fs@.take(fs.len() as int) == fs@);
    (text, context)
}

/// The summary message for one batch of model output: the texts joined,
/// and the last context that came with them.
pub fn summary_message(fs: &Vec<Fragment>) -> (r: SearchResponse)
    ensures
        r.results@.len() == 0,
        r.summary@ == joined_text(fs@),
        context_view(r.summary_context) == last_context(fs@),
{
    let (summary, summary_context) = merge_fragments(fs);
    SearchResponse { results: Vec::new(), summary, summary_context }
}

/// The chat message for one batch of model output: the texts joined, and
/// the last context that came with them.
pub fn chat_message(fs: &Vec<Fragment>) -> (r: ChatResponse)
    ensures
        r.response@ == joined_text(fs@),
        context_view(r.context) == last_context(fs@),
{
    let (response, context) = merge_fragments(fs);
    ChatResponse { response, context }
}

/// The message for one freshly scored entry; `None` when its score is out
/// of the trustworthy range, so that no shown entry has `|score| > 10`.
pub fn entry_message(entry: Entry) -> (r: Option<SearchResponse>)
    ensures
        r is Some <==> score_in_limit(entry.score as int),
        r matches Some(m) ==> entry_views(m.results@) == seq![entry@] && m.summary@.len() == 0
            && m.summary_context is None,
{
    if crate::scoring::score_within_limit(entry.score) {
        let ghost ev = entry@;
        let mut results = Vec::new();
        results.push(entry);
        assert(entry_views(results@) =~= seq![ev]);
        Some(SearchResponse { results, summary: String::new(), summary_context: None })
    } else {
        None
    }
}

/// The entries of the first message: those within the score limit, in
/// order, at most `MAX_ENTRIES` of them.
pub open spec fn seed_entries(rows: Seq<EntryView>) -> Seq<EntryView> {
    let kept = rows.filter(entry_in_limit());
    if kept.len() > MAX_ENTRIES {
        kept.take(MAX_ENTRIES as int)
    } else {
        kept
    }
}

/// The first message of a search, built from the index's ranked rows.
pub fn seed_message(rows: &Vec<Entry>) -> (r: SearchResponse)
    ensures
        entry_views(r.results@) == seed_entries(entry_views(rows@)),
        forall|i: int| 0 <= i < r.results@.len() ==> score_in_limit(#[trigger] r.results@[i].score as int),
        r.summary@.len() == 0,
        r.summary_context is None,
{
    let ghost all = entry_views(rows@);
    let mut results: Vec<Entry> = Vec::new();
    for i in 0..rows.len()
        invariant
            all == entry_views(rows@),
            entry_views(results@) == all.take(i as int).filter(entry_in_limit()),
            forall|k: int| 0 <= k < results@.len() ==> score_in_limit(#[trigger] results@[k].score as int),
    {
        proof {
            let t = all.take(i + 1);
            assert(t.drop_last() == all.take(i as int));
            assert(t.last() == rows@[i as int]@);
            reveal_with_fuel(Seq::filter, 1);
            assert(t.filter(entry_in_limit()) == if score_in_limit(rows@[i as int].score as int) {
                all.take(i as int).filter(entry_in_limit()).push(rows@[i as int]@)
            } else {
                all.take(i as int).filter(entry_in_limit())
            });
        }
        if crate::scoring::score_within_limit(rows[i].score) {
            let ghost before = entry_views(results@);
            results.push(rows[i].duplicate());
            assert(entry_views(results@) =~= before.push(rows@[i as int]@));
        }
    }
    assert(all.take(rows.len() as int) == all);
    if results.len() > MAX_ENTRIES {
        results.truncate(MAX_ENTRIES);
    }
    assert(entry_views(results@) =~= seed_entries(all));
    SearchResponse { results, summary: String::new(), summary_context: None }
}

/// A stream of messages, each followed by a tab.
pub open spec fn framed(msgs: Seq<Seq<char>>) -> Seq<char>
    decreases msgs.len(),
{
    if msgs.len() == 0 {
        seq![]
    } else {
        framed(msgs.drop_last()) + msgs.last().push('\t')
    }
}

/// One message as it goes on the wire: followed by a tab.
pub fn frame_message(message: String) -> (r: String)
    ensures
        r@ == message@.push('\t'),
{
    let mut r = message;
    r.append("\t");
    proof {
        reveal_strlit("\t");
    }
    assert(r@ =~= message@.push('\t'));
    r
}

/// The messages of a received stream: the non-empty pieces between tabs,
/// trimmed.
pub fn split_frames(body: &str) -> (r: Vec<String>)
    ensures
        r@.map_values(|x: String| x@) == split_trimmed(body@, '\t'),
{
    crate::text::split_nonempty_trimmed(body, '\t')
}

proof fn lemma_pieces_append(s: Seq<char>, t: Seq<char>, sep: char)
    requires
        !t.contains(sep),
    ensures
        pieces(s + t, sep) == pieces(s, sep).update(
            pieces(s, sep).len() - 1,
            pieces(s, sep).last() + t,
        ),
    decreases t.len(),
{
    crate::text::lemma_pieces_nonempty(s, sep);
    if t.len() == 0 {
        assert(s + t == s);
        assert(pieces(s, sep).last() + t == pieces(s, sep).last());
        assert(pieces(s, sep).update(pieces(s, sep).len() - 1, pieces(s, sep).last())
            =~= pieces(s, sep));
    } else {
        let u = t.drop_last();
        assert(!u.contains(sep)) by {
            assert forall|i: int| 0 <= i < u.len() implies u[i] != sep by {
                assert(u[i] == t[i]);
            }
        }
        lemma_pieces_append(s, u, sep);
        assert((s + t).drop_last() == s + u);
        assert((s + t).last() == t.last());
        assert(t.last() != sep) by {
            assert(t[t.len() - 1] == t.last());
        }
        assert((pieces(s, sep).last() + u).push(t.last()) =~= pieces(s, sep).last() + t);
        assert(pieces(s + t, sep) =~= pieces(s, sep).update(
            pieces(s, sep).len() - 1,
            pieces(s, sep).last() + t,
        ));
    }
}

proof fn lemma_framed_pieces(msgs: Seq<Seq<char>>)
    requires
        forall|i: int| 0 <= i < msgs.len() ==> !(#[trigger] msgs[i]).contains('\t'),
    ensures
        pieces(framed(msgs), '\t') == msgs.push(seq![]),
    decreases msgs.len(),
{
    if msgs.len() == 0 {
        assert(pieces(seq![], '\t') =~= seq![seq![]]);
        assert(msgs.push(seq![]) =~= seq![seq![]]);
    } else {
        let init = msgs.drop_last();
        let m = msgs.last();
        assert(!m.contains('\t')) by {
            assert(msgs[msgs.len() - 1] == m);
        }
        assert forall|i: int| 0 <= i < init.len() implies !(#[trigger] init[i]).contains('\t') by {
            assert(init[i] == msgs[i]);
        }
        lemma_framed_pieces(init);
        lemma_pieces_append(framed(init), m, '\t');
        let s = framed(init) + m;
        assert(framed(msgs) == s.push('\t'));
        assert(s.push('\t').drop_last() == s);
        assert(init.push(seq![]).update(init.len() as int, seq![] + m) =~= msgs);
        assert(pieces(framed(msgs), '\t') =~= msgs.push(seq![]));
    }
}

proof fn lemma_kept_pieces_identity(msgs: Seq<Seq<char>>)
    requires
        forall|i: int|
            0 <= i < msgs.len() ==> (#[trigger] msgs[i]).len() > 0 && trimmed(msgs[i]) == msgs[i],
    ensures
        kept_pieces(msgs) == msgs,
    decreases msgs.len(),
{
    if msgs.len() > 0 {
        let init = msgs.drop_last();
        assert forall|i: int|
            0 <= i < init.len() implies (#[trigger] init[i]).len() > 0 && trimmed(init[i])
            == init[i] by {
            assert(init[i] == msgs[i]);
        }
        lemma_kept_pieces_identity(init);
        assert(msgs.last() == msgs[msgs.len() - 1]);
        assert(init.push(msgs.last()) == msgs);
    }
}

/// Splitting a framed stream on tabs and dropping the empty pieces gives
/// back the messages, one for one, when no message holds a tab, none is
/// empty, and none starts or ends with white space (true of compact JSON).
pub proof fn lemma_frame_separability(msgs: Seq<Seq<char>>)
    requires
        forall|i: int|
            0 <= i < msgs.len() ==> (#[trigger] msgs[i]).len() > 0 && !msgs[i].contains('\t')
                && trimmed(msgs[i]) == msgs[i],
    ensures
        split_trimmed(framed(msgs), '\t') == msgs,
{
    lemma_framed_pieces(msgs);
    lemma_kept_pieces_identity(msgs);
    let ps = msgs.push(seq![]);
    assert(ps.drop_last() == msgs);
    assert(ps.last().len() == 0);
}

} // verus!
