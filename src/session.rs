//! The per-request decisions of a search: which snippets are kept as
//! evidence, and when the one summary of the request is launched.
use crate::scoring::MIN_CONFIDENCE;
use crate::ranking::{insert_ranked, lemma_ranked_insert_sorted, ranked_insert, sorted_by_key, Ranked};
use crate::snippet::{duplicate_all, snippet_key, snippet_views, SnippetInfo, SnippetView};
use vstd::prelude::*;

verus! {

/// How many snippets are kept as evidence for the summary.
pub const SNIPPET_NUMBER: usize = 10;

/// What happens during a search request that the session decides on.
#[derive(Clone, Debug)]
pub enum SessionEvent {
    /// The snippets of the best cached pages, found before the fan-out.
    CachedSnippets(Vec<SnippetInfo>),
    /// The snippet of a freshly fetched page.
    Snippet(SnippetInfo),
    /// A sub-query worker went through all its results.
    WorkerDone,
}

/// The state of a search session, as mathematical values.
pub struct SessionState {
    pub need_to_respond: bool,
    pub explanation_needed: bool,
    pub snippets: Seq<SnippetView>,
}

/// Sum of the scores of a list of snippets.
pub open spec fn score_sum(s: Seq<SnippetView>) -> int
    decreases s.len(),
{
    if s.len() == 0 {
        0
    } else {
        score_sum(s.drop_last()) + s.last().score
    }
}

/// The mean score of the snippets is above `MIN_CONFIDENCE`.
pub open spec fn confident(s: Seq<SnippetView>) -> bool {
    s.len() > 0 && score_sum(s) > MIN_CONFIDENCE * s.len()
}

/// The first `SNIPPET_NUMBER` snippets.
pub open spec fn keep_best(s: Seq<SnippetView>) -> Seq<SnippetView> {
    if s.len() > SNIPPET_NUMBER {
        s.take(SNIPPET_NUMBER as int)
    } else {
        s
    }
}

/// The kept snippets after adding each of `xs` in turn.
pub open spec fn add_all(s: Seq<SnippetView>, xs: Seq<SnippetView>) -> Seq<SnippetView>
    decreases xs.len(),
{
    if xs.len() == 0 {
        s
    } else {
        keep_best(ranked_insert(add_all(s, xs.drop_last()), xs.last(), snippet_key()))
    }
}

/// The kept snippets after an event.
pub open spec fn event_snippets(st: SessionState, ev: SessionEvent) -> Seq<SnippetView> {
    match ev {
        SessionEvent::CachedSnippets(v) => add_all(st.snippets, snippet_views(v@)),
        SessionEvent::Snippet(x) => keep_best(ranked_insert(st.snippets, x@, snippet_key())),
        SessionEvent::WorkerDone => st.snippets,
    }
}

/// Whether an event launches the summary: only while one is still needed
/// and wanted; on new evidence when the kept snippets are confident, and
/// when a worker is done in any case.
pub open spec fn launches(st: SessionState, ev: SessionEvent) -> bool {
    &&& st.need_to_respond
    &&& st.explanation_needed
    &&& match ev {
        SessionEvent::WorkerDone => true,
        _ => confident(event_snippets(st, ev)),
    }
}

/// The state after an event.
pub open spec fn next_state(st: SessionState, ev: SessionEvent) -> SessionState {
    SessionState {
        need_to_respond: st.need_to_respond && !launches(st, ev),
        explanation_needed: st.explanation_needed,
        snippets: event_snippets(st, ev),
    }
}

/// The state after a sequence of events.
pub open spec fn run(st: SessionState, evs: Seq<SessionEvent>) -> SessionState
    decreases evs.len(),
{
    if evs.len() == 0 {
        st
    } else {
        next_state(run(st, evs.drop_last()), evs.last())
    }
}

/// How many summaries a sequence of events launches.
pub open spec fn launch_count(st: SessionState, evs: Seq<SessionEvent>) -> nat
    decreases evs.len(),
{
    if evs.len() == 0 {
        0
    } else {
        launch_count(st, evs.drop_last()) + if launches(run(st, evs.drop_last()), evs.last()) {
            1nat
        } else {
            0nat
        }
    }
}

/// The kept snippets are ranked and at most `SNIPPET_NUMBER` of them.
pub open spec fn well_kept(s: Seq<SnippetView>) -> bool {
    sorted_by_key(s, snippet_key()) && s.len() <= SNIPPET_NUMBER
}

/// The flag that a summary is still needed goes from true to false at most
/// once, and only by launching a summary: over any sequence of events, at
/// most one summary is launched, and none once the flag is down.
pub proof fn lemma_single_summary(st: SessionState, evs: Seq<SessionEvent>)
    ensures
        launch_count(st, evs) <= 1,
        !st.need_to_respond ==> launch_count(st, evs) == 0,
        run(st, evs).need_to_respond ==> st.need_to_respond && launch_count(st, evs) == 0,
    decreases evs.len(),
{
    if evs.len() > 0 {
        lemma_single_summary(st, evs.drop_last());
    }
}

/// The summary launches on new evidence exactly when a summary is still
/// needed and wanted and the mean score of the kept snippets, the new one
/// included, crosses `MIN_CONFIDENCE`; besides that, only a finished worker
/// launches it.
pub proof fn lemma_confidence_gate(st: SessionState, ev: SessionEvent)
    ensures
        !(ev is WorkerDone) ==> (launches(st, ev) <==> st.need_to_respond
            && st.explanation_needed && confident(next_state(st, ev).snippets)),
        launches(st, ev) ==> ev is WorkerDone || confident(next_state(st, ev).snippets),
        launches(st, ev) ==> !next_state(st, ev).need_to_respond,
{
}

/// The mutable state of one search request: whether a summary is still
/// needed, whether one is wanted at all, and the best snippets found so far.
pub struct SearchSession {
    need_to_respond: bool,
    explanation_needed: bool,
    best_snippets: Vec<SnippetInfo>,
}

impl View for SearchSession {
    type V = SessionState;

    closed spec fn view(&self) -> SessionState {
        SessionState {
            need_to_respond: self.need_to_respond,
            explanation_needed: self.explanation_needed,
            snippets: snippet_views(self.best_snippets@),
        }
    }
}

fn is_confident(v: &Vec<SnippetInfo>) -> (r: bool)
    requires
        v.len() <= SNIPPET_NUMBER,
    ensures
        r == confident(snippet_views(v@)),
{
    let ghost s = snippet_views(v@);
    let mut sum: i128 = 0;
    for i in 0..v.len()
        invariant
            s == snippet_views(v@),
            v.len() <= SNIPPET_NUMBER,
            sum == score_sum(s.take(i as int)),
            -(i * 0x8000_0000_0000_0000) <= sum <= i * 0x8000_0000_0000_0000,
    {
        proof {
            let next = s.take(i + 1);
            assert(next.drop_last() == s.take(i as int));
            assert(next.last() == v@[i as int]@);
        }
        sum = sum + v[i].score as i128;
    }
    assert(s.take(v.len() as int) == s);
    v.len() > 0 && sum > (MIN_CONFIDENCE as i128) * (v.len() as i128)
}

impl SearchSession {
    /// Whether the session's invariant holds.
    pub closed spec fn wf(&self) -> bool {
        well_kept(self@.snippets)
    }

    /// A fresh session: a summary is needed, no snippet is kept yet.
    pub fn new(explanation_needed: bool) -> (r: SearchSession)
        ensures
            r.wf(),
            r@ == (SessionState { need_to_respond: true, explanation_needed, snippets: seq![] }),
    {
        let r = SearchSession { need_to_respond: true, explanation_needed, best_snippets: Vec::new() };
        assert(r@.snippets =~= seq![]);
        r
    }

    /// Whether a summary is still to be launched.
    pub fn need_to_respond(&self) -> (r: bool)
        ensures
            r == self@.need_to_respond,
    {
        self.need_to_respond
    }

    /// Whether a freshly fetched page's snippet is still worth computing.
    pub fn wants_snippets(&self) -> (r: bool)
        ensures
            r == (self@.need_to_respond && self@.explanation_needed),
    {
        self.need_to_respond && self.explanation_needed
    }

    /// The snippets kept so far, best first.
    pub fn best_snippets(&self) -> (r: Vec<SnippetInfo>)
        ensures
            snippet_views(r@) == self@.snippets,
    {
        duplicate_all(&self.best_snippets)
    }

    fn add_snippet(&mut self, x: SnippetInfo)
        requires
            old(self).wf(),
        ensures
            final(self).wf(),
            final(self)@ == (SessionState { snippets: keep_best(ranked_insert(old(self)@.snippets, x@, snippet_key())), ..old(self)@ }),
    {
        proof {
            lemma_ranked_insert_sorted(self@.snippets, x@, snippet_key());
        }
        insert_ranked(&mut self.best_snippets, x);
        if self.best_snippets.len() > SNIPPET_NUMBER {
            self.best_snippets.truncate(SNIPPET_NUMBER);
        }
        assert(self@.snippets =~= keep_best(ranked_insert(old(self)@.snippets, x@, snippet_key())));
    }

    /// Applies an event. Returns the snippets to write the summary from when
    /// the event launches it.
    pub fn step(&mut self, ev: SessionEvent) -> (r: Option<Vec<SnippetInfo>>)
        requires
            old(self).wf(),
        ensures
            final(self).wf(),
            final(self)@ == next_state(old(self)@, ev),
            r is Some <==> launches(old(self)@, ev),
            r matches Some(v) ==> snippet_views(v@) == final(self)@.snippets,
    {
        let ghost st = self@;
        let is_done = match &ev {
            SessionEvent::WorkerDone => true,
            _ => false,
        };
        match ev {
            SessionEvent::CachedSnippets(v) => {
                let ghost xs = snippet_views(v@);
                for i in 0..v.len()
                    invariant
                        xs == snippet_views(v@),
                        self.wf(),
                        self.need_to_respond == st.need_to_respond,
                        self.explanation_needed == st.explanation_needed,
                        self@.snippets == add_all(st.snippets, xs.take(i as int)),
                {
                    proof {
                        assert(xs.take(i + 1).drop_last() == xs.take(i as int));
                        assert(xs.take(i + 1).last() == v@[i as int]@);
                    }
                    self.add_snippet(v[i].duplicate());
                }
                assert(xs.take(xs.len() as int) == xs);
            },
            SessionEvent::Snippet(x) => {
                self.add_snippet(x);
            },
            SessionEvent::WorkerDone => {},
        }
        let launch = self.need_to_respond && self.explanation_needed && (is_done
            || is_confident(&self.best_snippets));
        if launch {
            self.need_to_respond = false;
            Some(duplicate_all(&self.best_snippets))
        } else {
            None
        }
    }
}

} // verus!
