//! The texts a search sends to the models, and the reading of the query
//! expansion's answer.
use crate::messages::Entry;
use crate::snippet::{SnippetInfo, SnippetView};
use crate::text::{split_nonempty_trimmed, split_trimmed, string_views};
use vstd::prelude::*;

verus! {

/// How many cached pages are looked at for an early summary.
pub const CACHED_CANDIDATES: usize = 10;

/// Relies on `chrono::Local::now` and `DateTime::to_rfc3339`: the local time
/// now, as RFC 3339 text. Nothing is known of its value.
#[verifier::external_body]
fn local_time_rfc3339() -> (r: String) {
    chrono::Local::now().to_rfc3339()
}

/// Relies on `chrono::Local::now` and `DateTime::to_rfc2822`: the local time
/// now, as RFC 2822 text. Nothing is known of its value.
#[verifier::external_body]
fn local_time_rfc2822() -> (r: String) {
    chrono::Local::now().to_rfc2822()
}

/// The text embedded for a query: the query, then the time in parentheses.
pub open spec fn embedding_input(query: Seq<char>, time: Seq<char>) -> Seq<char> {
    query + " ("@ + time + ")"@
}

/// The text embedded for a query asked at `time`.
pub fn query_embedding_input(query: &str, time: &str) -> (r: String)
    ensures
        r@ == embedding_input(query@, time@),
{
    let mut r = query.to_owned();
    r.append(" (");
    r.append(time);
    r.append(")");
    r
}

/// The text embedded for a query asked now.
pub fn query_embedding_input_now(query: &str) -> (r: String)
    ensures
        exists|t: Seq<char>| r@ == embedding_input(query@, t),
{
    let time = local_time_rfc3339();
    query_embedding_input(query, time.as_str())
}

/// The request to the model for other phrasings of a query.
pub open spec fn expansion_prompt(query: Seq<char>) -> Seq<char> {
    "Generate search queries for: "@ + query
}

/// The request to the model for other phrasings of a query.
pub fn related_queries_prompt(query: &str) -> (r: String)
    ensures
        r@ == expansion_prompt(query@),
{
    let mut r = "Generate search queries for: ".to_owned();
    r.append(query);
    r
}

/// The related queries in the model's answer: one per line, empty lines
/// dropped, each trimmed.
pub fn parse_related_queries(response: &str) -> (r: Vec<String>)
    ensures
        string_views(r@) == split_trimmed(response@, '\n'),
{
    split_nonempty_trimmed(response, '\n')
}

/// The queries of the fan-out: the user's query first, then the related ones.
pub fn sub_queries(query: &str, related: Vec<String>) -> (r: Vec<String>)
    ensures
        string_views(r@) == seq![query@] + string_views(related@),
{
    let mut r: Vec<String> = Vec::new();
    r.push(query.to_owned());
    let ghost first = string_views(r@);
    let ghost rest = string_views(related@);
    let mut related = related;
    r.append(&mut related);
    assert(string_views(r@) =~= first + rest);
    r
}

/// How many web results a sub-query asks for: ten for the user's own
/// query, three for each related one.
pub fn results_cap(index: usize) -> (r: usize)
    ensures
        r == (if index == 0 {
            10usize
        } else {
            3usize
        }),
{
    if index == 0 {
        10
    } else {
        3
    }
}

/// The URLs and titles of the best cached pages, at most
/// `CACHED_CANDIDATES` of them, in rank order.
pub fn cached_candidates(rows: &Vec<Entry>) -> (r: (Vec<String>, Vec<String>))
    ensures
        r.0.len() == r.1.len(),
        r.0.len() == (if rows.len() < CACHED_CANDIDATES {
            rows.len()
        } else {
            CACHED_CANDIDATES
        }),
        forall|i: int| 0 <= i < r.0.len() ==> (#[trigger] r.0@[i])@ == rows@[i].url@,
        forall|i: int| 0 <= i < r.1.len() ==> (#[trigger] r.1@[i])@ == rows@[i].title@,
{
    let n = if rows.len() < CACHED_CANDIDATES {
        rows.len()
    } else {
        CACHED_CANDIDATES
    };
    let mut urls: Vec<String> = Vec::new();
    let mut titles: Vec<String> = Vec::new();
    for i in 0..n
        invariant
            n <= rows.len(),
            urls.len() == i,
            titles.len() == i,
            forall|k: int| 0 <= k < i ==> (#[trigger] urls@[k])@ == rows@[k].url@,
            forall|k: int| 0 <= k < i ==> (#[trigger] titles@[k])@ == rows@[k].title@,
    {
        urls.push(rows[i].url.clone());
        titles.push(rows[i].title.clone());
    }
    (urls, titles)
}

/// A title or URL, or "Unknown" when the snippet has none.
pub open spec fn or_unknown(o: Option<Seq<char>>) -> Seq<char> {
    match o {
        Some(s) => s,
        None => "Unknown"@,
    }
}

/// How one snippet is quoted in the summary prompt.
pub open spec fn source_block(s: SnippetView) -> Seq<char> {
    "From \""@ + or_unknown(s.title) + "\" ![]("@ + or_unknown(s.url) + "):\n\""@ + s.text
        + "\""@
}

/// The quoted snippets, separated by blank lines.
pub open spec fn joined_sources(ss: Seq<SnippetView>) -> Seq<char>
    decreases ss.len(),
{
    if ss.len() == 0 {
        seq![]
    } else if ss.len() == 1 {
        source_block(ss[0])
    } else {
        joined_sources(ss.drop_last()) + "\n\n"@ + source_block(ss.last())
    }
}

/// The summary prompt: the sources, the local time, and the question.
pub open spec fn summary_prompt_text(ss: Seq<SnippetView>, time: Seq<char>, question: Seq<char>) -> Seq<char> {
    "Sources:\n\""@ + joined_sources(ss) + "\"\n\n\nlocal current time: "@ + time
        + "\n\n\nAnswer this question: '"@ + question + "'."@
}

fn append_or_unknown(r: &mut String, o: &Option<String>)
    ensures
        final(r)@ == old(r)@ + or_unknown(crate::snippet::option_view(*o)),
{
    match o {
        Some(s) => r.append(s.as_str()),
        None => r.append("Unknown"),
    }
}

fn source_block_string(s: &SnippetInfo) -> (r: String)
    ensures
        r@ == source_block(s@),
{
    let mut r = "From \"".to_owned();
    append_or_unknown(&mut r, &s.title);
    r.append("\" ![](");
    append_or_unknown(&mut r, &s.url);
    r.append("):\n\"");
    r.append(s.text.as_str());
    r.append("\"");
    assert(r@ =~= source_block(s@));
    r
}

/// The prompt the summary is written from.
pub fn summary_prompt(snippets: &Vec<SnippetInfo>, time: &str, question: &str) -> (r: String)
    ensures
        r@ == summary_prompt_text(
            crate::snippet::snippet_views(snippets@),
            time@,
            question@,
        ),
{
    let ghost ss = crate::snippet::snippet_views(snippets@);
    let mut r = "Sources:\n\"".to_owned();
    let ghost head = r@;
    for i in 0..snippets.len()
        invariant
            ss == crate::snippet::snippet_views(snippets@),
            r@ == head + joined_sources(ss.take(i as int)),
    {
        let ghost before = r@;
        proof {
            let t = ss.take(i + 1);
            assert(t.drop_last() == ss.take(i as int));
            assert(t.last() == snippets@[i as int]@);
            if i == 0 {
                assert(ss.take(0) =~= seq![]);
                assert(t.len() == 1 && t[0] == t.last());
            }
        }
        if i > 0 {
            r.append("\n\n");
        }
        let block = source_block_string(&snippets[i]);
        r.append(block.as_str());
        assert(r@ =~= head + joined_sources(ss.take(i + 1)));
    }
    assert(ss.take(snippets.len() as int) == ss);
    r.append("\"\n\n\nlocal current time: ");
    r.append(time);
    r.append("\n\n\nAnswer this question: '");
    r.append(question);
    r.append("'.");
    assert(r@ =~= summary_prompt_text(ss, time@, question@));
    r
}

/// The summary prompt for a question asked now.
pub fn summary_prompt_now(snippets: &Vec<SnippetInfo>, question: &str) -> (r: String)
    ensures
        exists|t: Seq<char>|
            r@ == summary_prompt_text(crate::snippet::snippet_views(snippets@), t, question@),
{
    let time = local_time_rfc2822();
    summary_prompt(snippets, time.as_str(), question)
}

} // verus!
