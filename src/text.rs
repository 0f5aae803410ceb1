//! Text handling: white space, splitting into trimmed pieces, and cutting a
//! long text into chunks that end at word boundaries.
use vstd::prelude::*;

verus! {

/// Whether a character has Unicode's White_Space property: tab, line
/// feed, vertical tab, form feed, carriage return, space, next line,
/// no-break space, ogham space mark, the spaces U+2000 to U+200A, line and
/// paragraph separators, narrow no-break space, medium mathematical space,
/// and ideographic space.
pub open spec fn white_space(c: char) -> bool {
    let u = c as u32;
    ||| 0x9 <= u <= 0xD
    ||| u == 0x20
    ||| u == 0x85
    ||| u == 0xA0
    ||| u == 0x1680
    ||| 0x2000 <= u <= 0x200A
    ||| u == 0x2028
    ||| u == 0x2029
    ||| u == 0x202F
    ||| u == 0x205F
    ||| u == 0x3000
}

/// Whether a character has Unicode's White_Space property.
pub fn is_white_space(c: char) -> (r: bool)
    ensures
        r == white_space(c),
{
    let u = c as u32;
    (0x9 <= u && u <= 0xD) || u == 0x20 || u == 0x85 || u == 0xA0 || u == 0x1680 || (0x2000 <= u
        && u <= 0x200A) || u == 0x2028 || u == 0x2029 || u == 0x202F || u == 0x205F || u == 0x3000
}

/// The text without its leading white space.
pub open spec fn trim_start(s: Seq<char>) -> Seq<char>
    decreases s.len(),
{
    if s.len() > 0 && white_space(s[0]) {
        trim_start(s.drop_first())
    } else {
        s
    }
}

/// The text without its trailing white space.
pub open spec fn trim_end(s: Seq<char>) -> Seq<char>
    decreases s.len(),
{
    if s.len() > 0 && white_space(s.last()) {
        trim_end(s.drop_last())
    } else {
        s
    }
}

/// The text without leading and trailing white space.
pub open spec fn trimmed(s: Seq<char>) -> Seq<char> {
    trim_end(trim_start(s))
}

/// The text without leading and trailing white space.
pub fn trim_str(s: &str) -> (r: String)
    ensures
        r@ == trimmed(s@),
{
    let c = chars_of(s);
    let n = c.len();
    let ghost v = c@;
    let mut lo: usize = 0;
    assert(v.skip(0) == v);
    while lo < n && is_white_space(c[lo])
        invariant
            lo <= n,
            n == v.len(),
            v == c@,
            trim_start(v) == trim_start(v.skip(lo as int)),
        decreases n - lo,
    {
        assert(v.skip(lo as int).drop_first() == v.skip(lo + 1));
        assert(v.skip(lo as int)[0] == v[lo as int]);
        lo = lo + 1;
    }
    if lo < n {
        assert(v.skip(lo as int)[0] == v[lo as int]);
    } else {
        assert(v.skip(lo as int).len() == 0);
    }
    assert(trim_start(v) == v.subrange(lo as int, n as int));
    let mut hi: usize = n;
    while hi > lo && is_white_space(c[hi - 1])
        invariant
            lo <= hi <= n,
            n == v.len(),
            v == c@,
            trimmed(v) == trim_end(v.subrange(lo as int, hi as int)),
        decreases hi,
    {
        assert(v.subrange(lo as int, hi as int).drop_last() == v.subrange(lo as int, hi - 1));
        assert(v.subrange(lo as int, hi as int).last() == v[hi - 1]);
        hi = hi - 1;
    }
    if hi > lo {
        assert(v.subrange(lo as int, hi as int).last() == v[hi - 1]);
    }
    s.substring_char(lo, hi).to_owned()
}

/// The views of a list of strings.
pub open spec fn string_views(v: Seq<String>) -> Seq<Seq<char>> {
    v.map_values(|x: String| x@)
}

/// The characters of a text, in order.
pub fn chars_of(s: &str) -> (r: Vec<char>)
    ensures
        r@ == s@,
{
    let mut r: Vec<char> = Vec::new();
    for c in it: s.chars()
        invariant
            it.seq() == s@,
            r@ == it.seq().take(it.index() as int),
    {
        r.push(c);
    }
    r
}

/// The pieces between the separators, as `str::split` gives them: one more
/// piece than there are separators, empty pieces included.
pub open spec fn pieces(s: Seq<char>, sep: char) -> Seq<Seq<char>>
    decreases s.len(),
{
    if s.len() == 0 {
        seq![seq![]]
    } else {
        let p = pieces(s.drop_last(), sep);
        if s.last() == sep {
            p.push(seq![])
        } else {
            p.update(p.len() - 1, p.last().push(s.last()))
        }
    }
}

/// The non-empty pieces, each trimmed.
pub open spec fn kept_pieces(ps: Seq<Seq<char>>) -> Seq<Seq<char>>
    decreases ps.len(),
{
    if ps.len() == 0 {
        seq![]
    } else {
        let r = kept_pieces(ps.drop_last());
        if ps.last().len() > 0 {
            r.push(trimmed(ps.last()))
        } else {
            r
        }
    }
}

/// Splits on `sep`, drops the empty pieces and trims the others.
pub open spec fn split_trimmed(s: Seq<char>, sep: char) -> Seq<Seq<char>> {
    kept_pieces(pieces(s, sep))
}

pub proof fn lemma_pieces_nonempty(s: Seq<char>, sep: char)
    ensures
        pieces(s, sep).len() >= 1,
    decreases s.len(),
{
    if s.len() > 0 {
        lemma_pieces_nonempty(s.drop_last(), sep);
    }
}

/// Splits a text on a separator, drops the empty pieces and trims the rest.
pub fn split_nonempty_trimmed(s: &str, sep: char) -> (r: Vec<String>)
    ensures
        string_views(r@) == split_trimmed(s@, sep),
{
    let c = chars_of(s);
    let n = c.len();
    let mut r: Vec<String> = Vec::new();
    let mut start: usize = 0;
    for i in 0..n
        invariant
            n == c.len(),
            c@ == s@,
            start <= i,
            pieces(c@.take(i as int), sep).len() >= 1,
            pieces(c@.take(i as int), sep).last() == c@.subrange(start as int, i as int),
            string_views(r@) == kept_pieces(pieces(c@.take(i as int), sep).drop_last()),
    {
        let ghost p = pieces(c@.take(i as int), sep);
        proof {
            let t = c@.take(i + 1);
            assert(t.drop_last() == c@.take(i as int));
            assert(t.last() == c@[i as int]);
        }
        if c[i] == sep {
            if i > start {
                let piece = trim_str(s.substring_char(start, i));
                r.push(piece);
                assert(p.push(seq![]).drop_last() == p);
                assert(string_views(r@) =~= kept_pieces(p.push(seq![]).drop_last()));
            } else {
                assert(p.push(seq![]).drop_last() == p);
                assert(string_views(r@) =~= kept_pieces(p.push(seq![]).drop_last()));
            }
            start = i + 1;
            assert(c@.subrange(start as int, start as int) =~= seq![]);
        } else {
            let ghost q = p.update(p.len() - 1, p.last().push(c@[i as int]));
            assert(q.drop_last() =~= p.drop_last());
            assert(q.last() =~= c@.subrange(start as int, i + 1));
        }
    }
    let ghost p = pieces(c@.take(n as int), sep);
    assert(c@.take(n as int) == c@);
    if n > start {
        let piece = trim_str(s.substring_char(start, n));
        r.push(piece);
        assert(string_views(r@) =~= kept_pieces(p));
    }
    r
}

/// The position just after the last white space in `s[lo..hi]`.
pub open spec fn space_cut(s: Seq<char>, lo: int, hi: int) -> Option<int>
    decreases hi - lo,
{
    if hi <= lo {
        None
    } else if white_space(s[hi - 1]) {
        Some(hi)
    } else {
        space_cut(s, lo, hi - 1)
    }
}

/// Where the chunk that starts at `start` ends: after at most `size`
/// characters, rewound to just after the last white space in the chunk when
/// the cut would fall inside the text and the chunk holds white space.
pub open spec fn chunk_end(s: Seq<char>, start: int, size: nat) -> int {
    let end = if start + size < s.len() {
        start + size
    } else {
        s.len() as int
    };
    if end < s.len() {
        match space_cut(s, start, end) {
            Some(p) => p,
            None => end,
        }
    } else {
        end
    }
}

/// The chunks of `s` from `start` on. (A chunk always ends after its start
/// and within the text; the guard only makes that visible to termination.)
pub open spec fn chunks_from(s: Seq<char>, start: int, size: nat) -> Seq<Seq<char>>
    decreases s.len() - start,
{
    let e = chunk_end(s, start, size);
    if start < 0 || start >= s.len() || e <= start || e > s.len() {
        seq![]
    } else {
        seq![s.subrange(start, e)] + chunks_from(s, e, size)
    }
}

/// The chunks a text is cut into, for a chunk size in characters.
pub open spec fn text_chunks(s: Seq<char>, size: nat) -> Seq<Seq<char>> {
    chunks_from(s, 0, size)
}

proof fn lemma_space_cut_bounds(s: Seq<char>, lo: int, hi: int)
    ensures
        space_cut(s, lo, hi) matches Some(p) ==> lo < p <= hi,
    decreases hi - lo,
{
    if hi > lo && !white_space(s[hi - 1]) {
        lemma_space_cut_bounds(s, lo, hi - 1);
    }
}

proof fn lemma_chunk_end_advances(s: Seq<char>, start: int, size: nat)
    requires
        0 <= start < s.len(),
        size > 0,
    ensures
        start < chunk_end(s, start, size) <= start + size,
        chunk_end(s, start, size) <= s.len(),
{
    let end = if start + size < s.len() {
        start + size
    } else {
        s.len() as int
    };
    lemma_space_cut_bounds(s, start, end);
}

proof fn lemma_chunks_from_cover(s: Seq<char>, start: int, size: nat)
    requires
        0 <= start <= s.len(),
        size > 0,
    ensures
        chunks_from(s, start, size).flatten() == s.skip(start),
        forall|i: int|
            0 <= i < chunks_from(s, start, size).len() ==> 0 < (#[trigger] chunks_from(
                s,
                start,
                size,
            )[i]).len() <= size,
        forall|i: int|
            0 <= i < chunks_from(s, start, size).len() ==> exists|a: int, b: int|
                start <= a <= b <= s.len() && #[trigger] chunks_from(s, start, size)[i]
                    == s.subrange(a, b),
    decreases s.len() - start,
{
    let cs = chunks_from(s, start, size);
    if start >= s.len() {
        assert(s.skip(start) =~= seq![]);
    } else {
        lemma_chunk_end_advances(s, start, size);
        let e = chunk_end(s, start, size);
        lemma_chunks_from_cover(s, e, size);
        let rest = chunks_from(s, e, size);
        assert(cs == seq![s.subrange(start, e)] + rest);
        assert(cs.drop_first() == rest);
        assert(s.skip(start) =~= s.subrange(start, e) + s.skip(e));
        assert forall|i: int| 0 <= i < cs.len() implies 0 < (#[trigger] cs[i]).len() <= size by {
            if i > 0 {
                assert(cs[i] == rest[i - 1]);
            }
        }
        assert forall|i: int| 0 <= i < cs.len() implies exists|a: int, b: int|
            start <= a <= b <= s.len() && #[trigger] cs[i] == s.subrange(a, b) by {
            if i > 0 {
                assert(cs[i] == rest[i - 1]);
            } else {
                assert(cs[0] == s.subrange(start, e));
            }
        }
    }
}

/// For a positive chunk size, the chunks of a text put back together give
/// the text, each chunk has between one and `size` characters, and each is
/// a piece of the text.
pub proof fn lemma_chunk_coverage(s: Seq<char>, size: nat)
    requires
        size > 0,
    ensures
        text_chunks(s, size).flatten() == s,
        forall|i: int|
            0 <= i < text_chunks(s, size).len() ==> 0 < (#[trigger] text_chunks(s, size)[i]).len()
                <= size,
        forall|i: int|
            0 <= i < text_chunks(s, size).len() ==> exists|a: int, b: int|
                0 <= a <= b <= s.len() && #[trigger] text_chunks(s, size)[i] == s.subrange(a, b),
        text_chunks(s, size).len() == 0 <==> s.len() == 0,
{
    lemma_chunks_from_cover(s, 0, size);
    assert(s.skip(0) == s);
    if s.len() > 0 {
        lemma_chunk_end_advances(s, 0, size);
    }
}

/// Cuts a text into chunks of at most `chunk_size` characters. A cut that
/// would fall inside the text moves back to just after the last white space
/// of the chunk, when it has one.
pub fn split_into_chunks(text: &str, chunk_size: usize) -> (r: Vec<String>)
    requires
        chunk_size > 0,
    ensures
        string_views(r@) == text_chunks(text@, chunk_size as nat),
{
    let c = chars_of(text);
    let n = c.len();
    let ghost s = c@;
    let mut r: Vec<String> = Vec::new();
    let mut start: usize = 0;
    while start < n
        invariant
            n == c.len(),
            s == c@,
            s == text@,
            chunk_size > 0,
            start <= n,
            string_views(r@) + chunks_from(s, start as int, chunk_size as nat) == text_chunks(
                s,
                chunk_size as nat,
            ),
        decreases n - start,
    {
        let end: usize = if chunk_size < n - start {
            start + chunk_size
        } else {
            n
        };
        let mut cut: usize = end;
        if end < n {
            let mut j: usize = end;
            let mut found = false;
            while j > start && !found
                invariant
                    start <= j <= end,
                    end <= n,
                    n == c.len(),
                    s == c@,
                    !found ==> space_cut(s, start as int, end as int) == space_cut(
                        s,
                        start as int,
                        j as int,
                    ),
                    !found ==> cut == end,
                    found ==> space_cut(s, start as int, end as int) == Some(cut as int),
                decreases j + if found {
                    0int
                } else {
                    1int
                },
            {
                if is_white_space(c[j - 1]) {
                    found = true;
                    cut = j;
                } else {
                    j = j - 1;
                }
            }
        }
        proof {
            lemma_chunk_end_advances(s, start as int, chunk_size as nat);
            assert(cut == chunk_end(s, start as int, chunk_size as nat));
        }
        let chunk = text.substring_char(start, cut).to_owned();
        let ghost before = string_views(r@);
        r.push(chunk);
        assert(string_views(r@) =~= before.push(s.subrange(start as int, cut as int)));
        assert(string_views(r@) + chunks_from(s, cut as int, chunk_size as nat) =~= before
            + chunks_from(s, start as int, chunk_size as nat));
        start = cut;
    }
    assert(chunks_from(s, start as int, chunk_size as nat) =~= seq![]);
    assert(string_views(r@) =~= text_chunks(s, chunk_size as nat));
    r
}

} // verus!
