//! Search records: what each page contributes to the search index, and the
//! compact records the client shows.
//!
//! The index itself (tokens to scored postings) is built with `tantivy`
//! around these records.
use vstd::prelude::*;
use std::collections::HashMap;
use crate::plugins::code_include::opt_str;
use crate::order::{lemma_lex_lt_trans, lemma_lex_total, lex_le, lex_le_exec, lex_lt};
use crate::slug::str_views;
use crate::text::{chars_of, eq_vec, slice, string_from, trim_spec, trim_vec, CharClass};

verus! {

/// One indexable unit, usually one per page.
#[derive(Debug, Clone)]
pub struct SearchEntry {
    pub url: String,
    pub title: String,
    /// Optional section heading (for grouping results).
    pub section: Option<String>,
    pub body: String,
}

/// The compact record written to `docs.json` and returned to the client.
#[derive(Debug, Clone)]
pub struct SearchDoc {
    pub id: u32,
    pub url: String,
    pub title: String,
    pub section: Option<String>,
    /// The start of the body, for result snippets.
    pub snippet: String,
}

/// A document's score for one token (BM25 x 1000, clamped to `u16`).
#[derive(Clone, Copy, Debug, PartialEq, Eq)]
pub struct Posting {
    pub doc: u32,
    pub score: u16,
}

/// The version of the index format the client reads.
pub const FORMAT_VERSION: u8 = 1;

/// A built search index: the records, and each token's postings.
#[derive(Debug, Clone)]
pub struct SearchIndex {
    pub version: u8,
    pub docs: Vec<SearchDoc>,
    pub index: HashMap<String, Vec<Posting>>,
}

impl SearchIndex {
    /// The index of no pages.
    pub fn empty() -> (r: Self)
        ensures
            r.version == FORMAT_VERSION,
            r.docs@.len() == 0,
            r.index@.dom().is_empty(),
    {
        SearchIndex { version: FORMAT_VERSION, docs: Vec::new(), index: HashMap::new() }
    }
}

/// The length of a result snippet, in characters.
pub const SNIPPET_CHARS: usize = 160;

/// The trimmed body, cut to `max` characters with an ellipsis when longer.
pub open spec fn snippet_spec(body: Seq<char>, max: nat) -> Seq<char> {
    let b = trim_spec(body, CharClass::Ws);
    if b.len() <= max {
        b
    } else {
        b.take(max as int).push('…')
    }
}

pub fn make_snippet(body: &str, max_chars: usize) -> (r: String)
    ensures
        r@ == snippet_spec(body@, max_chars as nat),
{
    let b = trim_vec(&chars_of(body), CharClass::Ws);
    if b.len() <= max_chars {
        return string_from(b);
    }
    let mut out = slice(&b, 0, max_chars);
    out.push('…');
    assert(out@ =~= b@.take(max_chars as int).push('…'));
    string_from(out)
}

/// The record of entry `i`.
pub open spec fn doc_matches(d: SearchDoc, i: int, e: SearchEntry) -> bool {
    &&& d.id == i as u32
    &&& d.url@ == e.url@
    &&& d.title@ == e.title@
    &&& opt_str(d.section) == opt_str(e.section)
    &&& d.snippet@ == snippet_spec(e.body@, SNIPPET_CHARS as nat)
}

fn copy_opt(o: &Option<String>) -> (r: Option<String>)
    ensures
        opt_str(r) == opt_str(*o),
{
    match o {
        Some(s) => Some(string_from(chars_of(s.as_str()))),
        None => None,
    }
}

/// One record per entry, numbered in order.
pub fn materialize_docs(entries: &[SearchEntry]) -> (r: Vec<SearchDoc>)
    ensures
        r@.len() == entries@.len(),
        forall|i: int| 0 <= i < entries@.len() ==> doc_matches(#[trigger] r@[i], i, entries@[i]),
{
    let mut out: Vec<SearchDoc> = Vec::new();
    let mut i: usize = 0;
    while i < entries.len()
        invariant
            i <= entries.len(),
            out@.len() == i,
            forall|j: int| 0 <= j < i ==> doc_matches(#[trigger] out@[j], j, entries@[j]),
        decreases entries.len() - i,
    {
        let e = &entries[i];
        let d = SearchDoc {
            id: i as u32,
            url: string_from(chars_of(e.url.as_str())),
            title: string_from(chars_of(e.title.as_str())),
            section: copy_opt(&e.section),
            snippet: make_snippet(e.body.as_str(), SNIPPET_CHARS),
        };
        out.push(d);
        i = i + 1;
    }
    out
}

/// Postings ordered by score, highest first.
pub open spec fn by_score_desc(v: Seq<Posting>) -> bool {
    forall|i: int, j: int| 0 <= i < j < v.len() ==> (#[trigger] v[i]).score >= (#[trigger] v[j]).score
}

/// The postings of a list with score `k`, in their order.
pub open spec fn with_score(v: Seq<Posting>, k: u16) -> Seq<Posting> {
    v.filter(score_is(k))
}

/// Whether a posting has score `k`.
pub open spec fn score_is(k: u16) -> spec_fn(Posting) -> bool {
    |p: Posting| p.score == k
}

/// A list none of whose postings has score `k` has none with score `k`.
proof fn lemma_none_with_score(v: Seq<Posting>, k: u16)
    requires
        forall|i: int| 0 <= i < v.len() ==> (#[trigger] v[i]).score != k,
    ensures
        with_score(v, k) == Seq::<Posting>::empty(),
    decreases v.len(),
{
    reveal(Seq::filter);
    if v.len() > 0 {
        lemma_none_with_score(v.drop_last(), k);
    }
}

/// Inserting `x` after every posting scoring at least as much, and before
/// the rest, adds `x` at the end of its score's group and leaves the other
/// groups alone.
proof fn lemma_insert_keeps_groups(old_out: Seq<Posting>, p: int, x: Posting, taken: Seq<Posting>, k: u16)
    requires
        0 <= p <= old_out.len(),
        by_score_desc(old_out),
        p < old_out.len() ==> old_out[p].score < x.score,
        with_score(old_out, k) == with_score(taken, k),
    ensures
        with_score(old_out.insert(p, x), k) == with_score(taken.push(x), k),
{
    let pred = score_is(k);
    let front = old_out.take(p);
    let back = old_out.skip(p);
    let out = old_out.insert(p, x);
    assert(old_out =~= front + back);
    assert(out =~= (front + seq![x]) + back);
    assert(seq![x] =~= Seq::<Posting>::empty().push(x));
    Seq::filter_distributes_over_add(front + seq![x], back, pred);
    Seq::filter_distributes_over_add(front, seq![x], pred);
    Seq::filter_distributes_over_add(front, back, pred);
    Seq::<Posting>::empty().lemma_filter_push(x, pred);
    taken.lemma_filter_push(x, pred);
    assert(Seq::<Posting>::empty().filter(pred) =~= Seq::<Posting>::empty()) by {
        reveal(Seq::filter);
    }
    if k == x.score {
        assert forall|b: int| 0 <= b < back.len() implies (#[trigger] back[b]).score != k by {
            assert(back[b] == old_out[p + b]);
            if b > 0 {
                assert(old_out[p].score >= old_out[p + b].score);
            }
        }
        lemma_none_with_score(back, k);
        assert(with_score(out, k) =~= with_score(front, k).push(x));
        assert(with_score(old_out, k) =~= with_score(front, k));
    } else {
        assert(with_score(out, k) =~= with_score(front, k) + with_score(back, k));
    }
}

/// Sort postings by score, highest first, keeping the order of equal
/// scores: the postings of each score come out as they went in.
pub fn sort_postings(v: Vec<Posting>) -> (r: Vec<Posting>)
    ensures
        by_score_desc(r@),
        forall|k: u16| #[trigger] with_score(r@, k) == with_score(v@, k),
        r@.to_multiset() == v@.to_multiset(),
{
    let mut out: Vec<Posting> = Vec::new();
    let mut i: usize = 0;
    proof {
        assert(out@ =~= Seq::<Posting>::empty());
        assert(v@.take(0) =~= Seq::<Posting>::empty());
    }
    while i < v.len()
        invariant
            i <= v.len(),
            by_score_desc(out@),
            forall|k: u16| #[trigger] with_score(out@, k) == with_score(v@.take(i as int), k),
            out@.to_multiset() == v@.take(i as int).to_multiset(),
        decreases v.len() - i,
    {
        let x = v[i];
        let mut p: usize = 0;
        while p < out.len() && out[p].score >= x.score
            invariant
                p <= out.len(),
                forall|a: int| 0 <= a < p ==> (#[trigger] out@[a]).score >= x.score,
            decreases out.len() - p,
        {
            p = p + 1;
        }
        let ghost old_out = out@;
        out.insert(p, x);
        proof {
            assert forall|a: int, b: int| 0 <= a < b < out@.len() implies (#[trigger] out@[a]).score >= (#[trigger] out@[b]).score by {
                if b < p {
                    assert(out@[a] == old_out[a] && out@[b] == old_out[b]);
                } else if b == p {
                    assert(out@[a] == old_out[a]);
                } else if a < p {
                    assert(out@[a] == old_out[a] && out@[b] == old_out[b - 1]);
                    assert(old_out[p as int].score < x.score);
                    assert(old_out[p as int].score >= old_out[b - 1].score);
                } else if a == p {
                    assert(out@[b] == old_out[b - 1]);
                    assert(old_out[p as int].score < x.score);
                    if b - 1 > p {
                        assert(old_out[p as int].score >= old_out[b - 1].score);
                    }
                } else {
                    assert(out@[a] == old_out[a - 1] && out@[b] == old_out[b - 1]);
                }
            }
            vstd::seq_lib::to_multiset_insert(old_out, p as int, x);
            assert(v@.take(i + 1) =~= v@.take(i as int).push(x));
            v@.take(i as int).to_multiset_ensures();
            assert forall|k: u16| #[trigger] with_score(out@, k) == with_score(v@.take(i + 1), k) by {
                lemma_insert_keeps_groups(old_out, p as int, x, v@.take(i as int), k);
            }
        }
        i = i + 1;
    }
    assert(v@.take(v@.len() as int) =~= v@);
    out
}


/// The tokens `tantivy`'s English analyzer yields for `text`, in order:
/// words split at non-alphanumeric characters, lowercased, reduced by the
/// Snowball English stemmer. Only named here.
pub uninterp spec fn english_tokens_of(text: Seq<char>) -> Seq<Seq<char>>;

/// `tantivy`'s analyzer (`SimpleTokenizer`, `LowerCaser`, English
/// `Stemmer`) run over a text, its tokens collected in order.
#[verifier::external_body]
fn english_tokens(text: &str) -> (r: Vec<String>)
    ensures
        str_views(r@) == english_tokens_of(text@),
{
    let mut analyzer = tantivy::tokenizer::TextAnalyzer::builder(tantivy::tokenizer::SimpleTokenizer::default())
        .filter(tantivy::tokenizer::LowerCaser)
        .filter(tantivy::tokenizer::Stemmer::new(tantivy::tokenizer::Language::English))
        .build();
    let mut stream = analyzer.token_stream(text);
    let mut out: Vec<String> = Vec::new();
    while stream.advance() {
        out.push(stream.token().text.clone());
    }
    out
}

/// Strings in strictly ascending `str` order (so none twice).
pub open spec fn strictly_ascending(v: Seq<Seq<char>>) -> bool {
    forall|i: int, j: int| 0 <= i < j < v.len() ==> lex_lt(#[trigger] v[i], #[trigger] v[j])
}

/// Every token of the titles and bodies of `entries`.
pub open spec fn tokens_of_entries(entries: Seq<SearchEntry>) -> Set<Seq<char>>
    decreases entries.len(),
{
    if entries.len() == 0 {
        Set::empty()
    } else {
        let e = entries.last();
        tokens_of_entries(entries.drop_last()) + english_tokens_of(e.title@).to_set()
            + english_tokens_of(e.body@).to_set()
    }
}

/// A token is collected exactly when the analyzer yields it for the title
/// or the body of some entry.
pub proof fn lemma_tokens_of_entries(entries: Seq<SearchEntry>, t: Seq<char>)
    ensures
        tokens_of_entries(entries).contains(t) <==> exists|i: int|
            0 <= i < entries.len() && (english_tokens_of((#[trigger] entries[i]).title@).contains(t)
                || english_tokens_of(entries[i].body@).contains(t)),
    decreases entries.len(),
{
    if entries.len() > 0 {
        let init = entries.drop_last();
        let e = entries.last();
        let n = entries.len() - 1;
        lemma_tokens_of_entries(init, t);
        assert(entries[n] == e);
        if tokens_of_entries(entries).contains(t) {
            if tokens_of_entries(init).contains(t) {
                let i = choose|i: int|
                    0 <= i < init.len() && (english_tokens_of((#[trigger] init[i]).title@).contains(t)
                        || english_tokens_of(init[i].body@).contains(t));
                assert(entries[i] == init[i]);
            } else {
                assert(english_tokens_of(entries[n].title@).contains(t) || english_tokens_of(entries[n].body@).contains(t));
            }
        }
        if exists|i: int|
            0 <= i < entries.len() && (english_tokens_of((#[trigger] entries[i]).title@).contains(t)
                || english_tokens_of(entries[i].body@).contains(t)) {
            let i = choose|i: int|
                0 <= i < entries.len() && (english_tokens_of((#[trigger] entries[i]).title@).contains(t)
                    || english_tokens_of(entries[i].body@).contains(t));
            if i < n {
                assert(init[i] == entries[i]);
                assert(tokens_of_entries(init).contains(t));
            }
        }
    }
}

proof fn lemma_insert_to_set(s: Seq<Seq<char>>, p: int, x: Seq<char>)
    requires
        0 <= p <= s.len(),
    ensures
        s.insert(p, x).to_set() == s.to_set().insert(x),
{
    let t = s.insert(p, x);
    assert forall|y: Seq<char>| t.to_set().contains(y) <==> s.to_set().insert(x).contains(y) by {
        if t.contains(y) {
            let k = choose|k: int| 0 <= k < t.len() && t[k] == y;
            if k < p {
                assert(s[k] == y);
            } else if k > p {
                assert(s[k - 1] == y);
            }
        }
        if y == x {
            assert(t[p] == x);
        } else if s.contains(y) {
            let k = choose|k: int| 0 <= k < s.len() && s[k] == y;
            if k < p {
                assert(t[k] == y);
            } else {
                assert(t[k + 1] == y);
            }
        }
    }
    assert(t.to_set() =~= s.to_set().insert(x));
}

/// Add a token to a strictly ascending list, keeping it so.
fn insert_token(out: &mut Vec<String>, t: String)
    requires
        strictly_ascending(str_views(old(out)@)),
    ensures
        strictly_ascending(str_views(final(out)@)),
        str_views(final(out)@).to_set() == str_views(old(out)@).to_set().insert(t@),
{
    let ghost o = str_views(out@);
    let tv = chars_of(t.as_str());
    let mut p: usize = 0;
    while p < out.len()
        invariant
            p <= out.len(),
            o == str_views(out@),
            tv@ == t@,
            strictly_ascending(o),
            forall|a: int| 0 <= a < p ==> lex_lt(#[trigger] o[a], t@),
        ensures
            p <= out.len(),
            forall|a: int| 0 <= a < p ==> lex_lt(#[trigger] o[a], t@),
            p < out.len() ==> lex_le(t@, o[p as int]),
        decreases out.len() - p,
    {
        let op = chars_of(out[p].as_str());
        assert(o[p as int] == out@[p as int]@);
        if lex_le_exec(&tv, &op) {
            break;
        }
        proof {
            lemma_lex_total(t@, op@);
        }
        p = p + 1;
    }
    if p < out.len() {
        let op = chars_of(out[p].as_str());
        assert(o[p as int] == out@[p as int]@);
        if eq_vec(&op, &tv) {
            assert(o.contains(t@));
            assert(o.to_set().insert(t@) =~= o.to_set());
            return;
        }
    }
    let ghost tt = t@;
    out.insert(p, t);
    proof {
        assert(str_views(out@) =~= o.insert(p as int, tt));
        lemma_insert_to_set(o, p as int, tt);
        let n = str_views(out@);
        assert forall|a: int, b: int| 0 <= a < b < n.len() implies lex_lt(#[trigger] n[a], #[trigger] n[b]) by {
            if b < p {
                assert(n[a] == o[a] && n[b] == o[b]);
            } else if b == p {
                assert(n[a] == o[a] && n[b] == tt);
            } else if a < p {
                assert(n[a] == o[a] && n[b] == o[b - 1]);
                assert(lex_lt(tt, o[p as int]));
                if b - 1 > p {
                    lemma_lex_lt_trans(tt, o[p as int], o[b - 1]);
                }
                lemma_lex_lt_trans(o[a], tt, o[b - 1]);
            } else if a == p {
                assert(n[b] == o[b - 1]);
                assert(lex_lt(tt, o[p as int]));
                if b - 1 > p {
                    lemma_lex_lt_trans(tt, o[p as int], o[b - 1]);
                }
            } else {
                assert(n[a] == o[a - 1] && n[b] == o[b - 1]);
            }
        }
    }
}

/// Add every token of a list.
fn insert_tokens(out: &mut Vec<String>, ts: Vec<String>)
    requires
        strictly_ascending(str_views(old(out)@)),
    ensures
        strictly_ascending(str_views(final(out)@)),
        str_views(final(out)@).to_set() == str_views(old(out)@).to_set() + str_views(ts@).to_set(),
{
    let ghost start = str_views(out@).to_set();
    let ghost tv = str_views(ts@);
    let n = ts.len();
    let mut i: usize = 0;
    let mut rest = ts;
    assert(str_views(rest@) =~= tv.skip(0));
    while i < n
        invariant
            i <= n,
            n == tv.len(),
            str_views(rest@) == tv.skip(i as int),
            strictly_ascending(str_views(out@)),
            str_views(out@).to_set() == start + tv.take(i as int).to_set(),
        decreases n - i,
    {
        let ghost r0 = rest@;
        assert(str_views(r0).len() == r0.len());
        assert(tv.skip(i as int)[0] == tv[i as int]);
        assert(str_views(r0)[0] == r0[0]@);
        let t = rest.remove(0);
        assert(t@ == tv[i as int]);
        assert forall|k: int| 0 <= k < rest@.len() implies #[trigger] str_views(rest@)[k] == tv.skip(i + 1)[k] by {
            assert(rest@[k] == r0[k + 1]);
            assert(str_views(r0)[k + 1] == r0[k + 1]@);
        }
        assert(str_views(rest@) =~= tv.skip(i + 1));
        insert_token(out, t);
        proof {
            let x = tv[i as int];
            assert(tv.take(i + 1) =~= tv.take(i as int) + seq![x]);
            Seq::<Seq<char>>::lemma_to_set_insert_commutes(tv.take(i as int), x);
            assert(tv.take(i + 1).to_set() =~= tv.take(i as int).to_set().insert(x));
            assert((start + tv.take(i as int).to_set()).insert(x) =~= start + tv.take(i as int).to_set().insert(x));
            assert(str_views(out@).to_set() =~= start + tv.take(i + 1).to_set());
        }
        i = i + 1;
    }
    assert(tv.take(i as int) =~= tv);
}

/// Every distinct token of the entries' titles and bodies, in ascending
/// order.
pub fn collect_all_tokens(entries: &[SearchEntry]) -> (r: Vec<String>)
    ensures
        strictly_ascending(str_views(r@)),
        str_views(r@).to_set() == tokens_of_entries(entries@),
{
    let mut out: Vec<String> = Vec::new();
    assert(str_views(out@).to_set() =~= Set::<Seq<char>>::empty());
    let mut i: usize = 0;
    while i < entries.len()
        invariant
            i <= entries@.len(),
            strictly_ascending(str_views(out@)),
            str_views(out@).to_set() == tokens_of_entries(entries@.take(i as int)),
        decreases entries@.len() - i,
    {
        assert(entries@.take(i + 1).drop_last() =~= entries@.take(i as int));
        let title = english_tokens(entries[i].title.as_str());
        insert_tokens(&mut out, title);
        let body = english_tokens(entries[i].body.as_str());
        insert_tokens(&mut out, body);
        i = i + 1;
    }
    assert(entries@.take(i as int) =~= entries@);
    out
}

} // verus!
