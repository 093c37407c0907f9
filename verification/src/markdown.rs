//! Markdown to HTML plus heading metadata.
use vstd::prelude::*;
use crate::error::FarolError;
use crate::slug::{is_first_free, slugify_spec, string_set, unique_slug};
use crate::text::{chars_of, push_all, string_from, trim_spec, trim_vec, CharClass};

verus! {

/// What the heading walk reads of a markdown syntax-tree node.
#[derive(Debug)]
pub enum MdKind {
    /// A heading of the given rank (1 to 6).
    Heading(u8),
    /// Literal text.
    Text(String),
    /// Inline code.
    InlineCode(String),
    /// Any other node (emphasis, links, paragraphs, ...).
    Other,
}

/// A node of the markdown syntax tree with its children in order.
#[derive(Debug)]
pub struct MdNode {
    pub kind: MdKind,
    pub children: Vec<MdNode>,
}

/// The syntax tree `markdown::to_mdast` builds for `text` with the GFM
/// constructs on and frontmatter off, or `None` when it reports an error.
pub uninterp spec fn mdast_of(text: Seq<char>) -> Option<MdNode>;

/// The HTML `markdown::to_html_with_options` renders for `text` (GFM,
/// raw HTML passed through, dangerous protocols refused), or `None` when it
/// reports an error.
pub uninterp spec fn md_html_of(text: Seq<char>) -> Option<Seq<char>>;

/// The syntax-tree node type of the `markdown` crate, carried opaquely.
#[verifier::external_type_specification]
#[verifier::external_body]
pub struct ExMdastNode(markdown::mdast::Node);

/// The tree, one node for one node: variants the heading walk reads keep
/// their field, the rest become `Other`.
#[verifier::external_body]
fn tree_of(n: &markdown::mdast::Node) -> MdNode {
    let kind = match n {
        markdown::mdast::Node::Heading(h) => MdKind::Heading(h.depth),
        markdown::mdast::Node::Text(t) => MdKind::Text(t.value.clone()),
        markdown::mdast::Node::InlineCode(c) => MdKind::InlineCode(c.value.clone()),
        _ => MdKind::Other,
    };
    let children = match n.children() {
        Some(cs) => cs.iter().map(tree_of).collect(),
        None => Vec::new(),
    };
    MdNode { kind, children }
}

/// `markdown::to_mdast` with GFM constructs and frontmatter off; the tree
/// is converted node for node. What the parser builds is only named.
#[verifier::external_body]
fn parse_tree(text: &str) -> (r: Result<MdNode, String>)
    ensures
        r is Ok <==> mdast_of(text@) is Some,
        r matches Ok(t) ==> mdast_of(text@) == Some(t),
{
    let opts = markdown::ParseOptions {
        constructs: markdown::Constructs { frontmatter: false, ..markdown::Constructs::gfm() },
        ..markdown::ParseOptions::gfm()
    };
    markdown::to_mdast(text, &opts).map(|n| tree_of(&n)).map_err(|e| e.to_string())
}

/// `markdown::to_html_with_options` with GFM parsing (frontmatter off) and
/// GFM compiling with raw HTML allowed and dangerous protocols refused.
/// What it renders is only named.
#[verifier::external_body]
fn render_html(text: &str) -> (r: Result<String, String>)
    ensures
        r is Ok <==> md_html_of(text@) is Some,
        r matches Ok(h) ==> md_html_of(text@) == Some(h@),
{
    let opts = markdown::Options {
        parse: markdown::ParseOptions {
            constructs: markdown::Constructs { frontmatter: false, ..markdown::Constructs::gfm() },
            ..markdown::ParseOptions::gfm()
        },
        compile: markdown::CompileOptions {
            allow_dangerous_html: true,
            allow_dangerous_protocol: false,
            ..markdown::CompileOptions::gfm()
        },
    };
    markdown::to_html_with_options(text, &opts).map_err(|e| e.to_string())
}

/// The inline text of a list of nodes, before trimming: literal text and
/// code as is, other nodes by their own (trimmed) inline text.
pub open spec fn concat_inline(ns: Seq<MdNode>) -> Seq<char>
    decreases ns,
{
    if ns.len() == 0 {
        seq![]
    } else {
        proof {
            assert(decreases_to!(ns => ns[ns.len() - 1]));
        }
        concat_inline(ns.drop_last()) + node_text(ns.last())
    }
}

pub open spec fn node_text(n: MdNode) -> Seq<char>
    decreases n,
{
    match n.kind {
        MdKind::Text(v) => v@,
        MdKind::InlineCode(v) => v@,
        _ => trim_spec(concat_inline(n.children@), CharClass::Ws),
    }
}

/// The plain text of a heading's children.
pub open spec fn inline_text(ns: Seq<MdNode>) -> Seq<char> {
    trim_spec(concat_inline(ns), CharClass::Ws)
}

/// The `(rank, text)` of every heading of a tree, in document order.
pub open spec fn heads_of(n: MdNode) -> Seq<(u8, Seq<char>)>
    decreases n,
{
    (match n.kind {
        MdKind::Heading(d) => seq![(d, inline_text(n.children@))],
        _ => seq![],
    }) + heads_list(n.children@)
}

pub open spec fn heads_list(ns: Seq<MdNode>) -> Seq<(u8, Seq<char>)>
    decreases ns,
{
    if ns.len() == 0 {
        seq![]
    } else {
        proof {
            assert(decreases_to!(ns => ns[ns.len() - 1]));
        }
        heads_list(ns.drop_last()) + heads_of(ns.last())
    }
}

fn concat_inline_exec(ns: &Vec<MdNode>) -> (r: Vec<char>)
    ensures
        r@ == concat_inline(ns@),
    decreases ns@,
{
    let mut out: Vec<char> = Vec::new();
    let mut i: usize = 0;
    while i < ns.len()
        invariant
            i <= ns.len(),
            out@ == concat_inline(ns@.take(i as int)),
        decreases ns.len() - i,
    {
        assert(ns@.take(i + 1).drop_last() =~= ns@.take(i as int));
        assert(ns@.take(i + 1).last() == ns@[i as int]);
        let n = &ns[i];
        match &n.kind {
            MdKind::Text(v) => {
                let c = chars_of(v.as_str());
                assert(node_text(*n) == c@);
                push_all(&mut out, &c);
            },
            MdKind::InlineCode(v) => {
                let c = chars_of(v.as_str());
                assert(node_text(*n) == c@);
                push_all(&mut out, &c);
            },
            _ => {
                assert(decreases_to!(ns@ => ns@[i as int]));
                let inner = concat_inline_exec(&n.children);
                let t = trim_vec(&inner, CharClass::Ws);
                assert(node_text(*n) == t@);
                push_all(&mut out, &t);
            },
        }
        assert(out@ == concat_inline(ns@.take(i + 1)));
        i = i + 1;
    }
    assert(ns@.take(ns@.len() as int) =~= ns@);
    out
}

fn heads_exec(n: &MdNode, out: &mut Vec<(u8, Vec<char>)>)
    ensures
        pairs_view(final(out)@) == pairs_view(old(out)@) + heads_of(*n),
    decreases n,
{
    let ghost o = pairs_view(out@);
    match &n.kind {
        MdKind::Heading(d) => {
            let inner = concat_inline_exec(&n.children);
            let t = trim_vec(&inner, CharClass::Ws);
            let ghost tv = t@;
            out.push((*d, t));
            assert(pairs_view(out@) =~= o.push((*d, tv)));
        },
        _ => {},
    }
    let ghost mid = pairs_view(out@);
    let mut i: usize = 0;
    while i < n.children.len()
        invariant
            i <= n.children@.len(),
            pairs_view(out@) == mid + heads_list(n.children@.take(i as int)),
        decreases n.children.len() - i,
    {
        assert(n.children@.take(i + 1).drop_last() =~= n.children@.take(i as int));
        assert(n.children@.take(i + 1).last() == n.children@[i as int]);
        assert(decreases_to!(*n => n.children@[i as int]));
        let ghost before = pairs_view(out@);
        heads_exec(&n.children[i], out);
        assert(pairs_view(out@) =~= mid + heads_list(n.children@.take(i + 1)));
        i = i + 1;
    }
    assert(n.children@.take(n.children@.len() as int) =~= n.children@);
    proof {
        match n.kind {
            MdKind::Heading(d) => {
                assert(pairs_view(out@) =~= o + heads_of(*n));
            },
            _ => {
                assert(mid == o);
                assert(pairs_view(out@) =~= o + heads_of(*n));
            },
        }
    }
}

pub open spec fn pairs_view(v: Seq<(u8, Vec<char>)>) -> Seq<(u8, Seq<char>)> {
    v.map_values(|p: (u8, Vec<char>)| (p.0, p.1@))
}

/// Parsed result of a markdown source.
#[derive(Debug, Clone)]
pub struct ParsedMarkdown {
    /// Raw HTML body.
    pub html: String,
    /// First H1 text, or `None` if no H1 exists.
    pub title: Option<String>,
    /// Flat heading list: `(level, text, slug)`.
    pub headings: Vec<(u8, String, String)>,
}

/// The slugs of the first `k` headings, as a set.
pub open spec fn slug_set(hs: Seq<(u8, String, String)>, k: int) -> Set<Seq<char>> {
    hs.take(k).map_values(|h: (u8, String, String)| h.2@).to_set()
}

/// The headings of `tree` with slugs unique across the page: each slug is
/// the first free variant of the heading text's slug.
pub open spec fn headings_ok(hs: Seq<(u8, String, String)>, tree: MdNode) -> bool {
    &&& hs.len() == heads_of(tree).len()
    &&& forall|k: int|
        0 <= k < hs.len() ==> (#[trigger] hs[k]).0 == heads_of(tree)[k].0 && hs[k].1@ == heads_of(
            tree,
        )[k].1 && is_first_free(slugify_spec(hs[k].1@), slug_set(hs, k), hs[k].2@)
}

/// The text of the first heading of rank 1.
pub open spec fn first_h1(hs: Seq<(u8, Seq<char>)>) -> Option<Seq<char>>
    decreases hs.len(),
{
    if hs.len() == 0 {
        None
    } else if hs[0].0 == 1 {
        Some(hs[0].1)
    } else {
        first_h1(hs.drop_first())
    }
}

/// Parse markdown text into HTML + heading metadata.
pub fn parse(text: &str, path: &str) -> (r: Result<ParsedMarkdown, FarolError>)
    ensures
        r is Ok <==> (mdast_of(text@) is Some && md_html_of(text@) is Some),
        r is Err ==> (r matches Err(FarolError::Frontmatter { path: p, .. }) && p@ == path@),
        r matches Ok(pm) ==> {
            let tree = mdast_of(text@).unwrap();
            &&& Some(pm.html@) == md_html_of(text@)
            &&& headings_ok(pm.headings@, tree)
            &&& match pm.title {
                Some(t) => first_h1(heads_of(tree)) == Some(t@),
                None => first_h1(heads_of(tree)) is None,
            }
        },
{
    let tree = match parse_tree(text) {
        Ok(t) => t,
        Err(m) => {
            return Err(FarolError::Frontmatter { path: string_from(chars_of(path)), message: m });
        },
    };
    let mut flat: Vec<(u8, Vec<char>)> = Vec::new();
    heads_exec(&tree, &mut flat);
    assert(pairs_view(flat@) =~= heads_of(tree));
    let ghost hs = heads_of(tree);
    let mut seen: Vec<String> = Vec::new();
    let mut headings: Vec<(u8, String, String)> = Vec::new();
    let mut title: Option<String> = None;
    let mut i: usize = 0;
    assert(string_set(seen@) =~= slug_set(headings@, 0));
    assert(hs.skip(0) =~= hs);
    while i < flat.len()
        invariant
            i <= flat.len(),
            pairs_view(flat@) == hs,
            headings@.len() == i,
            string_set(seen@) == slug_set(headings@, i as int),
            forall|k: int|
                0 <= k < i ==> (#[trigger] headings@[k]).0 == hs[k].0 && headings@[k].1@ == hs[k].1
                    && is_first_free(slugify_spec(headings@[k].1@), slug_set(headings@, k), headings@[k].2@),
            match title {
                Some(t) => first_h1(hs) == Some(t@),
                None => first_h1(hs) == first_h1(hs.skip(i as int)),
            },
        decreases flat.len() - i,
    {
        let (lvl, txt) = &flat[i];
        assert(pairs_view(flat@)[i as int] == (*lvl, txt@));
        let t = string_from(crate::text::slice(txt, 0, txt.len()));
        assert(t@ =~= txt@);
        let ghost h0 = headings@;
        let ghost seen0 = string_set(seen@);
        let s = unique_slug(t.as_str(), &mut seen);
        if title.is_none() && *lvl == 1 {
            title = Some(t.clone());
        }
        proof {
            assert(hs.skip(i as int)[0] == hs[i as int]);
            assert(hs.skip(i as int).drop_first() =~= hs.skip(i + 1));
        }
        let ghost entry = (*lvl, t, s);
        headings.push((*lvl, t, s));
        proof {
            assert forall|k: int| 0 <= k <= i implies #[trigger] headings@.take(k) =~= h0.take(k) by {}
            let vs0 = h0.take(i as int).map_values(|h: (u8, String, String)| h.2@);
            assert(headings@.take(i + 1).map_values(|h: (u8, String, String)| h.2@) =~= vs0 + seq![
                entry.2@,
            ]);
            Seq::<Seq<char>>::lemma_to_set_insert_commutes(vs0, entry.2@);
            assert(slug_set(headings@, i + 1) =~= slug_set(h0, i as int).insert(entry.2@));
            assert forall|k: int| 0 <= k <= i implies #[trigger] slug_set(headings@, k) == slug_set(
                h0,
                k,
            ) by {
                assert(headings@.take(k) =~= h0.take(k));
            }
            assert(headings@[i as int] == entry);
            assert forall|k: int| 0 <= k < i implies #[trigger] headings@[k] == h0[k] by {}
        }
        i = i + 1;
    }
    assert(hs.skip(i as int) =~= Seq::<(u8, Seq<char>)>::empty());
    let html = match render_html(text) {
        Ok(h) => h,
        Err(m) => {
            return Err(FarolError::Frontmatter { path: string_from(chars_of(path)), message: m });
        },
    };
    Ok(ParsedMarkdown { html, title, headings })
}

} // verus!
