//! The navigation tree built from the page list.
//!
//! A node is a page leaf (with a URL) or a section (a directory of
//! `docs_dir`) grouping child nodes. Siblings are ordered by frontmatter
//! `weight` (ascending; pages without one after), then by title. Section
//! labels come from the directory's index page (its `nav_title`), else
//! from the directory name humanized.
use vstd::prelude::*;
use crate::frontmatter::{table_get_int, table_get_str, toml_ints, toml_strs};
use crate::order::{is_weighted_order, stable_order_weighted};
use crate::page::Page;
use crate::slug::{is_ascii_char, str_views};
use crate::text::{
    ascii_lower_seq, chars_of, ends_with, ends_with_exec, eq_vec, push_all, replace_spec, slice,
    string_from, to_ascii_lower, views,
};
use crate::url::{comps, components, file_name_of, file_name_spec, normal_segments, normal_segs, stem_and_ext, stem_ext};

verus! {

/// A node of the navigation tree.
#[derive(Debug)]
pub struct NavNode {
    pub title: String,
    pub url: Option<String>,
    pub weight: i32,
    pub children: Vec<NavNode>,
}

impl NavNode {
    /// A section has no page of its own.
    pub fn is_section(&self) -> (b: bool)
        ensures
            b == self.url is None,
    {
        self.url.is_none()
    }
}

/// What `char::to_uppercase` yields for a non-ASCII `c` (Unicode
/// uppercase mapping).
pub uninterp spec fn unicode_upper(c: char) -> Seq<char>;

/// The uppercase of an ASCII `c`: `a`..`z` become `A`..`Z`, the others
/// stay.
pub open spec fn ascii_upper(c: char) -> Seq<char> {
    let n = c as u32;
    if 97 <= n <= 122 {
        seq![(n - 32) as char]
    } else {
        seq![c]
    }
}

/// The uppercase of `c`: the ASCII mapping, beyond ASCII the Unicode one.
pub open spec fn upper_spec(c: char) -> Seq<char> {
    if is_ascii_char(c) {
        ascii_upper(c)
    } else {
        unicode_upper(c)
    }
}

/// `char::to_uppercase`, collected: `a`..`z` map to `A`..`Z` and other
/// ASCII characters to themselves; beyond ASCII the mapping is only named.
#[verifier::external_body]
fn upper_of(c: char) -> (r: Vec<char>)
    ensures
        is_ascii_char(c) ==> r@ == ascii_upper(c),
        !is_ascii_char(c) ==> r@ == unicode_upper(c),
{
    c.to_uppercase().collect()
}

/// A directory name as a label: its file stem, `-` and `_` turned into
/// spaces, the first character uppercased.
pub open spec fn humanize_spec(segment: Seq<char>) -> Seq<char> {
    let stem = match file_name_spec(segment) {
        Some(n) => stem_ext(n).0,
        None => segment,
    };
    let spaced = stem.map_values(|c: char| if c == '-' || c == '_' { ' ' } else { c });
    if spaced.len() == 0 {
        seq![]
    } else {
        upper_spec(spaced[0]) + spaced.skip(1)
    }
}

pub fn humanize(segment: &str) -> (r: String)
    ensures
        r@ == humanize_spec(segment@),
{
    let seg = chars_of(segment);
    let stem = match file_name_of(&seg) {
        Some(n) => {
            let (s, _e) = stem_and_ext(&n);
            s
        },
        None => seg,
    };
    let mut spaced: Vec<char> = Vec::new();
    let mut i: usize = 0;
    while i < stem.len()
        invariant
            i <= stem.len(),
            spaced@ == stem@.take(i as int).map_values(|c: char| if c == '-' || c == '_' { ' ' } else { c }),
        decreases stem.len() - i,
    {
        let c = stem[i];
        if c == '-' || c == '_' {
            spaced.push(' ');
        } else {
            spaced.push(c);
        }
        i = i + 1;
        assert(spaced@ =~= stem@.take(i as int).map_values(|c: char| if c == '-' || c == '_' { ' ' } else { c }));
    }
    assert(stem@.take(stem@.len() as int) =~= stem@);
    if spaced.len() == 0 {
        return String::new();
    }
    let mut out = upper_of(spaced[0]);
    let rest = slice(&spaced, 1, spaced.len());
    push_all(&mut out, &rest);
    assert(rest@ =~= spaced@.skip(1));
    string_from(out)
}


/// Whether a last path segment names a directory's own page.
pub open spec fn is_index_name(seg: Seq<char>) -> bool {
    let l = ascii_lower_seq(seg);
    l == "index.md"@ || l == "index.markdown"@ || l == "_section.md"@
}

/// The path segments that place a page in the tree: its normal components,
/// without a trailing index page name (so an index page sits at its
/// directory).
pub open spec fn page_segments_spec(relative: Seq<char>) -> Seq<Seq<char>> {
    let segs = normal_segs(comps(relative));
    if segs.len() > 0 && is_index_name(segs.last()) {
        segs.drop_last()
    } else {
        segs
    }
}

fn lit(v: &Vec<char>, s: &str) -> (b: bool)
    ensures
        b == (v@ == s@),
{
    eq_vec(v, &chars_of(s))
}

pub fn page_segments(relative: &str) -> (r: Vec<Vec<char>>)
    ensures
        views(r@) == page_segments_spec(relative@),
{
    let cs = components(&chars_of(relative));
    let mut segs = normal_segments(&cs);
    if segs.len() > 0 {
        let n = segs.len();
        let l = to_ascii_lower(&segs[n - 1]);
        assert(views(segs@).last() == segs@[n - 1]@);
        if lit(&l, "index.md") || lit(&l, "index.markdown") || lit(&l, "_section.md") {
            let ghost before = segs@;
            segs.pop();
            assert(views(segs@) =~= views(before).drop_last());
        }
    }
    segs
}

/// The weight given to pages without one (they sort after weighted ones).
pub const DEFAULT_WEIGHT: i32 = 1073741823;

/// A page's `weight`: the frontmatter integer when it fits in `i32`.
pub open spec fn weight_spec(fm: toml::Table) -> i32 {
    if toml_ints(fm).contains_key("weight"@) && i32::MIN <= toml_ints(fm)["weight"@] <= i32::MAX {
        toml_ints(fm)["weight"@] as i32
    } else {
        DEFAULT_WEIGHT
    }
}

pub fn read_weight(page: &Page) -> (w: i32)
    ensures
        w == weight_spec(page.frontmatter),
{
    match table_get_int(&page.frontmatter, "weight") {
        Some(v) => if -2147483648 <= v && v <= 2147483647 {
            v as i32
        } else {
            DEFAULT_WEIGHT
        },
        None => DEFAULT_WEIGHT,
    }
}

/// A page's label in the tree: frontmatter `nav_title`, else its title.
pub open spec fn nav_title_spec(fm: toml::Table, title: Seq<char>) -> Seq<char> {
    if toml_strs(fm).contains_key("nav_title"@) {
        toml_strs(fm)["nav_title"@]
    } else {
        title
    }
}

/// A frontmatter string `nav_title` is the label; the page's title is the
/// label only when there is none.
pub proof fn lemma_nav_title_label(fm: toml::Table, title: Seq<char>)
    ensures
        toml_strs(fm).contains_key("nav_title"@) ==> nav_title_spec(fm, title) == toml_strs(fm)["nav_title"@],
        !toml_strs(fm).contains_key("nav_title"@) ==> nav_title_spec(fm, title) == title,
{
}

pub fn read_nav_title(page: &Page) -> (r: String)
    ensures
        r@ == nav_title_spec(page.frontmatter, page.title@),
        toml_strs(page.frontmatter).contains_key("nav_title"@) ==> r@ == toml_strs(page.frontmatter)["nav_title"@],
        !toml_strs(page.frontmatter).contains_key("nav_title"@) ==> r@ == page.title@,
{
    match table_get_str(&page.frontmatter, "nav_title") {
        Some(t) => t,
        None => string_from(chars_of(page.title.as_str())),
    }
}

/// The tree under construction, node by node: label, the segment a section
/// was made for, URL, weight, children (by node number; node 0 is the
/// root).
pub struct Arena {
    pub labels: Seq<Seq<char>>,
    pub keys: Seq<Seq<char>>,
    pub urls: Seq<Option<Seq<char>>>,
    pub weights: Seq<i32>,
    pub kids: Seq<Seq<usize>>,
}

pub open spec fn arena_wf(a: Arena) -> bool {
    &&& a.labels.len() >= 1
    &&& a.keys.len() == a.labels.len()
    &&& a.urls.len() == a.labels.len()
    &&& a.weights.len() == a.labels.len()
    &&& a.kids.len() == a.labels.len()
    &&& forall|i: int, j: int| 0 <= i < a.kids.len() && 0 <= j < a.kids[i].len() ==> i < #[trigger] a.kids[i][j] < a.kids.len()
}

pub open spec fn add_node(a: Arena, label: Seq<char>, key: Seq<char>, url: Option<Seq<char>>, w: i32) -> Arena {
    Arena {
        labels: a.labels.push(label),
        keys: a.keys.push(key),
        urls: a.urls.push(url),
        weights: a.weights.push(w),
        kids: a.kids.push(seq![]),
    }
}

pub open spec fn add_child(a: Arena, parent: int, c: usize) -> Arena {
    Arena { kids: a.kids.update(parent, a.kids[parent].push(c)), ..a }
}

/// The first child of `node` made for segment `key`.
pub open spec fn find_child_from(a: Arena, node: int, key: Seq<char>, j: int) -> Option<usize>
    decreases a.kids[node].len() - j,
{
    if j < 0 || j >= a.kids[node].len() {
        None
    } else if a.keys[a.kids[node][j] as int] == key {
        Some(a.kids[node][j])
    } else {
        find_child_from(a, node, key, j + 1)
    }
}

/// A new leaf for a page under `node`.
pub open spec fn add_leaf(a: Arena, node: int, url: Seq<char>, w: i32, title: Seq<char>) -> Arena {
    add_child(add_node(a, title, seq![], Some(url), w), node, a.labels.len() as usize)
}

/// An index page gives its section (if it has no page yet) its URL, the
/// smaller weight, and its label when non-empty.
pub open spec fn finish_section(a: Arena, node: int, url: Seq<char>, w: i32, title: Seq<char>) -> Arena {
    if a.urls[node] is None {
        Arena {
            urls: a.urls.update(node, Some(url)),
            weights: a.weights.update(node, if w <= a.weights[node] { w } else { a.weights[node] }),
            labels: if title.len() > 0 { a.labels.update(node, title) } else { a.labels },
            ..a
        }
    } else {
        a
    }
}

pub open spec fn is_md_seg(seg: Seq<char>) -> bool {
    ends_with(seg, ".md"@) || ends_with(seg, ".markdown"@)
}

/// Walk down from `node` along `segs[i..]`, creating sections as needed,
/// and place the page.
pub open spec fn walk(a: Arena, node: int, segs: Seq<Seq<char>>, i: int, url: Seq<char>, w: i32, title: Seq<char>) -> Arena
    decreases segs.len() - i,
{
    if i < 0 || i >= segs.len() {
        a
    } else {
        let seg = segs[i];
        if i == segs.len() - 1 && is_md_seg(seg) {
            add_leaf(a, node, url, w, title)
        } else {
            let (a2, next) = match find_child_from(a, node, seg, 0) {
                Some(c) => (a, c as int),
                None => (
                    add_child(add_node(a, humanize_spec(seg), seg, None, i32::MAX), node, a.labels.len() as usize),
                    a.labels.len() as int,
                ),
            };
            if i + 1 < segs.len() {
                walk(a2, next, segs, i + 1, url, w, title)
            } else {
                finish_section(a2, next, url, w, title)
            }
        }
    }
}

/// The tree after placing one page.
pub open spec fn insert_spec(a: Arena, segs: Seq<Seq<char>>, url: Seq<char>, w: i32, title: Seq<char>) -> Arena {
    if segs.len() == 0 {
        add_leaf(a, 0, url, w, title)
    } else {
        walk(a, 0, segs, 0, url, w, title)
    }
}

pub open spec fn empty_arena() -> Arena {
    add_node(
        Arena { labels: seq![], keys: seq![], urls: seq![], weights: seq![], kids: seq![] },
        seq![],
        seq![],
        None,
        i32::MAX,
    )
}

/// The tree after placing pages `0..n` in order.
pub open spec fn arena_of(pages: Seq<Page>, n: int) -> Arena
    decreases n,
{
    if n <= 0 {
        empty_arena()
    } else {
        let p = pages[n - 1];
        insert_spec(
            arena_of(pages, n - 1),
            page_segments_spec(p.relative@),
            p.url@,
            weight_spec(p.frontmatter),
            nav_title_spec(p.frontmatter, p.title@),
        )
    }
}


/// The weights and labels of the children of `idx`, in arena order.
pub open spec fn kid_weights(a: Arena, idx: int) -> Seq<i32> {
    a.kids[idx].map_values(|c: usize| a.weights[c as int])
}

pub open spec fn kid_labels(a: Arena, idx: int) -> Seq<Seq<char>> {
    a.kids[idx].map_values(|c: usize| a.labels[c as int])
}

pub open spec fn opt_view(o: Option<String>) -> Option<Seq<char>> {
    match o {
        Some(s) => Some(s@),
        None => None,
    }
}

/// `n` is node `idx` of the arena: same label, URL and weight, and its
/// children are the node's children (each as its own subtree) sorted
/// stably by weight, then title.
pub open spec fn node_ok(n: NavNode, a: Arena, idx: int) -> bool
    decreases n,
{
    &&& n.title@ == a.labels[idx]
    &&& opt_view(n.url) == a.urls[idx]
    &&& n.weight == a.weights[idx]
    &&& children_ok(n.children@, a, idx)
}

/// The children of node `idx`, converted and sorted.
pub open spec fn children_ok(cs: Seq<NavNode>, a: Arena, idx: int) -> bool
    decreases cs,
{
    &&& cs.len() == a.kids[idx].len()
    &&& exists|ord: Seq<usize>| #![trigger is_weighted_order(kid_weights(a, idx), kid_labels(a, idx), ord)]
        is_weighted_order(kid_weights(a, idx), kid_labels(a, idx), ord) && forall|k: int|
            0 <= k < cs.len() ==> node_ok(#[trigger] cs[k], a, a.kids[idx][ord[k] as int] as int)
}


/// The tree under construction (see `Arena`).
struct RawTree {
    labels: Vec<String>,
    keys: Vec<String>,
    urls: Vec<Option<String>>,
    weights: Vec<i32>,
    kids: Vec<Vec<usize>>,
}

pub open spec fn opt_views(v: Seq<Option<String>>) -> Seq<Option<Seq<char>>> {
    v.map_values(|o: Option<String>| opt_view(o))
}

pub open spec fn kid_views(v: Seq<Vec<usize>>) -> Seq<Seq<usize>> {
    v.map_values(|k: Vec<usize>| k@)
}

impl RawTree {
    spec fn model(&self) -> Arena {
        Arena {
            labels: str_views(self.labels@),
            keys: str_views(self.keys@),
            urls: opt_views(self.urls@),
            weights: self.weights@,
            kids: kid_views(self.kids@),
        }
    }

    spec fn lens_ok(&self) -> bool {
        &&& self.keys@.len() == self.labels@.len()
        &&& self.urls@.len() == self.labels@.len()
        &&& self.weights@.len() == self.labels@.len()
        &&& self.kids@.len() == self.labels@.len()
    }

    fn new() -> (r: Self)
        ensures
            r.model() == empty_arena(),
            r.lens_ok(),
            arena_wf(r.model()),
    {
        let r = RawTree {
            labels: vec![String::new()],
            keys: vec![String::new()],
            urls: vec![None],
            weights: vec![i32::MAX],
            kids: vec![Vec::new()],
        };
        proof {
            let m = r.model();
            let e = empty_arena();
            assert(m.labels =~= e.labels);
            assert(m.keys =~= e.keys);
            assert(m.urls =~= e.urls);
            assert(m.weights =~= e.weights);
            assert(m.kids =~= e.kids);
        }
        r
    }

    fn len(&self) -> (n: usize)
        requires
            self.lens_ok(),
        ensures
            n == self.model().labels.len(),
    {
        self.labels.len()
    }

    fn push_node(&mut self, label: String, key: String, url: Option<String>, w: i32) -> (r: usize)
        requires
            old(self).lens_ok(),
            arena_wf(old(self).model()),
        ensures
            final(self).lens_ok(),
            final(self).model() == add_node(old(self).model(), label@, key@, opt_view(url), w),
            r == old(self).model().labels.len(),
            arena_wf(final(self).model()),
    {
        let r = self.labels.len();
        let ghost m0 = self.model();
        let ghost lv = label@;
        let ghost kv = key@;
        let ghost uv = opt_view(url);
        self.labels.push(label);
        self.keys.push(key);
        self.urls.push(url);
        self.weights.push(w);
        self.kids.push(Vec::new());
        proof {
            let m = self.model();
            let e = add_node(m0, lv, kv, uv, w);
            assert(m.labels =~= e.labels);
            assert(m.keys =~= e.keys);
            assert(m.urls =~= e.urls);
            assert(m.weights =~= e.weights);
            assert(m.kids =~= e.kids);
            assert forall|i: int, j: int| 0 <= i < m.kids.len() && 0 <= j < m.kids[i].len() implies i < #[trigger] m.kids[i][j] < m.kids.len() by {
                assert(m.kids[i] == m0.kids[i]);
            }
        }
        r
    }

    fn add_kid(&mut self, parent: usize, c: usize)
        requires
            old(self).lens_ok(),
            arena_wf(old(self).model()),
            parent < c < old(self).model().labels.len(),
        ensures
            final(self).lens_ok(),
            final(self).model() == add_child(old(self).model(), parent as int, c),
            arena_wf(final(self).model()),
    {
        let ghost m0 = self.model();
        self.kids[parent].push(c);
        proof {
            let m = self.model();
            let e = add_child(m0, parent as int, c);
            assert(m.kids =~= e.kids);
            assert(m.labels =~= e.labels);
            assert(m.keys =~= e.keys);
            assert(m.urls =~= e.urls);
            assert forall|i: int, j: int| 0 <= i < m.kids.len() && 0 <= j < m.kids[i].len() implies i < #[trigger] m.kids[i][j] < m.kids.len() by {
                if i != parent {
                    assert(m.kids[i] == m0.kids[i]);
                } else if j < m0.kids[i].len() {
                    assert(m.kids[i][j] == m0.kids[i][j]);
                }
            }
        }
    }

    fn find_child(&self, node: usize, key: &Vec<char>) -> (r: Option<usize>)
        requires
            self.lens_ok(),
            arena_wf(self.model()),
            node < self.model().labels.len(),
        ensures
            r == find_child_from(self.model(), node as int, key@, 0),
            r matches Some(c) ==> node < c < self.model().labels.len(),
    {
        let ghost m = self.model();
        let mut j: usize = 0;
        while j < self.kids[node].len()
            invariant
                self.lens_ok(),
                arena_wf(m),
                m == self.model(),
                node < m.labels.len(),
                j <= m.kids[node as int].len(),
                find_child_from(m, node as int, key@, 0) == find_child_from(m, node as int, key@, j as int),
            decreases m.kids[node as int].len() - j,
        {
            assert(m.kids[node as int] == self.kids@[node as int]@);
            let c = self.kids[node][j];
            assert(m.keys[c as int] == self.keys@[c as int]@);
            assert(m.kids[node as int][j as int] == c);
            if eq_vec(&chars_of(self.keys[c].as_str()), key) {
                return Some(c);
            }
            j = j + 1;
        }
        assert(m.kids[node as int] == self.kids@[node as int]@);
        None
    }

    fn leaf(&mut self, node: usize, url: &str, w: i32, title: &str)
        requires
            old(self).lens_ok(),
            arena_wf(old(self).model()),
            node < old(self).model().labels.len(),
        ensures
            final(self).lens_ok(),
            arena_wf(final(self).model()),
            final(self).model() == add_leaf(old(self).model(), node as int, url@, w, title@),
    {
        let n = self.push_node(string_from(chars_of(title)), String::new(), Some(string_from(chars_of(url))), w);
        self.add_kid(node, n);
    }

    fn finish(&mut self, node: usize, url: &str, w: i32, title: &str)
        requires
            old(self).lens_ok(),
            arena_wf(old(self).model()),
            node < old(self).model().labels.len(),
        ensures
            final(self).lens_ok(),
            arena_wf(final(self).model()),
            final(self).model() == finish_section(old(self).model(), node as int, url@, w, title@),
    {
        let ghost m0 = self.model();
        if self.urls[node].is_none() {
            assert(m0.urls[node as int] is None);
            self.urls.set(node, Some(string_from(chars_of(url))));
            let old_w = self.weights[node];
            self.weights.set(node, if w <= old_w { w } else { old_w });
            if title.unicode_len() > 0 {
                self.labels.set(node, string_from(chars_of(title)));
            }
            proof {
                let m = self.model();
                let e = finish_section(m0, node as int, url@, w, title@);
                assert(m.urls =~= e.urls);
                assert(m.weights =~= e.weights);
                assert(m.labels =~= e.labels);
                assert(m.keys =~= e.keys);
                assert(m.kids =~= e.kids);
            }
        } else {
            assert(m0.urls[node as int] is Some);
        }
    }

    /// Place one page in the tree.
    fn insert(&mut self, segs: &Vec<Vec<char>>, url: &str, w: i32, title: &str)
        requires
            old(self).lens_ok(),
            arena_wf(old(self).model()),
        ensures
            final(self).lens_ok(),
            arena_wf(final(self).model()),
            final(self).model() == insert_spec(old(self).model(), views(segs@), url@, w, title@),
    {
        if segs.len() == 0 {
            self.leaf(0, url, w, title);
            return;
        }
        let ghost sv = views(segs@);
        let ghost target = walk(self.model(), 0, sv, 0, url@, w, title@);
        let mut node: usize = 0;
        let mut i: usize = 0;
        loop
            invariant_except_break
                self.lens_ok(),
                arena_wf(self.model()),
                sv == views(segs@),
                i < segs.len(),
                node < self.model().labels.len(),
                target == walk(self.model(), node as int, sv, i as int, url@, w, title@),
            ensures
                self.lens_ok(),
                arena_wf(self.model()),
                self.model() == target,
            decreases segs.len() - i,
        {
            assert(sv[i as int] == segs@[i as int]@);
            let seg = &segs[i];
            let is_md = ends_with_exec(seg, &chars_of(".md")) || ends_with_exec(seg, &chars_of(".markdown"));
            if i == segs.len() - 1 && is_md {
                self.leaf(node, url, w, title);
                break;
            }
            let ghost m_before = self.model();
            assert(!(i == segs.len() - 1 && is_md_seg(sv[i as int])));
            let next = match self.find_child(node, seg) {
                Some(c) => c,
                None => {
                    let seg_s = string_from(slice(seg, 0, seg.len()));
                    assert(seg_s@ =~= seg@);
                    let label = humanize(seg_s.as_str());
                    let n = self.push_node(label, seg_s, None, i32::MAX);
                    self.add_kid(node, n);
                    n
                },
            };
            assert(walk(m_before, node as int, sv, i as int, url@, w, title@) == if i + 1 < sv.len() {
                walk(self.model(), next as int, sv, i + 1, url@, w, title@)
            } else {
                finish_section(self.model(), next as int, url@, w, title@)
            });
            if i + 1 < segs.len() {
                i = i + 1;
                node = next;
            } else {
                self.finish(next, url, w, title);
                break;
            }
        }
    }
}


impl RawTree {
    /// Node `idx` as a finished subtree.
    fn convert(&self, idx: usize) -> (r: NavNode)
        requires
            self.lens_ok(),
            arena_wf(self.model()),
            idx < self.model().labels.len(),
        ensures
            node_ok(r, self.model(), idx as int),
        decreases self.model().labels.len() - idx, 1int,
    {
        let children = self.convert_children(idx);
        let ghost m = self.model();
        assert(m.labels[idx as int] == self.labels@[idx as int]@);
        assert(m.urls[idx as int] == opt_view(self.urls@[idx as int]));
        let url = match &self.urls[idx] {
            Some(u) => Some(string_from(chars_of(u.as_str()))),
            None => None,
        };
        NavNode {
            title: string_from(chars_of(self.labels[idx].as_str())),
            url,
            weight: self.weights[idx],
            children,
        }
    }

    /// The children of node `idx` as subtrees, sorted by weight, then title.
    fn convert_children(&self, idx: usize) -> (r: Vec<NavNode>)
        requires
            self.lens_ok(),
            arena_wf(self.model()),
            idx < self.model().labels.len(),
        ensures
            children_ok(r@, self.model(), idx as int),
        decreases self.model().labels.len() - idx, 0int,
    {
        let ghost m = self.model();
        let kids = &self.kids[idx];
        assert(m.kids[idx as int] == kids@);
        let mut ws: Vec<i32> = Vec::new();
        let mut ts: Vec<String> = Vec::new();
        let mut j: usize = 0;
        while j < kids.len()
            invariant
                j <= kids.len(),
                m == self.model(),
                self.lens_ok(),
                arena_wf(m),
                idx < m.labels.len(),
                m.kids[idx as int] == kids@,
                ws@ == kid_weights(m, idx as int).take(j as int),
                str_views(ts@) == kid_labels(m, idx as int).take(j as int),
            decreases kids.len() - j,
        {
            let c = kids[j];
            assert(m.kids[idx as int][j as int] == c);
            assert(c < m.labels.len());
            assert(m.labels[c as int] == self.labels@[c as int]@);
            let ghost tv0 = ts@;
            ws.push(self.weights[c]);
            ts.push(string_from(chars_of(self.labels[c].as_str())));
            assert(ws@ =~= kid_weights(m, idx as int).take(j + 1));
            assert(str_views(ts@) =~= str_views(tv0).push(m.labels[c as int]));
            assert(str_views(ts@) =~= kid_labels(m, idx as int).take(j + 1));
            j = j + 1;
        }
        assert(ws@ =~= kid_weights(m, idx as int));
        assert(str_views(ts@) =~= kid_labels(m, idx as int));
        let order = stable_order_weighted(&ws, &ts);
        let mut out: Vec<NavNode> = Vec::new();
        let mut k: usize = 0;
        while k < order.len()
            invariant
                k <= order.len(),
                order@.len() == kids@.len(),
                m == self.model(),
                self.lens_ok(),
                arena_wf(m),
                idx < m.labels.len(),
                m.kids[idx as int] == kids@,
                is_weighted_order(kid_weights(m, idx as int), kid_labels(m, idx as int), order@),
                out@.len() == k,
                forall|q: int| 0 <= q < k ==> node_ok(#[trigger] out@[q], m, m.kids[idx as int][order@[q] as int] as int),
            decreases order.len() - k,
        {
            let oi = order[k];
            assert(oi < kids@.len());
            let c = kids[oi];
            assert(m.kids[idx as int][oi as int] == c);
            assert(idx < c);
            let child = self.convert(c);
            out.push(child);
            k = k + 1;
        }
        assert(children_ok(out@, m, idx as int));
        out
    }
}

/// Build the navigation tree from the pages, in order.
pub fn build(pages: &[Page]) -> (r: Vec<NavNode>)
    ensures
        children_ok(r@, arena_of(pages@, pages@.len() as int), 0),
{
    let mut tree = RawTree::new();
    let mut i: usize = 0;
    while i < pages.len()
        invariant
            i <= pages.len(),
            tree.lens_ok(),
            arena_wf(tree.model()),
            tree.model() == arena_of(pages@, i as int),
        decreases pages.len() - i,
    {
        let page = &pages[i];
        let w = read_weight(page);
        let t = read_nav_title(page);
        let segs = page_segments(page.relative.as_str());
        tree.insert(&segs, page.url.as_str(), w, t.as_str());
        i = i + 1;
    }
    tree.convert_children(0)
}

} // verus!
