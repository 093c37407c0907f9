//! Source paths, site URLs and link targets.
//!
//! Paths are `/`-separated strings; their components are the pieces
//! between separators, without empty pieces and `.` (which `Path`
//! normalizes away).
use vstd::prelude::*;
use crate::text::{
    ascii_lower_seq, chars_of, ends_with, find_from, lemma_find_from_props, matches_at,
    split_char, split_spec, starts_with, starts_with_exec, string_from, to_ascii_lower, views,
    contains_exec, contains_seq, find, slice, push_all, trim_vec, trim_spec, CharClass, eq_vec,
    ends_with_exec, opt_int, fwd_end, back_end, trim_start_spec,
};

verus! {

/// A piece of a path that names something (not empty, not `.`).
pub open spec fn seg_ok(x: Seq<char>) -> bool {
    x.len() > 0 && x != seq!['.']
}

/// The pieces of a list that name something, in order.
pub open spec fn keep_segs(parts: Seq<Seq<char>>) -> Seq<Seq<char>>
    decreases parts.len(),
{
    if parts.len() == 0 {
        seq![]
    } else {
        let r = keep_segs(parts.drop_last());
        if seg_ok(parts.last()) {
            r.push(parts.last())
        } else {
            r
        }
    }
}

/// The components of a path (including `..`), without the root.
pub open spec fn comps(p: Seq<char>) -> Seq<Seq<char>> {
    keep_segs(split_spec(p, '/'))
}

/// The `Normal` components: those other than `..`.
pub open spec fn normal_segs(parts: Seq<Seq<char>>) -> Seq<Seq<char>>
    decreases parts.len(),
{
    if parts.len() == 0 {
        seq![]
    } else {
        let r = normal_segs(parts.drop_last());
        if parts.last() != seq!['.', '.'] {
            r.push(parts.last())
        } else {
            r
        }
    }
}

/// `parts` joined with `sep` between them.
pub open spec fn join_spec(parts: Seq<Seq<char>>, sep: Seq<char>) -> Seq<char>
    decreases parts.len(),
{
    if parts.len() == 0 {
        seq![]
    } else if parts.len() == 1 {
        parts[0]
    } else {
        join_spec(parts.drop_last(), sep) + sep + parts.last()
    }
}

/// The last index of `c` in `s[..j]`.
pub open spec fn last_index(s: Seq<char>, c: char, j: int) -> Option<int>
    decreases j,
{
    if j <= 0 {
        None
    } else if s[j - 1] == c {
        Some(j - 1)
    } else {
        last_index(s, c, j - 1)
    }
}

/// `Path::file_stem` and `Path::extension` of a file name: split at the
/// last dot, unless the name is `..`, has no dot, or only a leading one.
pub open spec fn stem_ext(name: Seq<char>) -> (Seq<char>, Option<Seq<char>>) {
    if name == seq!['.', '.'] {
        (name, None)
    } else {
        match last_index(name, '.', name.len() as int) {
            None => (name, None),
            Some(i) => if i == 0 {
                (name, None)
            } else {
                (name.take(i), Some(name.skip(i + 1)))
            },
        }
    }
}

/// `Path::file_name`: the last component, unless it is `..` or missing.
pub open spec fn file_name_spec(p: Seq<char>) -> Option<Seq<char>> {
    let c = comps(p);
    if c.len() == 0 || c.last() == seq!['.', '.'] {
        None
    } else {
        Some(c.last())
    }
}

/// The lowercased extension is `md` or `markdown`.
pub open spec fn is_md_ext(ext: Option<Seq<char>>) -> bool {
    match ext {
        Some(e) => ascii_lower_seq(e) == "md"@ || ascii_lower_seq(e) == "markdown"@,
        None => false,
    }
}

/// The URL path pieces of a source-relative path: `index.md` dropped,
/// another markdown file reduced to its stem.
pub open spec fn url_parts(rel: Seq<char>) -> Seq<Seq<char>> {
    let parts = normal_segs(comps(rel));
    if parts.len() == 0 {
        parts
    } else {
        let (stem, ext) = stem_ext(parts.last());
        if is_md_ext(ext) && stem == "index"@ {
            parts.drop_last()
        } else if is_md_ext(ext) {
            parts.update(parts.len() - 1, stem)
        } else {
            parts
        }
    }
}

pub open spec fn site_url_spec(rel: Seq<char>) -> Seq<char> {
    let out = seq!['/'] + join_spec(url_parts(rel), seq!['/']);
    if out.last() == '/' {
        out
    } else {
        out.push('/')
    }
}

fn keep_segments(parts: &Vec<Vec<char>>) -> (r: Vec<Vec<char>>)
    ensures
        views(r@) == keep_segs(views(parts@)),
{
    let mut out: Vec<Vec<char>> = Vec::new();
    let mut i: usize = 0;
    while i < parts.len()
        invariant
            i <= parts.len(),
            views(out@) == keep_segs(views(parts@).take(i as int)),
        decreases parts.len() - i,
    {
        assert(views(parts@).take(i + 1).drop_last() =~= views(parts@).take(i as int));
        assert(views(parts@).take(i + 1).last() == parts@[i as int]@);
        let p = &parts[i];
        let is_dot = p.len() == 1 && p[0] == '.';
        proof {
            if p@.len() == 1 {
                assert(is_dot == (p@ =~= seq!['.']));
            }
        }
        if p.len() > 0 && !is_dot {
            let q = slice(p, 0, p.len());
            assert(q@ =~= p@);
            out.push(q);
            assert(views(out@) =~= views(out@.drop_last()).push(q@));
        }
        i = i + 1;
    }
    assert(views(parts@).take(parts@.len() as int) =~= views(parts@));
    out
}

/// The components of a path.
pub fn components(p: &Vec<char>) -> (r: Vec<Vec<char>>)
    ensures
        views(r@) == comps(p@),
{
    let parts = split_char(p, '/');
    keep_segments(&parts)
}

pub fn is_dotdot(x: &Vec<char>) -> (b: bool)
    ensures
        b == (x@ == seq!['.', '.']),
{
    let b = x.len() == 2 && x[0] == '.' && x[1] == '.';
    proof {
        if x@.len() == 2 {
            assert(b == (x@ =~= seq!['.', '.']));
        }
    }
    b
}

pub fn normal_segments(parts: &Vec<Vec<char>>) -> (r: Vec<Vec<char>>)
    ensures
        views(r@) == normal_segs(views(parts@)),
{
    let mut out: Vec<Vec<char>> = Vec::new();
    let mut i: usize = 0;
    while i < parts.len()
        invariant
            i <= parts.len(),
            views(out@) == normal_segs(views(parts@).take(i as int)),
        decreases parts.len() - i,
    {
        assert(views(parts@).take(i + 1).drop_last() =~= views(parts@).take(i as int));
        assert(views(parts@).take(i + 1).last() == parts@[i as int]@);
        if !is_dotdot(&parts[i]) {
            let q = slice(&parts[i], 0, parts[i].len());
            assert(q@ =~= parts@[i as int]@);
            out.push(q);
            assert(views(out@) =~= views(out@.drop_last()).push(q@));
        }
        i = i + 1;
    }
    assert(views(parts@).take(parts@.len() as int) =~= views(parts@));
    out
}

/// `parts` joined with `sep`.
pub fn join(parts: &Vec<Vec<char>>, sep: &Vec<char>) -> (r: Vec<char>)
    ensures
        r@ == join_spec(views(parts@), sep@),
{
    let mut out: Vec<char> = Vec::new();
    let mut i: usize = 0;
    while i < parts.len()
        invariant
            i <= parts.len(),
            out@ == join_spec(views(parts@).take(i as int), sep@),
        decreases parts.len() - i,
    {
        assert(views(parts@).take(i + 1).drop_last() =~= views(parts@).take(i as int));
        assert(views(parts@).take(i + 1).last() == parts@[i as int]@);
        if i > 0 {
            push_all(&mut out, sep);
        } else {
            assert(views(parts@).take(1)[0] == parts@[0]@);
        }
        push_all(&mut out, &parts[i]);
        i = i + 1;
        proof {
            if i == 1 {
                assert(out@ =~= join_spec(views(parts@).take(i as int), sep@));
            }
        }
    }
    assert(views(parts@).take(parts@.len() as int) =~= views(parts@));
    out
}

fn last_index_exec(s: &Vec<char>, c: char) -> (r: Option<usize>)
    ensures
        opt_int(r) == last_index(s@, c, s@.len() as int),
{
    let mut j = s.len();
    while j > 0
        invariant
            j <= s.len(),
            last_index(s@, c, s@.len() as int) == last_index(s@, c, j as int),
        decreases j,
    {
        if s[j - 1] == c {
            return Some(j - 1);
        }
        j = j - 1;
    }
    None
}

/// `(file_stem, extension)` of a file name.
pub fn stem_and_ext(name: &Vec<char>) -> (r: (Vec<char>, Option<Vec<char>>))
    ensures
        r.0@ == stem_ext(name@).0,
        match r.1 {
            Some(e) => stem_ext(name@).1 == Some(e@),
            None => stem_ext(name@).1 is None,
        },
{
    if is_dotdot(name) {
        return (slice(name, 0, name.len()), None);
    }
    match last_index_exec(name, '.') {
        None => {
            let r = slice(name, 0, name.len());
            assert(r@ =~= name@);
            (r, None)
        },
        Some(i) => {
            if i == 0 {
                let r = slice(name, 0, name.len());
                assert(r@ =~= name@);
                (r, None)
            } else {
                proof {
                    lemma_last_index_bounds(name@, '.', name@.len() as int);
                }
                let a = slice(name, 0, i);
                let b = slice(name, i + 1, name.len());
                assert(a@ =~= name@.take(i as int));
                assert(b@ =~= name@.skip(i + 1));
                (a, Some(b))
            }
        },
    }
}

proof fn lemma_last_index_bounds(s: Seq<char>, c: char, j: int)
    requires
        0 <= j <= s.len(),
    ensures
        last_index(s, c, j) matches Some(i) ==> 0 <= i < j && s[i] == c,
    decreases j,
{
    if j > 0 && s[j - 1] != c {
        lemma_last_index_bounds(s, c, j - 1);
    }
}

pub fn is_md_extension(ext: &Option<Vec<char>>) -> (b: bool)
    ensures
        b == is_md_ext(match ext {
            Some(e) => Some(e@),
            None => None,
        }),
{
    match ext {
        Some(e) => {
            let low = to_ascii_lower(e);
            let md = chars_of("md");
            let markdown = chars_of("markdown");
            eq_vec(&low, &md) || eq_vec(&low, &markdown)
        },
        None => false,
    }
}

/// Convert a source-relative path like `guide/install.md` into a site URL
/// like `/guide/install/`. Files named `index.md` collapse to the parent
/// directory URL.
pub fn site_url_for(relative: &str) -> (r: String)
    ensures
        r@ == site_url_spec(relative@),
        r@.len() > 0 && r@[0] == '/' && r@.last() == '/',
{
    let rel = chars_of(relative);
    let cs = components(&rel);
    let mut parts = normal_segments(&cs);
    let ghost p0 = views(parts@);
    if parts.len() > 0 {
        let n = parts.len();
        assert(p0.last() == parts@[n - 1]@);
        let (stem, ext) = stem_and_ext(&parts[n - 1]);
        let md = is_md_extension(&ext);
        assert(md == is_md_ext(stem_ext(p0.last()).1));
        assert(stem@ == stem_ext(p0.last()).0);
        let index = chars_of("index");
        if md && eq_vec(&stem, &index) {
            parts.pop();
            assert(views(parts@) =~= p0.drop_last());
            assert(views(parts@) == url_parts(relative@));
        } else if md {
            let ghost st = stem@;
            parts.set(n - 1, stem);
            assert(views(parts@) =~= p0.update(n - 1, st));
            assert(views(parts@) == url_parts(relative@));
        } else {
            assert(views(parts@) == url_parts(relative@));
        }
    } else {
        assert(p0 == normal_segs(comps(relative@)));
        assert(views(parts@) == url_parts(relative@));
    }
    let mut out: Vec<char> = Vec::new();
    out.push('/');
    let sep = chars_of("/");
    proof {
        reveal_strlit("/");
    }
    assert(sep@ =~= seq!['/']);
    let joined = join(&parts, &sep);
    push_all(&mut out, &joined);
    assert(out@ =~= seq!['/'] + join_spec(url_parts(relative@), seq!['/']));
    if out[out.len() - 1] != '/' {
        out.push('/');
    }
    string_from(out)
}

/// The trimmed `url` (slashes removed at both ends).
pub open spec fn output_path_spec(url: Seq<char>) -> Seq<char> {
    let t = trim_spec(url, CharClass::Ch('/'));
    if t.len() == 0 {
        "index.html"@
    } else {
        t + "/index.html"@
    }
}

/// Convert a site URL like `/guide/install/` into the filesystem path written
/// under `site_dir`: `guide/install/index.html`.
pub fn output_path_for(url: &str) -> (r: String)
    ensures
        r@ == output_path_spec(url@),
{
    let u = chars_of(url);
    let t = trim_vec(&u, CharClass::Ch('/'));
    if t.len() == 0 {
        string_from(chars_of("index.html"))
    } else {
        let mut out = t;
        let tail = chars_of("/index.html");
        push_all(&mut out, &tail);
        string_from(out)
    }
}


/// Classify a link target as internal-markdown, internal-asset, external, or
/// anchor-only.
#[derive(Debug, PartialEq, Eq)]
pub enum LinkKind<'a> {
    External,
    Anchor,
    InternalMarkdown(&'a str),
    InternalOther(&'a str),
}

/// The part of a link before its first `#`.
pub open spec fn path_part(href: Seq<char>) -> Seq<char> {
    split_spec(href, '#')[0]
}

/// `Path::extension` of a path.
pub open spec fn extension_of(p: Seq<char>) -> Option<Seq<char>> {
    match file_name_spec(p) {
        Some(n) => stem_ext(n).1,
        None => None,
    }
}

pub open spec fn is_external(href: Seq<char>) -> bool {
    contains_seq(href, "://"@) || starts_with(href, "mailto:"@) || starts_with(href, "//"@)
}

/// First piece of `s.split(c)`: everything before the first `c`.
fn before_char(s: &Vec<char>, c: char) -> (r: Vec<char>)
    ensures
        r@ == split_spec(s@, c)[0],
{
    let parts = split_char(s, c);
    proof {
        crate::text::lemma_split_nonempty(s@, c);
    }
    assert(views(parts@)[0] == parts@[0]@);
    slice(&parts[0], 0, parts[0].len())
}

pub fn file_name_of(p: &Vec<char>) -> (r: Option<Vec<char>>)
    ensures
        match r {
            Some(n) => file_name_spec(p@) == Some(n@),
            None => file_name_spec(p@) is None,
        },
{
    let cs = components(p);
    if cs.len() == 0 {
        return None;
    }
    let n = cs.len();
    assert(views(cs@).last() == cs@[n - 1]@);
    if is_dotdot(&cs[n - 1]) {
        return None;
    }
    Some(slice(&cs[n - 1], 0, cs[n - 1].len()))
}

/// `Path::extension` of a path.
pub fn extension(p: &Vec<char>) -> (r: Option<Vec<char>>)
    ensures
        match r {
            Some(e) => extension_of(p@) == Some(e@),
            None => extension_of(p@) is None,
        },
{
    match file_name_of(p) {
        Some(n) => {
            let (_stem, ext) = stem_and_ext(&n);
            ext
        },
        None => None,
    }
}

pub fn classify_link(href: &str) -> (r: LinkKind<'_>)
    ensures
        starts_with(href@, "#"@) ==> r is Anchor,
        !starts_with(href@, "#"@) && is_external(href@) ==> r is External,
        !starts_with(href@, "#"@) && !is_external(href@) && is_md_ext(
            extension_of(path_part(href@)),
        ) ==> (r matches LinkKind::InternalMarkdown(h) && h@ == href@),
        !starts_with(href@, "#"@) && !is_external(href@) && !is_md_ext(
            extension_of(path_part(href@)),
        ) ==> (r matches LinkKind::InternalOther(h) && h@ == href@),
{
    let h = chars_of(href);
    let hash = chars_of("#");
    if starts_with_exec(&h, &hash) {
        return LinkKind::Anchor;
    }
    let scheme = chars_of("://");
    let mailto = chars_of("mailto:");
    let slashes = chars_of("//");
    if contains_exec(&h, &scheme) || starts_with_exec(&h, &mailto) || starts_with_exec(&h, &slashes) {
        return LinkKind::External;
    }
    let pp = before_char(&h, '#');
    let ext = extension(&pp);
    let ghost e = extension_of(path_part(href@));
    assert(match ext {
        Some(x) => e == Some(x@),
        None => e is None,
    });
    if is_md_extension(&ext) {
        LinkKind::InternalMarkdown(href)
    } else {
        LinkKind::InternalOther(href)
    }
}

/// `path.split_once('#')`: the part before the first `#` and the anchor
/// after it.
pub open spec fn split_anchor(href: Seq<char>) -> (Seq<char>, Option<Seq<char>>) {
    match find_from(href, 0, seq!['#']) {
        Some(i) => (href.take(i), Some(href.skip(i + 1))),
        None => (href, None),
    }
}

/// `..` removes the previous component (if any), others are appended.
pub open spec fn normalize_segs(parts: Seq<Seq<char>>) -> Seq<Seq<char>>
    decreases parts.len(),
{
    if parts.len() == 0 {
        seq![]
    } else {
        let r = normalize_segs(parts.drop_last());
        if parts.last() == seq!['.', '.'] {
            if r.len() > 0 {
                r.drop_last()
            } else {
                r
            }
        } else {
            r.push(parts.last())
        }
    }
}

/// A path from its root flag and components.
pub open spec fn render_path(abs: bool, segs: Seq<Seq<char>>) -> Seq<char> {
    (if abs {
        seq!['/']
    } else {
        seq![]
    }) + join_spec(segs, seq!['/'])
}

/// The lexical normalization of a path: `.` dropped, `..` folded.
pub open spec fn normalize_spec(p: Seq<char>) -> Seq<char> {
    render_path(starts_with(p, seq!['/']), normalize_segs(comps(p)))
}

/// `Path::parent` as (is absolute, components): the last component
/// removed; nothing left when there is none to remove.
pub open spec fn parent_of(p: Seq<char>) -> (bool, Seq<Seq<char>>) {
    let c = comps(p);
    if c.len() == 0 {
        (false, seq![])
    } else {
        (starts_with(p, seq!['/']), c.drop_last())
    }
}

/// `parent(base).join(rel)` followed by normalization.
pub open spec fn resolve_path_spec(base: Seq<char>, rel: Seq<char>) -> Seq<char> {
    let (babs, bsegs) = parent_of(base);
    if starts_with(rel, seq!['/']) {
        render_path(true, normalize_segs(comps(rel)))
    } else {
        render_path(babs, normalize_segs(bsegs + comps(rel)))
    }
}

fn normalize_segments(parts: &Vec<Vec<char>>) -> (r: Vec<Vec<char>>)
    ensures
        views(r@) == normalize_segs(views(parts@)),
{
    let mut out: Vec<Vec<char>> = Vec::new();
    let mut i: usize = 0;
    while i < parts.len()
        invariant
            i <= parts.len(),
            views(out@) == normalize_segs(views(parts@).take(i as int)),
        decreases parts.len() - i,
    {
        assert(views(parts@).take(i + 1).drop_last() =~= views(parts@).take(i as int));
        assert(views(parts@).take(i + 1).last() == parts@[i as int]@);
        if is_dotdot(&parts[i]) {
            if out.len() > 0 {
                out.pop();
                assert(views(out@) =~= normalize_segs(views(parts@).take(i as int)).drop_last());
            }
        } else {
            let q = slice(&parts[i], 0, parts[i].len());
            assert(q@ =~= parts@[i as int]@);
            out.push(q);
            assert(views(out@) =~= views(out@.drop_last()).push(q@));
        }
        i = i + 1;
    }
    assert(views(parts@).take(parts@.len() as int) =~= views(parts@));
    out
}

fn render(abs: bool, segs: &Vec<Vec<char>>) -> (r: Vec<char>)
    ensures
        r@ == render_path(abs, views(segs@)),
{
    let mut out: Vec<char> = Vec::new();
    if abs {
        out.push('/');
    }
    let sep = chars_of("/");
    proof {
        reveal_strlit("/");
    }
    assert(sep@ =~= seq!['/']);
    let j = join(segs, &sep);
    push_all(&mut out, &j);
    assert(out@ =~= render_path(abs, views(segs@)));
    out
}

/// Lexical normalization of a path: `.` components dropped and `..`
/// folded into the preceding component.
pub fn normalize_chars(p: &Vec<char>) -> (r: Vec<char>)
    ensures
        r@ == normalize_spec(p@),
{
    let slash = chars_of("/");
    proof {
        reveal_strlit("/");
    }
    assert(slash@ =~= seq!['/']);
    let abs = starts_with_exec(p, &slash);
    let cs = components(p);
    let segs = normalize_segments(&cs);
    render(abs, &segs)
}

/// `normalize(parent(base).join(rel))`.
pub fn resolve_relative(base: &Vec<char>, rel: &Vec<char>) -> (r: Vec<char>)
    ensures
        r@ == resolve_path_spec(base@, rel@),
{
    let slash = chars_of("/");
    proof {
        reveal_strlit("/");
    }
    assert(slash@ =~= seq!['/']);
    if starts_with_exec(rel, &slash) {
        return normalize_chars(rel);
    }
    let bc = components(base);
    let babs = bc.len() > 0 && starts_with_exec(base, &slash);
    let mut segs: Vec<Vec<char>> = Vec::new();
    let mut i: usize = 0;
    let nb = if bc.len() > 0 { bc.len() - 1 } else { 0 };
    while i < nb
        invariant
            i <= nb,
            nb == if bc@.len() > 0 { bc@.len() - 1 } else { 0 },
            views(segs@) == views(bc@).take(i as int),
        decreases nb - i,
    {
        let q = slice(&bc[i], 0, bc[i].len());
        assert(q@ =~= bc@[i as int]@);
        let ghost old_segs = segs@;
        segs.push(q);
        assert(views(segs@) =~= views(old_segs).push(q@));
        assert(views(bc@).take(i + 1) =~= views(bc@).take(i as int).push(bc@[i as int]@));
        i = i + 1;
    }
    let rc = components(rel);
    let mut k: usize = 0;
    while k < rc.len()
        invariant
            k <= rc.len(),
            views(segs@) == views(bc@).take(nb as int) + views(rc@).take(k as int),
        decreases rc.len() - k,
    {
        let q = slice(&rc[k], 0, rc[k].len());
        assert(q@ =~= rc@[k as int]@);
        let ghost old_segs = segs@;
        segs.push(q);
        assert(views(segs@) =~= views(old_segs).push(q@));
        assert(views(rc@).take(k + 1) =~= views(rc@).take(k as int).push(rc@[k as int]@));
        assert(views(segs@) =~= views(bc@).take(nb as int) + views(rc@).take(k + 1));
        k = k + 1;
    }
    assert(views(rc@).take(rc@.len() as int) =~= views(rc@));
    proof {
        if bc@.len() > 0 {
            assert(views(bc@).take(nb as int) =~= views(bc@).drop_last());
        } else {
            assert(views(bc@).take(nb as int) =~= Seq::<Seq<char>>::empty());
            assert(views(segs@) =~= Seq::<Seq<char>>::empty() + views(rc@));
        }
    }
    let norm = normalize_segments(&segs);
    render(babs, &norm)
}

/// Resolve an internal markdown link relative to the current page's relative
/// path. Returns `(target_relative_md_path, anchor)`.
pub fn resolve_internal(page_relative: &str, href: &str) -> (r: Option<(String, Option<String>)>)
    ensures
        r matches Some((t, a)) && t@ == resolve_path_spec(page_relative@, split_anchor(href@).0)
            && match a {
            Some(x) => split_anchor(href@).1 == Some(x@),
            None => split_anchor(href@).1 is None,
        },
{
    let h = chars_of(href);
    let page = chars_of(page_relative);
    let hash = chars_of("#");
    proof {
        reveal_strlit("#");
    }
    assert(hash@ =~= seq!['#']);
    let (pp, anchor) = match find(&h, &hash, 0) {
        Some(i) => {
            proof {
                lemma_find_from_props(h@, 0, hash@);
            }
            let a = slice(&h, 0, i);
            let b = slice(&h, i + 1, h.len());
            assert(a@ =~= h@.take(i as int));
            assert(b@ =~= h@.skip(i + 1));
            (a, Some(string_from(b)))
        },
        None => (slice(&h, 0, h.len()), None),
    };
    assert(pp@ =~= split_anchor(href@).0);
    let target = resolve_relative(&page, &pp);
    Some((string_from(target), anchor))
}


/// Lexical normalization of a path: `.` components dropped and `..`
/// folded into the preceding component.
pub fn normalize(path: &str) -> (r: String)
    ensures
        r@ == normalize_spec(path@),
{
    string_from(normalize_chars(&chars_of(path)))
}


proof fn lemma_split_pieces_lack(s: Seq<char>, c: char)
    ensures
        forall|i: int| 0 <= i < split_spec(s, c).len() ==> !(#[trigger] split_spec(s, c)[i]).contains(c),
    decreases s.len(),
{
    if s.len() > 0 {
        lemma_split_pieces_lack(s.drop_last(), c);
        crate::text::lemma_split_nonempty(s.drop_last(), c);
        let p = split_spec(s.drop_last(), c);
        if s.last() != c {
            assert forall|i: int| 0 <= i < split_spec(s, c).len() implies !(#[trigger] split_spec(s, c)[i]).contains(c) by {
                if i == p.len() - 1 {
                    let x = p.last().push(s.last());
                    assert(split_spec(s, c)[i] == x);
                    if x.contains(c) {
                        let k = choose|k: int| 0 <= k < x.len() && x[k] == c;
                        if k < p.last().len() {
                            assert(p.last()[k] == c);
                            assert(p[p.len() - 1].contains(c));
                        }
                    }
                } else {
                    assert(split_spec(s, c)[i] == p[i]);
                }
            }
        } else {
            assert forall|i: int| 0 <= i < split_spec(s, c).len() implies !(#[trigger] split_spec(s, c)[i]).contains(c) by {
                if i < p.len() {
                    assert(split_spec(s, c)[i] == p[i]);
                } else {
                    assert(split_spec(s, c)[i] =~= Seq::<char>::empty());
                }
            }
        }
    }
}

proof fn lemma_keep_segs_from(ps: Seq<Seq<char>>)
    ensures
        forall|i: int| 0 <= i < keep_segs(ps).len() ==> seg_ok(#[trigger] keep_segs(ps)[i]) && ps.contains(keep_segs(ps)[i]),
    decreases ps.len(),
{
    if ps.len() > 0 {
        lemma_keep_segs_from(ps.drop_last());
        let r = keep_segs(ps.drop_last());
        assert forall|i: int| 0 <= i < keep_segs(ps).len() implies seg_ok(#[trigger] keep_segs(ps)[i]) && ps.contains(keep_segs(ps)[i]) by {
            if i < r.len() {
                assert(keep_segs(ps)[i] == r[i]);
                let j = choose|j: int| 0 <= j < ps.drop_last().len() && ps.drop_last()[j] == r[i];
                assert(ps[j] == r[i]);
            } else {
                assert(keep_segs(ps)[i] == ps.last());
                assert(ps[ps.len() - 1] == ps.last());
            }
        }
    }
}

proof fn lemma_normal_segs_from(ps: Seq<Seq<char>>)
    ensures
        forall|i: int| 0 <= i < normal_segs(ps).len() ==> #[trigger] normal_segs(ps)[i] != seq!['.', '.'] && ps.contains(normal_segs(ps)[i]),
    decreases ps.len(),
{
    if ps.len() > 0 {
        lemma_normal_segs_from(ps.drop_last());
        let r = normal_segs(ps.drop_last());
        assert forall|i: int| 0 <= i < normal_segs(ps).len() implies #[trigger] normal_segs(ps)[i] != seq!['.', '.'] && ps.contains(normal_segs(ps)[i]) by {
            if i < r.len() {
                assert(normal_segs(ps)[i] == r[i]);
                let j = choose|j: int| 0 <= j < ps.drop_last().len() && ps.drop_last()[j] == r[i];
                assert(ps[j] == r[i]);
            } else {
                assert(normal_segs(ps)[i] == ps.last());
                assert(ps[ps.len() - 1] == ps.last());
            }
        }
    }
}

/// The components kept from a path are plain names: not empty, not `.`
/// or `..`, and without a `/`, so joining them under a directory never
/// leaves it.
pub proof fn lemma_plain_components(p: Seq<char>)
    ensures
        forall|i: int| 0 <= i < normal_segs(comps(p)).len() ==> {
            let x = #[trigger] normal_segs(comps(p))[i];
            &&& x.len() > 0
            &&& x != seq!['.']
            &&& x != seq!['.', '.']
            &&& !x.contains('/')
        },
{
    lemma_split_pieces_lack(p, '/');
    lemma_keep_segs_from(split_spec(p, '/'));
    lemma_normal_segs_from(comps(p));
    assert forall|i: int| 0 <= i < normal_segs(comps(p)).len() implies {
        let x = #[trigger] normal_segs(comps(p))[i];
        &&& x.len() > 0
        &&& x != seq!['.']
        &&& x != seq!['.', '.']
        &&& !x.contains('/')
    } by {
        let x = normal_segs(comps(p))[i];
        assert(comps(p).contains(x));
        let j = choose|j: int| 0 <= j < comps(p).len() && comps(p)[j] == x;
        assert(seg_ok(comps(p)[j]));
        assert(split_spec(p, '/').contains(comps(p)[j]));
        let k = choose|k: int| 0 <= k < split_spec(p, '/').len() && split_spec(p, '/')[k] == x;
        assert(!split_spec(p, '/')[k].contains('/'));
    }
}

/// Plain URL pieces: each is not empty and holds no `/`.
pub open spec fn plain_pieces(parts: Seq<Seq<char>>) -> bool {
    forall|i: int| 0 <= i < parts.len() ==> (#[trigger] parts[i]).len() > 0 && !parts[i].contains('/')
}

/// Joining plain pieces with `/` gives a string that neither starts nor
/// ends with `/`, and is empty only when there are no pieces.
proof fn lemma_join_plain(parts: Seq<Seq<char>>)
    requires
        plain_pieces(parts),
    ensures
        parts.len() == 0 ==> join_spec(parts, seq!['/']).len() == 0,
        parts.len() > 0 ==> {
            let j = join_spec(parts, seq!['/']);
            &&& j.len() > 0
            &&& j[0] != '/'
            &&& j.last() != '/'
        },
    decreases parts.len(),
{
    if parts.len() > 0 {
        assert(parts[0].len() > 0 && !parts[0].contains('/'));
        assert(parts[0][0] != '/') by {
            if parts[0][0] == '/' {
                assert(parts[0].contains('/'));
            }
        }
        let l = parts.last();
        assert(l == parts[parts.len() - 1]);
        assert(l.last() != '/') by {
            if l.last() == '/' {
                assert(l[l.len() - 1] == '/');
                assert(l.contains('/'));
            }
        }
        if parts.len() > 1 {
            let init = parts.drop_last();
            assert forall|i: int| 0 <= i < init.len() implies (#[trigger] init[i]).len() > 0 && !init[i].contains('/') by {
                assert(init[i] == parts[i]);
            }
            lemma_join_plain(init);
            let j0 = join_spec(init, seq!['/']);
            let j = join_spec(parts, seq!['/']);
            assert(j == j0 + seq!['/'] + l);
            assert(j[0] == j0[0]);
            assert(init[0] == parts[0]);
            assert(j.last() == l.last());
        }
    }
}

/// The URL pieces of any source path are plain.
proof fn lemma_url_parts_plain(rel: Seq<char>)
    ensures
        plain_pieces(url_parts(rel)),
{
    lemma_plain_components(rel);
    let parts = normal_segs(comps(rel));
    assert forall|i: int| 0 <= i < parts.len() implies (#[trigger] parts[i]).len() > 0 && !parts[i].contains('/') by {}
    if parts.len() > 0 {
        let name = parts.last();
        assert(name == parts[parts.len() - 1]);
        let (stem, ext) = stem_ext(name);
        if is_md_ext(ext) && stem != "index"@ {
            let k = last_index(name, '.', name.len() as int)->0;
            lemma_last_index_bounds(name, '.', name.len() as int);
            assert(stem == name.take(k));
            assert(!stem.contains('/')) by {
                if stem.contains('/') {
                    let q = choose|q: int| 0 <= q < stem.len() && stem[q] == '/';
                    assert(name[q] == '/');
                    assert(name.contains('/'));
                }
            }
            let u = parts.update(parts.len() - 1, stem);
            assert forall|i: int| 0 <= i < u.len() implies (#[trigger] u[i]).len() > 0 && !u[i].contains('/') by {
                if i < parts.len() - 1 {
                    assert(u[i] == parts[i]);
                }
            }
        } else if is_md_ext(ext) {
            let d = parts.drop_last();
            assert forall|i: int| 0 <= i < d.len() implies (#[trigger] d[i]).len() > 0 && !d[i].contains('/') by {
                assert(d[i] == parts[i]);
            }
        }
    }
}

/// A page's output file follows from its URL: the file written for the
/// site URL of a source path is `index.html` under the directory named by
/// the URL's pieces (the path's directories, then the markdown file's stem
/// unless it is `index`), so `guide/install.md` goes to
/// `guide/install/index.html` and `guide/index.md` to `guide/index.html`.
pub proof fn lemma_output_path_of_site_url(rel: Seq<char>)
    ensures
        output_path_spec(site_url_spec(rel)) == if url_parts(rel).len() == 0 {
            "index.html"@
        } else {
            join_spec(url_parts(rel), seq!['/']) + "/index.html"@
        },
{
    let parts = url_parts(rel);
    lemma_url_parts_plain(rel);
    lemma_join_plain(parts);
    let j = join_spec(parts, seq!['/']);
    let cls = CharClass::Ch('/');
    if parts.len() == 0 {
        let url = site_url_spec(rel);
        assert(url =~= seq!['/']);
        assert(fwd_end(url, 1, cls) == 1);
        assert(fwd_end(url, 0, cls) == 1);
        let t = trim_start_spec(url, cls);
        assert(t.len() == 0);
        assert(back_end(t, 0, cls) == 0);
        assert(trim_spec(url, cls).len() == 0);
    } else {
        let url = site_url_spec(rel);
        let out = seq!['/'] + j;
        assert(out.last() == j.last());
        assert(url =~= out.push('/'));
        assert(url[1] == j[0]);
        assert(fwd_end(url, 1, cls) == 1);
        assert(fwd_end(url, 0, cls) == 1);
        let t = trim_start_spec(url, cls);
        assert(t =~= j.push('/'));
        let n = t.len() as int;
        assert(t[n - 2] == j.last());
        assert(back_end(t, n - 1, cls) == n - 1);
        assert(back_end(t, n, cls) == n - 1);
        assert(trim_spec(url, cls) =~= j);
    }
}

proof fn lemma_split_no_sep(w: Seq<char>, c: char)
    requires
        !w.contains(c),
    ensures
        split_spec(w, c) == seq![w],
    decreases w.len(),
{
    if w.len() > 0 {
        let init = w.drop_last();
        assert(!init.contains(c)) by {
            if init.contains(c) {
                let k = choose|k: int| 0 <= k < init.len() && init[k] == c;
                assert(w[k] == c);
            }
        }
        lemma_split_no_sep(init, c);
        assert(w[w.len() - 1] != c);
        assert(init.push(w.last()) =~= w);
        assert(split_spec(w, c) =~= seq![w]);
    } else {
        assert(w =~= Seq::<char>::empty());
    }
}

proof fn lemma_split_concat(x: Seq<char>, y: Seq<char>, c: char)
    ensures
        split_spec(x + seq![c] + y, c) == split_spec(x, c) + split_spec(y, c),
    decreases y.len(),
{
    let z = x + seq![c] + y;
    if y.len() == 0 {
        assert(z.drop_last() =~= x);
        assert(z.last() == c);
        assert(split_spec(y, c) =~= seq![Seq::<char>::empty()]);
        assert(split_spec(z, c) =~= split_spec(x, c) + split_spec(y, c));
    } else {
        let y0 = y.drop_last();
        lemma_split_concat(x, y0, c);
        crate::text::lemma_split_nonempty(y0, c);
        crate::text::lemma_split_nonempty(x, c);
        assert(z.drop_last() =~= x + seq![c] + y0);
        assert(z.last() == y.last());
        let p = split_spec(x, c) + split_spec(y0, c);
        if y.last() == c {
            assert(split_spec(z, c) =~= split_spec(x, c) + split_spec(y, c));
        } else {
            let q = split_spec(y0, c);
            assert(p.last() == q.last());
            assert(p.update(p.len() - 1, p.last().push(y.last())) =~= split_spec(x, c) + q.update(
                q.len() - 1,
                q.last().push(y.last()),
            ));
        }
    }
}

/// Splitting pieces joined with `/` gives the pieces back, when none
/// holds a `/`.
proof fn lemma_split_join(parts: Seq<Seq<char>>)
    requires
        parts.len() >= 1,
        forall|i: int| 0 <= i < parts.len() ==> !(#[trigger] parts[i]).contains('/'),
    ensures
        split_spec(join_spec(parts, seq!['/']), '/') == parts,
    decreases parts.len(),
{
    if parts.len() == 1 {
        lemma_split_no_sep(parts[0], '/');
        assert(parts =~= seq![parts[0]]);
    } else {
        let init = parts.drop_last();
        assert forall|i: int| 0 <= i < init.len() implies !(#[trigger] init[i]).contains('/') by {
            assert(init[i] == parts[i]);
        }
        lemma_split_join(init);
        assert(parts[parts.len() - 1] == parts.last());
        lemma_split_no_sep(parts.last(), '/');
        lemma_split_concat(join_spec(init, seq!['/']), parts.last(), '/');
        assert(init + seq![parts.last()] =~= parts);
    }
}

proof fn lemma_keep_all(parts: Seq<Seq<char>>)
    requires
        forall|i: int| 0 <= i < parts.len() ==> seg_ok(#[trigger] parts[i]),
    ensures
        keep_segs(parts) == parts,
    decreases parts.len(),
{
    if parts.len() > 0 {
        let init = parts.drop_last();
        assert forall|i: int| 0 <= i < init.len() implies seg_ok(#[trigger] init[i]) by {
            assert(init[i] == parts[i]);
        }
        lemma_keep_all(init);
        assert(parts[parts.len() - 1] == parts.last());
        assert(init.push(parts.last()) =~= parts);
    }
}

/// Components other than `..` pass through normalization unchanged.
pub proof fn lemma_normal_all(parts: Seq<Seq<char>>)
    requires
        forall|i: int| 0 <= i < parts.len() ==> #[trigger] parts[i] != seq!['.', '.'],
    ensures
        normal_segs(parts) == parts,
    decreases parts.len(),
{
    if parts.len() > 0 {
        let init = parts.drop_last();
        assert forall|i: int| 0 <= i < init.len() implies #[trigger] init[i] != seq!['.', '.'] by {
            assert(init[i] == parts[i]);
        }
        lemma_normal_all(init);
        assert(parts[parts.len() - 1] == parts.last());
        assert(init.push(parts.last()) =~= parts);
    }
}

proof fn lemma_last_index_at(s: Seq<char>, c: char, i: int, j: int)
    requires
        0 <= i < j <= s.len(),
        s[i] == c,
        forall|k: int| i < k < j ==> s[k] != c,
    ensures
        last_index(s, c, j) == Some(i),
    decreases j,
{
    if j - 1 > i {
        lemma_last_index_at(s, c, i, j - 1);
    }
}

/// A markdown extension (`md` or `markdown` in any ASCII case) holds no
/// `.` and no `/`.
proof fn lemma_md_ext_plain(ext: Seq<char>)
    requires
        is_md_ext(Some(ext)),
    ensures
        ext.len() > 0,
        !ext.contains('.'),
        !ext.contains('/'),
{
    reveal_strlit("md");
    reveal_strlit("markdown");
    let low = ascii_lower_seq(ext);
    assert(low.len() == ext.len());
    assert forall|k: int| 0 <= k < ext.len() implies ext[k] != '.' && ext[k] != '/' by {
        assert(low[k] == crate::text::ascii_lower(ext[k]));
    }
}

/// Where a markdown page's output file goes: for the source path
/// `d1/.../dk/s.md` (plain directory names, extension `md` or `markdown`
/// in any ASCII case), the file is `d1/.../dk/s/index.html`, or
/// `d1/.../dk/index.html` when the stem `s` is `index` (`index.html` or
/// `s/index.html` at the top).
pub proof fn lemma_markdown_output_path(dirs: Seq<Seq<char>>, stem: Seq<char>, ext: Seq<char>)
    requires
        forall|i: int| 0 <= i < dirs.len() ==> {
            let d = #[trigger] dirs[i];
            &&& d.len() > 0
            &&& d != seq!['.']
            &&& d != seq!['.', '.']
            &&& !d.contains('/')
        },
        stem.len() > 0,
        !stem.contains('/'),
        is_md_ext(Some(ext)),
    ensures
        ({
            let out_dirs = if stem == "index"@ { dirs } else { dirs.push(stem) };
            output_path_spec(site_url_spec(join_spec(dirs.push(stem + seq!['.'] + ext), seq!['/'])))
                == if out_dirs.len() == 0 {
                "index.html"@
            } else {
                join_spec(out_dirs, seq!['/']) + "/index.html"@
            }
        }),
{
    lemma_md_ext_plain(ext);
    let f = stem + seq!['.'] + ext;
    let parts = dirs.push(f);
    let rel = join_spec(parts, seq!['/']);
    assert(!f.contains('/')) by {
        if f.contains('/') {
            let k = choose|k: int| 0 <= k < f.len() && f[k] == '/';
            if k < stem.len() {
                assert(stem[k] == '/');
            } else if k > stem.len() {
                assert(ext[k - stem.len() - 1] == '/');
            }
        }
    }
    assert forall|i: int| 0 <= i < parts.len() implies !(#[trigger] parts[i]).contains('/') by {
        if i < dirs.len() {
            assert(parts[i] == dirs[i]);
        }
    }
    lemma_split_join(parts);
    assert(f.len() >= 3);
    assert(f != seq!['.']) by {
        assert(seq!['.'].len() == 1);
    }
    assert(f != seq!['.', '.']) by {
        assert(seq!['.', '.'].len() == 2);
    }
    assert forall|i: int| 0 <= i < parts.len() implies seg_ok(#[trigger] parts[i]) by {
        if i < dirs.len() {
            assert(parts[i] == dirs[i]);
        }
    }
    lemma_keep_all(parts);
    assert forall|i: int| 0 <= i < parts.len() implies #[trigger] parts[i] != seq!['.', '.'] by {
        if i < dirs.len() {
            assert(parts[i] == dirs[i]);
        }
    }
    lemma_normal_all(parts);
    assert(normal_segs(comps(rel)) == parts);
    let n = stem.len() as int;
    assert(f[n] == '.');
    assert forall|k: int| n < k < f.len() implies f[k] != '.' by {
        assert(f[k] == ext[k - n - 1]);
    }
    lemma_last_index_at(f, '.', n, f.len() as int);
    assert(f.take(n) =~= stem);
    assert(f.skip(n + 1) =~= ext);
    assert(stem_ext(f) == (stem, Some(ext)));
    assert(parts.last() == f);
    if stem == "index"@ {
        assert(url_parts(rel) =~= dirs);
    } else {
        assert(url_parts(rel) =~= dirs.push(stem));
    }
    lemma_output_path_of_site_url(rel);
}

proof fn lemma_keep_concat(a: Seq<Seq<char>>, b: Seq<Seq<char>>)
    ensures
        keep_segs(a + b) == keep_segs(a) + keep_segs(b),
    decreases b.len(),
{
    if b.len() == 0 {
        assert(a + b =~= a);
        assert(keep_segs(a) + keep_segs(b) =~= keep_segs(a));
    } else {
        lemma_keep_concat(a, b.drop_last());
        assert((a + b).drop_last() =~= a + b.drop_last());
        assert((a + b).last() == b.last());
        if seg_ok(b.last()) {
            assert(keep_segs(a) + keep_segs(b) =~= (keep_segs(a) + keep_segs(b.drop_last())).push(b.last()));
        } else {
            assert(keep_segs(a) + keep_segs(b) =~= keep_segs(a) + keep_segs(b.drop_last()));
        }
    }
}

/// A `..` takes back exactly the one component before it.
pub proof fn lemma_dotdot_cancels(p: Seq<Seq<char>>, x: Seq<char>)
    requires
        x != seq!['.', '.'],
    ensures
        normalize_segs(p.push(x).push(seq!['.', '.'])) == normalize_segs(p),
{
    let px = p.push(x);
    let q = px.push(seq!['.', '.']);
    assert(q.drop_last() =~= px);
    assert(q.last() == seq!['.', '.']);
    assert(px.drop_last() =~= p);
    assert(px.last() == x);
    assert(normalize_segs(px) == normalize_segs(p).push(x));
    assert(normalize_segs(p).push(x).drop_last() =~= normalize_segs(p));
}

/// A relative link is resolved from the page's directory: for a page
/// `d1/.../dk/f` (plain components) and a link `rel` not starting with
/// `/`, the target is the lexical normalization of `d1/.../dk/rel` (of
/// `rel` itself at the top), where each `..` removes one component.
pub proof fn lemma_resolve_from_page_dir(dirs: Seq<Seq<char>>, f: Seq<char>, rel: Seq<char>)
    requires
        forall|i: int| 0 <= i < dirs.len() ==> {
            let d = #[trigger] dirs[i];
            &&& seg_ok(d)
            &&& d != seq!['.', '.']
            &&& !d.contains('/')
        },
        seg_ok(f),
        f != seq!['.', '.'],
        !f.contains('/'),
        !starts_with(rel, seq!['/']),
    ensures
        resolve_path_spec(join_spec(dirs.push(f), seq!['/']), rel) == normalize_spec(
            if dirs.len() == 0 {
                rel
            } else {
                join_spec(dirs, seq!['/']) + seq!['/'] + rel
            },
        ),
{
    let parts = dirs.push(f);
    let base = join_spec(parts, seq!['/']);
    assert forall|i: int| 0 <= i < parts.len() implies !(#[trigger] parts[i]).contains('/') by {
        if i < dirs.len() {
            assert(parts[i] == dirs[i]);
        }
    }
    assert forall|i: int| 0 <= i < parts.len() implies seg_ok(#[trigger] parts[i]) by {
        if i < dirs.len() {
            assert(parts[i] == dirs[i]);
        }
    }
    assert forall|i: int| 0 <= i < parts.len() implies (#[trigger] parts[i]).len() > 0 && !parts[i].contains('/') by {
        if i < dirs.len() {
            assert(parts[i] == dirs[i]);
        }
    }
    assert(plain_pieces(parts));
    lemma_split_join(parts);
    lemma_keep_all(parts);
    assert(split_spec(base, '/') == parts);
    assert(comps(base) == parts);
    lemma_join_plain(parts);
    assert(base.len() > 0 && base[0] != '/');
    assert(!starts_with(base, seq!['/'])) by {
        if base.subrange(0, 1) == seq!['/'] {
            assert(base.subrange(0, 1)[0] == base[0]);
            assert(seq!['/'][0] == '/');
        }
    }
    assert(parts.drop_last() =~= dirs);
    assert(parent_of(base) == (false, dirs));
    if dirs.len() == 0 {
        assert(dirs + comps(rel) =~= comps(rel));
    } else {
        assert forall|i: int| 0 <= i < dirs.len() implies !(#[trigger] dirs[i]).contains('/') by {}
        assert forall|i: int| 0 <= i < dirs.len() implies seg_ok(#[trigger] dirs[i]) by {}
        assert(plain_pieces(dirs));
        lemma_split_join(dirs);
        lemma_keep_all(dirs);
        lemma_join_plain(dirs);
        let j = join_spec(dirs, seq!['/']);
        let q = j + seq!['/'] + rel;
        lemma_split_concat(j, rel, '/');
        lemma_keep_concat(dirs, split_spec(rel, '/'));
        assert(comps(q) == dirs + comps(rel));
        assert(q[0] == j[0]);
        assert(!starts_with(q, seq!['/'])) by {
            if q.subrange(0, 1) == seq!['/'] {
                assert(q.subrange(0, 1)[0] == q[0]);
                assert(seq!['/'][0] == '/');
            }
        }
    }
}

/// A link starting with `/` ignores the page: it resolves to its own
/// normalization, from the site root.
pub proof fn lemma_resolve_absolute(base: Seq<char>, rel: Seq<char>)
    requires
        starts_with(rel, seq!['/']),
    ensures
        resolve_path_spec(base, rel) == normalize_spec(rel),
{
}

} // verus!
