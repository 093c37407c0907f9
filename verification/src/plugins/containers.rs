//! `::: tabs` and `::: files` container directives.
//!
//! Rendered at markdown time, before the highlight plugin, so code blocks
//! inside still go through syntax highlighting. `::: tabs` splits its body
//! into sections at `###` headings, each becoming a tab; `::: files` uses
//! `####` and stacks the sections.
use vstd::prelude::*;
use crate::text::{
    chars_of, escape, escape_spec, push_all, push_dec, push_str, slice, split_inclusive_nl,
    split_lines_incl, starts_with, starts_with_exec, string_from, trim_spec, trim_start_spec,
    trim_start_vec, trim_vec, views, words, words_spec, dec_spec, CharClass, EscapeSet, eq_vec,
};

verus! {

/// The containers plugin.
pub struct ContainersPlugin;

/// The first whitespace-separated word of `s`, or nothing.
pub open spec fn first_word(s: Seq<char>) -> Seq<char> {
    if words_spec(s).len() > 0 {
        words_spec(s)[0]
    } else {
        seq![]
    }
}

pub open spec fn is_container_kind(k: Seq<char>) -> bool {
    k == "tabs"@ || k == "files"@
}

/// The kind a line opens: its start (after whitespace) is `:::`, and the
/// first word after the colons names it.
pub open spec fn opening_kind(line: Seq<char>) -> Option<Seq<char>> {
    let t = trim_start_spec(line, CharClass::Ws);
    if starts_with(t, ":::"@) {
        Some(first_word(trim_spec(trim_start_spec(t, CharClass::Ch(':')), CharClass::Ws)))
    } else {
        None
    }
}

/// What a line says when it may close a container: `None` for a line that
/// is not a `:::` directive, else the text after the colons.
pub open spec fn directive_body(line: Seq<char>) -> Option<Seq<char>> {
    let t = trim_spec(line, CharClass::Ws);
    if starts_with(t, ":::"@) {
        Some(trim_spec(trim_start_spec(t, CharClass::Ch(':')), CharClass::Ws))
    } else {
        None
    }
}

/// The index of the line closing a container opened before `j` with
/// `depth` containers open, or the number of lines when none does.
pub open spec fn close_idx(lines: Seq<Seq<char>>, j: int, depth: int) -> int
    decreases lines.len() - j,
{
    if j < 0 || j >= lines.len() {
        lines.len() as int
    } else {
        match directive_body(lines[j]) {
            Some(body) => if body.len() == 0 {
                if depth - 1 == 0 {
                    j
                } else {
                    close_idx(lines, j + 1, depth - 1)
                }
            } else if is_container_kind(first_word(body)) {
                close_idx(lines, j + 1, depth + 1)
            } else {
                close_idx(lines, j + 1, depth)
            },
            None => close_idx(lines, j + 1, depth),
        }
    }
}

pub proof fn lemma_close_idx_bounds(lines: Seq<Seq<char>>, j: int, depth: int)
    requires
        0 <= j,
    ensures
        j <= close_idx(lines, j, depth) || close_idx(lines, j, depth) == lines.len(),
        close_idx(lines, j, depth) <= lines.len(),
    decreases lines.len() - j,
{
    if j < lines.len() {
        lemma_close_idx_bounds(lines, j + 1, depth - 1);
        lemma_close_idx_bounds(lines, j + 1, depth + 1);
        lemma_close_idx_bounds(lines, j + 1, depth);
    }
}

/// The concatenation of a list of pieces.
pub open spec fn concat(ls: Seq<Seq<char>>) -> Seq<char>
    decreases ls.len(),
{
    if ls.len() == 0 {
        seq![]
    } else {
        concat(ls.drop_last()) + ls.last()
    }
}

/// The label a section heading line carries, if the line (after leading
/// whitespace) is `marker` followed by a blank or nothing.
pub open spec fn heading_label(line: Seq<char>, marker: Seq<char>) -> Option<Seq<char>> {
    let t = trim_start_spec(line, CharClass::Ws);
    if starts_with(t, marker) {
        let rest = t.skip(marker.len() as int);
        if rest.len() == 0 || rest[0] == ' ' || rest[0] == '\t' {
            Some(
                trim_spec(
                    trim_spec(trim_spec(rest, CharClass::Ws), CharClass::Ch('#')),
                    CharClass::Ws,
                ),
            )
        } else {
            None
        }
    } else {
        None
    }
}

pub open spec fn opt_seq<A>(o: Option<A>) -> Seq<A> {
    match o {
        Some(x) => seq![x],
        None => seq![],
    }
}

/// Sections finished so far and the one being filled, over lines.
pub open spec fn sec_acc(ls: Seq<Seq<char>>, marker: Seq<char>) -> (
    Seq<(Seq<char>, Seq<char>)>,
    Option<(Seq<char>, Seq<char>)>,
)
    decreases ls.len(),
{
    if ls.len() == 0 {
        (seq![], None)
    } else {
        let (done, cur) = sec_acc(ls.drop_last(), marker);
        match heading_label(ls.last(), marker) {
            Some(label) => (done + opt_seq(cur), Some((label, seq![]))),
            None => match cur {
                Some((l, b)) => (done, Some((l, b + ls.last()))),
                None => (done, None),
            },
        }
    }
}

/// The `(label, body)` sections of a container body: each heading line
/// starts one, the following lines are its body, lines before the first
/// heading are dropped.
pub open spec fn sections_spec(inner: Seq<char>, marker: Seq<char>) -> Seq<
    (Seq<char>, Seq<char>),
> {
    let (done, cur) = sec_acc(split_lines_incl(inner), marker);
    done + opt_seq(cur)
}

pub open spec fn active(idx: int) -> Seq<char> {
    if idx == 0 {
        " active"@
    } else {
        seq![]
    }
}

/// The tab buttons for sections `k..`.
pub open spec fn buttons_spec(secs: Seq<(Seq<char>, Seq<char>)>, k: int) -> Seq<char>
    decreases secs.len() - k,
{
    if k < 0 || k >= secs.len() {
        seq![]
    } else {
        "<button type=\"button\" class=\"tab-button"@ + active(k) + "\" role=\"tab\" data-tab=\""@
            + dec_spec(k as nat) + "\">"@ + escape_spec(secs[k].0, EscapeSet::Html)
            + "</button>"@ + buttons_spec(secs, k + 1)
    }
}

/// The tab panels for sections `k..`.
pub open spec fn panels_spec(secs: Seq<(Seq<char>, Seq<char>)>, k: int) -> Seq<char>
    decreases secs.len() - k,
{
    if k < 0 || k >= secs.len() {
        seq![]
    } else {
        "<div class=\"tab-panel"@ + active(k) + "\" data-tab=\""@ + dec_spec(k as nat) + "\">"@
            + seq!['\n', '\n'] + secs[k].1 + "</div>"@ + panels_spec(secs, k + 1)
    }
}

/// The file entries for sections `k..`.
pub open spec fn entries_spec(secs: Seq<(Seq<char>, Seq<char>)>, k: int) -> Seq<char>
    decreases secs.len() - k,
{
    if k < 0 || k >= secs.len() {
        seq![]
    } else {
        "<div class=\"file-entry\"><div class=\"file-label\">"@ + escape_spec(
            secs[k].0,
            EscapeSet::Html,
        ) + "</div>"@ + seq!['\n', '\n'] + secs[k].1 + "</div>"@ + entries_spec(secs, k + 1)
    }
}

pub open spec fn tabs_html(secs: Seq<(Seq<char>, Seq<char>)>, group: u64) -> Seq<char> {
    "<div class=\"farol-tabs\" data-group=\""@ + dec_spec(group as nat) + "\">"@
        + "<div class=\"tab-buttons\" role=\"tablist\">"@ + buttons_spec(secs, 0) + "</div>"@
        + "<div class=\"tab-panels\">"@ + panels_spec(secs, 0) + "</div>"@ + "</div>\n"@
}

pub open spec fn files_html(secs: Seq<(Seq<char>, Seq<char>)>) -> Seq<char> {
    "<div class=\"farol-files\">"@ + entries_spec(secs, 0) + "</div>\n"@
}

/// The next group number, wrapping like the counter it stands for.
pub open spec fn next_group(g: u64) -> u64 {
    if g == u64::MAX {
        0
    } else {
        (g + 1) as u64
    }
}

/// A container of `kind` with body `inner`, rendered, and the group
/// counter after it.
pub open spec fn render_spec(kind: Seq<char>, inner: Seq<char>, g: u64) -> (Seq<char>, u64) {
    if kind == "tabs"@ {
        let secs = sections_spec(inner, "###"@);
        if secs.len() == 0 {
            (inner, g)
        } else {
            (tabs_html(secs, g), next_group(g))
        }
    } else {
        (files_spec(inner), g)
    }
}

/// A `::: files` body rendered: unchanged when it has no `####` section.
pub open spec fn files_spec(inner: Seq<char>) -> Seq<char> {
    let secs = sections_spec(inner, "####"@);
    if secs.len() == 0 {
        inner
    } else {
        files_html(secs)
    }
}

/// The transform of lines `i..`: each `::: tabs` / `::: files` line with
/// a matching closing `:::` line (nested containers counted) is replaced
/// with its rendered body; other lines are copied.
pub open spec fn cont_from(lines: Seq<Seq<char>>, i: int, g: u64) -> (Seq<char>, u64)
    decreases lines.len() - i,
{
    if i < 0 || i >= lines.len() {
        (seq![], g)
    } else {
        let line = lines[i];
        let end = close_idx(lines, i + 1, 1);
        proof {
            lemma_close_idx_bounds(lines, i + 1, 1);
        }
        let kind = match opening_kind(line) {
            Some(k) => k,
            None => seq![],
        };
        if is_container_kind(kind) && end < lines.len() {
            let (r, g2) = render_spec(kind, concat(lines.subrange(i + 1, end)), g);
            let (rest, g3) = cont_from(lines, end + 1, g2);
            (r + rest, g3)
        } else {
            let (rest, g3) = cont_from(lines, i + 1, g);
            (line + rest, g3)
        }
    }
}


fn first_word_exec(s: &Vec<char>) -> (r: Vec<char>)
    ensures
        r@ == first_word(s@),
{
    let w = words(s);
    if w.len() > 0 {
        assert(views(w@)[0] == w@[0]@);
        slice(&w[0], 0, w[0].len())
    } else {
        Vec::new()
    }
}

fn is_container_kind_exec(k: &Vec<char>) -> (b: bool)
    ensures
        b == is_container_kind(k@),
{
    eq_vec(k, &chars_of("tabs")) || eq_vec(k, &chars_of("files"))
}

fn colons_word(t: &Vec<char>) -> (r: Vec<char>)
    ensures
        r@ == trim_spec(trim_start_spec(t@, CharClass::Ch(':')), CharClass::Ws),
{
    let a = trim_start_vec(t, CharClass::Ch(':'));
    trim_vec(&a, CharClass::Ws)
}

fn opening_kind_exec(line: &Vec<char>) -> (r: Option<Vec<char>>)
    ensures
        match r {
            Some(k) => opening_kind(line@) == Some(k@),
            None => opening_kind(line@) is None,
        },
{
    let t = trim_start_vec(line, CharClass::Ws);
    if starts_with_exec(&t, &chars_of(":::")) {
        let body = colons_word(&t);
        Some(first_word_exec(&body))
    } else {
        None
    }
}

fn directive_body_exec(line: &Vec<char>) -> (r: Option<Vec<char>>)
    ensures
        match r {
            Some(k) => directive_body(line@) == Some(k@),
            None => directive_body(line@) is None,
        },
{
    let t = trim_vec(line, CharClass::Ws);
    if starts_with_exec(&t, &chars_of(":::")) {
        Some(colons_word(&t))
    } else {
        None
    }
}

/// The index of the line that closes the container opened at line `i`:
/// nested `tabs`/`files` openers count, a bare `:::` closes one level.
fn find_close(lines: &Vec<Vec<char>>, i: usize) -> (r: usize)
    requires
        i < lines.len(),
    ensures
        r == close_idx(views(lines@), i + 1, 1),
        i < r <= lines.len(),
{
    let ghost ls = views(lines@);
    let mut depth: usize = 1;
    let mut end: usize = i + 1;
    while end < lines.len()
        invariant
            i < end <= lines.len(),
            ls == views(lines@),
            1 <= depth <= end - i,
            close_idx(ls, i + 1, 1) == close_idx(ls, end as int, depth as int),
        decreases lines.len() - end,
    {
        assert(ls[end as int] == lines@[end as int]@);
        match directive_body_exec(&lines[end]) {
            Some(body) => {
                if body.len() == 0 {
                    if depth == 1 {
                        return end;
                    }
                    depth = depth - 1;
                } else {
                    let bk = first_word_exec(&body);
                    if is_container_kind_exec(&bk) {
                        depth = depth + 1;
                    }
                }
            },
            None => {},
        }
        end = end + 1;
    }
    end
}

fn heading_label_exec(line: &Vec<char>, marker: &Vec<char>) -> (r: Option<Vec<char>>)
    ensures
        match r {
            Some(k) => heading_label(line@, marker@) == Some(k@),
            None => heading_label(line@, marker@) is None,
        },
{
    let t = trim_start_vec(line, CharClass::Ws);
    if !starts_with_exec(&t, marker) {
        return None;
    }
    let rest = slice(&t, marker.len(), t.len());
    assert(rest@ =~= t@.skip(marker@.len() as int));
    if rest.len() == 0 || rest[0] == ' ' || rest[0] == '\t' {
        let a = trim_vec(&rest, CharClass::Ws);
        let b = trim_vec(&a, CharClass::Ch('#'));
        Some(trim_vec(&b, CharClass::Ws))
    } else {
        None
    }
}

pub open spec fn sec_views(v: Seq<(Vec<char>, Vec<char>)>) -> Seq<(Seq<char>, Seq<char>)> {
    v.map_values(|p: (Vec<char>, Vec<char>)| (p.0@, p.1@))
}

/// Split a container body into `(label, body)` sections at the heading
/// lines that start with `marker`.
fn split_sections(inner: &Vec<char>, marker: &Vec<char>) -> (r: Vec<(Vec<char>, Vec<char>)>)
    ensures
        sec_views(r@) == sections_spec(inner@, marker@),
{
    let lines = split_inclusive_nl(inner);
    let ghost ls = views(lines@);
    let mut done: Vec<(Vec<char>, Vec<char>)> = Vec::new();
    let mut cur: Option<(Vec<char>, Vec<char>)> = None;
    let mut k: usize = 0;
    while k < lines.len()
        invariant
            k <= lines.len(),
            ls == views(lines@),
            ls == split_lines_incl(inner@),
            sec_acc(ls.take(k as int), marker@) == (
                sec_views(done@),
                match cur {
                    Some(p) => Some((p.0@, p.1@)),
                    None => None,
                },
            ),
        decreases lines.len() - k,
    {
        assert(ls.take(k + 1).drop_last() =~= ls.take(k as int));
        assert(ls.take(k + 1).last() == lines@[k as int]@);
        let ghost before = done@;
        match heading_label_exec(&lines[k], marker) {
            Some(label) => {
                match cur {
                    Some(p) => {
                        done.push(p);
                        assert(sec_views(done@) =~= sec_views(before) + seq![(p.0@, p.1@)]);
                    },
                    None => {
                        assert(sec_views(done@) =~= sec_views(before) + seq![]);
                    },
                }
                cur = Some((label, Vec::new()));
            },
            None => {
                match cur {
                    Some(p) => {
                        let (l, mut b) = p;
                        push_all(&mut b, &lines[k]);
                        cur = Some((l, b));
                    },
                    None => {
                        cur = None;
                    },
                }
            },
        }
        k = k + 1;
    }
    assert(ls.take(lines.len() as int) =~= ls);
    let ghost before = done@;
    match cur {
        Some(p) => {
            done.push(p);
            assert(sec_views(done@) =~= sec_views(before) + seq![(p.0@, p.1@)]);
        },
        None => {
            assert(sec_views(done@) =~= sec_views(before) + seq![]);
        },
    }
    done
}


fn push_active(out: &mut Vec<char>, idx: usize)
    ensures
        final(out)@ == old(out)@ + active(idx as int),
{
    if idx == 0 {
        push_str(out, " active");
    } else {
        assert(old(out)@ + active(idx as int) =~= old(out)@);
    }
}

/// A `::: tabs` body rendered as tab buttons and panels; the group counter
/// moves on once per rendered group.
fn render_tabs(inner: &Vec<char>, group: &mut u64) -> (r: Vec<char>)
    ensures
        (r@, *final(group)) == render_spec("tabs"@, inner@, *old(group)),
{
    proof {
        reveal_strlit("tabs");
    }
    let marker = chars_of("###");
    let secs = split_sections(inner, &marker);
    let ghost sv = sec_views(secs@);
    if secs.len() == 0 {
        return slice(inner, 0, inner.len());
    }
    let g = *group;
    *group = if g == u64::MAX { 0 } else { g + 1 };
    let mut out: Vec<char> = Vec::new();
    push_str(&mut out, "<div class=\"farol-tabs\" data-group=\"");
    push_dec(&mut out, g as u128);
    push_str(&mut out, "\">");
    push_str(&mut out, "<div class=\"tab-buttons\" role=\"tablist\">");
    let ghost start = out@;
    let mut idx: usize = 0;
    while idx < secs.len()
        invariant
            idx <= secs.len(),
            sv == sec_views(secs@),
            out@ + buttons_spec(sv, idx as int) == start + buttons_spec(sv, 0),
        decreases secs.len() - idx,
    {
        let ghost o = out@;
        push_str(&mut out, "<button type=\"button\" class=\"tab-button");
        push_active(&mut out, idx);
        push_str(&mut out, "\" role=\"tab\" data-tab=\"");
        push_dec(&mut out, idx as u128);
        push_str(&mut out, "\">");
        let label = escape(&secs[idx].0, EscapeSet::Html);
        push_all(&mut out, &label);
        push_str(&mut out, "</button>");
        assert(sv[idx as int] == (secs@[idx as int].0@, secs@[idx as int].1@));
        assert(o + buttons_spec(sv, idx as int) =~= out@ + buttons_spec(sv, idx + 1));
        idx = idx + 1;
    }
    assert(buttons_spec(sv, idx as int) =~= Seq::<char>::empty());
    push_str(&mut out, "</div>");
    push_str(&mut out, "<div class=\"tab-panels\">");
    let ghost start2 = out@;
    idx = 0;
    while idx < secs.len()
        invariant
            idx <= secs.len(),
            sv == sec_views(secs@),
            out@ + panels_spec(sv, idx as int) == start2 + panels_spec(sv, 0),
        decreases secs.len() - idx,
    {
        let ghost o = out@;
        push_str(&mut out, "<div class=\"tab-panel");
        push_active(&mut out, idx);
        push_str(&mut out, "\" data-tab=\"");
        push_dec(&mut out, idx as u128);
        push_str(&mut out, "\">");
        out.push('\n');
        out.push('\n');
        push_all(&mut out, &secs[idx].1);
        push_str(&mut out, "</div>");
        assert(sv[idx as int] == (secs@[idx as int].0@, secs@[idx as int].1@));
        assert(o + panels_spec(sv, idx as int) =~= out@ + panels_spec(sv, idx + 1));
        idx = idx + 1;
    }
    assert(panels_spec(sv, idx as int) =~= Seq::<char>::empty());
    push_str(&mut out, "</div>");
    push_str(&mut out, "</div>\n");
    assert(out@ =~= tabs_html(sv, g));
    out
}

/// A `::: files` body rendered as stacked, labelled entries.
fn render_files(inner: &Vec<char>) -> (r: Vec<char>)
    ensures
        r@ == files_spec(inner@),
{
    let marker = chars_of("####");
    let secs = split_sections(inner, &marker);
    let ghost sv = sec_views(secs@);
    if secs.len() == 0 {
        return slice(inner, 0, inner.len());
    }
    let mut out: Vec<char> = Vec::new();
    push_str(&mut out, "<div class=\"farol-files\">");
    let ghost start = out@;
    let mut idx: usize = 0;
    while idx < secs.len()
        invariant
            idx <= secs.len(),
            sv == sec_views(secs@),
            out@ + entries_spec(sv, idx as int) == start + entries_spec(sv, 0),
        decreases secs.len() - idx,
    {
        let ghost o = out@;
        push_str(&mut out, "<div class=\"file-entry\"><div class=\"file-label\">");
        let label = escape(&secs[idx].0, EscapeSet::Html);
        push_all(&mut out, &label);
        push_str(&mut out, "</div>");
        out.push('\n');
        out.push('\n');
        push_all(&mut out, &secs[idx].1);
        push_str(&mut out, "</div>");
        assert(sv[idx as int] == (secs@[idx as int].0@, secs@[idx as int].1@));
        assert(o + entries_spec(sv, idx as int) =~= out@ + entries_spec(sv, idx + 1));
        idx = idx + 1;
    }
    assert(entries_spec(sv, idx as int) =~= Seq::<char>::empty());
    push_str(&mut out, "</div>\n");
    assert(out@ =~= files_html(sv));
    out
}


/// Render every `::: tabs` / `::: files` container of `markdown` that has a
/// closing `:::` line; everything else is copied unchanged. `group` numbers
/// the tab groups and is advanced once per rendered `tabs` group.
pub fn transform(markdown: &str, group: &mut u64) -> (r: String)
    ensures
        (r@, *final(group)) == cont_from(split_lines_incl(markdown@), 0, *old(group)),
{
    let text = chars_of(markdown);
    let lines = split_inclusive_nl(&text);
    let ghost ls = views(lines@);
    let ghost g0 = *group;
    let mut out: Vec<char> = Vec::new();
    let mut i: usize = 0;
    while i < lines.len()
        invariant
            i <= lines.len(),
            ls == views(lines@),
            ls == split_lines_incl(markdown@),
            cont_from(ls, 0, g0) == (
                out@ + cont_from(ls, i as int, *group).0,
                cont_from(ls, i as int, *group).1,
            ),
        decreases lines.len() - i,
    {
        let ghost o = out@;
        let ghost gi = *group;
        assert(ls[i as int] == lines@[i as int]@);
        proof {
            lemma_close_idx_bounds(ls, i + 1, 1);
        }
        let kind = match opening_kind_exec(&lines[i]) {
            Some(k) => k,
            None => Vec::new(),
        };
        let mut handled = false;
        if is_container_kind_exec(&kind) {
            let end = find_close(&lines, i);
            if end < lines.len() {
                let mut inner: Vec<char> = Vec::new();
                let mut j: usize = i + 1;
                while j < end
                    invariant
                        i < j <= end < lines.len(),
                        ls == views(lines@),
                        inner@ == concat(ls.subrange(i + 1, j as int)),
                    decreases end - j,
                {
                    assert(ls.subrange(i + 1, j + 1).drop_last() =~= ls.subrange(i + 1, j as int));
                    assert(ls[j as int] == lines@[j as int]@);
                    push_all(&mut inner, &lines[j]);
                    j = j + 1;
                }
                proof {
                    reveal_strlit("tabs");
                    reveal_strlit("files");
                }
                let rendered = if eq_vec(&kind, &chars_of("tabs")) {
                    render_tabs(&inner, group)
                } else {
                    render_files(&inner)
                };
                push_all(&mut out, &rendered);
                assert(out@ + cont_from(ls, end + 1, *group).0 =~= o + cont_from(ls, i as int, gi).0);
                i = end + 1;
                handled = true;
            }
        }
        if !handled {
            push_all(&mut out, &lines[i]);
            assert(out@ + cont_from(ls, i + 1, *group).0 =~= o + cont_from(ls, i as int, gi).0);
            i = i + 1;
        }
    }
    string_from(out)
}


/// Whether a line opens a `tabs` or `files` container.
pub open spec fn opens_container(line: Seq<char>) -> bool {
    match opening_kind(line) {
        Some(k) => is_container_kind(k),
        None => false,
    }
}

proof fn lemma_concat_front(x: Seq<char>, ls: Seq<Seq<char>>)
    ensures
        concat(seq![x] + ls) == x + concat(ls),
    decreases ls.len(),
{
    if ls.len() > 0 {
        let xs = seq![x] + ls;
        assert(xs.drop_last() =~= seq![x] + ls.drop_last());
        assert(xs.last() == ls.last());
        lemma_concat_front(x, ls.drop_last());
        assert(concat(xs) == concat(xs.drop_last()) + xs.last());
        assert(concat(ls) == concat(ls.drop_last()) + ls.last());
        assert(x + concat(ls.drop_last()) + ls.last() =~= x + (concat(ls.drop_last()) + ls.last()));
    } else {
        let one: Seq<Seq<char>> = seq![x];
        assert(one + ls =~= one);
        assert(one.drop_last() =~= Seq::<Seq<char>>::empty());
        assert(concat(one) == concat(one.drop_last()) + one.last());
        assert(concat(one.drop_last()) == Seq::<char>::empty());
        assert(concat(ls) == Seq::<char>::empty());
        assert(concat(one) =~= x);
        assert(x + concat(ls) =~= x);
    }
}

proof fn lemma_concat_lines(s: Seq<char>)
    ensures
        concat(split_lines_incl(s)) == s,
    decreases s.len(),
{
    if s.len() > 0 {
        let p = split_lines_incl(s.drop_last());
        lemma_concat_lines(s.drop_last());
        if p.len() > 0 && p.last().last() != '\n' {
            let q = p.update(p.len() - 1, p.last().push(s.last()));
            assert(q.drop_last() =~= p.drop_last());
            assert(concat(q) =~= concat(p.drop_last()) + p.last().push(s.last()));
            assert(concat(p) == concat(p.drop_last()) + p.last());
        } else {
            assert(p.push(seq![s.last()]).drop_last() =~= p);
        }
        assert(s.drop_last().push(s.last()) =~= s);
    }
}

proof fn lemma_plain_from(lines: Seq<Seq<char>>, i: int, g: u64)
    requires
        0 <= i <= lines.len(),
        forall|k: int| 0 <= k < lines.len() ==> !opens_container(#[trigger] lines[k]),
    ensures
        cont_from(lines, i, g) == (concat(lines.subrange(i, lines.len() as int)), g),
    decreases lines.len() - i,
{
    if i < lines.len() {
        lemma_plain_from(lines, i + 1, g);
        assert(!opens_container(lines[i]));
        reveal_strlit("tabs");
        reveal_strlit("files");
        assert(!is_container_kind(seq![]));
        assert(lines.subrange(i, lines.len() as int) =~= seq![lines[i]] + lines.subrange(i + 1, lines.len() as int));
        lemma_concat_front(lines[i], lines.subrange(i + 1, lines.len() as int));
    } else {
        assert(lines.subrange(i, lines.len() as int) =~= Seq::<Seq<char>>::empty());
    }
}

/// Markdown in which no line opens a `tabs` or `files` container comes
/// back unchanged, and no tab group number is used up.
pub proof fn lemma_plain_markdown_unchanged(md: Seq<char>, g: u64)
    requires
        forall|k: int| 0 <= k < split_lines_incl(md).len() ==> !opens_container(#[trigger] split_lines_incl(md)[k]),
    ensures
        cont_from(split_lines_incl(md), 0, g) == (md, g),
{
    let ls = split_lines_incl(md);
    lemma_plain_from(ls, 0, g);
    assert(ls.subrange(0, ls.len() as int) =~= ls);
    lemma_concat_lines(md);
}

} // verus!
