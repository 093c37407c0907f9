//! The pure parts of the development server: request paths, content
//! types, the live-reload script, and which file events trigger a rebuild.
use vstd::prelude::*;
use crate::text::{
    ascii_lower_seq, chars_of, escape, escape_spec, eq_vec, push_all, push_range, push_str,
    rfind, rfind_spec, lemma_rfind_from_props, starts_with, string_from, to_ascii_lower, views,
    EscapeSet,
};
use crate::url::{comps, components, extension, extension_of, join, join_spec, normal_segs, normal_segments};

verus! {

/// The path of the websocket that announces reloads.
pub const RELOAD_PATH: &'static str = "/__farol/reload";

/// A request path made safe to join to the site directory: empty, `.` and
/// `..` segments dropped.
pub open spec fn sanitize_spec(rel: Seq<char>) -> Seq<char> {
    join_spec(normal_segs(comps(rel)), seq!['/'])
}

pub fn sanitize(rel: &str) -> (r: String)
    ensures
        r@ == sanitize_spec(rel@),
{
    let cs = components(&chars_of(rel));
    let segs = normal_segments(&cs);
    let sep = vec!['/'];
    assert(sep@ =~= seq!['/']);
    string_from(join(&segs, &sep))
}

/// The content type of a file, by its extension (any ASCII case).
pub open spec fn mime_spec(path: Seq<char>) -> Seq<char> {
    match extension_of(path) {
        None => "application/octet-stream"@,
        Some(e0) => {
            let e = ascii_lower_seq(e0);
            if e == "html"@ || e == "htm"@ {
                "text/html; charset=utf-8"@
            } else if e == "css"@ {
                "text/css; charset=utf-8"@
            } else if e == "js"@ || e == "mjs"@ {
                "text/javascript; charset=utf-8"@
            } else if e == "json"@ {
                "application/json"@
            } else if e == "xml"@ {
                "application/xml"@
            } else if e == "txt"@ || e == "md"@ {
                "text/plain; charset=utf-8"@
            } else if e == "svg"@ {
                "image/svg+xml"@
            } else if e == "png"@ {
                "image/png"@
            } else if e == "jpg"@ || e == "jpeg"@ {
                "image/jpeg"@
            } else if e == "gif"@ {
                "image/gif"@
            } else if e == "webp"@ {
                "image/webp"@
            } else if e == "ico"@ {
                "image/x-icon"@
            } else if e == "woff"@ {
                "font/woff"@
            } else if e == "woff2"@ {
                "font/woff2"@
            } else {
                "application/octet-stream"@
            }
        },
    }
}

/// The path's extension, lowercased, is `ext`.
pub open spec fn ext_is(path: Seq<char>, ext: Seq<char>) -> bool {
    extension_of(path) matches Some(e) && ascii_lower_seq(e) == ext
}

/// The content types served, extension by extension (in any ASCII case);
/// a path without an extension is served as bytes.
pub proof fn lemma_mime_table(path: Seq<char>)
    ensures
        ext_is(path, "html"@) ==> mime_spec(path) == "text/html; charset=utf-8"@,
        ext_is(path, "htm"@) ==> mime_spec(path) == "text/html; charset=utf-8"@,
        ext_is(path, "css"@) ==> mime_spec(path) == "text/css; charset=utf-8"@,
        ext_is(path, "js"@) ==> mime_spec(path) == "text/javascript; charset=utf-8"@,
        ext_is(path, "mjs"@) ==> mime_spec(path) == "text/javascript; charset=utf-8"@,
        ext_is(path, "json"@) ==> mime_spec(path) == "application/json"@,
        ext_is(path, "xml"@) ==> mime_spec(path) == "application/xml"@,
        ext_is(path, "txt"@) ==> mime_spec(path) == "text/plain; charset=utf-8"@,
        ext_is(path, "md"@) ==> mime_spec(path) == "text/plain; charset=utf-8"@,
        ext_is(path, "svg"@) ==> mime_spec(path) == "image/svg+xml"@,
        ext_is(path, "png"@) ==> mime_spec(path) == "image/png"@,
        ext_is(path, "jpg"@) ==> mime_spec(path) == "image/jpeg"@,
        ext_is(path, "jpeg"@) ==> mime_spec(path) == "image/jpeg"@,
        ext_is(path, "gif"@) ==> mime_spec(path) == "image/gif"@,
        ext_is(path, "webp"@) ==> mime_spec(path) == "image/webp"@,
        ext_is(path, "ico"@) ==> mime_spec(path) == "image/x-icon"@,
        ext_is(path, "woff"@) ==> mime_spec(path) == "font/woff"@,
        ext_is(path, "woff2"@) ==> mime_spec(path) == "font/woff2"@,
        extension_of(path) is None ==> mime_spec(path) == "application/octet-stream"@,
{
    reveal_strlit("html");
    reveal_strlit("htm");
    reveal_strlit("css");
    reveal_strlit("js");
    reveal_strlit("mjs");
    reveal_strlit("json");
    reveal_strlit("xml");
    reveal_strlit("txt");
    reveal_strlit("md");
    reveal_strlit("svg");
    reveal_strlit("png");
    reveal_strlit("jpg");
    reveal_strlit("jpeg");
    reveal_strlit("gif");
    reveal_strlit("webp");
    reveal_strlit("ico");
    reveal_strlit("woff");
    reveal_strlit("woff2");
    assert("html"@ =~= seq!['h', 't', 'm', 'l']);
    assert("htm"@ =~= seq!['h', 't', 'm']);
    assert("css"@ =~= seq!['c', 's', 's']);
    assert("js"@ =~= seq!['j', 's']);
    assert("mjs"@ =~= seq!['m', 'j', 's']);
    assert("json"@ =~= seq!['j', 's', 'o', 'n']);
    assert("xml"@ =~= seq!['x', 'm', 'l']);
    assert("txt"@ =~= seq!['t', 'x', 't']);
    assert("md"@ =~= seq!['m', 'd']);
    assert("svg"@ =~= seq!['s', 'v', 'g']);
    assert("png"@ =~= seq!['p', 'n', 'g']);
    assert("jpg"@ =~= seq!['j', 'p', 'g']);
    assert("jpeg"@ =~= seq!['j', 'p', 'e', 'g']);
    assert("gif"@ =~= seq!['g', 'i', 'f']);
    assert("webp"@ =~= seq!['w', 'e', 'b', 'p']);
    assert("ico"@ =~= seq!['i', 'c', 'o']);
    assert("woff"@ =~= seq!['w', 'o', 'f', 'f']);
    assert("woff2"@ =~= seq!['w', 'o', 'f', 'f', '2']);
}

fn is_lit(v: &Vec<char>, lit: &str) -> (b: bool)
    ensures
        b == (v@ == lit@),
{
    eq_vec(v, &chars_of(lit))
}

pub fn mime_type(path: &str) -> (r: &'static str)
    ensures
        r@ == mime_spec(path@),
{
    let e = match extension(&chars_of(path)) {
        None => return "application/octet-stream",
        Some(e) => to_ascii_lower(&e),
    };
    if is_lit(&e, "html") || is_lit(&e, "htm") {
        "text/html; charset=utf-8"
    } else if is_lit(&e, "css") {
        "text/css; charset=utf-8"
    } else if is_lit(&e, "js") || is_lit(&e, "mjs") {
        "text/javascript; charset=utf-8"
    } else if is_lit(&e, "json") {
        "application/json"
    } else if is_lit(&e, "xml") {
        "application/xml"
    } else if is_lit(&e, "txt") || is_lit(&e, "md") {
        "text/plain; charset=utf-8"
    } else if is_lit(&e, "svg") {
        "image/svg+xml"
    } else if is_lit(&e, "png") {
        "image/png"
    } else if is_lit(&e, "jpg") || is_lit(&e, "jpeg") {
        "image/jpeg"
    } else if is_lit(&e, "gif") {
        "image/gif"
    } else if is_lit(&e, "webp") {
        "image/webp"
    } else if is_lit(&e, "ico") {
        "image/x-icon"
    } else if is_lit(&e, "woff") {
        "font/woff"
    } else if is_lit(&e, "woff2") {
        "font/woff2"
    } else {
        "application/octet-stream"
    }
}

/// The live-reload client: reconnects to `RELOAD_PATH` and reloads on
/// `reload` or when the socket closes.
pub open spec fn reload_script() -> Seq<char> {
    "<script>(function(){try{var ws=new WebSocket((location.protocol=='https:'?'wss://':'ws://')+location.host+'/__farol/reload');ws.onmessage=function(e){if(e.data=='reload')location.reload();};ws.onclose=function(){setTimeout(function(){location.reload();},1000);};}catch(e){}})();</script>"@
}

fn push_reload_script(out: &mut Vec<char>)
    ensures
        final(out)@ == old(out)@ + reload_script(),
{
    push_str(out, "<script>(function(){try{var ws=new WebSocket((location.protocol=='https:'?'wss://':'ws://')+location.host+'/__farol/reload');ws.onmessage=function(e){if(e.data=='reload')location.reload();};ws.onclose=function(){setTimeout(function(){location.reload();},1000);};}catch(e){}})();</script>");
}

/// The page with the reload script before its last `</body>` (or at the
/// end).
pub open spec fn with_reload_spec(html: Seq<char>) -> Seq<char> {
    match rfind_spec(html, "</body>"@) {
        Some(i) => html.take(i) + reload_script() + html.skip(i),
        None => html + reload_script(),
    }
}

pub fn inject_reload_script(html: &str) -> (r: String)
    ensures
        r@ == with_reload_spec(html@),
{
    let h = chars_of(html);
    let mut out: Vec<char> = Vec::new();
    match rfind(&h, &chars_of("</body>")) {
        Some(i) => {
            proof {
                lemma_rfind_from_props(h@, h@.len() - "</body>"@.len(), "</body>"@);
            }
            push_range(&mut out, &h, 0, i);
            push_reload_script(&mut out);
            push_range(&mut out, &h, i, h.len());
        },
        None => {
            push_str(&mut out, html);
            push_reload_script(&mut out);
        },
    }
    assert(out@ =~= with_reload_spec(html@));
    string_from(out)
}

/// The page shown while the last build has failed: the escaped message,
/// and the reload client so the page refreshes after the next build.
pub open spec fn overlay_spec(message: Seq<char>) -> Seq<char> {
    "<!doctype html><html><head><meta charset=\"utf-8\"><title>farol: build error</title>\n<style>\nbody{margin:0;font:14px/1.5 ui-monospace,Menlo,monospace;background:#1a0f0f;color:#ffdede;padding:2rem}\nh1{color:#ff8b8b;font:600 18px/1.2 system-ui;margin:0 0 1rem}\npre{white-space:pre-wrap;background:#2a1616;padding:1rem;border-radius:6px;border-left:3px solid #ff5050}\n</style></head><body>\n<h1>farol: build failed</h1>\n<pre>"@
        + escape_spec(message, EscapeSet::Html) + "</pre>\n"@ + reload_script() + "\n</body></html>"@
}

pub fn error_overlay_html(message: &str) -> (r: String)
    ensures
        r@ == overlay_spec(message@),
{
    let mut out: Vec<char> = Vec::new();
    push_str(&mut out, "<!doctype html><html><head><meta charset=\"utf-8\"><title>farol: build error</title>\n<style>\nbody{margin:0;font:14px/1.5 ui-monospace,Menlo,monospace;background:#1a0f0f;color:#ffdede;padding:2rem}\nh1{color:#ff8b8b;font:600 18px/1.2 system-ui;margin:0 0 1rem}\npre{white-space:pre-wrap;background:#2a1616;padding:1rem;border-radius:6px;border-left:3px solid #ff5050}\n</style></head><body>\n<h1>farol: build failed</h1>\n<pre>");
    push_all(&mut out, &escape(&chars_of(message), EscapeSet::Html));
    push_str(&mut out, "</pre>\n");
    push_reload_script(&mut out);
    push_str(&mut out, "\n</body></html>");
    assert(out@ =~= overlay_spec(message@));
    string_from(out)
}

/// `Path::starts_with`: the same root, the same leading `.`, and the
/// components of `base` a prefix of those of `p`.
pub open spec fn leading_cur(p: Seq<char>) -> bool {
    !starts_with(p, seq!['/']) && (p == seq!['.'] || starts_with(p, seq!['.', '/']))
}

pub open spec fn path_starts_with(p: Seq<char>, base: Seq<char>) -> bool {
    &&& starts_with(p, seq!['/']) == starts_with(base, seq!['/'])
    &&& leading_cur(p) == leading_cur(base)
    &&& comps(base).len() <= comps(p).len()
    &&& comps(p).take(comps(base).len() as int) == comps(base)
}

proof fn lemma_prefix1(p: Seq<char>, c: char)
    ensures
        starts_with(p, seq![c]) == (p.len() > 0 && p[0] == c),
{
    if p.len() > 0 {
        if p[0] == c {
            assert(p.subrange(0, 1) =~= seq![c]);
        } else {
            assert(p.subrange(0, 1)[0] == p[0]);
        }
    }
}

proof fn lemma_prefix2(p: Seq<char>, c: char, d: char)
    ensures
        starts_with(p, seq![c, d]) == (p.len() >= 2 && p[0] == c && p[1] == d),
{
    if p.len() >= 2 {
        if p[0] == c && p[1] == d {
            assert(p.subrange(0, 2) =~= seq![c, d]);
        } else {
            assert(p.subrange(0, 2)[0] == p[0]);
            assert(p.subrange(0, 2)[1] == p[1]);
            assert(seq![c, d][0] == c);
            assert(seq![c, d][1] == d);
        }
    }
}

proof fn lemma_single(p: Seq<char>, c: char)
    ensures
        (p == seq![c]) == (p.len() == 1 && p[0] == c),
{
    if p.len() == 1 && p[0] == c {
        assert(p =~= seq![c]);
    }
    if p == seq![c] {
        assert(seq![c][0] == c);
    }
}

fn leading_cur_exec(p: &Vec<char>) -> (b: bool)
    ensures
        b == leading_cur(p@),
{
    let root = p.len() > 0 && p[0] == '/';
    let dot_only = p.len() == 1 && p[0] == '.';
    let dot_slash = p.len() >= 2 && p[0] == '.' && p[1] == '/';
    proof {
        lemma_prefix1(p@, '/');
        lemma_prefix2(p@, '.', '/');
        lemma_single(p@, '.');
    }
    !root && (dot_only || dot_slash)
}

pub fn path_starts_with_exec(p: &str, base: &str) -> (b: bool)
    ensures
        b == path_starts_with(p@, base@),
{
    let pv = chars_of(p);
    let bv = chars_of(base);
    let pr = pv.len() > 0 && pv[0] == '/';
    let br = bv.len() > 0 && bv[0] == '/';
    proof {
        lemma_prefix1(pv@, '/');
        lemma_prefix1(bv@, '/');
    }
    if pr != br || leading_cur_exec(&pv) != leading_cur_exec(&bv) {
        return false;
    }
    let pc = components(&pv);
    let bc = components(&bv);
    if bc.len() > pc.len() {
        return false;
    }
    let mut i: usize = 0;
    while i < bc.len()
        invariant
            i <= bc.len() <= pc.len(),
            views(pc@) == comps(p@),
            views(bc@) == comps(base@),
            forall|j: int| 0 <= j < i ==> views(pc@)[j] == views(bc@)[j],
        decreases bc.len() - i,
    {
        assert(views(pc@)[i as int] == pc@[i as int]@);
        assert(views(bc@)[i as int] == bc@[i as int]@);
        if !eq_vec(&pc[i], &bc[i]) {
            assert(views(pc@).take(bc@.len() as int)[i as int] != views(bc@)[i as int]);
            return false;
        }
        i = i + 1;
    }
    assert(views(pc@).take(bc@.len() as int) =~= views(bc@));
    true
}

/// A file event triggers a rebuild unless every path it names lies inside
/// the output directory.
pub open spec fn triggers_rebuild_spec(paths: Seq<Seq<char>>, site_dir: Seq<char>) -> bool {
    exists|i: int| 0 <= i < paths.len() && !path_starts_with(#[trigger] paths[i], site_dir)
}

pub fn triggers_rebuild(paths: &Vec<String>, site_dir: &str) -> (b: bool)
    ensures
        b == triggers_rebuild_spec(crate::slug::str_views(paths@), site_dir@),
{
    let ghost pv = crate::slug::str_views(paths@);
    let mut i: usize = 0;
    while i < paths.len()
        invariant
            i <= paths.len(),
            pv == crate::slug::str_views(paths@),
            forall|j: int| 0 <= j < i ==> path_starts_with(#[trigger] pv[j], site_dir@),
        decreases paths.len() - i,
    {
        assert(pv[i as int] == paths@[i as int]@);
        if !path_starts_with_exec(paths[i].as_str(), site_dir) {
            return true;
        }
        i = i + 1;
    }
    false
}


/// A sanitized request path is made only of plain names (no empty, `.`
/// or `..` part, no `/` inside a part), so it cannot leave the site
/// directory it is joined to.
pub proof fn lemma_sanitize_stays_inside(rel: Seq<char>)
    ensures
        sanitize_spec(rel) == join_spec(normal_segs(comps(rel)), seq!['/']),
        forall|i: int| 0 <= i < normal_segs(comps(rel)).len() ==> {
            let x = #[trigger] normal_segs(comps(rel))[i];
            &&& x.len() > 0
            &&& x != seq!['.']
            &&& x != seq!['.', '.']
            &&& !x.contains('/')
        },
{
    crate::url::lemma_plain_components(rel);
}

} // verus!
