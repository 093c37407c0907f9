//! Images: which assets are images, their hashed names, and the
//! `<picture>` markup that replaces `<img>` tags pointing at them.
//!
//! Decoding, re-encoding and the blurred placeholder are done with the
//! `image` crate around these functions.
use vstd::prelude::*;
use crate::hash::{hex_spec, push_hex, sha256_of};
use crate::serve::{leading_cur, path_starts_with};
use crate::text::{
    ascii_lower_seq, chars_of, contains_exec, contains_seq, dec_spec, eq_vec, escape, escape_spec,
    find, find_from, lemma_find_from_props, push_all, push_dec, push_range, push_str, replace_spec,
    replace_str, slice, starts_with, starts_with_exec, string_from, to_ascii_lower, views,
    EscapeSet,
};
use crate::url::{
    comps, components, extension, extension_of, file_name_of, file_name_spec, join, join_spec,
    resolve_path_spec, resolve_relative, stem_and_ext, stem_ext,
};

verus! {

/// Everything known about a processed image.
#[derive(Debug, Clone)]
pub struct ImageMeta {
    /// URL of the hashed copy in the original format.
    pub original_url: String,
    /// URL of the WebP alternative, when one was written.
    pub webp_url: Option<String>,
    /// A tiny `data:image/webp;base64,...` placeholder (empty when none).
    pub lqip: String,
    pub width: u32,
    pub height: u32,
    pub mime: &'static str,
}

pub open spec fn is_image_ext(e: Seq<char>) -> bool {
    let l = ascii_lower_seq(e);
    l == "png"@ || l == "jpg"@ || l == "jpeg"@ || l == "webp"@ || l == "gif"@
}

pub open spec fn is_image_spec(path: Seq<char>) -> bool {
    match crate::url::extension_of(path) {
        Some(e) => is_image_ext(e),
        None => false,
    }
}

fn lit(v: &Vec<char>, s: &str) -> (b: bool)
    ensures
        b == (v@ == s@),
{
    eq_vec(v, &chars_of(s))
}

/// Whether a path names an image (by extension, any ASCII case).
pub fn is_image(path: &str) -> (b: bool)
    ensures
        b == is_image_spec(path@),
{
    match crate::url::extension(&chars_of(path)) {
        Some(e) => {
            let l = to_ascii_lower(&e);
            lit(&l, "png") || lit(&l, "jpg") || lit(&l, "jpeg") || lit(&l, "webp") || lit(&l, "gif")
        },
        None => false,
    }
}

/// The content type of a (lowercased) image extension.
pub open spec fn mime_for_spec(ext: Seq<char>) -> Seq<char> {
    if ext == "png"@ {
        "image/png"@
    } else if ext == "jpg"@ || ext == "jpeg"@ {
        "image/jpeg"@
    } else if ext == "webp"@ {
        "image/webp"@
    } else if ext == "gif"@ {
        "image/gif"@
    } else {
        "application/octet-stream"@
    }
}

pub fn mime_for(ext: &str) -> (r: &'static str)
    ensures
        r@ == mime_for_spec(ext@),
{
    let e = chars_of(ext);
    if lit(&e, "png") {
        "image/png"
    } else if lit(&e, "jpg") || lit(&e, "jpeg") {
        "image/jpeg"
    } else if lit(&e, "webp") {
        "image/webp"
    } else if lit(&e, "gif") {
        "image/gif"
    } else {
        "application/octet-stream"
    }
}

/// The hex of the first four bytes of the content's SHA-256.
pub fn short_hash(bytes: &[u8]) -> (r: String)
    ensures
        r@ == hex_spec(sha256_of(bytes@).take(4)),
{
    let d = crate::hash::Hash::of(bytes);
    let mut four: Vec<u8> = Vec::new();
    let mut i: usize = 0;
    while i < 4
        invariant
            i <= 4,
            d.0@.len() == 32,
            four@ == d.0@.take(i as int),
        decreases 4 - i,
    {
        four.push(d.0[i]);
        i = i + 1;
        assert(four@ =~= d.0@.take(i as int));
    }
    let mut out: Vec<char> = Vec::new();
    let fs = four.as_slice();
    assert(fs@ == four@);
    push_hex(&mut out, fs);
    assert(out@ =~= hex_spec(sha256_of(bytes@).take(4)));
    string_from(out)
}

/// A path as URL text: backslashes turned into slashes.
pub open spec fn path_to_url_spec(p: Seq<char>) -> Seq<char> {
    replace_spec(p, seq!['\\'], seq!['/'])
}

pub fn path_to_url(p: &str) -> (r: String)
    ensures
        r@ == path_to_url_spec(p@),
{
    proof {
        reveal_strlit("\\");
        reveal_strlit("/");
    }
    assert("\\"@ =~= seq!['\\']);
    assert("/"@ =~= seq!['/']);
    string_from(replace_str(&chars_of(p), "\\", "/"))
}

/// The value of attribute `name` in a tag: after `name="` up to the next
/// `"`, else after `name='` up to the next `'`; a double-quoted value
/// without its closing quote gives nothing.
pub open spec fn attr_spec(tag: Seq<char>, name: Seq<char>) -> Option<Seq<char>> {
    let dq = name + "=\""@;
    let sq = name + "='"@;
    match find_from(tag, 0, dq) {
        Some(i) => match find_from(tag, i + dq.len(), seq!['"']) {
            Some(e) => Some(tag.subrange(i + dq.len(), e)),
            None => None,
        },
        None => match find_from(tag, 0, sq) {
            Some(i) => match find_from(tag, i + sq.len(), seq!['\'']) {
                Some(e) => Some(tag.subrange(i + sq.len(), e)),
                None => None,
            },
            None => None,
        },
    }
}

pub fn extract_attr(tag: &Vec<char>, name: &str) -> (r: Option<Vec<char>>)
    ensures
        match r {
            Some(v) => attr_spec(tag@, name@) == Some(v@),
            None => attr_spec(tag@, name@) is None,
        },
{
    let mut dq = chars_of(name);
    push_str(&mut dq, "=\"");
    let mut sq = chars_of(name);
    push_str(&mut sq, "='");
    let q2 = vec!['"'];
    let q1 = vec!['\''];
    assert(q2@ =~= seq!['"']);
    assert(q1@ =~= seq!['\'']);
    match find(tag, &dq, 0) {
        Some(i) => {
            proof {
                lemma_find_from_props(tag@, 0, dq@);
            }
            assert(crate::text::matches_at(tag@, i as int, dq@));
            let start = i + dq.len();
            match find(tag, &q2, start) {
                Some(e) => {
                    proof {
                        lemma_find_from_props(tag@, start as int, q2@);
                    }
                    Some(slice(tag, start, e))
                },
                None => None,
            }
        },
        None => match find(tag, &sq, 0) {
            Some(i) => {
                proof {
                    lemma_find_from_props(tag@, 0, sq@);
                }
                assert(crate::text::matches_at(tag@, i as int, sq@));
                assert(i + sq@.len() <= tag@.len());
                assert(tag@.len() == tag.len());
                let start = i + sq.len();
                match find(tag, &q1, start) {
                    Some(e) => {
                        proof {
                            lemma_find_from_props(tag@, start as int, q1@);
                        }
                        Some(slice(tag, start, e))
                    },
                    None => None,
                }
            },
            None => None,
        },
    }
}

/// What `ImageMeta` holds, as plain values.
pub open spec fn meta_view(m: ImageMeta) -> (Seq<char>, Option<Seq<char>>, Seq<char>, u32, u32, Seq<char>) {
    (
        m.original_url@,
        match m.webp_url {
            Some(w) => Some(w@),
            None => None,
        },
        m.lqip@,
        m.width,
        m.height,
        m.mime@,
    )
}

/// The `<picture>` element for an image.
pub open spec fn picture_spec(m: (Seq<char>, Option<Seq<char>>, Seq<char>, u32, u32, Seq<char>), alt: Seq<char>) -> Seq<char> {
    "<picture>"@ + (match m.1 {
        Some(w) => "<source srcset=\""@ + w + "\" type=\"image/webp\">"@,
        None => seq![],
    }) + "<img src=\""@ + m.0 + "\" alt=\""@ + escape_spec(alt, EscapeSet::Attr)
        + "\" loading=\"lazy\" decoding=\"async\""@ + (if m.3 > 0 && m.4 > 0 {
        " width=\""@ + dec_spec(m.3 as nat) + "\" height=\""@ + dec_spec(m.4 as nat) + "\""@
    } else {
        seq![]
    }) + (if m.2.len() > 0 {
        " style=\"background-image:url("@ + m.2 + ");background-size:cover\""@
    } else {
        seq![]
    }) + "></picture>"@
}

pub fn render_picture(meta: &ImageMeta, alt: &Vec<char>) -> (r: Vec<char>)
    ensures
        r@ == picture_spec(meta_view(*meta), alt@),
{
    let mut out: Vec<char> = Vec::new();
    push_str(&mut out, "<picture>");
    match &meta.webp_url {
        Some(w) => {
            push_str(&mut out, "<source srcset=\"");
            push_str(&mut out, w.as_str());
            push_str(&mut out, "\" type=\"image/webp\">");
        },
        None => {},
    }
    push_str(&mut out, "<img src=\"");
    push_str(&mut out, meta.original_url.as_str());
    push_str(&mut out, "\" alt=\"");
    push_all(&mut out, &escape(alt, EscapeSet::Attr));
    push_str(&mut out, "\" loading=\"lazy\" decoding=\"async\"");
    if meta.width > 0 && meta.height > 0 {
        push_str(&mut out, " width=\"");
        push_dec(&mut out, meta.width as u128);
        push_str(&mut out, "\" height=\"");
        push_dec(&mut out, meta.height as u128);
        push_str(&mut out, "\"");
    }
    if meta.lqip.unicode_len() > 0 {
        push_str(&mut out, " style=\"background-image:url(");
        push_str(&mut out, meta.lqip.as_str());
        push_str(&mut out, ");background-size:cover\"");
    }
    push_str(&mut out, "></picture>");
    assert(out@ =~= picture_spec(meta_view(*meta), alt@));
    out
}

/// Two paths name the same thing (`Path`'s `==`): same root, same leading
/// `.`, same components.
pub open spec fn path_eq(a: Seq<char>, b: Seq<char>) -> bool {
    path_starts_with(a, b) && comps(a).len() == comps(b).len()
}

/// The entry of the index for the image `src` refers to from the page:
/// none for absolute URLs and root-relative paths; otherwise the first
/// entry whose path equals `src` resolved against the page's directory.
pub open spec fn lookup_spec(keys: Seq<Seq<char>>, page_relative: Seq<char>, src: Seq<char>) -> Option<int> {
    if contains_seq(src, "://"@) || starts_with(src, seq!['/']) {
        None
    } else {
        let target = resolve_path_spec(page_relative, src);
        if exists|i: int| 0 <= i < keys.len() && path_eq(#[trigger] keys[i], target) {
            Some(choose|i: int| 0 <= i < keys.len() && path_eq(#[trigger] keys[i], target) && forall|j: int| 0 <= j < i ==> !path_eq(#[trigger] keys[j], target))
        } else {
            None
        }
    }
}

pub open spec fn index_keys(index: Seq<(String, ImageMeta)>) -> Seq<Seq<char>> {
    index.map_values(|e: (String, ImageMeta)| e.0@)
}

fn find_image(index: &Vec<(String, ImageMeta)>, page_relative: &str, src: &Vec<char>) -> (r: Option<usize>)
    ensures
        match r {
            Some(i) => lookup_spec(index_keys(index@), page_relative@, src@) == Some(i as int),
            None => lookup_spec(index_keys(index@), page_relative@, src@) is None,
        },
        r matches Some(i) ==> i < index@.len(),
{
    let ghost keys = index_keys(index@);
    proof {
        reveal_strlit("://");
    }
    let slash = vec!['/'];
    assert(slash@ =~= seq!['/']);
    if contains_exec(src, &chars_of("://")) || starts_with_exec(src, &slash) {
        return None;
    }
    let target = resolve_relative(&chars_of(page_relative), src);
    let ts = string_from(target);
    let mut i: usize = 0;
    while i < index.len()
        invariant
            i <= index.len(),
            keys == index_keys(index@),
            keys.len() == index@.len(),
            ts@ == resolve_path_spec(page_relative@, src@),
            !(contains_seq(src@, "://"@) || starts_with(src@, seq!['/'])),
            forall|j: int| 0 <= j < i ==> !path_eq(#[trigger] keys[j], ts@),
        decreases index.len() - i,
    {
        assert(keys[i as int] == index@[i as int].0@);
        let same = crate::serve::path_starts_with_exec(index[i].0.as_str(), ts.as_str())
            && components_len(index[i].0.as_str()) == components_len(ts.as_str());
        if same {
            assert(path_eq(keys[i as int], ts@));
            let ghost w = choose|w: int| 0 <= w < keys.len() && path_eq(#[trigger] keys[w], ts@) && forall|j: int| 0 <= j < w ==> !path_eq(#[trigger] keys[j], ts@);
            proof {
                if w < i {
                    assert(!path_eq(keys[w], ts@));
                } else if w > i {
                    assert(!path_eq(keys[i as int], ts@));
                }
            }
            return Some(i);
        }
        i = i + 1;
    }
    None
}

fn components_len(p: &str) -> (n: usize)
    ensures
        n == comps(p@).len(),
{
    crate::url::components(&chars_of(p)).len()
}

/// What an `<img ...>` tag becomes: its `<picture>` when its `src` refers
/// to a known image, else the tag itself.
pub open spec fn replaced_tag(tag: Seq<char>, index: Seq<(String, ImageMeta)>, page: Seq<char>) -> Seq<char> {
    match attr_spec(tag, "src"@) {
        None => tag,
        Some(src) => match lookup_spec(index_keys(index), page, src) {
            Some(k) => picture_spec(
                meta_view(index[k].1),
                match attr_spec(tag, "alt"@) {
                    Some(a) => a,
                    None => seq![],
                },
            ),
            None => tag,
        },
    }
}

#[verifier::rlimit(40)]
fn replace_tag(tag: &Vec<char>, index: &Vec<(String, ImageMeta)>, page_relative: &str) -> (r: Vec<char>)
    ensures
        r@ == replaced_tag(tag@, index@, page_relative@),
{
    match extract_attr(tag, "src") {
        None => slice(tag, 0, tag.len()),
        Some(src) => match find_image(index, page_relative, &src) {
            Some(k) => {
                let alt = match extract_attr(tag, "alt") {
                    Some(a) => a,
                    None => Vec::new(),
                };
                render_picture(&index[k].1, &alt)
            },
            None => slice(tag, 0, tag.len()),
        },
    }
}

/// The page's HTML from `cur` on with each `<img>` that refers to a known
/// image replaced by its `<picture>`.
pub open spec fn images_from(s: Seq<char>, cur: int, index: Seq<(String, ImageMeta)>, page: Seq<char>) -> Seq<char>
    decreases s.len() - cur,
{
    if cur < 0 || cur > s.len() {
        seq![]
    } else {
        match find_from(s, cur, "<img "@) {
            None => s.skip(cur),
            Some(start) => {
                proof {
                    lemma_find_from_props(s, cur, "<img "@);
                    reveal_strlit("<img ");
                    lemma_find_from_props(s, start, seq!['>']);
                }
                match find_from(s, start, seq!['>']) {
                    None => s.skip(cur),
                    Some(gt) => {
                        s.subrange(cur, start) + replaced_tag(s.subrange(start, gt + 1), index, page)
                            + images_from(s, gt + 1, index, page)
                    },
                }
            },
        }
    }
}

/// Rewrite `<img>` tags that refer to processed images into `<picture>`
/// elements; with an empty index the HTML is unchanged.
pub fn rewrite_images(html: &str, page_relative: &str, index: &Vec<(String, ImageMeta)>) -> (r: String)
    ensures
        index@.len() == 0 ==> r@ == html@,
        index@.len() > 0 ==> r@ == images_from(html@, 0, index@, page_relative@),
{
    if index.len() == 0 {
        return string_from(chars_of(html));
    }
    let s = chars_of(html);
    let open = chars_of("<img ");
    let gtv = vec!['>'];
    assert(gtv@ =~= seq!['>']);
    proof {
        reveal_strlit("<img ");
    }
    let mut out: Vec<char> = Vec::new();
    let mut cursor: usize = 0;
    loop
        invariant_except_break
            cursor <= s.len(),
            s@ == html@,
            open@ == "<img "@,
            open@.len() == 5,
            gtv@ == seq!['>'],
            images_from(s@, 0, index@, page_relative@) == out@ + images_from(s@, cursor as int, index@, page_relative@),
        ensures
            out@ == images_from(s@, 0, index@, page_relative@),
        decreases s.len() - cursor,
    {
        let ghost o = out@;
        match find(&s, &open, cursor) {
            None => {
                push_range(&mut out, &s, cursor, s.len());
                assert(out@ =~= o + s@.skip(cursor as int));
                break;
            },
            Some(start) => {
                proof {
                    lemma_find_from_props(s@, cursor as int, open@);
                    lemma_find_from_props(s@, start as int, gtv@);
                }
                match find(&s, &gtv, start) {
                    None => {
                        push_range(&mut out, &s, cursor, s.len());
                        assert(out@ =~= o + s@.skip(cursor as int));
                        break;
                    },
                    Some(gt) => {
                        push_range(&mut out, &s, cursor, start);
                        let tag = slice(&s, start, gt + 1);
                        let rep = replace_tag(&tag, index, page_relative);
                        push_all(&mut out, &rep);
                        assert(out@ + images_from(s@, gt + 1, index@, page_relative@) =~= o + images_from(s@, cursor as int, index@, page_relative@));
                        cursor = gt + 1;
                    },
                }
            },
        }
    }
    string_from(out)
}

/// The placeholder image as a data URI.
pub open spec fn lqip_uri_spec(b64: Seq<char>) -> Seq<char> {
    "data:image/webp;base64,"@ + b64
}

pub fn lqip_uri(b64: &str) -> (r: String)
    ensures
        r@ == lqip_uri_spec(b64@),
{
    let mut out: Vec<char> = Vec::new();
    push_str(&mut out, "data:image/webp;base64,");
    push_str(&mut out, b64);
    string_from(out)
}

/// The character of a 6-bit value in the standard Base64 alphabet
/// (RFC 4648): `A`..`Z`, `a`..`z`, `0`..`9`, `+`, `/`.
pub open spec fn b64_char(v: int) -> char {
    if v < 26 {
        (65 + v) as char
    } else if v < 52 {
        (71 + v) as char
    } else if v < 62 {
        (v - 4) as char
    } else if v == 62 {
        '+'
    } else {
        '/'
    }
}

/// Standard Base64 with padding (RFC 4648): each group of three bytes
/// becomes four characters; a last group of one or two bytes becomes two
/// or three characters and `=` up to four.
pub open spec fn base64_std(bytes: Seq<u8>) -> Seq<char>
    decreases bytes.len(),
{
    if bytes.len() == 0 {
        seq![]
    } else if bytes.len() == 1 {
        let x = bytes[0] as int;
        seq![b64_char(x / 4), b64_char((x % 4) * 16), '=', '=']
    } else if bytes.len() == 2 {
        let x = bytes[0] as int;
        let y = bytes[1] as int;
        seq![b64_char(x / 4), b64_char((x % 4) * 16 + y / 16), b64_char((y % 16) * 4), '=']
    } else {
        let x = bytes[0] as int;
        let y = bytes[1] as int;
        let z = bytes[2] as int;
        seq![b64_char(x / 4), b64_char((x % 4) * 16 + y / 16), b64_char((y % 16) * 4 + z / 64), b64_char(z % 64)]
            + base64_std(bytes.skip(3))
    }
}

/// `base64::engine::general_purpose::STANDARD.encode`: standard Base64
/// with padding.
#[verifier::external_body]
pub(crate) fn base64_encode(bytes: &[u8]) -> (r: String)
    ensures
        r@ == base64_std(bytes@),
{
    base64::Engine::encode(&base64::engine::general_purpose::STANDARD, bytes)
}

/// The placeholder data URI of encoded WebP bytes.
pub fn lqip_from_webp(webp: &[u8]) -> (r: String)
    ensures
        r@ == lqip_uri_spec(base64_std(webp@)),
{
    let b = base64_encode(webp);
    lqip_uri(b.as_str())
}


/// Where the copies of a processed image go, relative to the site root.
#[derive(Debug, Clone)]
pub struct ImageOutputs {
    /// The source's extension, lowercased (empty when it has none).
    pub ext: String,
    /// The content-hashed copy in the original format.
    pub original_rel: String,
    /// The WebP alternative; none when the source already is WebP.
    pub webp_rel: Option<String>,
}

/// The source's lowercased extension, or nothing.
pub open spec fn image_ext(rel: Seq<char>) -> Seq<char> {
    match extension_of(rel) {
        Some(e) => ascii_lower_seq(e),
        None => seq![],
    }
}

/// The source's file stem, or `image`.
pub open spec fn image_stem(rel: Seq<char>) -> Seq<char> {
    match file_name_spec(rel) {
        Some(n) => stem_ext(n).0,
        None => "image"@,
    }
}

/// `rel.parent().join(name)`: `name` beside the source.
pub open spec fn beside(rel: Seq<char>, name: Seq<char>) -> Seq<char> {
    let c = comps(rel);
    if c.len() <= 1 {
        name
    } else {
        join_spec(c.drop_last(), seq!['/']) + seq!['/'] + name
    }
}

/// `{stem}.{hash}.{ext}`.
pub open spec fn hashed_image_name(rel: Seq<char>, hash: Seq<char>, ext: Seq<char>) -> Seq<char> {
    image_stem(rel) + seq!['.'] + hash + seq!['.'] + ext
}

pub open spec fn outputs_ok(rel: Seq<char>, hash: Seq<char>, o: ImageOutputs) -> bool {
    &&& o.ext@ == image_ext(rel)
    &&& o.original_rel@ == beside(rel, hashed_image_name(rel, hash, image_ext(rel)))
    &&& match o.webp_rel {
        Some(w) => image_ext(rel) != "webp"@ && w@ == beside(rel, hashed_image_name(rel, hash, "webp"@)),
        None => image_ext(rel) == "webp"@,
    }
}

fn beside_exec(parent: &Vec<Vec<char>>, has_parent: bool, name: Vec<char>) -> (r: String)
    requires
        has_parent ==> parent@.len() >= 1,
    ensures
        r@ == (if has_parent { join_spec(views(parent@), seq!['/']) + seq!['/'] + name@ } else { name@ }),
{
    if has_parent {
        let mut sep: Vec<char> = Vec::new();
        sep.push('/');
        assert(sep@ =~= seq!['/']);
        let mut out = join(parent, &sep);
        out.push('/');
        push_all(&mut out, &name);
        string_from(out)
    } else {
        string_from(name)
    }
}

fn hashed_name_exec(stem: &Vec<char>, hash: &str, ext: &Vec<char>) -> (r: Vec<char>)
    ensures
        r@ == stem@ + seq!['.'] + hash@ + seq!['.'] + ext@,
{
    let mut out = slice(stem, 0, stem.len());
    out.push('.');
    push_str(&mut out, hash);
    out.push('.');
    push_all(&mut out, ext);
    assert(out@ =~= stem@ + seq!['.'] + hash@ + seq!['.'] + ext@);
    out
}

/// The names of an image's hashed copies: `{stem}.{hash}.{ext}` beside
/// the source, and `{stem}.{hash}.webp` unless the source is WebP.
pub fn image_outputs(relative: &str, hash: &str) -> (r: ImageOutputs)
    ensures
        outputs_ok(relative@, hash@, r),
{
    let p = chars_of(relative);
    let ext = match extension(&p) {
        Some(e) => to_ascii_lower(&e),
        None => Vec::new(),
    };
    let stem = match file_name_of(&p) {
        Some(n) => {
            let (s, _e) = stem_and_ext(&n);
            s
        },
        None => chars_of("image"),
    };
    let mut parent = components(&p);
    let has_parent = parent.len() > 1;
    if parent.len() > 0 {
        let ghost before = parent@;
        parent.pop();
        assert(views(parent@) =~= views(before).drop_last());
    }
    let original_rel = beside_exec(&parent, has_parent, hashed_name_exec(&stem, hash, &ext));
    let webp_rel = if lit(&ext, "webp") {
        None
    } else {
        Some(beside_exec(&parent, has_parent, hashed_name_exec(&stem, hash, &chars_of("webp"))))
    };
    ImageOutputs { ext: string_from(ext), original_rel, webp_rel }
}

/// The site URL of a site-relative output path.
pub fn output_url(rel: &str) -> (r: String)
    ensures
        r@ == seq!['/'] + path_to_url_spec(rel@),
{
    let u = path_to_url(rel);
    let mut out: Vec<char> = Vec::new();
    out.push('/');
    push_str(&mut out, u.as_str());
    assert(out@ =~= seq!['/'] + u@);
    string_from(out)
}

/// The record of an image that could not be decoded: its hashed copy
/// only, without size, WebP alternative or placeholder.
pub fn undecoded_meta(original_url: String, mime: &'static str) -> (r: ImageMeta)
    ensures
        r.original_url == original_url,
        r.webp_url is None,
        r.lqip@ == Seq::<char>::empty(),
        r.width == 0,
        r.height == 0,
        r.mime == mime,
{
    ImageMeta { original_url, webp_url: None, lqip: string_from(Vec::new()), width: 0, height: 0, mime }
}


/// The pixels `image` decodes from `bytes` (format guessed from the
/// content), as width, height and RGBA8 bytes; `None` when the format is
/// not recognised or decoding fails. Only named here.
pub uninterp spec fn rgba_of(bytes: Seq<u8>) -> Option<(u32, u32, Seq<u8>)>;

/// The lossless WebP `image`'s `WebPEncoder` writes for RGBA8 pixels, or
/// `None` when encoding fails. Only named here.
pub uninterp spec fn webp_lossless_of(w: u32, h: u32, rgba: Seq<u8>) -> Option<Seq<u8>>;

/// The decoded image scaled by `DynamicImage::resize` to fit 20x20 (aspect
/// kept, `Triangle` filter), as width, height and RGBA8 bytes, or `None`
/// when the bytes do not decode. Only named here.
pub uninterp spec fn thumb20_of(bytes: Seq<u8>) -> Option<(u32, u32, Seq<u8>)>;

/// `ImageReader::new(..).with_guessed_format()` then `decode` and
/// `to_rgba8`; an RGBA8 buffer holds four bytes per pixel.
#[verifier::external_body]
fn decode_rgba(bytes: &[u8]) -> (r: Option<(u32, u32, Vec<u8>)>)
    ensures
        match r {
            Some((w, h, p)) => rgba_of(bytes@) == Some((w, h, p@)) && p@.len() == w as int * h as int * 4,
            None => rgba_of(bytes@) is None,
        },
{
    let img = image::ImageReader::new(std::io::Cursor::new(bytes)).with_guessed_format().ok()?.decode().ok()?;
    let rgba = img.to_rgba8();
    Some((rgba.width(), rgba.height(), rgba.into_raw()))
}

/// `WebPEncoder::new_lossless` encoding RGBA8 pixels into memory. The
/// encoder asserts that the buffer holds exactly four bytes per pixel.
#[verifier::external_body]
fn encode_webp_lossless(w: u32, h: u32, rgba: &[u8]) -> (r: Option<Vec<u8>>)
    requires
        rgba@.len() == w as int * h as int * 4,
    ensures
        match r {
            Some(b) => webp_lossless_of(w, h, rgba@) == Some(b@),
            None => webp_lossless_of(w, h, rgba@) is None,
        },
{
    let mut buf: Vec<u8> = Vec::new();
    image::codecs::webp::WebPEncoder::new_lossless(&mut buf)
        .encode(rgba, w, h, image::ExtendedColorType::Rgba8)
        .ok()?;
    Some(buf)
}

/// `ImageReader::new(..).with_guessed_format()`, `decode`, then
/// `DynamicImage::resize(20, 20, FilterType::Triangle)` and `to_rgba8`: the
/// placeholder's pixels, four bytes per pixel. A decoded image must not be
/// empty, so the scaling is defined.
#[verifier::external_body]
fn thumb20(bytes: &[u8]) -> (r: Option<(u32, u32, Vec<u8>)>)
    requires
        rgba_of(bytes@) matches Some((w, h, _)) ==> w > 0 && h > 0,
    ensures
        match r {
            Some((w, h, p)) => thumb20_of(bytes@) == Some((w, h, p@)) && p@.len() == w as int * h as int * 4,
            None => thumb20_of(bytes@) is None,
        },
{
    let img = image::ImageReader::new(std::io::Cursor::new(bytes)).with_guessed_format().ok()?.decode().ok()?;
    let t = img.resize(20, 20, image::imageops::FilterType::Triangle).to_rgba8();
    Some((t.width(), t.height(), t.into_raw()))
}

/// The blurred placeholder of an image that decodes to a `w` by `h` image:
/// the 20px thumbnail as a lossless WebP data URI, empty when the image is
/// empty or making the thumbnail or encoding it fails.
pub open spec fn lqip_of(bytes: Seq<u8>, w: u32, h: u32) -> Seq<char> {
    if w == 0 || h == 0 {
        seq![]
    } else {
        match thumb20_of(bytes) {
            Some((tw, th, tp)) => match webp_lossless_of(tw, th, tp) {
                Some(b) => lqip_uri_spec(base64_std(b)),
                None => seq![],
            },
            None => seq![],
        }
    }
}

/// What processing an image's bytes gives: its record, and the WebP
/// alternative to write (its site-relative path and bytes), if any.
pub open spec fn processed_spec(rel: Seq<char>, bytes: Seq<u8>) -> ((Seq<char>, Option<Seq<char>>, Seq<char>, u32, u32, Seq<char>), Option<(Seq<char>, Seq<u8>)>) {
    let hash = hex_spec(sha256_of(bytes).take(4));
    let ext = image_ext(rel);
    let original_url = seq!['/'] + path_to_url_spec(beside(rel, hashed_image_name(rel, hash, ext)));
    let mime = mime_for_spec(ext);
    match rgba_of(bytes) {
        None => ((original_url, None, seq![], 0, 0, mime), None),
        Some((w, h, p)) => {
            let webp = if ext == "webp"@ {
                None
            } else {
                match webp_lossless_of(w, h, p) {
                    Some(b) => Some((beside(rel, hashed_image_name(rel, hash, "webp"@)), b)),
                    None => None,
                }
            };
            let webp_url = match webp {
                Some((wr, _)) => Some(seq!['/'] + path_to_url_spec(wr)),
                None => None,
            };
            ((original_url, webp_url, lqip_of(bytes, w, h), w, h, mime), webp)
        },
    }
}

/// Process an image's bytes: the hashed copy's URL, and when the image
/// decodes its size, a lossless WebP alternative (unless it already is
/// WebP) and the blurred placeholder. The caller writes the original copy
/// (`image_outputs`) and the WebP bytes returned.
pub fn process_bytes(relative: &str, bytes: &[u8]) -> (r: (ImageMeta, Option<(String, Vec<u8>)>))
    ensures
        (meta_view(r.0), match r.1 {
            Some((p, b)) => Some((p@, b@)),
            None => None,
        }) == processed_spec(relative@, bytes@),
{
    let hash = short_hash(bytes);
    let outputs = image_outputs(relative, hash.as_str());
    let mime = mime_for(outputs.ext.as_str());
    let original_url = output_url(outputs.original_rel.as_str());
    match decode_rgba(bytes) {
        None => {
            let m = undecoded_meta(original_url, mime);
            assert(m.lqip@ =~= Seq::<char>::empty());
            (m, None)
        },
        Some((w, h, p)) => {
            let webp: Option<(String, Vec<u8>)> = match outputs.webp_rel {
                Some(wr) => match encode_webp_lossless(w, h, p.as_slice()) {
                    Some(b) => Some((wr, b)),
                    None => None,
                },
                None => None,
            };
            let webp_url = match &webp {
                Some((wr, _)) => Some(output_url(wr.as_str())),
                None => None,
            };
            let lqip = if w == 0 || h == 0 {
                string_from(Vec::new())
            } else {
                match thumb20(bytes) {
                    Some((tw, th, tp)) => match encode_webp_lossless(tw, th, tp.as_slice()) {
                        Some(b) => lqip_from_webp(b.as_slice()),
                        None => string_from(Vec::new()),
                    },
                    None => string_from(Vec::new()),
                }
            };
            proof {
                reveal_strlit("webp");
            }
            (ImageMeta { original_url, webp_url, lqip, width: w, height: h, mime }, webp)
        },
    }
}

} // verus!
