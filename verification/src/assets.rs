//! Static assets: which get a content hash in their file name, and what
//! that name is.
use vstd::prelude::*;
use crate::hash::{hex_spec, push_hex, sha256_of};
use crate::text::{
    ascii_lower_seq, chars_of, eq_vec, push_all, push_str, replace_spec, replace_str, slice,
    string_from, to_ascii_lower, views,
};
use crate::url::{comps, components, extension, extension_of, file_name_of, file_name_spec, join, join_spec, stem_and_ext, stem_ext};

verus! {

/// The extensions of assets that get a content hash (any ASCII case).
pub open spec fn hashed_ext(e: Seq<char>) -> bool {
    let l = ascii_lower_seq(e);
    l == "png"@ || l == "jpg"@ || l == "jpeg"@ || l == "gif"@ || l == "webp"@ || l == "svg"@
        || l == "css"@ || l == "js"@
}

pub open spec fn should_hash_spec(relative: Seq<char>) -> bool {
    match extension_of(relative) {
        Some(e) => hashed_ext(e),
        None => false,
    }
}

fn lit(v: &Vec<char>, s: &str) -> (b: bool)
    ensures
        b == (v@ == s@),
{
    eq_vec(v, &chars_of(s))
}

/// Whether an asset's file name gets a content hash.
pub fn should_hash(relative: &str) -> (b: bool)
    ensures
        b == should_hash_spec(relative@),
{
    match extension(&chars_of(relative)) {
        Some(e) => {
            let l = to_ascii_lower(&e);
            lit(&l, "png") || lit(&l, "jpg") || lit(&l, "jpeg") || lit(&l, "gif") || lit(&l, "webp")
                || lit(&l, "svg") || lit(&l, "css") || lit(&l, "js")
        },
        None => false,
    }
}

/// The lowercase hex form of bytes.
pub fn hex(bytes: &[u8]) -> (r: String)
    ensures
        r@ == hex_spec(bytes@),
{
    let mut out: Vec<char> = Vec::new();
    push_hex(&mut out, bytes);
    assert(out@ =~= hex_spec(bytes@));
    string_from(out)
}

/// The hashed name of an asset: `stem.HASH.ext` (or `stem.HASH` without an
/// extension) in the same directory, HASH being the hex of the first four
/// bytes of the content's SHA-256.
pub open spec fn hashed_name_spec(relative: Seq<char>, digest: Seq<u8>) -> Seq<char> {
    let h = hex_spec(digest.take(4));
    let stem = match file_name_spec(relative) {
        Some(n) => stem_ext(n).0,
        None => "asset"@,
    };
    let ext = extension_of(relative);
    let name = match ext {
        Some(e) => if e.len() == 0 {
            stem + seq!['.'] + h
        } else {
            stem + seq!['.'] + h + seq!['.'] + e
        },
        None => stem + seq!['.'] + h,
    };
    let parent = if comps(relative).len() > 0 {
        comps(relative).drop_last()
    } else {
        seq![]
    };
    join_spec(parent.push(name), seq!['/'])
}

pub fn hashed_name(relative: &str, bytes: &[u8]) -> (r: String)
    ensures
        r@ == hashed_name_spec(relative@, sha256_of(bytes@)),
{
    let digest = crate::hash::Hash::of(bytes);
    let d4 = slice_u8(&digest.0, 4);
    let mut h: Vec<char> = Vec::new();
    let d4s = d4.as_slice();
    assert(d4s@ == d4@);
    push_hex(&mut h, d4s);
    assert(d4@ =~= digest.0@.take(4));
    assert(h@ =~= hex_spec(sha256_of(bytes@).take(4)));
    let rel = chars_of(relative);
    let stem = match file_name_of(&rel) {
        Some(n) => {
            let (s, _e) = stem_and_ext(&n);
            s
        },
        None => chars_of("asset"),
    };
    let ext = extension(&rel);
    let mut name = stem;
    name.push('.');
    push_all(&mut name, &h);
    match &ext {
        Some(e) => {
            if e.len() > 0 {
                name.push('.');
                push_all(&mut name, e);
            }
        },
        None => {},
    }
    let cs = components(&rel);
    let mut parts: Vec<Vec<char>> = Vec::new();
    let n = if cs.len() > 0 { cs.len() - 1 } else { 0 };
    let mut i: usize = 0;
    while i < n
        invariant
            i <= n,
            n == if cs@.len() > 0 { cs@.len() - 1 } else { 0 },
            views(parts@) == views(cs@).take(i as int),
        decreases n - i,
    {
        let q = slice(&cs[i], 0, cs[i].len());
        assert(q@ =~= cs@[i as int]@);
        let ghost before = parts@;
        parts.push(q);
        assert(views(parts@) =~= views(before).push(q@));
        assert(views(cs@).take(i + 1) =~= views(cs@).take(i as int).push(cs@[i as int]@));
        i = i + 1;
    }
    assert(name@ =~= ({
        let hh = hex_spec(sha256_of(bytes@).take(4));
        let st = match file_name_spec(relative@) {
            Some(n) => stem_ext(n).0,
            None => "asset"@,
        };
        match extension_of(relative@) {
            Some(e) => if e.len() == 0 {
                st + seq!['.'] + hh
            } else {
                st + seq!['.'] + hh + seq!['.'] + e
            },
            None => st + seq!['.'] + hh,
        }
    }));
    let ghost before = parts@;
    let ghost nm = name@;
    parts.push(name);
    assert(views(parts@) =~= views(before).push(nm));
    proof {
        if cs@.len() > 0 {
            assert(views(cs@).take(n as int) =~= views(cs@).drop_last());
        } else {
            assert(views(cs@).take(n as int) =~= Seq::<Seq<char>>::empty());
        }
        assert(d4@ =~= digest.0@.take(4));
    }
    let sep = vec!['/'];
    assert(sep@ =~= seq!['/']);
    let out = join(&parts, &sep);
    assert(out@ =~= hashed_name_spec(relative@, sha256_of(bytes@)));
    string_from(out)
}

fn slice_u8(b: &[u8; 32], n: usize) -> (r: Vec<u8>)
    requires
        n <= 32,
    ensures
        r@ == b@.take(n as int),
{
    let mut r: Vec<u8> = Vec::new();
    let mut i: usize = 0;
    while i < n
        invariant
            i <= n <= 32,
            b@.len() == 32,
            r@ == b@.take(i as int),
        decreases n - i,
    {
        r.push(b[i]);
        i = i + 1;
        assert(r@ =~= b@.take(i as int));
    }
    r
}

/// The URL an asset is served at: its site-relative path with a leading
/// slash, backslashes turned into slashes.
pub open spec fn asset_url_spec(target_relative: Seq<char>) -> Seq<char> {
    seq!['/'] + replace_spec(target_relative, seq!['\\'], seq!['/'])
}

pub fn asset_url(target_relative: &str) -> (r: String)
    ensures
        r@ == asset_url_spec(target_relative@),
{
    proof {
        reveal_strlit("\\");
        reveal_strlit("/");
    }
    assert("\\"@ =~= seq!['\\']);
    assert("/"@ =~= seq!['/']);
    let rel = replace_str(&chars_of(target_relative), "\\", "/");
    let mut out: Vec<char> = vec!['/'];
    push_all(&mut out, &rel);
    assert(out@ =~= asset_url_spec(target_relative@));
    string_from(out)
}

} // verus!
