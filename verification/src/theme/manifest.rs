//! `theme.toml`: a theme's name, version, layouts and assets.
use vstd::prelude::*;
use crate::error::FarolError;
use crate::text::{chars_of, parse_usize, parse_usize_spec, push_str, split_char, split_spec, string_from, views};

verus! {

#[derive(Debug, Clone)]
pub struct ThemeManifest {
    pub theme: ThemeMetadata,
}

#[derive(Debug, Clone)]
pub struct ThemeMetadata {
    pub name: String,
    pub version: String,
    pub min_farol_version: String,
    pub description: Option<String>,
    pub authors: Vec<String>,
    pub license: Option<String>,
    pub layouts: LayoutsConfig,
    pub assets: AssetsConfig,
}

#[derive(Debug, Clone)]
pub struct LayoutsConfig {
    pub supported: Vec<String>,
}

#[derive(Debug, Clone)]
pub struct AssetsConfig {
    pub shared_js: bool,
    pub css: Vec<String>,
    pub js: Vec<String>,
}

impl Default for AssetsConfig {
    fn default() -> (r: Self)
        ensures
            r.shared_js,
            r.css@.len() == 0,
            r.js@.len() == 0,
    {
        AssetsConfig { shared_js: true, css: Vec::new(), js: Vec::new() }
    }
}

/// The default of `assets.shared_js`.
pub fn default_true() -> (r: bool)
    ensures
        r,
{
    true
}

/// `str::parse::<u32>`.
pub open spec fn parse_u32_spec(s: Seq<char>) -> Option<nat> {
    match parse_usize_spec(s) {
        Some(n) => if n <= u32::MAX {
            Some(n)
        } else {
            None
        },
        None => None,
    }
}

/// A version part: its number, 0 when missing or not a number.
pub open spec fn part_num(parts: Seq<Seq<char>>, i: int) -> nat {
    if i < parts.len() {
        match parse_u32_spec(parts[i]) {
            Some(n) => n,
            None => 0,
        }
    } else {
        0
    }
}

/// `major.minor.patch` of a version string.
pub open spec fn version_triple(v: Seq<char>) -> (nat, nat, nat) {
    let parts = split_spec(v, '.');
    (part_num(parts, 0), part_num(parts, 1), part_num(parts, 2))
}

pub open spec fn triple_ge(a: (nat, nat, nat), b: (nat, nat, nat)) -> bool {
    a.0 > b.0 || (a.0 == b.0 && (a.1 > b.1 || (a.1 == b.1 && a.2 >= b.2)))
}

fn part_num_exec(parts: &Vec<Vec<char>>, i: usize) -> (n: u32)
    ensures
        n == part_num(views(parts@), i as int),
{
    if i < parts.len() {
        assert(views(parts@)[i as int] == parts@[i as int]@);
        match parse_usize(&parts[i]) {
            Some(n) => if n <= 0xffff_ffff {
                n as u32
            } else {
                0
            },
            None => 0,
        }
    } else {
        0
    }
}

/// Whether version `current` is at least `minimum`, comparing
/// `major.minor.patch` numerically.
pub fn version_satisfies(current: &str, minimum: &str) -> (b: bool)
    ensures
        b == triple_ge(version_triple(current@), version_triple(minimum@)),
{
    let c = split_char(&chars_of(current), '.');
    let m = split_char(&chars_of(minimum), '.');
    let (c0, c1, c2) = (part_num_exec(&c, 0), part_num_exec(&c, 1), part_num_exec(&c, 2));
    let (m0, m1, m2) = (part_num_exec(&m, 0), part_num_exec(&m, 1), part_num_exec(&m, 2));
    c0 > m0 || (c0 == m0 && (c1 > m1 || (c1 == m1 && c2 >= m2)))
}

pub open spec fn too_old_msg(name: Seq<char>, required: Seq<char>, current: Seq<char>) -> Seq<char> {
    "theme `"@ + name + "` requires farol >= "@ + required + " but current version is "@ + current
}

/// Refuse a theme that needs a newer engine.
pub fn validate_version(manifest: &ThemeManifest, farol_version: &str) -> (r: Result<(), FarolError>)
    ensures
        r is Ok <==> triple_ge(version_triple(farol_version@), version_triple(manifest.theme.min_farol_version@)),
        r matches Err(e) ==> (e matches FarolError::ConfigInvalid { message } && message@ == too_old_msg(
            manifest.theme.name@,
            manifest.theme.min_farol_version@,
            farol_version@,
        )),
{
    let required = manifest.theme.min_farol_version.as_str();
    if !version_satisfies(farol_version, required) {
        let mut m: Vec<char> = Vec::new();
        push_str(&mut m, "theme `");
        push_str(&mut m, manifest.theme.name.as_str());
        push_str(&mut m, "` requires farol >= ");
        push_str(&mut m, required);
        push_str(&mut m, " but current version is ");
        push_str(&mut m, farol_version);
        return Err(FarolError::ConfigInvalid { message: string_from(m) });
    }
    Ok(())
}


/// Every version satisfies itself as a minimum.
pub proof fn lemma_version_reflexive(v: Seq<char>)
    ensures
        triple_ge(version_triple(v), version_triple(v)),
{
}

/// Satisfying a minimum is transitive: `a >= b` and `b >= c` give
/// `a >= c`.
pub proof fn lemma_version_transitive(a: Seq<char>, b: Seq<char>, c: Seq<char>)
    requires
        triple_ge(version_triple(a), version_triple(b)),
        triple_ge(version_triple(b), version_triple(c)),
    ensures
        triple_ge(version_triple(a), version_triple(c)),
{
}

} // verus!
