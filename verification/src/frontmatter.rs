//! Frontmatter: the delimited block at the top of a markdown file, and
//! the table of values it holds.
use vstd::prelude::*;
use crate::error::FarolError;
use crate::text::{
    chars_of, ends_with, ends_with_exec, find, find_from, lemma_find_from_props, push_str, slice,
    starts_with, starts_with_exec, string_from,
};

verus! {

/// The TOML map type of the `toml` crate, carried opaquely.
#[verifier::external_type_specification]
#[verifier::external_body]
#[verifier::reject_recursive_types(K)]
#[verifier::reject_recursive_types(V)]
pub struct ExTomlMap<K, V>(toml::map::Map<K, V>);

/// `Clone` of `toml::map::Map`, which the derived `Clone` of the types
/// holding a table calls; nothing is claimed of the copy.
pub assume_specification<K: Clone, V: Clone>[<toml::map::Map<K, V> as Clone>::clone](m: &toml::map::Map<K, V>) -> (r: toml::map::Map<K, V>);

/// A TOML value of the `toml` crate, carried opaquely.
#[verifier::external_type_specification]
#[verifier::external_body]
pub struct ExTomlValue(toml::Value);

/// The entries of a table whose value is a TOML integer.
pub uninterp spec fn toml_ints(t: toml::Table) -> Map<Seq<char>, i64>;

/// The entries of a table whose value is a TOML string.
pub uninterp spec fn toml_strs(t: toml::Table) -> Map<Seq<char>, Seq<char>>;

/// `toml::Table::new`: an empty table.
#[verifier::external_body]
pub(crate) fn table_new() -> (r: toml::Table)
    ensures
        toml_ints(r).dom().is_empty(),
        toml_strs(r).dom().is_empty(),
{
    toml::Table::new()
}

/// `table.get(key).and_then(Value::as_integer)`: the integer stored under
/// `key`, if the value there is an integer.
#[verifier::external_body]
pub(crate) fn table_get_int(t: &toml::Table, key: &str) -> (r: Option<i64>)
    ensures
        r == (if toml_ints(*t).contains_key(key@) {
            Some(toml_ints(*t)[key@])
        } else {
            None
        }),
{
    t.get(key).and_then(|v| v.as_integer())
}

/// `table.get(key).and_then(Value::as_str)`: the string stored under
/// `key`, if the value there is a string.
#[verifier::external_body]
pub(crate) fn table_get_str(t: &toml::Table, key: &str) -> (r: Option<String>)
    ensures
        match r {
            Some(s) => toml_strs(*t).contains_key(key@) && toml_strs(*t)[key@] == s@,
            None => !toml_strs(*t).contains_key(key@),
        },
{
    t.get(key).and_then(|v| v.as_str()).map(|s| s.to_string())
}


/// The integer and string entries of the table that `toml::from_str`
/// parses from `raw`, or `None` when `raw` is not a TOML table.
pub uninterp spec fn toml_doc(raw: Seq<char>) -> Option<(Map<Seq<char>, i64>, Map<Seq<char>, Seq<char>>)>;

/// `toml::from_str::<toml::Table>`: the parsed table, or the parser's
/// message; the message's text is not stated.
#[verifier::external_body]
fn toml_from_str(raw: &str) -> (r: Result<toml::Table, String>)
    ensures
        match r {
            Ok(t) => toml_doc(raw@) == Some((toml_ints(t), toml_strs(t))),
            Err(_) => toml_doc(raw@) is None,
        },
{
    toml::from_str::<toml::Table>(raw).map_err(|e| e.message().to_string())
}

/// The kind of block a source opens with, and its raw text.
pub enum FrontmatterBlock {
    /// No frontmatter.
    Absent,
    /// A `---` delimited YAML block.
    Yaml(String),
    /// A `+++` delimited TOML block.
    Toml(String),
}

/// `(raw, body)` of a block whose opening line was removed: up to the
/// first `mid` (`\n---\n`), or up to a closing `end` (`\n---`) that ends
/// the text; `None` when unterminated.
pub open spec fn split_at_delim_spec(source: Seq<char>, mid: Seq<char>, end: Seq<char>) -> Option<(Seq<char>, Seq<char>)> {
    match find_from(source, 0, mid) {
        Some(i) => Some((source.take(i), source.skip(i + mid.len()))),
        None => if ends_with(source, end) {
            Some((source.take(source.len() - end.len()), seq![]))
        } else {
            None
        },
    }
}

pub open spec fn unterminated_msg(label: Seq<char>) -> Seq<char> {
    "unterminated "@ + label
}

pub fn split_at_delim(source: &str, mid_delim: &str, end_delim: &str, path: &str, label: &str) -> (r: Result<(String, String), FarolError>)
    ensures
        match r {
            Ok((raw, body)) => split_at_delim_spec(source@, mid_delim@, end_delim@) == Some((raw@, body@)),
            Err(e) => split_at_delim_spec(source@, mid_delim@, end_delim@) is None
                && (e matches FarolError::Frontmatter { path: p, message }
                && p@ == path@ && message@ == unterminated_msg(label@)),
        },
{
    let s = chars_of(source);
    let mid = chars_of(mid_delim);
    let end = chars_of(end_delim);
    match find(&s, &mid, 0) {
        Some(i) => {
            proof {
                lemma_find_from_props(s@, 0, mid@);
            }
            let raw = slice(&s, 0, i);
            let body = slice(&s, i + mid.len(), s.len());
            assert(raw@ =~= s@.take(i as int));
            assert(body@ =~= s@.skip(i + mid@.len()));
            Ok((string_from(raw), string_from(body)))
        },
        None => {
            if ends_with_exec(&s, &end) {
                let raw = slice(&s, 0, s.len() - end.len());
                assert(raw@ =~= s@.take(s@.len() - end@.len()));
                Ok((string_from(raw), String::new()))
            } else {
                let mut m: Vec<char> = Vec::new();
                push_str(&mut m, "unterminated ");
                push_str(&mut m, label);
                Err(FarolError::Frontmatter { path: string_from(chars_of(path)), message: string_from(m) })
            }
        },
    }
}

/// The block a markdown source opens with and the body after it.
pub open spec fn block_spec(source: Seq<char>) -> Option<(int, Seq<char>, Seq<char>)> {
    if starts_with(source, "---\n"@) {
        match split_at_delim_spec(source.skip(4), "\n---\n"@, "\n---"@) {
            Some((raw, body)) => Some((1, raw, body)),
            None => None,
        }
    } else if starts_with(source, "+++\n"@) {
        match split_at_delim_spec(source.skip(4), "\n+++\n"@, "\n+++"@) {
            Some((raw, body)) => Some((2, raw, body)),
            None => None,
        }
    } else {
        Some((0, seq![], source))
    }
}

pub open spec fn block_view(b: FrontmatterBlock) -> (int, Seq<char>) {
    match b {
        FrontmatterBlock::Absent => (0, seq![]),
        FrontmatterBlock::Yaml(r) => (1, r@),
        FrontmatterBlock::Toml(r) => (2, r@),
    }
}

/// Split a markdown source into its frontmatter block and body: a `---`
/// YAML block, a `+++` TOML block, or none.
pub fn split_block(source: &str, path: &str) -> (r: Result<(FrontmatterBlock, String), FarolError>)
    ensures
        match r {
            Ok((b, body)) => block_spec(source@) == Some((block_view(b).0, block_view(b).1, body@)),
            Err(e) => block_spec(source@) is None && (e matches FarolError::Frontmatter { path: p, message }
                && p@ == path@ && (message@ == unterminated_msg("YAML frontmatter"@) || message@
                == unterminated_msg("TOML frontmatter"@))),
        },
{
    let s = chars_of(source);
    proof {
        reveal_strlit("---\n");
        reveal_strlit("+++\n");
    }
    if starts_with_exec(&s, &chars_of("---\n")) {
        let rest = string_from(slice(&s, 4, s.len()));
        assert(rest@ =~= source@.skip(4));
        match split_at_delim(rest.as_str(), "\n---\n", "\n---", path, "YAML frontmatter") {
            Ok((raw, body)) => Ok((FrontmatterBlock::Yaml(raw), body)),
            Err(e) => Err(e),
        }
    } else if starts_with_exec(&s, &chars_of("+++\n")) {
        let rest = string_from(slice(&s, 4, s.len()));
        assert(rest@ =~= source@.skip(4));
        match split_at_delim(rest.as_str(), "\n+++\n", "\n+++", path, "TOML frontmatter") {
            Ok((raw, body)) => Ok((FrontmatterBlock::Toml(raw), body)),
            Err(e) => Err(e),
        }
    } else {
        Ok((FrontmatterBlock::Absent, string_from(s)))
    }
}

/// Parse a TOML frontmatter block into a table; the parser's message
/// becomes the error of `path`.
pub fn parse_toml_table(raw: &str, path: &str) -> (r: Result<toml::Table, FarolError>)
    ensures
        match r {
            Ok(t) => toml_doc(raw@) == Some((toml_ints(t), toml_strs(t))),
            Err(e) => toml_doc(raw@) is None && (e matches FarolError::Frontmatter { path: p, .. } && p@ == path@),
        },
{
    match toml_from_str(raw) {
        Ok(t) => Ok(t),
        Err(m) => Err(FarolError::Frontmatter { path: string_from(chars_of(path)), message: m }),
    }
}

} // verus!
