//! Site configuration.
use vstd::prelude::*;
use crate::slug::str_views;
use crate::text::{chars_of, eq_vec, string_from, trim_spec, trim_vec, CharClass};
use crate::frontmatter::{table_new, toml_ints, toml_strs};
use crate::error::FarolError;

verus! {

/// The default name of the config file.
pub const DEFAULT_CONFIG_FILENAME: &'static str = "farol.toml";

/// Top-level site configuration.
#[derive(Debug, Clone)]
pub struct Config {
    pub site_name: String,
    pub site_url: Option<String>,
    pub site_description: Option<String>,
    pub repo_url: Option<String>,
    pub edit_uri: Option<String>,
    pub docs_dir: String,
    pub site_dir: String,
    pub theme: ThemeConfig,
    pub plugins: PluginsConfig,
    pub extras: toml::Table,
}

/// Theme selection and palette.
#[derive(Debug, Clone)]
pub struct ThemeConfig {
    pub name: String,
    pub path: Option<String>,
    pub palette: Option<String>,
    pub primary: Option<String>,
    pub accent: Option<String>,
}

/// Which builtin plugins run.
#[derive(Debug, Clone)]
pub struct PluginsConfig {
    pub enabled: Vec<String>,
    pub disabled: Vec<String>,
}

/// The decision of `is_plugin_enabled`: a non-empty `enabled` list is a
/// whitelist; otherwise everything runs except what `disabled` lists.
pub open spec fn plugin_enabled_spec(enabled: Seq<String>, disabled: Seq<String>, name: Seq<char>) -> bool {
    if enabled.len() > 0 {
        str_views(enabled).contains(name)
    } else {
        !str_views(disabled).contains(name)
    }
}

fn list_contains(list: &Vec<String>, name: &Vec<char>) -> (b: bool)
    ensures
        b == str_views(list@).contains(name@),
{
    let mut k: usize = 0;
    while k < list.len()
        invariant
            k <= list.len(),
            forall|j: int| 0 <= j < k ==> list@[j]@ != name@,
        decreases list.len() - k,
    {
        let s = chars_of(list[k].as_str());
        if eq_vec(&s, name) {
            assert(str_views(list@)[k as int] == name@);
            return true;
        }
        k = k + 1;
    }
    assert(!str_views(list@).contains(name@)) by {
        if str_views(list@).contains(name@) {
            let j = choose|j: int| 0 <= j < list@.len() && #[trigger] str_views(list@)[j] == name@;
            assert(list@[j]@ == name@);
        }
    }
    false
}

impl PluginsConfig {
    /// Decide whether a plugin identified by `name` should run.
    ///
    /// Rules:
    /// - If `enabled` is non-empty, it is a whitelist: only plugins listed
    ///   there run. `disabled` is ignored in this mode to avoid conflicting
    ///   intent.
    /// - If `enabled` is empty, every plugin runs except those in `disabled`.
    pub fn is_plugin_enabled(&self, name: &str) -> (b: bool)
        ensures
            b == plugin_enabled_spec(self.enabled@, self.disabled@, name@),
    {
        let n = chars_of(name);
        if self.enabled.len() > 0 {
            return list_contains(&self.enabled, &n);
        }
        !list_contains(&self.disabled, &n)
    }

    /// No whitelist, no blacklist: every plugin runs.
    pub fn default() -> (r: Self)
        ensures
            r.enabled@.len() == 0,
            r.disabled@.len() == 0,
    {
        PluginsConfig { enabled: Vec::new(), disabled: Vec::new() }
    }
}

pub fn default_site_name() -> (r: String)
    ensures
        r@ == "My Docs"@,
{
    string_from(chars_of("My Docs"))
}

pub fn default_docs_dir() -> (r: String)
    ensures
        r@ == "docs"@,
{
    string_from(chars_of("docs"))
}

pub fn default_site_dir() -> (r: String)
    ensures
        r@ == "site"@,
{
    string_from(chars_of("site"))
}

pub fn default_theme_name() -> (r: String)
    ensures
        r@ == "default"@,
{
    string_from(chars_of("default"))
}

impl ThemeConfig {
    /// The `default` theme with no overrides.
    pub fn default() -> (r: Self)
        ensures
            r.name@ == "default"@,
            r.path is None && r.palette is None && r.primary is None && r.accent is None,
    {
        ThemeConfig {
            name: default_theme_name(),
            path: None,
            palette: None,
            primary: None,
            accent: None,
        }
    }
}

impl Config {
    /// The configuration used when no `farol.toml` exists.
    pub fn default() -> (r: Self)
        ensures
            r.site_name@ == "My Docs"@,
            r.site_url is None && r.site_description is None && r.repo_url is None && r.edit_uri is None,
            r.docs_dir@ == "docs"@,
            r.site_dir@ == "site"@,
            r.theme.name@ == "default"@,
            r.theme.path is None && r.theme.palette is None && r.theme.primary is None
                && r.theme.accent is None,
            r.plugins.enabled@.len() == 0 && r.plugins.disabled@.len() == 0,
            toml_ints(r.extras).dom().is_empty(),
            toml_strs(r.extras).dom().is_empty(),
    {
        Config {
            site_name: default_site_name(),
            site_url: None,
            site_description: None,
            repo_url: None,
            edit_uri: None,
            docs_dir: default_docs_dir(),
            site_dir: default_site_dir(),
            theme: ThemeConfig::default(),
            plugins: PluginsConfig::default(),
            extras: table_new(),
        }
    }

    /// Reject a site name that is empty after trimming whitespace.
    pub fn validate(&self) -> (r: Result<(), FarolError>)
        ensures
            r is Ok <==> trim_spec(self.site_name@, CharClass::Ws).len() > 0,
            r matches Err(e) ==> (e matches FarolError::ConfigInvalid { message: m } && m@
                == "site_name cannot be empty"@),
    {
        let n = chars_of(self.site_name.as_str());
        let t = trim_vec(&n, CharClass::Ws);
        if t.len() == 0 {
            return Err(
                FarolError::ConfigInvalid {
                    message: string_from(chars_of("site_name cannot be empty")),
                },
            );
        }
        Ok(())
    }
}


/// The hint attached to a config file that does not parse.
pub open spec fn parse_help() -> Seq<char> {
    "check the syntax and make sure all keys are recognized"@
}

/// Where a parse error is shown: the parser's byte range as
/// `(offset, length)`, or the first byte of the text when it gives none.
pub open spec fn error_span(span: Option<(usize, usize)>, text_nonempty: bool) -> (usize, usize) {
    match span {
        Some((a, b)) => (a, if b >= a { (b - a) as usize } else { 0 }),
        None => (0, if text_nonempty { 1 } else { 0 }),
    }
}

/// The error for a config text that did not parse, located at the span the
/// parser reported.
pub fn parse_error(source_name: &str, text: &str, span: Option<(usize, usize)>, message: String) -> (r: FarolError)
    ensures
        r matches FarolError::ConfigParse { source_name: n, source_text: t, offset, len, help, message: m }
            && n@ == source_name@ && t@ == text@ && (offset, len) == error_span(span, text@.len() > 0)
            && (help matches Some(h) && h@ == parse_help()) && m@ == message@,
{
    let (offset, len) = match span {
        Some((a, b)) => (a, if b >= a { b - a } else { 0 }),
        None => (0, if text.unicode_len() > 0 { 1 } else { 0 }),
    };
    FarolError::ConfigParse {
        source_name: string_from(chars_of(source_name)),
        source_text: string_from(chars_of(text)),
        offset,
        len,
        help: Some(string_from(chars_of("check the syntax and make sure all keys are recognized"))),
        message,
    }
}

} // verus!
