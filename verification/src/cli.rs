//! The command line, as plain values; the front-end parses `argv` into it.
use vstd::prelude::*;
use crate::text::{
    chars_of, push_all, push_str, slice, starts_with, starts_with_exec, string_from, trim_spec,
    trim_vec, CharClass,
};
use crate::url::{comps, join_spec};

verus! {

/// Parsed command-line arguments.
#[derive(Debug)]
pub struct Cli {
    /// Path to the config file.
    pub config: Option<String>,
    /// Verbosity level (number of `-v`).
    pub verbose: u8,
    /// Suppress non-error output.
    pub quiet: bool,
    pub command: Option<Commands>,
}

/// The subcommands.
#[derive(Debug)]
pub enum Commands {
    /// Scaffold a new farol project.
    New { path: String },
    /// Build the site.
    Build { timings: bool, no_cache: bool },
    /// Serve the site with live reload.
    Serve { port: u16, host: String },
    /// Work with plugins.
    Plugin { cmd: PluginCommand },
    /// Inspect or clear the build cache.
    Cache { cmd: CacheCommand },
}

/// `farol plugin ...`.
#[derive(Debug)]
pub enum PluginCommand {
    /// Scaffold a new plugin package.
    New { name: String },
    /// List plugins discovered by the current host.
    List,
}

/// `farol cache ...`.
#[derive(Debug)]
pub enum CacheCommand {
    /// Remove every cached entry. Next build will be cold.
    Clear,
}


/// `s` with every leading copy of `p` removed (`str::trim_start_matches`).
pub open spec fn strip_prefixes(s: Seq<char>, p: Seq<char>) -> Seq<char>
    decreases s.len(),
{
    if p.len() > 0 && starts_with(s, p) {
        strip_prefixes(s.skip(p.len() as int), p)
    } else {
        s
    }
}

pub open spec fn slug_char(c: char) -> char {
    if ('a' <= c && c <= 'z') || ('0' <= c && c <= '9') {
        c
    } else if 'A' <= c && c <= 'Z' {
        ((c as u32) + 32) as char
    } else {
        '-'
    }
}

/// The slug of a plugin name: trimmed, without `farol-plugin-` prefixes,
/// ASCII letters and digits lowercased and everything else a hyphen, outer
/// hyphens dropped; `None` when nothing is left.
pub open spec fn plugin_slug_spec(name: Seq<char>) -> Option<Seq<char>> {
    let s = strip_prefixes(trim_spec(name, CharClass::Ws), "farol-plugin-"@);
    let slug = trim_spec(s.map_values(|c: char| slug_char(c)), CharClass::Ch('-'));
    if slug.len() == 0 {
        None
    } else {
        Some(slug)
    }
}

fn slug_char_exec(c: char) -> (r: char)
    ensures
        r == slug_char(c),
{
    if ('a' <= c && c <= 'z') || ('0' <= c && c <= '9') {
        c
    } else if 'A' <= c && c <= 'Z' {
        ((c as u8) + 32) as char
    } else {
        '-'
    }
}

pub fn plugin_slug(name: &str) -> (r: Option<String>)
    ensures
        match r {
            Some(s) => plugin_slug_spec(name@) == Some(s@),
            None => plugin_slug_spec(name@) is None,
        },
{
    let t = trim_vec(&chars_of(name), CharClass::Ws);
    let pre = chars_of("farol-plugin-");
    proof {
        reveal_strlit("farol-plugin-");
    }
    let mut cur = t;
    while pre.len() > 0 && starts_with_exec(&cur, &pre)
        invariant
            pre@ == "farol-plugin-"@,
            strip_prefixes(cur@, pre@) == strip_prefixes(trim_spec(name@, CharClass::Ws), "farol-plugin-"@),
        decreases cur.len(),
    {
        cur = slice(&cur, pre.len(), cur.len());
    }
    let mut m: Vec<char> = Vec::new();
    let mut i: usize = 0;
    while i < cur.len()
        invariant
            i <= cur.len(),
            m@ == cur@.take(i as int).map_values(|c: char| slug_char(c)),
        decreases cur.len() - i,
    {
        m.push(slug_char_exec(cur[i]));
        i = i + 1;
        assert(m@ =~= cur@.take(i as int).map_values(|c: char| slug_char(c)));
    }
    assert(cur@.take(cur@.len() as int) =~= cur@);
    let slug = trim_vec(&m, CharClass::Ch('-'));
    if slug.len() == 0 {
        None
    } else {
        Some(string_from(slug))
    }
}

/// The Python package of a plugin: `farol_plugin_` and the slug with
/// hyphens as underscores.
pub open spec fn module_name_spec(slug: Seq<char>) -> Seq<char> {
    "farol_plugin_"@ + slug.map_values(|c: char| if c == '-' { '_' } else { c })
}

pub fn module_name(slug: &str) -> (r: String)
    ensures
        r@ == module_name_spec(slug@),
{
    let s = chars_of(slug);
    let mut out = chars_of("farol_plugin_");
    let ghost pre = out@;
    let mut i: usize = 0;
    while i < s.len()
        invariant
            i <= s.len(),
            out@ == pre + s@.take(i as int).map_values(|c: char| if c == '-' { '_' } else { c }),
        decreases s.len() - i,
    {
        out.push(if s[i] == '-' { '_' } else { s[i] });
        i = i + 1;
        assert(out@ =~= pre + s@.take(i as int).map_values(|c: char| if c == '-' { '_' } else { c }));
    }
    assert(s@.take(s@.len() as int) =~= s@);
    string_from(out)
}

pub open spec fn pyproject_spec(slug: Seq<char>, module: Seq<char>) -> Seq<char> {
    "[build-system]\nrequires = [\"hatchling\"]\nbuild-backend = \"hatchling.build\"\n\n[project]\nname = \"farol-plugin-"@
        + slug + "\"\nversion = \"0.1.0\"\ndescription = \"A farol plugin.\"\nreadme = \"README.md\"\nrequires-python = \">=3.9\"\nlicense = \"Apache-2.0\"\ndependencies = [\"farol\"]\nkeywords = [\"farol\", \"farol-plugin\"]\n\n[project.entry-points.\"farol.plugins\"]\n"@
        + slug + " = \""@ + module + "\"\n\n[tool.hatch.build.targets.wheel]\npackages = [\""@ + module + "\"]\n"@
}

/// The `pyproject.toml` of a new plugin package.
pub fn pyproject_toml(slug: &str, module: &str) -> (r: String)
    ensures
        r@ == pyproject_spec(slug@, module@),
{
    let mut out: Vec<char> = Vec::new();
    push_str(&mut out, "[build-system]\nrequires = [\"hatchling\"]\nbuild-backend = \"hatchling.build\"\n\n[project]\nname = \"farol-plugin-");
    push_str(&mut out, slug);
    push_str(&mut out, "\"\nversion = \"0.1.0\"\ndescription = \"A farol plugin.\"\nreadme = \"README.md\"\nrequires-python = \">=3.9\"\nlicense = \"Apache-2.0\"\ndependencies = [\"farol\"]\nkeywords = [\"farol\", \"farol-plugin\"]\n\n[project.entry-points.\"farol.plugins\"]\n");
    push_str(&mut out, slug);
    push_str(&mut out, " = \"");
    push_str(&mut out, module);
    push_str(&mut out, "\"\n\n[tool.hatch.build.targets.wheel]\npackages = [\"");
    push_str(&mut out, module);
    push_str(&mut out, "\"]\n");
    assert(out@ =~= pyproject_spec(slug@, module@));
    string_from(out)
}

pub open spec fn readme_spec(slug: Seq<char>) -> Seq<char> {
    "# farol-plugin-"@ + slug + "\n\nA farol plugin.\n\n## Install\n\n```bash\nuv pip install farol-plugin-"@ + slug
        + "\n```\n\nThe plugin is auto-discovered by any farol project in the same environment.\n"@
}

/// The README of a new plugin package.
pub fn plugin_readme(slug: &str) -> (r: String)
    ensures
        r@ == readme_spec(slug@),
{
    let mut out: Vec<char> = Vec::new();
    push_str(&mut out, "# farol-plugin-");
    push_str(&mut out, slug);
    push_str(&mut out, "\n\nA farol plugin.\n\n## Install\n\n```bash\nuv pip install farol-plugin-");
    push_str(&mut out, slug);
    push_str(&mut out, "\n```\n\nThe plugin is auto-discovered by any farol project in the same environment.\n");
    assert(out@ =~= readme_spec(slug@));
    string_from(out)
}

/// The sample hook of a new plugin package.
pub const PLUGIN_INIT: &'static str = "\"\"\"Sample farol plugin. Replace this hook with your own.\"\"\"\n\nfrom farol import hookimpl\n\n\n@hookimpl\ndef on_page_markdown(markdown, page, config):\n    \"\"\"Replace :wave: with a friendly waving hand.\"\"\"\n    return markdown.replace(\":wave:\", \"\u{1F44B}\")\n";

pub open spec fn plugin_test_spec(module: Seq<char>) -> Seq<char> {
    "from farol.testing import PluginTester\nfrom "@ + module
        + " import on_page_markdown\n\n\ndef test_wave_is_replaced():\n    result = PluginTester().with_hook(on_page_markdown).build_page(\"# hi :wave:\")\n    assert \"\u{1F44B}\" in result.html\n    assert \":wave:\" not in result.html\n"@
}

/// The test file of a new plugin package.
pub fn plugin_test_py(module: &str) -> (r: String)
    ensures
        r@ == plugin_test_spec(module@),
{
    let mut out: Vec<char> = Vec::new();
    push_str(&mut out, "from farol.testing import PluginTester\nfrom ");
    push_str(&mut out, module);
    push_str(&mut out, " import on_page_markdown\n\n\ndef test_wave_is_replaced():\n    result = PluginTester().with_hook(on_page_markdown).build_page(\"# hi :wave:\")\n    assert \"\u{1F44B}\" in result.html\n    assert \":wave:\" not in result.html\n");
    assert(out@ =~= plugin_test_spec(module@));
    string_from(out)
}

/// The log level for the verbosity flags.
pub open spec fn level_spec(verbose: u8, quiet: bool) -> Seq<char> {
    if quiet {
        "error"@
    } else if verbose == 0 {
        "warn"@
    } else if verbose == 1 {
        "info"@
    } else if verbose == 2 {
        "debug"@
    } else {
        "trace"@
    }
}

pub fn tracing_level(verbose: u8, quiet: bool) -> (r: &'static str)
    ensures
        r@ == level_spec(verbose, quiet),
{
    if quiet {
        "error"
    } else if verbose == 0 {
        "warn"
    } else if verbose == 1 {
        "info"
    } else if verbose == 2 {
        "debug"
    } else {
        "trace"
    }
}

/// The config file used (the given one, else `farol.toml`) and the project
/// root: the config file's directory (`Path::parent`), `.` when it has
/// none.
pub open spec fn config_root_spec(config: Option<Seq<char>>) -> (Seq<char>, Seq<char>) {
    let path = match config {
        Some(p) => p,
        None => "farol.toml"@,
    };
    let c = comps(path);
    let root = if c.len() == 0 {
        seq!['.']
    } else {
        (if starts_with(path, seq!['/']) { seq!['/'] } else { seq![] }) + join_spec(c.drop_last(), seq!['/'])
    };
    (path, root)
}

pub fn config_and_root(config: Option<&str>) -> (r: (String, String))
    ensures
        (r.0@, r.1@) == config_root_spec(match config {
            Some(p) => Some(p@),
            None => None,
        }),
{
    let path = match config {
        Some(p) => chars_of(p),
        None => chars_of(crate::config::DEFAULT_CONFIG_FILENAME),
    };
    let cs = crate::url::components(&path);
    let root = if cs.len() == 0 {
        vec!['.']
    } else {
        let mut parts: Vec<Vec<char>> = Vec::new();
        let n = cs.len() - 1;
        let mut i: usize = 0;
        while i < n
            invariant
                i <= n,
                n == cs@.len() - 1,
                crate::text::views(parts@) == crate::text::views(cs@).take(i as int),
            decreases n - i,
        {
            let q = slice(&cs[i], 0, cs[i].len());
            assert(q@ =~= cs@[i as int]@);
            let ghost before = parts@;
            parts.push(q);
            assert(crate::text::views(parts@) =~= crate::text::views(before).push(q@));
            assert(crate::text::views(cs@).take(i + 1) =~= crate::text::views(cs@).take(i as int).push(cs@[i as int]@));
            i = i + 1;
        }
        assert(crate::text::views(cs@).take(n as int) =~= crate::text::views(cs@).drop_last());
        let sep = vec!['/'];
        assert(sep@ =~= seq!['/']);
        let j = crate::url::join(&parts, &sep);
        let mut out: Vec<char> = Vec::new();
        let slash = vec!['/'];
        if starts_with_exec(&path, &slash) {
            out.push('/');
        }
        push_all(&mut out, &j);
        proof {
            if starts_with(path@, seq!['/']) {
                assert(out@ =~= seq!['/'] + j@);
            } else {
                assert(out@ =~= Seq::<char>::empty() + j@);
            }
        }
        out
    };
    proof {
        reveal_strlit("farol.toml");
    }
    (string_from(path), string_from(root))
}

} // verus!
