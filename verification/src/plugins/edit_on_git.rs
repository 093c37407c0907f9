//! An "Edit this page" link on each page, pointing at the Markdown source
//! on the project's git forge: `<repo_url>/<edit_uri>/<page.relative>`,
//! placed right before the page's closing `</main>` (or `</body>`).
use vstd::prelude::*;
use crate::text::{
    chars_of, escape, escape_spec, push_all, push_str, replace_spec, replace_str, string_from,
    trim_end_spec, trim_end_vec, trim_spec, trim_vec, CharClass, EscapeSet,
};

use crate::plugins::prev_next::{insert_nav, insert_nav_spec};

verus! {

/// The edit-on-git plugin.
pub struct EditOnGitPlugin;

/// The edit URL: the repository without trailing slashes, the edit path
/// (default `edit/main/docs/`) without surrounding slashes, and the page's
/// relative path with backslashes turned into slashes.
pub open spec fn edit_url_spec(repo_url: Option<Seq<char>>, edit_uri: Option<Seq<char>>, relative: Seq<char>) -> Option<Seq<char>> {
    match repo_url {
        None => None,
        Some(r) => {
            let repo = trim_end_spec(r, CharClass::Ch('/'));
            let e = match edit_uri {
                Some(x) => x,
                None => "edit/main/docs/"@,
            };
            let edit = trim_spec(e, CharClass::Ch('/'));
            Some(repo + seq!['/'] + edit + seq!['/'] + replace_spec(relative, seq!['\\'], seq!['/']))
        },
    }
}

pub open spec fn opt_s(o: Option<&str>) -> Option<Seq<char>> {
    match o {
        Some(s) => Some(s@),
        None => None,
    }
}

/// The link to the page's source, when a repository is configured.
pub fn build_url(repo_url: Option<&str>, edit_uri: Option<&str>, relative: &str) -> (r: Option<String>)
    ensures
        match r {
            Some(u) => edit_url_spec(opt_s(repo_url), opt_s(edit_uri), relative@) == Some(u@),
            None => edit_url_spec(opt_s(repo_url), opt_s(edit_uri), relative@) is None,
        },
{
    let r = match repo_url {
        Some(r) => r,
        None => return None,
    };
    let repo = trim_end_vec(&chars_of(r), CharClass::Ch('/'));
    let e = match edit_uri {
        Some(x) => x,
        None => "edit/main/docs/",
    };
    let edit = trim_vec(&chars_of(e), CharClass::Ch('/'));
    proof {
        reveal_strlit("\\");
        reveal_strlit("/");
    }
    let rel = replace_str(&chars_of(relative), "\\", "/");
    let mut out = repo;
    out.push('/');
    push_all(&mut out, &edit);
    out.push('/');
    push_all(&mut out, &rel);
    assert("\\"@ =~= seq!['\\']);
    assert("/"@ =~= seq!['/']);
    assert(out@ =~= edit_url_spec(opt_s(repo_url), opt_s(edit_uri), relative@)->0);
    Some(string_from(out))
}

/// The edit link itself.
pub open spec fn edit_link_spec(url: Seq<char>) -> Seq<char> {
    "<a class=\"edit-on-git\" href=\""@ + escape_spec(url, EscapeSet::Attr)
        + "\" target=\"_blank\" rel=\"noopener noreferrer\">Edit this page</a>"@
}

/// The page with the edit link right before its last `</main>`, else
/// before its last `</body>`, else at the end.
pub open spec fn with_edit_link_spec(html: Seq<char>, url: Seq<char>) -> Seq<char> {
    insert_nav_spec(html, edit_link_spec(url))
}

/// Insert the edit link before the closing `</main>` (or `</body>`).
pub fn with_edit_link(html: &str, url: &str) -> (r: String)
    ensures
        r@ == with_edit_link_spec(html@, url@),
{
    let mut out: Vec<char> = Vec::new();
    push_str(&mut out, "<a class=\"edit-on-git\" href=\"");
    let u = escape(&chars_of(url), EscapeSet::Attr);
    push_all(&mut out, &u);
    push_str(&mut out, "\" target=\"_blank\" rel=\"noopener noreferrer\">Edit this page</a>");
    assert(out@ =~= edit_link_spec(url@));
    let link = string_from(out);
    insert_nav(html, link.as_str())
}

} // verus!
