//! Meta-refresh pages for declared path redirects (`redirects.toml`).
use vstd::prelude::*;
use crate::text::{
    chars_of, escape, escape_spec, push_all, push_str, string_from, trim_end_spec, trim_end_vec,
    trim_start_spec, trim_start_vec, CharClass, EscapeSet,
};

verus! {

/// The redirects plugin.
pub struct RedirectsPlugin;

/// The directory (under the site) of a redirect source path: leading and
/// trailing slashes removed; empty for the site root.
pub open spec fn redirect_dir_spec(from: Seq<char>) -> Seq<char> {
    trim_end_spec(trim_start_spec(from, CharClass::Ch('/')), CharClass::Ch('/'))
}

pub fn redirect_dir(from: &str) -> (r: String)
    ensures
        r@ == redirect_dir_spec(from@),
{
    let a = trim_start_vec(&chars_of(from), CharClass::Ch('/'));
    string_from(trim_end_vec(&a, CharClass::Ch('/')))
}

/// The redirect page pointing at `to`.
pub open spec fn redirect_html_spec(to: Seq<char>) -> Seq<char> {
    let t = escape_spec(to, EscapeSet::Full);
    "<!doctype html>\n<html lang=\"en\">\n<head>\n  <meta charset=\"utf-8\">\n  <title>Redirecting...</title>\n  <link rel=\"canonical\" href=\""@
        + t + "\">\n  <meta http-equiv=\"refresh\" content=\"0; url="@ + t
        + "\">\n  <meta name=\"robots\" content=\"noindex\">\n</head>\n<body>\n  <p>This page has moved. If you are not redirected, <a href=\""@
        + t + "\">click here</a>.</p>\n</body>\n</html>\n"@
}

pub fn redirect_html(to: &str) -> (r: String)
    ensures
        r@ == redirect_html_spec(to@),
{
    let t = escape(&chars_of(to), EscapeSet::Full);
    let mut out: Vec<char> = Vec::new();
    push_str(&mut out, "<!doctype html>\n<html lang=\"en\">\n<head>\n  <meta charset=\"utf-8\">\n  <title>Redirecting...</title>\n  <link rel=\"canonical\" href=\"");
    push_all(&mut out, &t);
    push_str(&mut out, "\">\n  <meta http-equiv=\"refresh\" content=\"0; url=");
    push_all(&mut out, &t);
    push_str(&mut out, "\">\n  <meta name=\"robots\" content=\"noindex\">\n</head>\n<body>\n  <p>This page has moved. If you are not redirected, <a href=\"");
    push_all(&mut out, &t);
    push_str(&mut out, "\">click here</a>.</p>\n</body>\n</html>\n");
    assert(out@ =~= redirect_html_spec(to@));
    string_from(out)
}

} // verus!
