//! Themes: the layouts a theme supports, and its manifest.
pub mod manifest;

use vstd::prelude::*;
use crate::error::FarolError;
use crate::page::Page;
use crate::slug::str_views;
use crate::text::{chars_of, eq_vec, push_str, string_from};
use crate::theme::manifest::ThemeManifest;

verus! {

/// `format!("{:?}", list)` of a list of strings; Rust's `Debug` escaping
/// of each string is only named here.
pub uninterp spec fn debug_list(v: Seq<Seq<char>>) -> Seq<char>;

/// `format!("{:?}", v)` for a list of strings.
#[verifier::external_body]
fn debug_strings(v: &Vec<String>) -> (r: String)
    ensures
        r@ == debug_list(str_views(v@)),
{
    format!("{:?}", v)
}

pub open spec fn layout_error_msg(relative: Seq<char>, layout: Seq<char>, theme: Seq<char>, supported: Seq<Seq<char>>) -> Seq<char> {
    "page `"@ + relative + "` uses layout `"@ + layout + "` which is not supported by theme `"@ + theme
        + "` (supported: "@ + debug_list(supported) + ")"@
}

fn in_list(list: &Vec<String>, x: &str) -> (b: bool)
    ensures
        b == str_views(list@).contains(x@),
{
    let xv = chars_of(x);
    let mut k: usize = 0;
    while k < list.len()
        invariant
            k <= list.len(),
            xv@ == x@,
            forall|j: int| 0 <= j < k ==> list@[j]@ != x@,
        decreases list.len() - k,
    {
        if eq_vec(&chars_of(list[k].as_str()), &xv) {
            assert(str_views(list@)[k as int] == x@);
            return true;
        }
        k = k + 1;
    }
    assert(!str_views(list@).contains(x@)) by {
        if str_views(list@).contains(x@) {
            let j = choose|j: int| 0 <= j < list@.len() && #[trigger] str_views(list@)[j] == x@;
            assert(list@[j]@ == x@);
        }
    }
    false
}

/// Every page's layout must be one the theme supports; the first page that
/// uses another is reported.
pub fn validate_layouts(manifest: &ThemeManifest, pages: &[Page]) -> (r: Result<(), FarolError>)
    ensures
        r is Ok <==> forall|i: int| 0 <= i < pages@.len() ==> str_views(manifest.theme.layouts.supported@).contains(#[trigger] pages@[i].layout@),
        r matches Err(e) ==> exists|i: int| 0 <= i < pages@.len()
            && !str_views(manifest.theme.layouts.supported@).contains(#[trigger] pages@[i].layout@)
            && (forall|j: int| 0 <= j < i ==> str_views(manifest.theme.layouts.supported@).contains(#[trigger] pages@[j].layout@))
            && (e matches FarolError::ConfigInvalid { message } && message@ == layout_error_msg(
                pages@[i].relative@,
                pages@[i].layout@,
                manifest.theme.name@,
                str_views(manifest.theme.layouts.supported@),
            )),
{
    let supported = &manifest.theme.layouts.supported;
    let ghost sv = str_views(supported@);
    let mut i: usize = 0;
    while i < pages.len()
        invariant
            i <= pages.len(),
            sv == str_views(supported@),
            sv == str_views(manifest.theme.layouts.supported@),
            forall|j: int| 0 <= j < i ==> sv.contains(#[trigger] pages@[j].layout@),
        decreases pages.len() - i,
    {
        if !in_list(supported, pages[i].layout.as_str()) {
            let mut m: Vec<char> = Vec::new();
            push_str(&mut m, "page `");
            push_str(&mut m, pages[i].relative.as_str());
            push_str(&mut m, "` uses layout `");
            push_str(&mut m, pages[i].layout.as_str());
            push_str(&mut m, "` which is not supported by theme `");
            push_str(&mut m, manifest.theme.name.as_str());
            push_str(&mut m, "` (supported: ");
            let d = debug_strings(supported);
            push_str(&mut m, d.as_str());
            push_str(&mut m, ")");
            let msg = string_from(m);
            assert(!sv.contains(pages@[i as int].layout@));
            assert(!(forall|j: int| 0 <= j < pages@.len() ==> sv.contains(#[trigger] pages@[j].layout@)));
            assert(msg@ =~= layout_error_msg(pages@[i as int].relative@, pages@[i as int].layout@, manifest.theme.name@, sv));
            return Err(FarolError::ConfigInvalid { message: msg });
        }
        i = i + 1;
    }
    Ok(())
}

/// The directory of a theme given by path: absolute paths as they are,
/// others under the project root (`Path::join`).
pub open spec fn theme_dir_spec(path: Seq<char>, project_root: Seq<char>) -> Seq<char> {
    if path.len() > 0 && path[0] == '/' {
        path
    } else if project_root.len() == 0 || project_root.last() == '/' {
        project_root + path
    } else {
        project_root + seq!['/'] + path
    }
}

pub fn theme_dir(path: &str, project_root: &str) -> (r: String)
    ensures
        r@ == theme_dir_spec(path@, project_root@),
{
    let p = chars_of(path);
    if p.len() > 0 && p[0] == '/' {
        return string_from(p);
    }
    let mut out = chars_of(project_root);
    if !(out.len() == 0 || out[out.len() - 1] == '/') {
        out.push('/');
    }
    crate::text::push_all(&mut out, &p);
    assert(out@ =~= theme_dir_spec(path@, project_root@));
    string_from(out)
}


/// The names of the themes bundled with the engine, in their order.
pub open spec fn embedded_index_spec(name: Seq<char>) -> Option<nat> {
    if name == "default"@ {
        Some(0)
    } else if name == "api"@ {
        Some(1)
    } else if name == "book"@ {
        Some(2)
    } else {
        None
    }
}

/// Which bundled theme a name refers to (`default`, `api`, `book`).
pub fn embedded_index(name: &str) -> (r: Option<usize>)
    ensures
        match r {
            Some(i) => embedded_index_spec(name@) == Some(i as nat),
            None => embedded_index_spec(name@) is None,
        },
{
    let n = chars_of(name);
    if eq_vec(&n, &chars_of("default")) {
        Some(0)
    } else if eq_vec(&n, &chars_of("api")) {
        Some(1)
    } else if eq_vec(&n, &chars_of("book")) {
        Some(2)
    } else {
        None
    }
}

pub open spec fn missing_templates_msg(theme_dir: Seq<char>) -> Seq<char> {
    "external theme at `"@ + theme_dir + "` is missing templates/ directory"@
}

/// An external theme needs a `templates/` directory (`templates_is_dir`
/// tells whether the theme has one).
pub fn validate_structure(theme_dir: &str, templates_is_dir: bool) -> (r: Result<(), FarolError>)
    ensures
        r is Ok <==> templates_is_dir,
        r matches Err(e) ==> (e matches FarolError::ConfigInvalid { message } && message@ == missing_templates_msg(theme_dir@)),
{
    if !templates_is_dir {
        let mut m: Vec<char> = Vec::new();
        push_str(&mut m, "external theme at `");
        push_str(&mut m, theme_dir);
        push_str(&mut m, "` is missing templates/ directory");
        return Err(FarolError::ConfigInvalid { message: string_from(m) });
    }
    Ok(())
}

pub open spec fn missing_manifest_msg(theme_dir: Seq<char>) -> Seq<char> {
    "external theme at `"@ + theme_dir + "` is missing theme.toml"@
}

/// The error for an external theme without `theme.toml`.
pub fn missing_manifest(theme_dir: &str) -> (e: FarolError)
    ensures
        e matches FarolError::ConfigInvalid { message } && message@ == missing_manifest_msg(theme_dir@),
{
    let mut m: Vec<char> = Vec::new();
    push_str(&mut m, "external theme at `");
    push_str(&mut m, theme_dir);
    push_str(&mut m, "` is missing theme.toml");
    FarolError::ConfigInvalid { message: string_from(m) }
}

} // verus!
