//! The source tree found under `docs_dir`.
use vstd::prelude::*;
use crate::text::chars_of;
use crate::url::{extension, extension_of, is_md_ext};

verus! {

/// A point in time of the standard library, carried opaquely.
#[verifier::external_type_specification]
#[verifier::external_body]
pub struct ExSystemTime(std::time::SystemTime);

/// Classification of a file discovered during a walk.
#[derive(Debug, Clone, Copy, PartialEq, Eq)]
pub enum FileKind {
    Markdown,
    Asset,
}

/// A single file in the source tree.
#[derive(Debug, Clone)]
pub struct File {
    pub path: String,
    pub relative: String,
    pub kind: FileKind,
    pub mtime: Option<std::time::SystemTime>,
}

/// A collection of files found under the configured `docs_dir`.
#[derive(Debug, Clone)]
pub struct FileTree {
    pub files: Vec<File>,
}

/// The files of a list that have the given kind, in order.
pub open spec fn of_kind(fs: Seq<File>, kind: FileKind) -> Seq<File>
    decreases fs.len(),
{
    if fs.len() == 0 {
        seq![]
    } else {
        let r = of_kind(fs.drop_last(), kind);
        if fs.last().kind == kind {
            r.push(fs.last())
        } else {
            r
        }
    }
}

pub open spec fn derefs(v: Seq<&File>) -> Seq<File> {
    v.map_values(|f: &File| *f)
}

fn is_markdown(k: FileKind) -> (b: bool)
    ensures
        b == (k == FileKind::Markdown),
{
    match k {
        FileKind::Markdown => true,
        FileKind::Asset => false,
    }
}

impl FileTree {
    /// An empty tree.
    pub fn new() -> (r: Self)
        ensures
            r.files@.len() == 0,
    {
        FileTree { files: Vec::new() }
    }

    pub fn len(&self) -> (r: usize)
        ensures
            r == self.files@.len(),
    {
        self.files.len()
    }

    pub fn is_empty(&self) -> (r: bool)
        ensures
            r == (self.files@.len() == 0),
    {
        self.files.len() == 0
    }

    fn of_kind_refs(&self, markdown: bool) -> (r: Vec<&File>)
        ensures
            derefs(r@) == of_kind(
                self.files@,
                if markdown {
                    FileKind::Markdown
                } else {
                    FileKind::Asset
                },
            ),
    {
        let ghost kind = if markdown {
            FileKind::Markdown
        } else {
            FileKind::Asset
        };
        let mut out: Vec<&File> = Vec::new();
        let mut i: usize = 0;
        while i < self.files.len()
            invariant
                i <= self.files@.len(),
                kind == (if markdown {
                    FileKind::Markdown
                } else {
                    FileKind::Asset
                }),
                derefs(out@) == of_kind(self.files@.take(i as int), kind),
            decreases self.files@.len() - i,
        {
            let f = &self.files[i];
            assert(self.files@.take(i + 1).drop_last() =~= self.files@.take(i as int));
            assert(self.files@.take(i + 1).last() == *f);
            if is_markdown(f.kind) == markdown {
                assert(f.kind == kind);
                let ghost o = out@;
                out.push(f);
                assert(derefs(out@) =~= derefs(o).push(*f));
                assert(derefs(out@) == of_kind(self.files@.take(i + 1), kind));
            } else {
                assert(f.kind != kind);
                assert(derefs(out@) == of_kind(self.files@.take(i + 1), kind));
            }
            i = i + 1;
        }
        assert(self.files@.take(self.files@.len() as int) =~= self.files@);
        out
    }

    /// The markdown files, in order.
    pub fn markdown(&self) -> (r: Vec<&File>)
        ensures
            derefs(r@) == of_kind(self.files@, FileKind::Markdown),
    {
        self.of_kind_refs(true)
    }

    /// The other files (assets), in order.
    pub fn assets(&self) -> (r: Vec<&File>)
        ensures
            derefs(r@) == of_kind(self.files@, FileKind::Asset),
    {
        self.of_kind_refs(false)
    }
}

/// How a walked file is classified: markdown by its (case-insensitive)
/// `md` / `markdown` extension, anything else an asset.
pub fn kind_of(relative: &str) -> (r: FileKind)
    ensures
        r == (if is_md_ext(extension_of(relative@)) {
            FileKind::Markdown
        } else {
            FileKind::Asset
        }),
{
    let rel = chars_of(relative);
    let ext = extension(&rel);
    let ghost e = extension_of(relative@);
    assert(match ext {
        Some(x) => e == Some(x@),
        None => e is None,
    });
    if crate::url::is_md_extension(&ext) {
        FileKind::Markdown
    } else {
        FileKind::Asset
    }
}

} // verus!
