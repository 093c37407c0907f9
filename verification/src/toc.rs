//! Nested table of contents built from a page's flat heading list.
use vstd::prelude::*;

verus! {

/// A heading entry in the table of contents.
#[derive(Debug)]
pub struct TocEntry {
    pub level: u8,
    pub title: String,
    pub slug: String,
    pub children: Vec<TocEntry>,
}

/// The `(level, title, slug)` of one entry, as plain values.
pub open spec fn hdr(e: TocEntry) -> (u8, Seq<char>, Seq<char>) {
    (e.level, e.title@, e.slug@)
}

/// Pre-order listing of a forest: each entry followed by its subtree.
pub open spec fn flat_list(es: Seq<TocEntry>) -> Seq<(u8, Seq<char>, Seq<char>)>
    decreases es,
{
    if es.len() == 0 {
        seq![]
    } else {
        let e = es.last();
        proof {
            assert(decreases_to!(es => es[es.len() - 1]));
        }
        flat_list(es.drop_last()) + seq![hdr(e)] + flat_list(e.children@)
    }
}

/// The forest's shape: every entry is deeper than `parent_level`, every
/// subtree is shaped under its own level, and siblings never get deeper
/// from one to the next (a deeper heading would have nested instead).
pub open spec fn shaped(es: Seq<TocEntry>, parent_level: int) -> bool
    decreases es,
{
    if es.len() == 0 {
        true
    } else {
        let e = es.last();
        proof {
            assert(decreases_to!(es => es[es.len() - 1]));
        }
        &&& shaped(es.drop_last(), parent_level)
        &&& e.level > parent_level
        &&& shaped(e.children@, e.level as int)
        &&& (es.len() >= 2 ==> e.level <= es[es.len() - 2].level)
    }
}

/// Pre-order listing of the open entries on the nesting stack: each one
/// is an ancestor of the next, whose subtree is yet to be closed.
pub open spec fn stack_flat(stk: Seq<TocEntry>) -> Seq<(u8, Seq<char>, Seq<char>)>
    decreases stk.len(),
{
    if stk.len() == 0 {
        seq![]
    } else {
        let e = stk.last();
        stack_flat(stk.drop_last()) + seq![hdr(e)] + flat_list(e.children@)
    }
}

/// The headings `nest` keeps, in order, with the levels `[2, max_level]`.
pub open spec fn toc_filter(flat: Seq<(u8, String, String)>, max_level: u8) -> Seq<
    (u8, Seq<char>, Seq<char>),
>
    decreases flat.len(),
{
    if flat.len() == 0 {
        seq![]
    } else {
        let (lvl, t, s) = flat.last();
        let rest = toc_filter(flat.drop_last(), max_level);
        if lvl >= 2 && lvl <= max_level {
            rest.push((lvl, t@, s@))
        } else {
            rest
        }
    }
}

proof fn lemma_flat_list_push(es: Seq<TocEntry>, e: TocEntry)
    ensures
        flat_list(es.push(e)) == flat_list(es) + seq![hdr(e)] + flat_list(e.children@),
{
    assert(es.push(e).drop_last() =~= es);
}

proof fn lemma_shaped_push(es: Seq<TocEntry>, e: TocEntry, p: int)
    requires
        shaped(es, p),
        e.level > p,
        shaped(e.children@, e.level as int),
        es.len() > 0 ==> e.level <= es.last().level,
    ensures
        shaped(es.push(e), p),
{
    assert(es.push(e).drop_last() =~= es);
    if es.len() > 0 {
        assert(es.push(e)[es.len() - 1] == es[es.len() - 1]);
    }
}

proof fn lemma_stack_flat_push(stk: Seq<TocEntry>, e: TocEntry)
    ensures
        stack_flat(stk.push(e)) == stack_flat(stk) + seq![hdr(e)] + flat_list(e.children@),
{
    assert(stk.push(e).drop_last() =~= stk);
}

/// The nesting stack's invariant: levels strictly increase, every open
/// entry's finished children are shaped, and the next open entry is no
/// deeper than the last finished child of the one below it.
pub open spec fn stack_ok(stk: Seq<TocEntry>) -> bool {
    &&& forall|k: int| 0 <= k < stk.len() - 1 ==> #[trigger] stk[k].level < stk[k + 1].level
    &&& forall|k: int| 0 <= k < stk.len() ==> shaped(#[trigger] stk[k].children@, stk[k].level as int)
    &&& forall|k: int|
        0 <= k < stk.len() - 1 && (#[trigger] stk[k].children@).len() > 0 ==> stk[k + 1].level
            <= stk[k].children@.last().level
}

/// Close the top of the stack: it becomes the last child of the entry
/// below it, or the last root when the stack holds nothing else.
fn attach(stack: &mut Vec<TocEntry>, roots: &mut Vec<TocEntry>, entry: TocEntry)
    requires
        stack_ok(old(stack)@.push(entry)),
        shaped(old(roots)@, -1),
        old(stack)@.len() == 0 && old(roots)@.len() > 0 ==> entry.level <= old(roots)@.last().level,
        old(stack)@.len() > 0 && old(stack)@.last().children@.len() > 0 ==> entry.level
            <= old(stack)@.last().children@.last().level,
    ensures
        flat_list(final(roots)@) + stack_flat(final(stack)@) == flat_list(old(roots)@)
            + stack_flat(old(stack)@.push(entry)),
        stack_ok(final(stack)@),
        shaped(final(roots)@, -1),
        final(stack)@.len() == old(stack)@.len(),
        old(stack)@.len() > 0 ==> final(stack)@.drop_last() == old(stack)@.drop_last(),
        old(stack)@.len() > 0 ==> final(stack)@.last().level == old(stack)@.last().level,
        old(stack)@.len() > 0 ==> final(stack)@.last().children@.last() == entry,
        old(stack)@.len() > 0 ==> final(roots)@ == old(roots)@,
        old(stack)@.len() == 0 ==> final(roots)@.last() == entry,
{
    let ghost s0 = stack@;
    let ghost r0 = roots@;
    proof {
        lemma_stack_flat_push(s0, entry);
        assert(s0.push(entry)[s0.len() as int] == entry);
    }
    if stack.len() > 0 {
        let mut parent = stack.pop().unwrap();
        let ghost p0 = parent;
        let ghost s1 = stack@;
        assert(s0 =~= s1.push(p0));
        proof {
            lemma_stack_flat_push(s1, p0);
            assert(s0.push(entry)[s1.len() as int] == p0);
            assert(s0.push(entry)[s1.len() + 1int] == entry);
            lemma_shaped_push(p0.children@, entry, p0.level as int);
        }
        parent.children.push(entry);
        proof {
            lemma_flat_list_push(p0.children@, entry);
        }
        let ghost p1 = parent;
        stack.push(parent);
        proof {
            lemma_stack_flat_push(s1, p1);
            assert(stack_flat(stack@) =~= stack_flat(s1) + seq![hdr(p0)] + flat_list(p0.children@)
                + seq![hdr(entry)] + flat_list(entry.children@));
            assert(stack@ =~= s1.push(p1));
            assert forall|k: int| 0 <= k < stack@.len() - 1 implies #[trigger] stack@[k].level
                < stack@[k + 1].level by {
                assert(s0.push(entry)[k] == stack@[k]);
                assert(s0.push(entry)[k + 1].level == stack@[k + 1].level);
            }
            assert forall|k: int| 0 <= k < stack@.len() implies shaped(
                #[trigger] stack@[k].children@,
                stack@[k].level as int,
            ) by {
                if k < stack@.len() - 1 {
                    assert(s0.push(entry)[k] == stack@[k]);
                }
            }
            assert forall|k: int|
                0 <= k < stack@.len() - 1 && (#[trigger] stack@[k].children@).len()
                    > 0 implies stack@[k + 1].level <= stack@[k].children@.last().level by {
                assert(s0.push(entry)[k] == stack@[k]);
                assert(s0.push(entry)[k + 1].level == stack@[k + 1].level);
            }
            assert(stack@.drop_last() =~= s1);
        }
    } else {
        proof {
            assert(s0.push(entry)[0] == entry);
            lemma_shaped_push(r0, entry, -1);
            lemma_flat_list_push(r0, entry);
        }
        roots.push(entry);
        proof {
            assert(s0 =~= Seq::<TocEntry>::empty());
            assert(stack_flat(s0) =~= Seq::<(u8, Seq<char>, Seq<char>)>::empty());
            assert(flat_list(roots@) + stack_flat(stack@) =~= flat_list(r0) + stack_flat(
                s0.push(entry),
            ));
        }
    }
}


/// The last root is no shallower than the bottom open entry.
pub open spec fn roots_ok(stk: Seq<TocEntry>, roots: Seq<TocEntry>) -> bool {
    stk.len() > 0 && roots.len() > 0 ==> stk[0].level <= roots.last().level
}

/// Close every open entry at least as deep as `entry`, then open `entry`.
fn nest_push(stack: &mut Vec<TocEntry>, roots: &mut Vec<TocEntry>, entry: TocEntry)
    requires
        stack_ok(old(stack)@),
        roots_ok(old(stack)@, old(roots)@),
        shaped(old(roots)@, -1),
        old(stack)@.len() > 0 ==> old(stack)@.last().children@.len() == 0,
        old(stack)@.len() == 0 ==> old(roots)@.len() == 0,
        entry.children@.len() == 0,
    ensures
        stack_ok(final(stack)@),
        roots_ok(final(stack)@, final(roots)@),
        shaped(final(roots)@, -1),
        final(stack)@.len() > 0,
        final(stack)@.last().children@.len() == 0,
        flat_list(final(roots)@) + stack_flat(final(stack)@) == flat_list(old(roots)@)
            + stack_flat(old(stack)@) + seq![hdr(entry)],
{
    let ghost f0 = flat_list(roots@) + stack_flat(stack@);
    while stack.len() > 0 && stack[stack.len() - 1].level >= entry.level
        invariant
            stack_ok(stack@),
            roots_ok(stack@, roots@),
            shaped(roots@, -1),
            flat_list(roots@) + stack_flat(stack@) == f0,
            stack@.len() > 0 && stack@.last().children@.len() > 0 ==> entry.level
                <= stack@.last().children@.last().level,
            stack@.len() == 0 && roots@.len() > 0 ==> entry.level <= roots@.last().level,
        decreases stack@.len(),
    {
        let ghost s0 = stack@;
        let top = stack.pop().unwrap();
        proof {
            assert(s0 =~= stack@.push(top));
            if stack@.len() > 0 {
                assert(s0[stack@.len() - 1] == stack@.last());
            }
        }
        attach(stack, roots, top);
        proof {
            if stack@.len() > 1 {
                assert(stack@[0] == stack@.drop_last()[0]);
            }
            if stack@.len() > 0 {
                assert(stack@[0].level == s0[0].level);
            }
        }
    }
    let ghost s1 = stack@;
    let ghost r1 = roots@;
    stack.push(entry);
    proof {
        lemma_stack_flat_push(s1, entry);
        assert(entry.children@ =~= Seq::<TocEntry>::empty());
        assert(flat_list(entry.children@) =~= Seq::<(u8, Seq<char>, Seq<char>)>::empty());
        assert(stack@[stack@.len() - 1] == entry);
        assert forall|k: int| 0 <= k < stack@.len() - 1 implies #[trigger] stack@[k].level
            < stack@[k + 1].level by {
            if k < s1.len() - 1 {
                assert(stack@[k] == s1[k] && stack@[k + 1] == s1[k + 1]);
            } else {
                assert(stack@[k] == s1[k]);
            }
        }
        assert forall|k: int| 0 <= k < stack@.len() implies shaped(
            #[trigger] stack@[k].children@,
            stack@[k].level as int,
        ) by {
            if k < s1.len() {
                assert(stack@[k] == s1[k]);
            }
        }
        assert forall|k: int|
            0 <= k < stack@.len() - 1 && (#[trigger] stack@[k].children@).len() > 0 implies stack@[k
                + 1].level <= stack@[k].children@.last().level by {
            assert(stack@[k] == s1[k]);
            if k < s1.len() - 1 {
                assert(stack@[k + 1] == s1[k + 1]);
            }
        }
        assert(flat_list(roots@) + stack_flat(stack@) =~= f0 + seq![hdr(entry)]);
    }
}

/// The headers of a sequence of entries.
pub open spec fn hdrs(es: Seq<TocEntry>) -> Seq<(u8, Seq<char>, Seq<char>)> {
    es.map_values(|e: TocEntry| hdr(e))
}

/// Nest a flat list of leaf entries by level.
fn nest(entries: Vec<TocEntry>) -> (roots: Vec<TocEntry>)
    requires
        forall|k: int| 0 <= k < entries@.len() ==> (#[trigger] entries@[k]).children@.len() == 0,
    ensures
        flat_list(roots@) == hdrs(entries@),
        shaped(roots@, -1),
{
    let mut stack: Vec<TocEntry> = Vec::new();
    let mut roots: Vec<TocEntry> = Vec::new();
    let ghost all = entries@;
    for entry in it: entries
        invariant
            it.seq() == all,
            forall|k: int| 0 <= k < all.len() ==> (#[trigger] all[k]).children@.len() == 0,
            stack_ok(stack@),
            roots_ok(stack@, roots@),
            shaped(roots@, -1),
            stack@.len() > 0 ==> stack@.last().children@.len() == 0,
            stack@.len() == 0 ==> roots@.len() == 0,
            flat_list(roots@) + stack_flat(stack@) == hdrs(all.take(it.index() as int)),
    {
        let ghost n = it.index();
        proof {
            assert(entry == all[n as int]);
        }
        nest_push(&mut stack, &mut roots, entry);
        assert(hdrs(all.take(n + 1)) =~= hdrs(all.take(n as int)) + seq![hdr(entry)]);
    }
    assert(all.take(all.len() as int) =~= all);
    while stack.len() > 0
        invariant
            stack_ok(stack@),
            roots_ok(stack@, roots@),
            shaped(roots@, -1),
            flat_list(roots@) + stack_flat(stack@) == hdrs(all),
        decreases stack@.len(),
    {
        let ghost s0 = stack@;
        let top = stack.pop().unwrap();
        proof {
            assert(s0 =~= stack@.push(top));
            if stack@.len() > 0 {
                assert(s0[stack@.len() - 1] == stack@.last());
            }
        }
        attach(&mut stack, &mut roots, top);
        proof {
            if stack@.len() > 1 {
                assert(stack@[0] == stack@.drop_last()[0]);
            }
            if stack@.len() > 0 {
                assert(stack@[0].level == s0[0].level);
            }
        }
    }
    assert(stack_flat(stack@) =~= Seq::<(u8, Seq<char>, Seq<char>)>::empty());
    assert(flat_list(roots@) =~= flat_list(roots@) + stack_flat(stack@));
    roots
}


/// Build a nested TOC from a flat list of `(level, title, slug)` tuples,
/// keeping the levels from 2 to `max_level`. Its pre-order listing is
/// exactly the kept headings, in order; each entry nests under the nearest
/// earlier kept heading of a smaller level.
pub fn build(flat: &[(u8, String, String)], max_level: u8) -> (roots: Vec<TocEntry>)
    ensures
        flat_list(roots@) == toc_filter(flat@, max_level),
        shaped(roots@, -1),
{
    let mut filtered: Vec<TocEntry> = Vec::new();
    let mut i: usize = 0;
    while i < flat.len()
        invariant
            i <= flat.len(),
            hdrs(filtered@) == toc_filter(flat@.take(i as int), max_level),
            forall|k: int|
                0 <= k < filtered@.len() ==> (#[trigger] filtered@[k]).children@.len() == 0,
        decreases flat.len() - i,
    {
        let (lvl, title, slug) = &flat[i];
        assert(flat@.take(i + 1).drop_last() =~= flat@.take(i as int));
        if *lvl >= 2 && *lvl <= max_level {
            let e = TocEntry {
                level: *lvl,
                title: title.clone(),
                slug: slug.clone(),
                children: Vec::new(),
            };
            filtered.push(e);
            assert(hdrs(filtered@) =~= hdrs(filtered@.drop_last()).push(hdr(e)));
        }
        i = i + 1;
    }
    assert(flat@.take(flat@.len() as int) =~= flat@);
    nest(filtered)
}

} // verus!
