//! The order of strings (`str`'s `Ord`: character by character, a prefix
//! first) and a stable sort by it.
use vstd::prelude::*;
use crate::slug::str_views;
use crate::text::{chars_of, eq_vec, views};
use crate::url::comps;

verus! {

/// `a <= b` in `str` order: compared character by character (UTF-8 byte
/// order and character order agree), a proper prefix first.
pub open spec fn lex_le(a: Seq<char>, b: Seq<char>) -> bool
    decreases a.len(),
{
    if a.len() == 0 {
        true
    } else if b.len() == 0 {
        false
    } else if a[0] != b[0] {
        a[0] < b[0]
    } else {
        lex_le(a.skip(1), b.skip(1))
    }
}

pub open spec fn lex_lt(a: Seq<char>, b: Seq<char>) -> bool {
    lex_le(a, b) && a != b
}

pub proof fn lemma_lex_total(a: Seq<char>, b: Seq<char>)
    ensures
        lex_le(a, b) || lex_le(b, a),
    decreases a.len(),
{
    if a.len() > 0 && b.len() > 0 {
        if a[0] == b[0] {
            lemma_lex_total(a.skip(1), b.skip(1));
        } else {
            assert((a[0] as int) != (b[0] as int));
        }
    }
}

pub proof fn lemma_lex_antisym(a: Seq<char>, b: Seq<char>)
    requires
        lex_le(a, b),
        lex_le(b, a),
    ensures
        a == b,
    decreases a.len(),
{
    if a.len() == 0 {
        assert(b.len() == 0);
        assert(a =~= b);
    } else {
        assert(b.len() > 0);
        if a[0] == b[0] {
            lemma_lex_antisym(a.skip(1), b.skip(1));
            assert(a =~= seq![a[0]] + a.skip(1));
            assert(b =~= seq![b[0]] + b.skip(1));
        } else {
            assert((a[0] as int) != (b[0] as int));
        }
    }
}

pub proof fn lemma_lex_trans(a: Seq<char>, b: Seq<char>, c: Seq<char>)
    requires
        lex_le(a, b),
        lex_le(b, c),
    ensures
        lex_le(a, c),
    decreases a.len(),
{
    if a.len() > 0 && b.len() > 0 && c.len() > 0 {
        if a[0] == b[0] && b[0] == c[0] {
            lemma_lex_trans(a.skip(1), b.skip(1), c.skip(1));
        }
    }
}

/// Whether `a <= b` in `str` order.
pub fn lex_le_exec(a: &Vec<char>, b: &Vec<char>) -> (r: bool)
    ensures
        r == lex_le(a@, b@),
{
    let mut i: usize = 0;
    assert(a@.skip(0) =~= a@);
    assert(b@.skip(0) =~= b@);
    while i < a.len() && i < b.len()
        invariant
            i <= a.len(),
            i <= b.len(),
            lex_le(a@, b@) == lex_le(a@.skip(i as int), b@.skip(i as int)),
        decreases a.len() - i,
    {
        assert(a@.skip(i as int)[0] == a@[i as int]);
        assert(b@.skip(i as int)[0] == b@[i as int]);
        if a[i] != b[i] {
            return a[i] < b[i];
        }
        assert(a@.skip(i as int).skip(1) =~= a@.skip(i + 1));
        assert(b@.skip(i as int).skip(1) =~= b@.skip(i + 1));
        i = i + 1;
    }
    assert(a@.skip(i as int).len() == a@.len() - i);
    assert(b@.skip(i as int).len() == b@.len() - i);
    i == a.len()
}

/// Entry `a` goes before entry `b` when sorting `keys` stably: a smaller
/// key, or an equal key and an earlier position.
pub open spec fn key_before(keys: Seq<Seq<char>>, a: int, b: int) -> bool {
    lex_lt(keys[a], keys[b]) || (keys[a] == keys[b] && a < b)
}

/// `order` lists `0..n` once each, sorted stably by `keys`.
pub open spec fn is_stable_order(keys: Seq<Seq<char>>, order: Seq<usize>) -> bool {
    &&& order.len() == keys.len()
    &&& forall|i: int| 0 <= i < order.len() ==> (#[trigger] order[i]) < keys.len()
    &&& forall|i: int, j: int| 0 <= i < j < order.len() ==> key_before(keys, #[trigger] order[i] as int, #[trigger] order[j] as int)
}

proof fn lemma_key_before_trans(keys: Seq<Seq<char>>, a: int, b: int, c: int)
    requires
        key_before(keys, a, b),
        key_before(keys, b, c),
    ensures
        key_before(keys, a, c),
{
    if lex_lt(keys[a], keys[b]) && lex_lt(keys[b], keys[c]) {
        lemma_lex_trans(keys[a], keys[b], keys[c]);
        if keys[a] == keys[c] {
            lemma_lex_antisym(keys[a], keys[b]);
        }
    } else if lex_lt(keys[a], keys[b]) {
        assert(keys[b] == keys[c]);
    } else if lex_lt(keys[b], keys[c]) {
        assert(keys[a] == keys[b]);
    }
}

/// The positions `0..keys.len()` sorted stably by their keys.
pub fn stable_order(keys: &Vec<String>) -> (r: Vec<usize>)
    ensures
        is_stable_order(str_views(keys@), r@),
{
    let ghost ks = str_views(keys@);
    let mut order: Vec<usize> = Vec::new();
    let mut i: usize = 0;
    while i < keys.len()
        invariant
            i <= keys.len(),
            ks == str_views(keys@),
            order@.len() == i,
            forall|a: int| 0 <= a < order@.len() ==> (#[trigger] order@[a]) < i,
            forall|a: int, b: int| 0 <= a < b < order@.len() ==> key_before(ks, #[trigger] order@[a] as int, #[trigger] order@[b] as int),
        decreases keys.len() - i,
    {
        let ki = chars_of(keys[i].as_str());
        assert(ks[i as int] == ki@);
        // The first position whose key is greater than key `i`.
        let mut p: usize = 0;
        while p < order.len()
            invariant
                p <= order.len(),
                ks == str_views(keys@),
                i < keys.len(),
                ki@ == ks[i as int],
                forall|a: int| 0 <= a < order@.len() ==> (#[trigger] order@[a]) < i,
                forall|a: int| 0 <= a < p ==> key_before(ks, #[trigger] order@[a] as int, i as int),
            ensures
                p <= order.len(),
                forall|a: int| 0 <= a < p ==> key_before(ks, #[trigger] order@[a] as int, i as int),
                p < order.len() ==> !lex_le(ks[order@[p as int] as int], ks[i as int]),
            decreases order.len() - p,
        {
            let kp = chars_of(keys[order[p]].as_str());
            assert(ks[order@[p as int] as int] == kp@);
            if !lex_le_exec(&kp, &ki) {
                break;
            }
            proof {
                if kp@ != ki@ {
                    assert(lex_lt(kp@, ki@));
                }
            }
            p = p + 1;
        }
        proof {
            if p < order@.len() {
                let op = order@[p as int] as int;
                assert(!lex_le(ks[op], ks[i as int]));
                lemma_lex_total(ks[op], ks[i as int]);
                assert(key_before(ks, i as int, op));
                assert forall|b: int| p <= b < order@.len() implies key_before(ks, i as int, #[trigger] order@[b] as int) by {
                    if b > p {
                        lemma_key_before_trans(ks, i as int, op, order@[b] as int);
                    }
                }
            }
        }
        let ghost old_order = order@;
        order.insert(p, i);
        assert forall|a: int, b: int| 0 <= a < b < order@.len() implies key_before(ks, #[trigger] order@[a] as int, #[trigger] order@[b] as int) by {
            if a < p as int && b < p as int {
                assert(order@[a] == old_order[a] && order@[b] == old_order[b]);
            } else if a < p as int && b == p as int {
                assert(order@[a] == old_order[a]);
            } else if a < p as int {
                assert(order@[a] == old_order[a] && order@[b] == old_order[b - 1]);
                lemma_key_before_trans(ks, order@[a] as int, i as int, order@[b] as int);
            } else if a == p as int {
                assert(order@[b] == old_order[b - 1]);
            } else {
                assert(order@[a] == old_order[a - 1] && order@[b] == old_order[b - 1]);
            }
        }
        assert forall|a: int| 0 <= a < order@.len() implies (#[trigger] order@[a]) < i + 1 by {
            if a < p as int {
                assert(order@[a] == old_order[a]);
            } else if a > p as int {
                assert(order@[a] == old_order[a - 1]);
            }
        }
        i = i + 1;
    }
    order
}


/// Entry `a` goes before entry `b` when sorting stably by weight, then by
/// title.
pub open spec fn wkey_before(ws: Seq<i32>, ts: Seq<Seq<char>>, a: int, b: int) -> bool {
    ws[a] < ws[b] || (ws[a] == ws[b] && key_before(ts, a, b))
}

/// `order` lists `0..n` once each, sorted stably by `(weight, title)`.
pub open spec fn is_weighted_order(ws: Seq<i32>, ts: Seq<Seq<char>>, order: Seq<usize>) -> bool {
    &&& order.len() == ws.len()
    &&& forall|i: int| 0 <= i < order.len() ==> (#[trigger] order[i]) < ws.len()
    &&& forall|i: int, j: int| 0 <= i < j < order.len() ==> wkey_before(ws, ts, #[trigger] order[i] as int, #[trigger] order[j] as int)
}

proof fn lemma_wkey_trans(ws: Seq<i32>, ts: Seq<Seq<char>>, a: int, b: int, c: int)
    requires
        wkey_before(ws, ts, a, b),
        wkey_before(ws, ts, b, c),
    ensures
        wkey_before(ws, ts, a, c),
{
    if ws[a] == ws[b] && ws[b] == ws[c] {
        lemma_key_before_trans(ts, a, b, c);
    }
}

/// `a` precedes `b` (a strictly larger position) unless its key is larger.
fn wkey_le_exec(ws: &Vec<i32>, ts: &Vec<String>, a: usize, b: usize) -> (r: bool)
    requires
        a < ws.len(),
        b < ws.len(),
        ws.len() == ts.len(),
    ensures
        r == (ws@[a as int] < ws@[b as int] || (ws@[a as int] == ws@[b as int] && lex_le(ts@[a as int]@, ts@[b as int]@))),
{
    if ws[a] != ws[b] {
        return ws[a] < ws[b];
    }
    lex_le_exec(&chars_of(ts[a].as_str()), &chars_of(ts[b].as_str()))
}

/// The positions `0..n` sorted stably by `(weight, title)`.
pub fn stable_order_weighted(ws: &Vec<i32>, ts: &Vec<String>) -> (r: Vec<usize>)
    requires
        ws.len() == ts.len(),
    ensures
        is_weighted_order(ws@, str_views(ts@), r@),
{
    let ghost tv = str_views(ts@);
    let mut order: Vec<usize> = Vec::new();
    let mut i: usize = 0;
    while i < ws.len()
        invariant
            i <= ws.len(),
            ws.len() == ts.len(),
            tv == str_views(ts@),
            order@.len() == i,
            forall|a: int| 0 <= a < order@.len() ==> (#[trigger] order@[a]) < i,
            forall|a: int, b: int| 0 <= a < b < order@.len() ==> wkey_before(ws@, tv, #[trigger] order@[a] as int, #[trigger] order@[b] as int),
        decreases ws.len() - i,
    {
        let mut p: usize = 0;
        while p < order.len()
            invariant
                p <= order.len(),
                i < ws.len(),
                ws.len() == ts.len(),
                tv == str_views(ts@),
                forall|a: int| 0 <= a < order@.len() ==> (#[trigger] order@[a]) < i,
                forall|a: int| 0 <= a < p ==> wkey_before(ws@, tv, #[trigger] order@[a] as int, i as int),
            ensures
                p <= order.len(),
                forall|a: int| 0 <= a < p ==> wkey_before(ws@, tv, #[trigger] order@[a] as int, i as int),
                p < order.len() ==> !(ws@[order@[p as int] as int] < ws@[i as int] || (ws@[order@[p as int] as int] == ws@[i as int] && lex_le(tv[order@[p as int] as int], tv[i as int]))),
            decreases order.len() - p,
        {
            let op = order[p];
            assert(tv[op as int] == ts@[op as int]@);
            assert(tv[i as int] == ts@[i as int]@);
            if !wkey_le_exec(ws, ts, op, i) {
                break;
            }
            proof {
                if ws@[op as int] == ws@[i as int] && tv[op as int] != tv[i as int] {
                    assert(lex_lt(tv[op as int], tv[i as int]));
                }
            }
            p = p + 1;
        }
        proof {
            if p < order@.len() {
                let op = order@[p as int] as int;
                lemma_lex_total(tv[op], tv[i as int]);
                assert(wkey_before(ws@, tv, i as int, op));
                assert forall|b: int| p <= b < order@.len() implies wkey_before(ws@, tv, i as int, #[trigger] order@[b] as int) by {
                    if b > p {
                        lemma_wkey_trans(ws@, tv, i as int, op, order@[b] as int);
                    }
                }
            }
        }
        let ghost old_order = order@;
        order.insert(p, i);
        assert forall|a: int, b: int| 0 <= a < b < order@.len() implies wkey_before(ws@, tv, #[trigger] order@[a] as int, #[trigger] order@[b] as int) by {
            if a < p as int && b < p as int {
                assert(order@[a] == old_order[a] && order@[b] == old_order[b]);
            } else if a < p as int && b == p as int {
                assert(order@[a] == old_order[a]);
            } else if a < p as int {
                assert(order@[a] == old_order[a] && order@[b] == old_order[b - 1]);
                lemma_wkey_trans(ws@, tv, order@[a] as int, i as int, order@[b] as int);
            } else if a == p as int {
                assert(order@[b] == old_order[b - 1]);
            } else {
                assert(order@[a] == old_order[a - 1] && order@[b] == old_order[b - 1]);
            }
        }
        assert forall|a: int| 0 <= a < order@.len() implies (#[trigger] order@[a]) < i + 1 by {
            if a < p as int {
                assert(order@[a] == old_order[a]);
            } else if a > p as int {
                assert(order@[a] == old_order[a - 1]);
            }
        }
        i = i + 1;
    }
    order
}


/// Entry `a` goes before entry `b` when sorting by `(url, title)` pairs:
/// a smaller url, or the same url and a title that goes first.
pub open spec fn pkey_before(us: Seq<Seq<char>>, ts: Seq<Seq<char>>, a: int, b: int) -> bool {
    lex_lt(us[a], us[b]) || (us[a] == us[b] && key_before(ts, a, b))
}

/// `order` lists `0..n` once each, sorted by `(url, title)`.
pub open spec fn is_pair_order(us: Seq<Seq<char>>, ts: Seq<Seq<char>>, order: Seq<usize>) -> bool {
    &&& order.len() == us.len()
    &&& forall|i: int| 0 <= i < order.len() ==> (#[trigger] order[i]) < us.len()
    &&& forall|i: int, j: int| 0 <= i < j < order.len() ==> pkey_before(us, ts, #[trigger] order[i] as int, #[trigger] order[j] as int)
}

proof fn lemma_pkey_trans(us: Seq<Seq<char>>, ts: Seq<Seq<char>>, a: int, b: int, c: int)
    requires
        pkey_before(us, ts, a, b),
        pkey_before(us, ts, b, c),
    ensures
        pkey_before(us, ts, a, c),
{
    if us[a] == us[b] && us[b] == us[c] {
        lemma_key_before_trans(ts, a, b, c);
    } else if lex_lt(us[a], us[b]) && lex_lt(us[b], us[c]) {
        lemma_lex_trans(us[a], us[b], us[c]);
        if us[a] == us[c] {
            lemma_lex_antisym(us[a], us[b]);
        }
    }
}

fn pkey_le_exec(us: &Vec<String>, ts: &Vec<String>, a: usize, b: usize) -> (r: bool)
    requires
        a < us.len(),
        b < us.len(),
        us.len() == ts.len(),
    ensures
        r == (lex_lt(us@[a as int]@, us@[b as int]@) || (us@[a as int]@ == us@[b as int]@ && lex_le(ts@[a as int]@, ts@[b as int]@))),
{
    let ua = chars_of(us[a].as_str());
    let ub = chars_of(us[b].as_str());
    if eq_vec(&ua, &ub) {
        return lex_le_exec(&chars_of(ts[a].as_str()), &chars_of(ts[b].as_str()));
    }
    lex_le_exec(&ua, &ub)
}

/// The positions `0..n` sorted by `(url, title)`, equal pairs in their
/// original order.
pub fn pair_order(us: &Vec<String>, ts: &Vec<String>) -> (r: Vec<usize>)
    requires
        us.len() == ts.len(),
    ensures
        is_pair_order(str_views(us@), str_views(ts@), r@),
        pairs_at(str_views(us@), str_views(ts@), r@).to_multiset()
            == pair_seq(str_views(us@), str_views(ts@)).to_multiset(),
{
    let ghost uv = str_views(us@);
    let ghost tv = str_views(ts@);
    let mut order: Vec<usize> = Vec::new();
    let mut i: usize = 0;
    assert(pairs_at(uv, tv, order@) =~= pair_seq(uv, tv).take(0));
    while i < us.len()
        invariant
            i <= us.len(),
            us.len() == ts.len(),
            uv == str_views(us@),
            tv == str_views(ts@),
            order@.len() == i,
            forall|a: int| 0 <= a < order@.len() ==> (#[trigger] order@[a]) < i,
            forall|a: int, b: int| 0 <= a < b < order@.len() ==> pkey_before(uv, tv, #[trigger] order@[a] as int, #[trigger] order@[b] as int),
            pairs_at(uv, tv, order@).to_multiset() == pair_seq(uv, tv).take(i as int).to_multiset(),
        decreases us.len() - i,
    {
        let mut p: usize = 0;
        while p < order.len()
            invariant
                p <= order.len(),
                i < us.len(),
                us.len() == ts.len(),
                uv == str_views(us@),
                tv == str_views(ts@),
                forall|a: int| 0 <= a < order@.len() ==> (#[trigger] order@[a]) < i,
                forall|a: int| 0 <= a < p ==> pkey_before(uv, tv, #[trigger] order@[a] as int, i as int),
            ensures
                p <= order.len(),
                forall|a: int| 0 <= a < p ==> pkey_before(uv, tv, #[trigger] order@[a] as int, i as int),
                p < order.len() ==> !(lex_lt(uv[order@[p as int] as int], uv[i as int]) || (uv[order@[p as int] as int] == uv[i as int] && lex_le(tv[order@[p as int] as int], tv[i as int]))),
            decreases order.len() - p,
        {
            let op = order[p];
            assert(uv[op as int] == us@[op as int]@);
            assert(uv[i as int] == us@[i as int]@);
            assert(tv[op as int] == ts@[op as int]@);
            assert(tv[i as int] == ts@[i as int]@);
            if !pkey_le_exec(us, ts, op, i) {
                break;
            }
            proof {
                if uv[op as int] == uv[i as int] && tv[op as int] != tv[i as int] {
                    assert(lex_lt(tv[op as int], tv[i as int]));
                }
            }
            p = p + 1;
        }
        proof {
            if p < order@.len() {
                let op = order@[p as int] as int;
                lemma_lex_total(uv[op], uv[i as int]);
                lemma_lex_total(tv[op], tv[i as int]);
                if uv[op] != uv[i as int] {
                    assert(lex_lt(uv[i as int], uv[op]));
                }
                assert(pkey_before(uv, tv, i as int, op));
                assert forall|b: int| p <= b < order@.len() implies pkey_before(uv, tv, i as int, #[trigger] order@[b] as int) by {
                    if b > p {
                        lemma_pkey_trans(uv, tv, i as int, op, order@[b] as int);
                    }
                }
            }
        }
        let ghost old_order = order@;
        order.insert(p, i);
        proof {
            let x = (uv[i as int], tv[i as int]);
            assert(pairs_at(uv, tv, order@) =~= pairs_at(uv, tv, old_order).insert(p as int, x));
            vstd::seq_lib::to_multiset_insert(pairs_at(uv, tv, old_order), p as int, x);
            assert(pair_seq(uv, tv).take(i + 1) =~= pair_seq(uv, tv).take(i as int).push(x));
            pair_seq(uv, tv).take(i as int).to_multiset_ensures();
        }
        assert forall|a: int, b: int| 0 <= a < b < order@.len() implies pkey_before(uv, tv, #[trigger] order@[a] as int, #[trigger] order@[b] as int) by {
            if a < p as int && b < p as int {
                assert(order@[a] == old_order[a] && order@[b] == old_order[b]);
            } else if a < p as int && b == p as int {
                assert(order@[a] == old_order[a]);
            } else if a < p as int {
                assert(order@[a] == old_order[a] && order@[b] == old_order[b - 1]);
                lemma_pkey_trans(uv, tv, order@[a] as int, i as int, order@[b] as int);
            } else if a == p as int {
                assert(order@[b] == old_order[b - 1]);
            } else {
                assert(order@[a] == old_order[a - 1] && order@[b] == old_order[b - 1]);
            }
        }
        assert forall|a: int| 0 <= a < order@.len() implies (#[trigger] order@[a]) < i + 1 by {
            if a < p as int {
                assert(order@[a] == old_order[a]);
            } else if a > p as int {
                assert(order@[a] == old_order[a - 1]);
            }
        }
        i = i + 1;
    }
    proof {
        assert(uv.len() == us@.len());
        assert(pair_seq(uv, tv).take(i as int) =~= pair_seq(uv, tv));
    }
    order
}


/// `a <= b` for `(url, title)` pairs, compared as tuples.
pub open spec fn pair_le(a: (Seq<char>, Seq<char>), b: (Seq<char>, Seq<char>)) -> bool {
    lex_lt(a.0, b.0) || (a.0 == b.0 && lex_le(a.1, b.1))
}

/// A list of pairs in ascending order.
pub open spec fn sorted_pairs(s: Seq<(Seq<char>, Seq<char>)>) -> bool {
    forall|i: int, j: int| 0 <= i < j < s.len() ==> pair_le(#[trigger] s[i], #[trigger] s[j])
}

/// The `(url, title)` pairs of two parallel lists.
pub open spec fn pair_seq(us: Seq<Seq<char>>, ts: Seq<Seq<char>>) -> Seq<(Seq<char>, Seq<char>)> {
    Seq::new(us.len(), |k: int| (us[k], ts[k]))
}

/// The pairs at the positions `order` lists, in that order.
pub open spec fn pairs_at(us: Seq<Seq<char>>, ts: Seq<Seq<char>>, order: Seq<usize>) -> Seq<(Seq<char>, Seq<char>)> {
    order.map_values(|k: usize| (us[k as int], ts[k as int]))
}

proof fn lemma_pair_antisym(a: (Seq<char>, Seq<char>), b: (Seq<char>, Seq<char>))
    requires
        pair_le(a, b),
        pair_le(b, a),
    ensures
        a == b,
{
    if a.0 != b.0 {
        lemma_lex_antisym(a.0, b.0);
    } else {
        lemma_lex_antisym(a.1, b.1);
    }
}

/// Two ascending lists of the same pairs are the same list.
pub proof fn lemma_sorted_pairs_unique(s1: Seq<(Seq<char>, Seq<char>)>, s2: Seq<(Seq<char>, Seq<char>)>)
    requires
        sorted_pairs(s1),
        sorted_pairs(s2),
        s1.to_multiset() == s2.to_multiset(),
    ensures
        s1 == s2,
    decreases s1.len(),
{
    s1.to_multiset_ensures();
    s2.to_multiset_ensures();
    if s1.len() == 0 {
        assert(s1 =~= s2);
    } else {
        let a = s1[0];
        let b = s2[0];
        assert(s1.contains(a));
        assert(s2.to_multiset().count(a) > 0);
        assert(s2.contains(a));
        let j = choose|j: int| 0 <= j < s2.len() && s2[j] == a;
        assert(s2.contains(b));
        assert(s1.to_multiset().count(b) > 0);
        assert(s1.contains(b));
        let i = choose|i: int| 0 <= i < s1.len() && s1[i] == b;
        if a != b {
            assert(j > 0);
            assert(i > 0);
            assert(pair_le(s2[0], s2[j]));
            assert(pair_le(s1[0], s1[i]));
            lemma_pair_antisym(a, b);
        }
        let t1 = s1.remove(0);
        let t2 = s2.remove(0);
        assert(t1.to_multiset() == s1.to_multiset().remove(a));
        assert(t2.to_multiset() == s2.to_multiset().remove(b));
        assert forall|x: int, y: int| 0 <= x < y < t1.len() implies pair_le(#[trigger] t1[x], #[trigger] t1[y]) by {
            assert(t1[x] == s1[x + 1] && t1[y] == s1[y + 1]);
        }
        assert forall|x: int, y: int| 0 <= x < y < t2.len() implies pair_le(#[trigger] t2[x], #[trigger] t2[y]) by {
            assert(t2[x] == s2[x + 1] && t2[y] == s2[y + 1]);
        }
        lemma_sorted_pairs_unique(t1, t2);
        assert forall|k: int| 0 <= k < s1.len() implies s1[k] == s2[k] by {
            if k > 0 {
                assert(s1[k] == t1[k - 1] && s2[k] == t2[k - 1]);
            }
        }
        assert(s1 =~= s2);
    }
}


proof fn lemma_lex_refl(a: Seq<char>)
    ensures
        lex_le(a, a),
    decreases a.len(),
{
    if a.len() > 0 {
        lemma_lex_refl(a.skip(1));
    }
}

/// The pairs a `(url, title)` order lists come out ascending.
pub proof fn lemma_pair_order_sorted(us: Seq<Seq<char>>, ts: Seq<Seq<char>>, order: Seq<usize>)
    requires
        us.len() == ts.len(),
        is_pair_order(us, ts, order),
    ensures
        sorted_pairs(pairs_at(us, ts, order)),
{
    let sp = pairs_at(us, ts, order);
    assert forall|i: int, j: int| 0 <= i < j < sp.len() implies pair_le(#[trigger] sp[i], #[trigger] sp[j]) by {
        let a = order[i] as int;
        let b = order[j] as int;
        assert(pkey_before(us, ts, a, b));
        assert(sp[i] == (us[a], ts[a]) && sp[j] == (us[b], ts[b]));
        if !lex_lt(us[a], us[b]) {
            if ts[a] == ts[b] {
                lemma_lex_refl(ts[a]);
            }
        }
    }
}


/// `Path`'s order of two components (for relative paths): `..` before
/// any name, names in `str` order.
pub open spec fn comp_le(a: Seq<char>, b: Seq<char>) -> bool {
    if a == seq!['.', '.'] {
        true
    } else if b == seq!['.', '.'] {
        false
    } else {
        lex_le(a, b)
    }
}

/// `Path`'s order of two component lists: the first differing component
/// decides, a proper prefix first.
pub open spec fn comps_le(a: Seq<Seq<char>>, b: Seq<Seq<char>>) -> bool
    decreases a.len(),
{
    if a.len() == 0 {
        true
    } else if b.len() == 0 {
        false
    } else if a[0] != b[0] {
        comp_le(a[0], b[0])
    } else {
        comps_le(a.skip(1), b.skip(1))
    }
}

proof fn lemma_comp_total(a: Seq<char>, b: Seq<char>)
    ensures
        comp_le(a, b) || comp_le(b, a),
{
    lemma_lex_total(a, b);
}

proof fn lemma_comp_antisym(a: Seq<char>, b: Seq<char>)
    requires
        comp_le(a, b),
        comp_le(b, a),
    ensures
        a == b,
{
    if a != seq!['.', '.'] && b != seq!['.', '.'] {
        lemma_lex_antisym(a, b);
    }
}

proof fn lemma_comp_trans(a: Seq<char>, b: Seq<char>, c: Seq<char>)
    requires
        comp_le(a, b),
        comp_le(b, c),
    ensures
        comp_le(a, c),
{
    if a != seq!['.', '.'] && b != seq!['.', '.'] && c != seq!['.', '.'] {
        lemma_lex_trans(a, b, c);
    }
}

proof fn lemma_comps_total(a: Seq<Seq<char>>, b: Seq<Seq<char>>)
    ensures
        comps_le(a, b) || comps_le(b, a),
    decreases a.len(),
{
    if a.len() > 0 && b.len() > 0 {
        if a[0] == b[0] {
            lemma_comps_total(a.skip(1), b.skip(1));
        } else {
            lemma_comp_total(a[0], b[0]);
        }
    }
}

proof fn lemma_comps_antisym(a: Seq<Seq<char>>, b: Seq<Seq<char>>)
    requires
        comps_le(a, b),
        comps_le(b, a),
    ensures
        a == b,
    decreases a.len(),
{
    if a.len() == 0 {
        assert(b.len() == 0);
        assert(a =~= b);
    } else {
        assert(b.len() > 0);
        if a[0] == b[0] {
            lemma_comps_antisym(a.skip(1), b.skip(1));
            assert(a =~= seq![a[0]] + a.skip(1));
            assert(b =~= seq![b[0]] + b.skip(1));
        } else {
            lemma_comp_antisym(a[0], b[0]);
        }
    }
}

proof fn lemma_comps_trans(a: Seq<Seq<char>>, b: Seq<Seq<char>>, c: Seq<Seq<char>>)
    requires
        comps_le(a, b),
        comps_le(b, c),
    ensures
        comps_le(a, c),
    decreases a.len(),
{
    if a.len() > 0 && b.len() > 0 && c.len() > 0 {
        if a[0] == b[0] && b[0] == c[0] {
            lemma_comps_trans(a.skip(1), b.skip(1), c.skip(1));
        } else if a[0] == b[0] {
        } else if b[0] == c[0] {
        } else {
            lemma_comp_trans(a[0], b[0], c[0]);
            if a[0] == c[0] {
                lemma_comp_antisym(a[0], b[0]);
            }
        }
    }
}

fn comp_le_exec(a: &Vec<char>, b: &Vec<char>) -> (r: bool)
    ensures
        r == comp_le(a@, b@),
{
    if crate::url::is_dotdot(a) {
        true
    } else if crate::url::is_dotdot(b) {
        false
    } else {
        lex_le_exec(a, b)
    }
}

/// Whether `comps_le` holds of two component lists.
fn comps_le_exec(a: &Vec<Vec<char>>, b: &Vec<Vec<char>>) -> (r: bool)
    ensures
        r == comps_le(views(a@), views(b@)),
{
    let ghost av = views(a@);
    let ghost bv = views(b@);
    let mut i: usize = 0;
    assert(av.skip(0) =~= av);
    assert(bv.skip(0) =~= bv);
    while i < a.len() && i < b.len()
        invariant
            i <= a.len(),
            i <= b.len(),
            av == views(a@),
            bv == views(b@),
            forall|k: int| 0 <= k < i ==> av[k] == bv[k],
            comps_le(av, bv) == comps_le(av.skip(i as int), bv.skip(i as int)),
        decreases a.len() - i,
    {
        assert(av[i as int] == a@[i as int]@);
        assert(bv[i as int] == b@[i as int]@);
        assert(av.skip(i as int)[0] == av[i as int]);
        assert(bv.skip(i as int)[0] == bv[i as int]);
        if !eq_vec(&a[i], &b[i]) {
            return comp_le_exec(&a[i], &b[i]);
        }
        assert(av.skip(i as int).skip(1) =~= av.skip(i + 1));
        assert(bv.skip(i as int).skip(1) =~= bv.skip(i + 1));
        i = i + 1;
    }
    assert(av.skip(i as int).len() == av.len() - i);
    assert(bv.skip(i as int).len() == bv.len() - i);
    i == a.len()
}

/// Entry `a` goes before entry `b` when sorting stably by path: smaller
/// components, or the same components and an earlier position.
pub open spec fn path_before(keys: Seq<Seq<Seq<char>>>, a: int, b: int) -> bool {
    (comps_le(keys[a], keys[b]) && keys[a] != keys[b]) || (keys[a] == keys[b] && a < b)
}

/// `order` lists `0..n` once each, sorted stably by the components of
/// each path.
pub open spec fn is_path_order(keys: Seq<Seq<Seq<char>>>, order: Seq<usize>) -> bool {
    &&& order.len() == keys.len()
    &&& forall|i: int| 0 <= i < order.len() ==> (#[trigger] order[i]) < keys.len()
    &&& forall|i: int, j: int| 0 <= i < j < order.len() ==> path_before(keys, #[trigger] order[i] as int, #[trigger] order[j] as int)
}

proof fn lemma_path_before_trans(keys: Seq<Seq<Seq<char>>>, a: int, b: int, c: int)
    requires
        path_before(keys, a, b),
        path_before(keys, b, c),
    ensures
        path_before(keys, a, c),
{
    if keys[a] != keys[b] && keys[b] != keys[c] {
        lemma_comps_trans(keys[a], keys[b], keys[c]);
        if keys[a] == keys[c] {
            lemma_comps_antisym(keys[a], keys[b]);
        }
    }
}

/// The component lists of paths.
pub open spec fn path_keys(rels: Seq<String>) -> Seq<Seq<Seq<char>>> {
    rels.map_values(|s: String| comps(s@))
}

/// The positions `0..n` of paths sorted stably by `Path`'s order of their
/// components (the order `Path::cmp` gives relative paths).
pub fn path_order(rels: &Vec<String>) -> (r: Vec<usize>)
    ensures
        is_path_order(path_keys(rels@), r@),
{
    let ghost ks = path_keys(rels@);
    let mut keys: Vec<Vec<Vec<char>>> = Vec::new();
    let mut k: usize = 0;
    while k < rels.len()
        invariant
            k <= rels.len(),
            ks == path_keys(rels@),
            keys@.len() == k,
            forall|j: int| 0 <= j < k ==> #[trigger] views(keys@[j]@) == ks[j],
        decreases rels.len() - k,
    {
        let c = crate::url::components(&chars_of(rels[k].as_str()));
        keys.push(c);
        k = k + 1;
    }
    let mut order: Vec<usize> = Vec::new();
    let mut i: usize = 0;
    while i < rels.len()
        invariant
            i <= rels.len(),
            keys@.len() == rels.len(),
            ks.len() == rels.len(),
            forall|j: int| 0 <= j < rels.len() ==> #[trigger] views(keys@[j]@) == ks[j],
            order@.len() == i,
            forall|a: int| 0 <= a < order@.len() ==> (#[trigger] order@[a]) < i,
            forall|a: int, b: int| 0 <= a < b < order@.len() ==> path_before(ks, #[trigger] order@[a] as int, #[trigger] order@[b] as int),
        decreases rels.len() - i,
    {
        let mut p: usize = 0;
        while p < order.len()
            invariant
                p <= order.len(),
                i < rels.len(),
                keys@.len() == rels.len(),
                ks.len() == rels.len(),
                forall|j: int| 0 <= j < rels.len() ==> #[trigger] views(keys@[j]@) == ks[j],
                forall|a: int| 0 <= a < order@.len() ==> (#[trigger] order@[a]) < i,
                forall|a: int| 0 <= a < p ==> path_before(ks, #[trigger] order@[a] as int, i as int),
            ensures
                p <= order.len(),
                forall|a: int| 0 <= a < p ==> path_before(ks, #[trigger] order@[a] as int, i as int),
                p < order.len() ==> !comps_le(ks[order@[p as int] as int], ks[i as int]),
            decreases order.len() - p,
        {
            let op = order[p];
            assert(views(keys@[op as int]@) == ks[op as int]);
            assert(views(keys@[i as int]@) == ks[i as int]);
            if !comps_le_exec(&keys[op], &keys[i]) {
                break;
            }
            p = p + 1;
        }
        proof {
            if p < order@.len() {
                let op = order@[p as int] as int;
                lemma_comps_total(ks[op], ks[i as int]);
                assert(path_before(ks, i as int, op));
                assert forall|b: int| p <= b < order@.len() implies path_before(ks, i as int, #[trigger] order@[b] as int) by {
                    if b > p {
                        lemma_path_before_trans(ks, i as int, op, order@[b] as int);
                    }
                }
            }
        }
        let ghost old_order = order@;
        order.insert(p, i);
        assert forall|a: int, b: int| 0 <= a < b < order@.len() implies path_before(ks, #[trigger] order@[a] as int, #[trigger] order@[b] as int) by {
            if a < p as int && b < p as int {
                assert(order@[a] == old_order[a] && order@[b] == old_order[b]);
            } else if a < p as int && b == p as int {
                assert(order@[a] == old_order[a]);
            } else if a < p as int {
                assert(order@[a] == old_order[a] && order@[b] == old_order[b - 1]);
                lemma_path_before_trans(ks, order@[a] as int, i as int, order@[b] as int);
            } else if a == p as int {
                assert(order@[b] == old_order[b - 1]);
            } else {
                assert(order@[a] == old_order[a - 1] && order@[b] == old_order[b - 1]);
            }
        }
        assert forall|a: int| 0 <= a < order@.len() implies (#[trigger] order@[a]) < i + 1 by {
            if a < p as int {
                assert(order@[a] == old_order[a]);
            } else if a > p as int {
                assert(order@[a] == old_order[a - 1]);
            }
        }
        i = i + 1;
    }
    order
}


/// `<` in `str` order is transitive.
pub proof fn lemma_lex_lt_trans(a: Seq<char>, b: Seq<char>, c: Seq<char>)
    requires
        lex_le(a, b),
        lex_le(b, c),
        lex_lt(a, b) || lex_lt(b, c),
    ensures
        lex_lt(a, c),
{
    lemma_lex_trans(a, b, c);
    if a == c {
        lemma_lex_antisym(a, b);
    }
}

} // verus!
