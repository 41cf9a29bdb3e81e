//! Laws of loose-reference iteration, proved once and for all listings:
//! invalid names never surface, sorted listings make the yield
//! deterministic and ordered, and prefix-restricted iteration agrees
//! with filtering the full iteration by name prefix.

use vstd::prelude::*;
use vstd::relations::sorted_by;
use vstd::seq_lib::lemma_sorted_unique;

use crate::bytes::{
    is_under, join_spec, lemma_lex_le_skip, lex_le, rel_to, SLASH,
};
use crate::iter::{
    entry_order, keeps, lemma_pair_le_paths, lemma_pair_le_total_ordering, lemma_walk_yield_items,
    walk_yield, yield_item,
};
use crate::validate::{name_has_prefix, valid_prefix, valid_name};

verus! {

/// A loose file whose relative path is not a legal reference name never
/// appears in any iteration result, whatever the listing holds.
pub proof fn lemma_invalid_path_never_yielded(
    base: Seq<u8>,
    s: Seq<(Seq<u8>, bool)>,
    wn: bool,
    p: Seq<u8>,
)
    requires
        is_under(base, p),
        !valid_name(rel_to(base, p)),
    ensures
        forall|k: int|
            0 <= k < walk_yield(base, s, wn).len() ==> #[trigger] walk_yield(base, s, wn)[k].0
                != p,
{
    assert forall|k: int|
        0 <= k < walk_yield(base, s, wn).len() implies #[trigger] walk_yield(base, s, wn)[k].0
        != p by {
        lemma_walk_yield_items(base, s, wn, k);
    }
}

/// Iteration is deterministic: two listings holding the same entries, in
/// whatever order each was enumerated, sort to the same sequence and so
/// yield the identical iteration result.
pub proof fn lemma_iteration_deterministic(
    base: Seq<u8>,
    e1: Seq<(Seq<u8>, bool)>,
    e2: Seq<(Seq<u8>, bool)>,
    wn: bool,
)
    requires
        e1.to_multiset() == e2.to_multiset(),
        sorted_by(e1, entry_order()),
        sorted_by(e2, entry_order()),
    ensures
        e1 == e2,
        walk_yield(base, e1, wn) == walk_yield(base, e2, wn),
{
    lemma_pair_le_total_ordering();
    lemma_sorted_unique(e1, e2, entry_order());
}

/// Paths that share a directory prefix compare as their remainders do.
pub proof fn lemma_rel_order(base: Seq<u8>, p1: Seq<u8>, p2: Seq<u8>)
    requires
        is_under(base, p1),
        is_under(base, p2),
        lex_le(p1, p2),
    ensures
        lex_le(rel_to(base, p1), rel_to(base, p2)),
{
    assert(forall|i: int| 0 <= i < base.len() + 1 ==> p1[i] == p2[i]);
    lemma_lex_le_skip(p1, p2, base.len() + 1 as int);
}

/// A sorted listing yields paths, and so names, in ascending order.
pub proof fn lemma_yield_sorted(base: Seq<u8>, s: Seq<(Seq<u8>, bool)>, wn: bool)
    requires
        sorted_by(s, entry_order()),
    ensures
        forall|i: int, j: int|
            0 <= i < j < walk_yield(base, s, wn).len() ==> lex_le(
                #[trigger] walk_yield(base, s, wn)[i].0,
                #[trigger] walk_yield(base, s, wn)[j].0,
            ) && lex_le(
                rel_to(base, walk_yield(base, s, wn)[i].0),
                rel_to(base, walk_yield(base, s, wn)[j].0),
            ),
    decreases s.len(),
{
    if s.len() > 0 {
        let a = s.drop_last();
        let out = walk_yield(base, s, wn);
        let out_a = walk_yield(base, a, wn);
        assert(sorted_by(a, entry_order())) by {
            assert forall|i: int, j: int| 0 <= i < j < a.len() implies #[trigger] entry_order()(
                a[i],
                a[j],
            ) by {
                assert(a[i] == s[i] && a[j] == s[j]);
                assert(entry_order()(s[i], s[j]));
            }
        }
        lemma_yield_sorted(base, a, wn);
        assert forall|i: int, j: int| 0 <= i < j < out.len() implies lex_le(
            #[trigger] out[i].0,
            #[trigger] out[j].0,
        ) && lex_le(rel_to(base, out[i].0), rel_to(base, out[j].0)) by {
            if j < out_a.len() {
                assert(out[i] == out_a[i] && out[j] == out_a[j]);
            } else {
                // The final position is the yield of the last entry.
                assert(keeps(base, s.last()));
                assert(out[j] == yield_item(base, s.last(), wn));
                assert(out[i] == out_a[i]);
                lemma_walk_yield_items(base, a, wn, i);
                let k = choose|k: int|
                    0 <= k < a.len() && keeps(base, #[trigger] a[k]) && out_a[i] == yield_item(
                        base,
                        a[k],
                        wn,
                    );
                assert(a[k] == s[k]);
                assert(entry_order()(s[k], s[s.len() - 1]));
                lemma_pair_le_paths(s[k], s.last());
                lemma_rel_order(base, out[i].0, out[j].0);
            }
        }
    }
}

/// A sorted listing naming each path at most once yields paths, and so
/// names, in strictly ascending order: no duplicates can surface. A
/// real listing names each path once, so iteration order is strict.
pub proof fn lemma_yield_strictly_sorted(base: Seq<u8>, s: Seq<(Seq<u8>, bool)>, wn: bool)
    requires
        sorted_by(s, entry_order()),
        forall|i: int, j: int| 0 <= i < j < s.len() ==> (#[trigger] s[i]).0 != (#[trigger] s[j]).0,
    ensures
        forall|i: int, j: int|
            0 <= i < j < walk_yield(base, s, wn).len() ==> lex_le(
                #[trigger] walk_yield(base, s, wn)[i].0,
                #[trigger] walk_yield(base, s, wn)[j].0,
            ) && walk_yield(base, s, wn)[i].0 != walk_yield(base, s, wn)[j].0 && rel_to(
                base,
                walk_yield(base, s, wn)[i].0,
            ) != rel_to(base, walk_yield(base, s, wn)[j].0),
    decreases s.len(),
{
    lemma_yield_sorted(base, s, wn);
    if s.len() > 0 {
        let a = s.drop_last();
        let out = walk_yield(base, s, wn);
        let out_a = walk_yield(base, a, wn);
        assert(sorted_by(a, entry_order())) by {
            assert forall|i: int, j: int| 0 <= i < j < a.len() implies #[trigger] entry_order()(
                a[i],
                a[j],
            ) by {
                assert(a[i] == s[i] && a[j] == s[j]);
                assert(entry_order()(s[i], s[j]));
            }
        }
        assert(forall|i: int, j: int|
            0 <= i < j < a.len() ==> (#[trigger] a[i]).0 != (#[trigger] a[j]).0);
        lemma_yield_strictly_sorted(base, a, wn);
        assert forall|i: int, j: int| 0 <= i < j < out.len() implies lex_le(
            #[trigger] out[i].0,
            #[trigger] out[j].0,
        ) && out[i].0 != out[j].0 && rel_to(base, out[i].0) != rel_to(base, out[j].0) by {
            if j < out_a.len() {
                assert(out[i] == out_a[i] && out[j] == out_a[j]);
            } else {
                // The last item is the yield of the final entry, whose
                // path no earlier entry shares.
                assert(keeps(base, s.last()));
                assert(out[j] == yield_item(base, s.last(), wn));
                assert(out[i] == out_a[i]);
                lemma_walk_yield_items(base, a, wn, i);
                let k = choose|k: int|
                    0 <= k < a.len() && keeps(base, #[trigger] a[k]) && out_a[i] == yield_item(
                        base,
                        a[k],
                        wn,
                    );
                assert(a[k] == s[k]);
                assert(s[k].0 != s[s.len() - 1].0);
                assert(out[i].0 != out[j].0);
                // Distinct paths below one base have distinct remainders.
                assert(rel_to(base, out[i].0) != rel_to(base, out[j].0)) by {
                    lemma_walk_yield_items(base, s, wn, i);
                    lemma_walk_yield_items(base, s, wn, j);
                    let p1 = out[i].0;
                    let p2 = out[j].0;
                    if rel_to(base, p1) == rel_to(base, p2) {
                        assert(p1.len() == p2.len());
                        assert forall|m: int| 0 <= m < p1.len() implies #[trigger] p1[m]
                            == p2[m] by {
                            if m < base.len() {
                                assert(p1[m] == base[m] && p2[m] == base[m]);
                            } else if m == base.len() {
                                assert(p1[m] == SLASH && p2[m] == SLASH);
                            } else {
                                assert(p1[m] == rel_to(base, p1)[m - (base.len() + 1)]);
                                assert(p2[m] == rel_to(base, p2)[m - (base.len() + 1)]);
                            }
                        }
                        assert(p1 =~= p2);
                    }
                }
            }
        }
    }
}

/// Whether a listing entry lies below `root`, or is the file at `root`.
pub open spec fn under_pred(root: Seq<u8>) -> spec_fn((Seq<u8>, bool)) -> bool {
    |e: (Seq<u8>, bool)| is_under(root, e.0) || e.0 == root
}

/// Whether a yielded item's name has `p` as a component-wise prefix.
pub open spec fn prefix_pred(base: Seq<u8>, p: Seq<u8>) -> spec_fn(
    (Seq<u8>, Option<Seq<u8>>),
) -> bool {
    |it: (Seq<u8>, Option<Seq<u8>>)| name_has_prefix(rel_to(base, it.0), p)
}

/// For an entry below `base`, lying below `base/p` is the same as its
/// name having `p` as a component-wise prefix.
pub proof fn lemma_prefix_entry_equiv(base: Seq<u8>, p: Seq<u8>, e: (Seq<u8>, bool))
    requires
        is_under(base, e.0),
        valid_name(rel_to(base, e.0)),
    ensures
        under_pred(join_spec(base, p))(e) == name_has_prefix(rel_to(base, e.0), p),
{
    if p.len() == 0 {
        // An empty prefix selects everything below the base.
        assert(under_pred(base)(e));
        assert(name_has_prefix(rel_to(base, e.0), p));
        return;
    }
    let root = join_spec(base, p);
    let rel = rel_to(base, e.0);
    assert(root =~= base + seq![SLASH] + p);
    assert(root.len() == base.len() + 1 + p.len());
    assert(rel.len() == e.0.len() - base.len() - 1);
    if e.0 == root {
        assert(rel =~= p);
    }
    if is_under(root, e.0) {
        assert(forall|i: int| 0 <= i < p.len() ==> rel[i] == e.0[base.len() + 1 + i]);
        assert(forall|i: int| 0 <= i < p.len() ==> root[base.len() + 1 + i] == p[i]);
        assert(forall|i: int| 0 <= i < p.len() ==> rel[i] == p[i]);
        assert(rel[p.len() as int] == e.0[root.len() as int]);
        assert(name_has_prefix(rel, p));
    }
    if name_has_prefix(rel, p) {
        if rel.len() == p.len() {
            assert(e.0 =~= root);
        } else {
            assert(rel[p.len() as int] == SLASH);
            assert(rel[rel.len() - 1] != SLASH);
            assert(rel.len() > p.len() + 1);
            assert(e.0.len() > root.len() + 1);
            assert(forall|i: int|
                0 <= i < root.len() ==> #[trigger] e.0[i] == (base + seq![SLASH] + p)[i]);
            assert(e.0[root.len() as int] == rel[p.len() as int]);
            assert(is_under(root, e.0));
        }
    }
}

/// Prefix-restricted iteration equals full iteration filtered to the
/// names below the prefix: walking only the listing entries below
/// `base/p` yields exactly the items of the full walk whose names have
/// `p` as a component-wise prefix, in the same order.
pub proof fn lemma_prefix_iteration(base: Seq<u8>, s: Seq<(Seq<u8>, bool)>, p: Seq<u8>, wn: bool)
    requires
        valid_prefix(p),
    ensures
        walk_yield(base, s.filter(under_pred(join_spec(base, p))), wn) == walk_yield(
            base,
            s,
            wn,
        ).filter(prefix_pred(base, p)),
    decreases s.len(),
{
    reveal_with_fuel(Seq::filter, 3);
    let pu = under_pred(join_spec(base, p));
    let pn = prefix_pred(base, p);
    if s.len() == 0 {
        assert(s.filter(pu) =~= Seq::<(Seq<u8>, bool)>::empty());
        assert(walk_yield(base, s, wn) =~= Seq::<(Seq<u8>, Option<Seq<u8>>)>::empty());
    } else {
        let a = s.drop_last();
        let e = s.last();
        lemma_prefix_iteration(base, a, p, wn);
        assert(s.filter(pu) == if pu(e) {
            a.filter(pu).push(e)
        } else {
            a.filter(pu)
        });
        if keeps(base, e) {
            lemma_prefix_entry_equiv(base, p, e);
        }
        if pu(e) {
            assert(a.filter(pu).push(e).drop_last() =~= a.filter(pu));
            assert(walk_yield(base, a.filter(pu).push(e), wn) == walk_yield(base, a.filter(pu), wn)
                + (if keeps(base, e) {
                seq![yield_item(base, e, wn)]
            } else {
                Seq::<(Seq<u8>, Option<Seq<u8>>)>::empty()
            }));
            if keeps(base, e) {
                assert(pn(yield_item(base, e, wn)));
                assert(walk_yield(base, s, wn) == walk_yield(base, a, wn).push(
                    yield_item(base, e, wn),
                ));
                assert(walk_yield(base, s, wn).drop_last() =~= walk_yield(base, a, wn));
                assert(walk_yield(base, s, wn).filter(pn) == walk_yield(base, a, wn).filter(
                    pn,
                ).push(yield_item(base, e, wn)));
                assert(walk_yield(base, s.filter(pu), wn) =~= walk_yield(base, s, wn).filter(pn));
            } else {
                assert(walk_yield(base, s, wn) == walk_yield(base, a, wn) + Seq::<
                    (Seq<u8>, Option<Seq<u8>>),
                >::empty());
                assert(walk_yield(base, s, wn) =~= walk_yield(base, a, wn));
                assert(walk_yield(base, s.filter(pu), wn) =~= walk_yield(base, s, wn).filter(pn));
            }
        } else {
            assert(walk_yield(base, s.filter(pu), wn) == walk_yield(base, a.filter(pu), wn));
            if keeps(base, e) {
                assert(!pn(yield_item(base, e, wn)));
                assert(walk_yield(base, s, wn) == walk_yield(base, a, wn).push(
                    yield_item(base, e, wn),
                ));
                assert(walk_yield(base, s, wn).drop_last() =~= walk_yield(base, a, wn));
                assert(walk_yield(base, s, wn).filter(pn) == walk_yield(base, a, wn).filter(pn));
            } else {
                assert(walk_yield(base, s, wn) =~= walk_yield(base, a, wn));
            }
        }
    }
}

} // verus!
