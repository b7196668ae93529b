//! Byte-wise lexicographic ordering of label pairs, and a verified insertion
//! sort. Canonical ordering is what makes the series signature independent of
//! the label map's iteration order.

use vstd::prelude::*;
use vstd::relations::{sorted_by, total_ordering};
use vstd::seq_lib::lemma_multiset_commutative;

verus! {

/// Byte-wise lexicographic "less or equal" on byte strings: a proper prefix
/// comes first, otherwise the first differing byte decides.
pub open spec fn lex_leq(a: Seq<u8>, b: Seq<u8>) -> bool
    decreases a.len(),
{
    if a.len() == 0 {
        true
    } else if b.len() == 0 {
        false
    } else if a[0] < b[0] {
        true
    } else if b[0] < a[0] {
        false
    } else {
        lex_leq(a.drop_first(), b.drop_first())
    }
}

/// Ordering of (name, value) byte pairs: by name, ties broken by value, so
/// that the order is total even on pairs with equal names.
pub open spec fn pair_leq(a: (Seq<u8>, Seq<u8>), b: (Seq<u8>, Seq<u8>)) -> bool {
    if a.0 == b.0 {
        lex_leq(a.1, b.1)
    } else {
        lex_leq(a.0, b.0)
    }
}

/// The pair ordering as a first-class relation, for `sort_by`.
pub open spec fn pair_order() -> spec_fn((Seq<u8>, Seq<u8>), (Seq<u8>, Seq<u8>)) -> bool {
    |a: (Seq<u8>, Seq<u8>), b: (Seq<u8>, Seq<u8>)| pair_leq(a, b)
}

pub proof fn lemma_lex_leq_refl(a: Seq<u8>)
    ensures
        lex_leq(a, a),
    decreases a.len(),
{
    if a.len() > 0 {
        lemma_lex_leq_refl(a.drop_first());
    }
}

pub proof fn lemma_lex_leq_antisym(a: Seq<u8>, b: Seq<u8>)
    requires
        lex_leq(a, b),
        lex_leq(b, a),
    ensures
        a == b,
    decreases a.len(),
{
    if a.len() == 0 {
        assert(b.len() == 0);
        assert(a =~= b);
    } else {
        assert(b.len() > 0);
        if a[0] < b[0] {
            assert(!lex_leq(b, a));
        } else if b[0] < a[0] {
            assert(!lex_leq(a, b));
        } else {
            lemma_lex_leq_antisym(a.drop_first(), b.drop_first());
            assert(a =~= b) by {
                assert(a.drop_first().len() == a.len() - 1);
                assert(b.drop_first().len() == b.len() - 1);
                assert forall|i: int| 0 <= i < a.len() implies a[i] == b[i] by {
                    if i > 0 {
                        assert(a[i] == a.drop_first()[i - 1]);
                        assert(b[i] == b.drop_first()[i - 1]);
                    }
                }
            }
        }
    }
}

pub proof fn lemma_lex_leq_trans(a: Seq<u8>, b: Seq<u8>, c: Seq<u8>)
    requires
        lex_leq(a, b),
        lex_leq(b, c),
    ensures
        lex_leq(a, c),
    decreases a.len(),
{
    if a.len() == 0 || b.len() == 0 || c.len() == 0 {
    } else {
        if a[0] == b[0] && b[0] == c[0] {
            lemma_lex_leq_trans(a.drop_first(), b.drop_first(), c.drop_first());
        }
    }
}

pub proof fn lemma_lex_leq_total(a: Seq<u8>, b: Seq<u8>)
    ensures
        lex_leq(a, b) || lex_leq(b, a),
    decreases a.len(),
{
    if a.len() > 0 && b.len() > 0 && a[0] == b[0] {
        lemma_lex_leq_total(a.drop_first(), b.drop_first());
    }
}

/// The pair ordering is a total ordering, as `sort_by` requires.
pub proof fn lemma_pair_order_total()
    ensures
        total_ordering(pair_order()),
{
    let r = pair_order();
    assert forall|x: (Seq<u8>, Seq<u8>)| #[trigger] r(x, x) by {
        lemma_lex_leq_refl(x.1);
    }
    assert forall|x: (Seq<u8>, Seq<u8>), y: (Seq<u8>, Seq<u8>)|
        #[trigger] r(x, y) && #[trigger] r(y, x) implies x == y by {
        if x.0 == y.0 {
            lemma_lex_leq_antisym(x.1, y.1);
        } else {
            lemma_lex_leq_antisym(x.0, y.0);
        }
    }
    assert forall|x: (Seq<u8>, Seq<u8>), y: (Seq<u8>, Seq<u8>), z: (Seq<u8>, Seq<u8>)|
        #[trigger] r(x, y) && #[trigger] r(y, z) implies r(x, z) by {
        if x.0 == y.0 && y.0 == z.0 {
            lemma_lex_leq_trans(x.1, y.1, z.1);
        } else if x.0 == y.0 {
            assert(lex_leq(x.0, z.0));
        } else if y.0 == z.0 {
            assert(lex_leq(x.0, z.0));
        } else {
            lemma_lex_leq_trans(x.0, y.0, z.0);
            if x.0 == z.0 {
                lemma_lex_leq_antisym(x.0, y.0);
            }
        }
    }
    assert forall|x: (Seq<u8>, Seq<u8>), y: (Seq<u8>, Seq<u8>)|
        #[trigger] r(x, y) || #[trigger] r(y, x) by {
        if x.0 == y.0 {
            lemma_lex_leq_total(x.1, y.1);
        } else {
            lemma_lex_leq_total(x.0, y.0);
        }
    }
}

/// Equality of two byte vectors.
fn bytes_eq(a: &Vec<u8>, b: &Vec<u8>) -> (r: bool)
    ensures
        r == (a@ == b@),
{
    if a.len() != b.len() {
        return false;
    }
    let mut i: usize = 0;
    while i < a.len()
        invariant
            a@.len() == b@.len(),
            i <= a@.len(),
            forall|j: int| 0 <= j < i ==> a@[j] == b@[j],
        decreases a@.len() - i,
    {
        if a[i] != b[i] {
            return false;
        }
        i += 1;
    }
    proof {
        assert(a@ =~= b@);
    }
    true
}

fn lex_leq_from(a: &Vec<u8>, b: &Vec<u8>, i: usize) -> (r: bool)
    requires
        i <= a@.len(),
        i <= b@.len(),
    ensures
        r == lex_leq(a@.skip(i as int), b@.skip(i as int)),
    decreases a@.len() - i,
{
    if i == a.len() {
        true
    } else if i == b.len() {
        false
    } else if a[i] < b[i] {
        true
    } else if b[i] < a[i] {
        false
    } else {
        let r = lex_leq_from(a, b, i + 1);
        proof {
            assert(a@.skip(i as int).drop_first() =~= a@.skip(i + 1 as int));
            assert(b@.skip(i as int).drop_first() =~= b@.skip(i + 1 as int));
        }
        r
    }
}

/// Decide the lexicographic order on byte vectors.
fn lex_leq_exec(a: &Vec<u8>, b: &Vec<u8>) -> (r: bool)
    ensures
        r == lex_leq(a@, b@),
{
    let r = lex_leq_from(a, b, 0);
    proof {
        assert(a@.skip(0) =~= a@);
        assert(b@.skip(0) =~= b@);
    }
    r
}

/// The deep view of a sequence of byte-vector pairs.
pub open spec fn pair_views(s: Seq<(Vec<u8>, Vec<u8>)>) -> Seq<(Seq<u8>, Seq<u8>)> {
    s.map_values(|p: (Vec<u8>, Vec<u8>)| (p.0@, p.1@))
}

/// Decide the pair ordering on byte-vector pairs.
fn pair_leq_exec(a: &(Vec<u8>, Vec<u8>), b: &(Vec<u8>, Vec<u8>)) -> (r: bool)
    ensures
        r == pair_leq((a.0@, a.1@), (b.0@, b.1@)),
{
    if bytes_eq(&a.0, &b.0) {
        lex_leq_exec(&a.1, &b.1)
    } else {
        lex_leq_exec(&a.0, &b.0)
    }
}

/// Insert `p` into a vector whose deep view is sorted, keeping it sorted.
fn insert_sorted(out: &mut Vec<(Vec<u8>, Vec<u8>)>, p: (Vec<u8>, Vec<u8>))
    requires
        sorted_by(pair_views(old(out)@), pair_order()),
    ensures
        sorted_by(pair_views(final(out)@), pair_order()),
        pair_views(final(out)@).to_multiset() == pair_views(old(out)@).to_multiset().insert(
            (p.0@, p.1@),
        ),
{
    proof {
        lemma_pair_order_total();
    }
    let ghost vp = (p.0@, p.1@);
    let ghost orig = pair_views(out@);
    let mut j: usize = 0;
    let mut scanning = true;
    while scanning
        invariant
            j <= out@.len(),
            pair_views(out@) == orig,
            vp == (p.0@, p.1@),
            forall|k: int| 0 <= k < j ==> pair_leq(#[trigger] orig[k], vp),
            !scanning ==> j == out@.len() || !pair_leq(orig[j as int], vp),
        decreases out@.len() - j + (if scanning { 1int } else { 0int }),
    {
        if j < out.len() {
            let q = &out[j];
            proof {
                assert(*q == out@[j as int]);
                assert(orig[j as int] == (q.0@, q.1@));
            }
            if pair_leq_exec(q, &p) {
                j += 1;
            } else {
                scanning = false;
            }
        } else {
            scanning = false;
        }
    }
    out.insert(j, p);
    proof {
        let now = pair_views(out@);
        assert(now =~= orig.take(j as int) + seq![vp] + orig.skip(j as int));
        assert(orig =~= orig.take(j as int) + orig.skip(j as int));
        lemma_multiset_commutative(orig.take(j as int) + seq![vp], orig.skip(j as int));
        lemma_multiset_commutative(orig.take(j as int), seq![vp]);
        lemma_multiset_commutative(orig.take(j as int), orig.skip(j as int));
        assert(seq![vp] =~= Seq::<(Seq<u8>, Seq<u8>)>::empty().push(vp));
        Seq::<(Seq<u8>, Seq<u8>)>::empty().to_multiset_ensures();
        vstd::seq_lib::to_multiset_build(Seq::<(Seq<u8>, Seq<u8>)>::empty(), vp);
        assert(now.to_multiset() =~= orig.to_multiset().insert(vp));
        // sortedness: everything before j is below vp, everything at or after
        // j is at or above vp by totality and transitivity of the order
        let r = pair_order();
        let jj = j as int;
        assert forall|x: int, y: int| 0 <= x < y < now.len() implies #[trigger] r(now[x], now[y]) by {
            assert(forall|k: int| 0 <= k < jj ==> now[k] == orig[k]);
            assert(now[jj] == vp);
            assert(forall|k: int| jj < k < now.len() ==> now[k] == orig[k - 1]);
            if y < jj {
                assert(r(orig[x], orig[y]));
            } else if y == jj {
                assert(pair_leq(orig[x], vp));
                assert(r(orig[x], vp));
            } else if x < jj {
                assert(r(orig[x], orig[y - 1]));
            } else if x == jj {
                assert(!r(orig[jj], vp));
                assert(r(orig[jj], vp) || r(vp, orig[jj]));
                if y - 1 > jj {
                    assert(r(orig[jj], orig[y - 1]));
                    assert(r(vp, orig[y - 1]));
                }
            } else {
                assert(r(orig[x - 1], orig[y - 1]));
            }
        }
    }
}

/// Sort byte-vector pairs by the canonical pair ordering. The result is a
/// permutation of the input whose deep view is sorted.
pub(crate) fn sort_pairs(v: Vec<(Vec<u8>, Vec<u8>)>) -> (r: Vec<(Vec<u8>, Vec<u8>)>)
    ensures
        sorted_by(pair_views(r@), pair_order()),
        pair_views(r@).to_multiset() == pair_views(v@).to_multiset(),
{
    let ghost orig = pair_views(v@);
    let mut rest = v;
    let mut out: Vec<(Vec<u8>, Vec<u8>)> = Vec::new();
    proof {
        assert(pair_views(out@) =~= Seq::<(Seq<u8>, Seq<u8>)>::empty());
        pair_views(out@).to_multiset_ensures();
        pair_views(rest@).to_multiset_ensures();
    }
    while rest.len() > 0
        invariant
            sorted_by(pair_views(out@), pair_order()),
            pair_views(out@).to_multiset().add(pair_views(rest@).to_multiset())
                == orig.to_multiset(),
        decreases rest@.len(),
    {
        let ghost pre = pair_views(rest@);
        if let Some(p) = rest.pop() {
            proof {
                assert(pre.drop_last() =~= pair_views(rest@));
                assert(pre =~= pair_views(rest@).push((p.0@, p.1@)));
                vstd::seq_lib::to_multiset_build(pair_views(rest@), (p.0@, p.1@));
            }
            insert_sorted(&mut out, p);
            proof {
                assert(pair_views(out@).to_multiset().add(pair_views(rest@).to_multiset())
                    =~= orig.to_multiset());
            }
        }
    }
    proof {
        assert(pair_views(rest@) =~= Seq::<(Seq<u8>, Seq<u8>)>::empty());
        pair_views(rest@).to_multiset_ensures();
        assert(pair_views(out@).to_multiset() =~= orig.to_multiset());
    }
    out
}

} // verus!
