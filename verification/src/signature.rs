//! The signature engine: a stable, collision-resistant identity for a label
//! set. Labels whose names are excluded are dropped, the remaining (name,
//! value) pairs are sorted by name in byte-wise lexicographic order, and the
//! UTF-8 bytes of each name and value, pair by pair in that order, form the
//! input of a fresh BLAKE3 hash. The identity is therefore independent of the
//! order in which the label map hands its entries out.

use vstd::prelude::*;
use vstd::multiset::Multiset;
use vstd::relations::sorted_by;
use vstd::seq_lib::lemma_multiset_commutative;
use vstd::seq_lib::lemma_sorted_unique;
use vstd::slice::slice_to_vec;
use vstd::string::StrSliceExecFns;
use vstd::utf8::encode_utf8;

use crate::errors::MetricsError;
use crate::hexstr::{hex_bytes, hex_encode};
use crate::order::{lemma_pair_order_total, pair_order, pair_views, sort_pairs};

verus! {

broadcast use {vstd::seq_lib::group_to_multiset_ensures, vstd::multiset::group_multiset_axioms};

/// A label value as the signature engine sees it: a plain string, or a value
/// of some other shape, which the engine rejects.
#[derive(Debug, Clone)]
pub enum LabelValue {
    Text(String),
    Other,
}

/// The mathematical view of one label: its name, and its value's characters
/// when the value is plain text.
pub open spec fn label_view(p: (String, LabelValue)) -> (Seq<char>, Option<Seq<char>>) {
    (
        p.0@,
        match p.1 {
            LabelValue::Text(s) => Some(s@),
            LabelValue::Other => None,
        },
    )
}

/// The views of a whole label list.
pub open spec fn label_views(labels: Seq<(String, LabelValue)>) -> Seq<
    (Seq<char>, Option<Seq<char>>),
> {
    labels.map_values(|p: (String, LabelValue)| label_view(p))
}

/// The views of an exclusion list.
pub open spec fn name_views(names: Seq<String>) -> Seq<Seq<char>> {
    names.map_values(|s: String| s@)
}

/// A name occurs in the exclusion list.
pub open spec fn excluded_name(name: Seq<char>, exclude: Seq<Seq<char>>) -> bool {
    exists|i: int| 0 <= i < exclude.len() && #[trigger] exclude[i] == name
}

/// The UTF-8 byte pair of one label view; a non-text value contributes no
/// bytes, though such a label set is rejected before anything is hashed.
pub open spec fn label_bytes(v: (Seq<char>, Option<Seq<char>>)) -> (Seq<u8>, Seq<u8>) {
    (
        encode_utf8(v.0),
        match v.1 {
            Some(t) => encode_utf8(t),
            None => Seq::empty(),
        },
    )
}

/// The byte pairs of the labels that survive exclusion, in input order.
pub open spec fn kept_bytes(
    vs: Seq<(Seq<char>, Option<Seq<char>>)>,
    exclude: Seq<Seq<char>>,
) -> Seq<(Seq<u8>, Seq<u8>)>
    decreases vs.len(),
{
    if vs.len() == 0 {
        Seq::empty()
    } else {
        let rest = kept_bytes(vs.drop_last(), exclude);
        if excluded_name(vs.last().0, exclude) {
            rest
        } else {
            rest.push(label_bytes(vs.last()))
        }
    }
}

/// Every label that survives exclusion carries a plain text value.
pub open spec fn all_text_kept(
    vs: Seq<(Seq<char>, Option<Seq<char>>)>,
    exclude: Seq<Seq<char>>,
) -> bool {
    forall|i: int|
        0 <= i < vs.len() && !excluded_name((#[trigger] vs[i]).0, exclude) ==> vs[i].1 is Some
}

/// The concatenated bytes of a pair sequence: name bytes then value bytes,
/// pair by pair.
pub open spec fn encode_pairs(ps: Seq<(Seq<u8>, Seq<u8>)>) -> Seq<u8>
    decreases ps.len(),
{
    if ps.len() == 0 {
        Seq::empty()
    } else {
        encode_pairs(ps.drop_last()) + ps.last().0 + ps.last().1
    }
}

/// The canonical hash input of a label set: the surviving byte pairs in
/// canonical (sorted) order, concatenated.
pub open spec fn signature_input(
    vs: Seq<(Seq<char>, Option<Seq<char>>)>,
    exclude: Seq<Seq<char>>,
) -> Seq<u8> {
    encode_pairs(kept_bytes(vs, exclude).sort_by(pair_order()))
}

/// Exclusion and byte mapping distribute over concatenation of label views.
proof fn lemma_kept_bytes_add(
    a: Seq<(Seq<char>, Option<Seq<char>>)>,
    b: Seq<(Seq<char>, Option<Seq<char>>)>,
    exclude: Seq<Seq<char>>,
)
    ensures
        kept_bytes(a + b, exclude) == kept_bytes(a, exclude) + kept_bytes(b, exclude),
    decreases b.len(),
{
    if b.len() == 0 {
        assert(a + b =~= a);
        assert(kept_bytes(b, exclude) =~= Seq::<(Seq<u8>, Seq<u8>)>::empty());
        assert(kept_bytes(a, exclude) + kept_bytes(b, exclude) =~= kept_bytes(a, exclude));
    } else {
        lemma_kept_bytes_add(a, b.drop_last(), exclude);
        assert((a + b).drop_last() =~= a + b.drop_last());
        assert((a + b).last() == b.last());
        if !excluded_name(b.last().0, exclude) {
            assert(kept_bytes(a, exclude) + kept_bytes(b.drop_last(), exclude).push(
                label_bytes(b.last()),
            ) =~= (kept_bytes(a, exclude) + kept_bytes(b.drop_last(), exclude)).push(
                label_bytes(b.last()),
            ));
        }
    }
}

/// The multiset of surviving byte pairs depends only on the multiset of
/// label views, not on their order.
proof fn lemma_kept_bytes_multiset(
    l1: Seq<(Seq<char>, Option<Seq<char>>)>,
    l2: Seq<(Seq<char>, Option<Seq<char>>)>,
    exclude: Seq<Seq<char>>,
)
    requires
        l1.to_multiset() == l2.to_multiset(),
    ensures
        kept_bytes(l1, exclude).to_multiset() == kept_bytes(l2, exclude).to_multiset(),
    decreases l1.len(),
{
    l1.to_multiset_ensures();
    l2.to_multiset_ensures();
    if l1.len() == 0 {
        assert(l2.len() == 0);
        assert(kept_bytes(l1, exclude) =~= kept_bytes(l2, exclude));
    } else {
        let x = l1.last();
        let l1p = l1.drop_last();
        assert(l1.contains(x));
        assert(l2.to_multiset().count(x) > 0);
        assert(l2.contains(x));
        let i = choose|i: int| 0 <= i < l2.len() && l2[i] == x;
        let l2p = l2.remove(i);
        assert(l1.remove(l1.len() - 1) =~= l1p);
        assert(l1.remove(l1.len() - 1).to_multiset() == l1.to_multiset().remove(x));
        assert(l2p.to_multiset() == l2.to_multiset().remove(x));
        lemma_kept_bytes_multiset(l1p, l2p, exclude);
        let a = l2.take(i);
        let b = l2.skip(i + 1);
        assert(l2 =~= (a + seq![x]) + b);
        assert(l2p =~= a + b);
        lemma_kept_bytes_add(a + seq![x], b, exclude);
        lemma_kept_bytes_add(a, seq![x], exclude);
        lemma_kept_bytes_add(a, b, exclude);
        let ka = kept_bytes(a, exclude);
        let kb = kept_bytes(b, exclude);
        let kx = kept_bytes(seq![x], exclude);
        let ev = Seq::<(Seq<char>, Option<Seq<char>>)>::empty();
        assert(kept_bytes(ev, exclude) == Seq::<(Seq<u8>, Seq<u8>)>::empty());
        assert(seq![x].drop_last() =~= ev);
        assert(seq![x].len() == 1);
        assert(seq![x].last() == x);
        lemma_multiset_commutative(ka + kx, kb);
        lemma_multiset_commutative(ka, kx);
        lemma_multiset_commutative(ka, kb);
        if excluded_name(x.0, exclude) {
            assert(kx =~= Seq::<(Seq<u8>, Seq<u8>)>::empty());
            assert(kept_bytes(l1, exclude) == kept_bytes(l1p, exclude));
            assert(kept_bytes(l2, exclude).to_multiset() =~= kept_bytes(l2p, exclude).to_multiset());
        } else {
            let lb = label_bytes(x);
            assert(kx =~= Seq::<(Seq<u8>, Seq<u8>)>::empty().push(lb));
            assert(kx.to_multiset() =~= Multiset::<(Seq<u8>, Seq<u8>)>::empty().insert(lb));
            assert(kept_bytes(l1, exclude) == kept_bytes(l1p, exclude).push(lb));
            assert(kept_bytes(l1, exclude).to_multiset() == kept_bytes(l1p, exclude).to_multiset().insert(lb));
            assert(kept_bytes(l2p, exclude).to_multiset() == ka.to_multiset().add(kb.to_multiset()));
            assert(kept_bytes(l2, exclude).to_multiset() =~= kept_bytes(l2p, exclude).to_multiset().insert(lb));
        }
    }
}

/// Law: the series signature is independent of label insertion order. Two
/// label lists carrying the same multiset of (name, value) pairs have, for
/// any fixed exclusion set, the same canonical hash input — and therefore
/// the same signature.
pub proof fn lemma_signature_order_independent(
    vs1: Seq<(Seq<char>, Option<Seq<char>>)>,
    vs2: Seq<(Seq<char>, Option<Seq<char>>)>,
    exclude: Seq<Seq<char>>,
)
    requires
        vs1.to_multiset() == vs2.to_multiset(),
    ensures
        signature_input(vs1, exclude) == signature_input(vs2, exclude),
{
    lemma_kept_bytes_multiset(vs1, vs2, exclude);
    lemma_pair_order_total();
    let k1 = kept_bytes(vs1, exclude);
    let k2 = kept_bytes(vs2, exclude);
    k1.lemma_sort_by_ensures(pair_order());
    k2.lemma_sort_by_ensures(pair_order());
    lemma_sorted_unique(k1.sort_by(pair_order()), k2.sort_by(pair_order()), pair_order());
}

/// What `blake3::hash` returns on the given input bytes.
pub uninterp spec fn blake3_of(input: Seq<u8>) -> Seq<u8>;

/// Relies on `blake3::hash`: the 32-byte BLAKE3 digest of the input, a
/// function of the input bytes alone.
#[verifier::external_body]
fn blake3_hash(input: &Vec<u8>) -> (r: [u8; 32])
    ensures
        r@ == blake3_of(input@),
{
    blake3::hash(input.as_slice()).into()
}

/// A fixed-width (32-byte) identity of a label set, derived deterministically
/// from the set's canonical form. Exposed to the rest of the system as a
/// 64-character lowercase hexadecimal string.
#[derive(Debug, Default, Clone, PartialEq, Eq, Hash)]
pub struct Signature([u8; 32]);

impl View for Signature {
    type V = Seq<u8>;

    closed spec fn view(&self) -> Seq<u8> {
        self.0@
    }
}

impl Signature {
    /// The raw digest bytes.
    pub fn bytes(&self) -> (r: Vec<u8>)
        ensures
            r@ == self@,
    {
        slice_to_vec(self.0.as_slice())
    }

    /// The signature as a 64-character lowercase hexadecimal string, its
    /// external storage-key form.
    pub fn to_hex(&self) -> (r: String)
        ensures
            r@.len() == 64,
            encode_utf8(r@) == hex_bytes(self@),
    {
        hex_encode(self.0.as_slice())
    }
}

/// The name occurs in the exclusion list.
fn contains_name(names: &Vec<String>, name: &String) -> (r: bool)
    ensures
        r == excluded_name(name@, name_views(names@)),
{
    let mut i: usize = 0;
    while i < names.len()
        invariant
            i <= names@.len(),
            forall|j: int| 0 <= j < i ==> (#[trigger] names@[j])@ != name@,
        decreases names@.len() - i,
    {
        if names[i].eq(name) {
            proof {
                assert(name_views(names@)[i as int] == names@[i as int]@);
            }
            return true;
        }
        i += 1;
    }
    proof {
        assert(forall|k: int|
            0 <= k < names@.len() ==> #[trigger] name_views(names@)[k] == names@[k]@);
    }
    false
}

/// Append all of `src` to `acc`.
pub(crate) fn extend_bytes(acc: &mut Vec<u8>, src: &Vec<u8>)
    ensures
        final(acc)@ == old(acc)@ + src@,
{
    proof {
        assert(acc@ =~= old(acc)@ + src@.take(0));
    }
    let mut i: usize = 0;
    while i < src.len()
        invariant
            i <= src@.len(),
            acc@ == old(acc)@ + src@.take(i as int),
        decreases src@.len() - i,
    {
        acc.push(src[i]);
        proof {
            assert(acc@ =~= old(acc)@ + src@.take((i + 1) as int));
        }
        i += 1;
    }
    proof {
        assert(src@.take(src@.len() as int) =~= src@);
    }
}

/// Compute the signature of `labels` with the names in `exclude_names`
/// excluded from identity. Fails with `TypeMismatch`, before hashing
/// anything, exactly when some surviving label value is not plain text.
pub fn signature_without_labels(
    labels: &Vec<(String, LabelValue)>,
    exclude_names: &Vec<String>,
) -> (r: Result<Signature, MetricsError>)
    ensures
        r is Ok <==> all_text_kept(label_views(labels@), name_views(exclude_names@)),
        r matches Ok(sig) ==> sig@ == blake3_of(
            signature_input(label_views(labels@), name_views(exclude_names@)),
        ) && sig@.len() == 32,
        r matches Err(e) ==> e is TypeMismatch,
{
    let ghost vs = label_views(labels@);
    let ghost ex = name_views(exclude_names@);
    let mut pairs: Vec<(Vec<u8>, Vec<u8>)> = Vec::new();
    let mut i: usize = 0;
    proof {
        assert(pair_views(pairs@) =~= kept_bytes(vs.take(0), ex));
    }
    while i < labels.len()
        invariant
            i <= labels@.len(),
            vs == label_views(labels@),
            ex == name_views(exclude_names@),
            pair_views(pairs@) == kept_bytes(vs.take(i as int), ex),
            all_text_kept(vs.take(i as int), ex),
        decreases labels@.len() - i,
    {
        let entry = &labels[i];
        proof {
            assert(vs[i as int] == label_view(labels@[i as int]));
            assert(vs.take((i + 1) as int).drop_last() =~= vs.take(i as int));
            assert(vs.take((i + 1) as int).last() == vs[i as int]);
        }
        let excluded = contains_name(exclude_names, &entry.0);
        if !excluded {
            match &entry.1 {
                LabelValue::Text(s) => {
                    let name_bytes = entry.0.as_str().as_bytes_vec();
                    let value_bytes = s.as_str().as_bytes_vec();
                    pairs.push((name_bytes, value_bytes));
                    proof {
                        assert(pair_views(pairs@) =~= kept_bytes(vs.take((i + 1) as int), ex));
                    }
                },
                LabelValue::Other => {
                    proof {
                        assert(vs[i as int].1 is None);
                        assert(!all_text_kept(vs, ex));
                    }
                    return Err(MetricsError::TypeMismatch);
                },
            }
        }
        proof {
            assert(all_text_kept(vs.take((i + 1) as int), ex)) by {
                assert(forall|k: int|
                    0 <= k < i + 1 ==> (#[trigger] vs.take((i + 1) as int)[k]) == vs[k]);
            }
        }
        i += 1;
    }
    proof {
        assert(vs.take(labels@.len() as int) =~= vs);
    }
    let sorted = sort_pairs(pairs);
    let mut input: Vec<u8> = Vec::new();
    let ghost sv = pair_views(sorted@);
    let mut k: usize = 0;
    proof {
        assert(input@ =~= encode_pairs(sv.take(0)));
    }
    while k < sorted.len()
        invariant
            k <= sorted@.len(),
            sv == pair_views(sorted@),
            input@ == encode_pairs(sv.take(k as int)),
        decreases sorted@.len() - k,
    {
        let q = &sorted[k];
        proof {
            assert(sv[k as int] == (q.0@, q.1@));
            assert(sv.take((k + 1) as int).drop_last() =~= sv.take(k as int));
            assert(sv.take((k + 1) as int).last() == sv[k as int]);
        }
        extend_bytes(&mut input, &q.0);
        extend_bytes(&mut input, &q.1);
        proof {
            assert(input@ =~= encode_pairs(sv.take((k + 1) as int)));
        }
        k += 1;
    }
    proof {
        assert(sv.take(sorted@.len() as int) =~= sv);
        lemma_pair_order_total();
        let kb = kept_bytes(vs, ex);
        kb.lemma_sort_by_ensures(pair_order());
        lemma_sorted_unique(sv, kb.sort_by(pair_order()), pair_order());
        assert(input@ == signature_input(vs, ex));
    }
    let digest = blake3_hash(&input);
    Ok(Signature(digest))
}

} // verus!
