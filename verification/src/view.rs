//! The HTTP surface's read models, built over the store's query layer.
//!
//! The adapters render these; the construction logic — the joins, the hex
//! encoding of identifiers, the sorted key list — is verified here.

use vstd::multiset::Multiset;
use vstd::prelude::*;
use vstd::slice::slice_subrange;

use crate::bytes::bytes_of;
use crate::hexcode::hex_bytes_of;
use crate::hexcode::hex_encode;
use crate::records::pairs_view;
use crate::store::Db;
use crate::store::NamespaceDetails;
use crate::store::spec_top_level_names;

verus! {

/// Lexicographic order on byte strings, shorter prefixes first.
pub open spec fn lex_le(a: Seq<u8>, b: Seq<u8>) -> bool
    decreases a.len(),
{
    if a.len() == 0 {
        true
    } else if b.len() == 0 {
        false
    } else if a.first() < b.first() {
        true
    } else if a.first() > b.first() {
        false
    } else {
        lex_le(a.drop_first(), b.drop_first())
    }
}

/// Any two byte strings are ordered one way or the other.
pub proof fn lemma_lex_total(a: Seq<u8>, b: Seq<u8>)
    ensures
        lex_le(a, b) || lex_le(b, a),
    decreases a.len(),
{
    if a.len() > 0 && b.len() > 0 && a.first() == b.first() {
        lemma_lex_total(a.drop_first(), b.drop_first());
    }
}

/// The order is reflexive.
pub proof fn lemma_lex_refl(a: Seq<u8>)
    ensures
        lex_le(a, a),
{
    lemma_lex_total(a, a);
}

/// The order is transitive.
pub proof fn lemma_lex_trans(a: Seq<u8>, b: Seq<u8>, c: Seq<u8>)
    requires
        lex_le(a, b),
        lex_le(b, c),
    ensures
        lex_le(a, c),
    decreases a.len(),
{
    if a.len() > 0 && b.len() > 0 && c.len() > 0 && a.first() == b.first() && b.first()
        == c.first() {
        lemma_lex_trans(a.drop_first(), b.drop_first(), c.drop_first());
    }
}

/// Compares two byte strings in the order [`lex_le`] describes.
pub fn lex_le_bytes(a: &[u8], b: &[u8]) -> (r: bool)
    ensures
        r == lex_le(a@, b@),
    decreases a@.len(),
{
    if a.len() == 0 {
        true
    } else if b.len() == 0 {
        false
    } else if a[0] < b[0] {
        true
    } else if a[0] > b[0] {
        false
    } else {
        let r = lex_le_bytes(slice_subrange(a, 1, a.len()), slice_subrange(b, 1, b.len()));
        proof {
            assert(a@.subrange(1, a@.len() as int) =~= a@.drop_first());
            assert(b@.subrange(1, b@.len() as int) =~= b@.drop_first());
        }
        r
    }
}

/// The views of a list of byte vectors.
pub open spec fn keys_view(v: Seq<Vec<u8>>) -> Seq<Seq<u8>> {
    v.map_values(|k: Vec<u8>| k@)
}

/// Whether a list of byte strings is sorted under [`lex_le`].
pub open spec fn sorted_keys(s: Seq<Seq<u8>>) -> bool {
    forall|i: int, j: int| 0 <= i < j < s.len() ==> lex_le(#[trigger] s[i], #[trigger] s[j])
}

/// Sorts byte strings into [`lex_le`] order; the result holds exactly the
/// input strings, as a multiset.
pub fn sort_keys(keys: Vec<Vec<u8>>) -> (r: Vec<Vec<u8>>)
    ensures
        sorted_keys(keys_view(r@)),
        keys_view(r@).to_multiset() == keys_view(keys@).to_multiset(),
{
    let ghost orig = keys_view(keys@);
    let mut rest = keys;
    let mut out: Vec<Vec<u8>> = Vec::new();
    proof {
        broadcast use vstd::multiset::group_multiset_axioms;

        assert(keys_view(out@) =~= Seq::<Seq<u8>>::empty());
        keys_view(out@).to_multiset_ensures();
        assert(keys_view(out@).to_multiset().len() == 0);
        assert(keys_view(out@).to_multiset() =~= Multiset::<Seq<u8>>::empty());
        assert(keys_view(rest@) == orig);
        assert(keys_view(out@).to_multiset().add(keys_view(rest@).to_multiset())
            =~= orig.to_multiset());
    }
    while rest.len() > 0
        invariant
            keys_view(out@).to_multiset().add(keys_view(rest@).to_multiset())
                == orig.to_multiset(),
            sorted_keys(keys_view(out@)),
            forall|i: int, j: int|
                0 <= i < keys_view(out@).len() && 0 <= j < keys_view(rest@).len() ==> lex_le(
                    #[trigger] keys_view(out@)[i],
                    #[trigger] keys_view(rest@)[j],
                ),
        decreases rest@.len(),
    {
        let n = rest.len();
        let mut m: usize = 0;
        let mut i: usize = 1;
        proof {
            lemma_lex_refl(keys_view(rest@)[0]);
        }
        while i < n
            invariant
                n == rest@.len(),
                m < i <= n,
                forall|j: int|
                    0 <= j < i ==> lex_le(keys_view(rest@)[m as int], #[trigger] keys_view(rest@)[j]),
            decreases n - i,
        {
            if !lex_le_bytes(rest[m].as_slice(), rest[i].as_slice()) {
                proof {
                    assert(keys_view(rest@)[m as int] == rest@[m as int]@);
                    assert(keys_view(rest@)[i as int] == rest@[i as int]@);
                    lemma_lex_total(rest@[m as int]@, rest@[i as int]@);
                    assert forall|j: int| 0 <= j < i + 1 implies lex_le(
                        keys_view(rest@)[i as int],
                        #[trigger] keys_view(rest@)[j],
                    ) by {
                        if j < i {
                            lemma_lex_trans(
                                rest@[i as int]@,
                                rest@[m as int]@,
                                keys_view(rest@)[j],
                            );
                        } else {
                            lemma_lex_refl(keys_view(rest@)[j]);
                        }
                    }
                }
                m = i;
            } else {
                proof {
                    assert(keys_view(rest@)[m as int] == rest@[m as int]@);
                    assert(keys_view(rest@)[i as int] == rest@[i as int]@);
                    assert forall|j: int| 0 <= j < i + 1 implies lex_le(
                        keys_view(rest@)[m as int],
                        #[trigger] keys_view(rest@)[j],
                    ) by {}
                }
            }
            i = i + 1;
        }
        let ghost rest0 = keys_view(rest@);
        let ghost out0 = keys_view(out@);
        let x = rest.remove(m);
        out.push(x);
        proof {
            broadcast use vstd::multiset::group_multiset_axioms;

            let x = rest0[m as int];
            assert(keys_view(rest@) =~= rest0.remove(m as int));
            assert(keys_view(out@) =~= out0.push(x));
            vstd::seq_lib::to_multiset_build(out0, x);
            assert(keys_view(out@).to_multiset() == out0.push(x).to_multiset());
            vstd::seq_lib::to_multiset_remove(rest0, m as int);
            assert(keys_view(rest@).to_multiset() == rest0.remove(m as int).to_multiset());
            assert(rest0.contains(x));
            rest0.to_multiset_ensures();
            assert(rest0.to_multiset().count(x) > 0);
            assert(keys_view(out@).to_multiset().add(keys_view(rest@).to_multiset())
                =~= orig.to_multiset());
            assert forall|i2: int, j2: int| 0 <= i2 < j2 < keys_view(out@).len() implies lex_le(
                #[trigger] keys_view(out@)[i2],
                #[trigger] keys_view(out@)[j2],
            ) by {
                if j2 < out0.len() {
                    assert(lex_le(out0[i2], out0[j2]));
                } else {
                    assert(keys_view(out@)[j2] == rest0[m as int]);
                }
            }
            assert forall|i2: int, j2: int|
                0 <= i2 < keys_view(out@).len() && 0 <= j2 < keys_view(rest@).len() implies lex_le(
                #[trigger] keys_view(out@)[i2],
                #[trigger] keys_view(rest@)[j2],
            ) by {
                let old_j = if j2 < m as int {
                    j2
                } else {
                    j2 + 1
                };
                assert(keys_view(rest@)[j2] == rest0[old_j]);
                if i2 < out0.len() {
                    assert(lex_le(out0[i2], rest0[old_j]));
                } else {
                    assert(keys_view(out@)[i2] == rest0[m as int]);
                    assert(lex_le(rest0[m as int], rest0[old_j]));
                }
            }
        }
    }
    proof {
        broadcast use vstd::multiset::group_multiset_axioms;

        assert(keys_view(rest@) =~= Seq::<Seq<u8>>::empty());
        keys_view(rest@).to_multiset_ensures();
        assert(keys_view(rest@).to_multiset().len() == 0);
        assert(keys_view(rest@).to_multiset() =~= Multiset::<Seq<u8>>::empty());
        assert(keys_view(out@).to_multiset() =~= orig.to_multiset());
    }
    out
}

/// The query of the explorer page: an optional identifier, hex-encoded.
pub struct ExplorerQuery {
    pub nsid: Option<String>,
}

/// The query of the name lookup endpoint.
pub struct NameQuery {
    pub name: String,
}

/// The explorer page's model: every confirmed root, its name beside its
/// hex-encoded identifier.
pub struct ExplorerTemplate {
    pub names: Vec<(Vec<u8>, Vec<u8>)>,
}

impl ExplorerTemplate {
    /// Lists the confirmed roots for display, identifiers hex-encoded.
    pub fn build(db: &Db) -> (t: ExplorerTemplate)
        requires
            db.wf(),
        ensures
            ({
                let roots = spec_top_level_names(db@);
                &&& t.names@.len() == roots.len()
                &&& forall|i: int|
                    0 <= i < roots.len() ==> (#[trigger] pairs_view(t.names@)[i]).0 == roots[i].0
                        && pairs_view(t.names@)[i].1 == hex_bytes_of(roots[i].1)
            }),
    {
        let ghost roots = spec_top_level_names(db@);
        let raw = db.top_level_names();
        let n = raw.len();
        let mut names: Vec<(Vec<u8>, Vec<u8>)> = Vec::new();
        let mut i: usize = 0;
        while i < n
            invariant
                n == raw@.len(),
                i <= n,
                pairs_view(raw@) == roots,
                names@.len() == i,
                forall|k: int|
                    0 <= k < i ==> (#[trigger] pairs_view(names@)[k]).0 == roots[k].0 && pairs_view(
                        names@,
                    )[k].1 == hex_bytes_of(roots[k].1),
            decreases n - i,
        {
            let ghost names0 = names@;
            let name = bytes_of(raw[i].0.as_slice());
            let hexid = hex_encode(raw[i].1.as_slice());
            proof {
                assert(pairs_view(raw@)[i as int].0 == raw@[i as int].0@);
            }
            names.push((name, hexid));
            proof {
                assert(pairs_view(names@) =~= pairs_view(names0).push(
                    (names@.last().0@, names@.last().1@),
                ));
            }
            i = i + 1;
        }
        ExplorerTemplate { names }
    }
}

/// The identifier page's model: the resolved name, its records with the
/// keys listed in sorted order, the reserved children list, and the
/// hex-encoded on-chain coordinates. Missing pieces render empty.
pub struct NsidTemplate {
    pub name: Vec<u8>,
    pub record_keys: Vec<Vec<u8>>,
    pub records: Vec<(Vec<u8>, Vec<u8>)>,
    pub children: Vec<(Vec<u8>, Vec<u8>)>,
    pub blockhash: Vec<u8>,
    pub txid: Vec<u8>,
    pub vout: u64,
    pub height: u64,
}

impl NsidTemplate {
    /// Renders a details row: the key list holds exactly the record keys,
    /// sorted; absent name or coordinates come out empty and zero.
    pub fn from_details(d: NamespaceDetails) -> (t: NsidTemplate)
        ensures
            ({
                &&& match d.name {
                    Some(nm) => t.name@ == nm@,
                    None => t.name@.len() == 0,
                }
                &&& pairs_view(t.records@) == pairs_view(d.records@)
                &&& sorted_keys(keys_view(t.record_keys@))
                &&& keys_view(t.record_keys@).to_multiset() == pairs_view(
                    d.records@,
                ).map_values(|p: (Seq<u8>, Seq<u8>)| p.0).to_multiset()
                &&& pairs_view(t.children@) == pairs_view(d.children@)
                &&& match d.blockdata {
                    Some(bd) => t.blockhash@ == hex_bytes_of(bd.0@) && t.txid@ == hex_bytes_of(
                        bd.1@,
                    ) && t.vout == bd.2 && t.height == bd.3,
                    None => t.blockhash@.len() == 0 && t.txid@.len() == 0 && t.vout == 0
                        && t.height == 0,
                }
            }),
    {
        let name = match d.name {
            Some(nm) => nm,
            None => Vec::new(),
        };
        let nrec = d.records.len();
        let mut keys: Vec<Vec<u8>> = Vec::new();
        let mut i: usize = 0;
        while i < nrec
            invariant
                nrec == d.records@.len(),
                i <= nrec,
                keys@.len() == i,
                forall|k: int| 0 <= k < i ==> (#[trigger] keys@[k])@ == d.records@[k].0@,
            decreases nrec - i,
        {
            keys.push(bytes_of(d.records[i].0.as_slice()));
            i = i + 1;
        }
        proof {
            assert(keys_view(keys@) =~= pairs_view(d.records@).map_values(
                |p: (Seq<u8>, Seq<u8>)| p.0,
            ));
        }
        let record_keys = sort_keys(keys);
        let (blockhash, txid, vout, height) = match d.blockdata {
            Some(bd) => {
                let h0 = hex_encode(bd.0.as_slice());
                let h1 = hex_encode(bd.1.as_slice());
                (h0, h1, bd.2, bd.3)
            },
            None => (Vec::new(), Vec::new(), 0u64, 0u64),
        };
        NsidTemplate {
            name,
            record_keys,
            records: d.records,
            children: d.children,
            blockhash,
            txid,
            vout,
            height,
        }
    }
}

} // verus!
