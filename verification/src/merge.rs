//! The structured merge engine: map nodes merge recursively, every other
//! node is replaced by the overlay wholesale.

use vstd::prelude::*;
use crate::json::{Json, JsonV, EntriesV, has_key, key_index, lookup, jv_seq, jv_entries,
    lemma_jv_entries_len, lemma_jv_entries_index, obj_find,
    lemma_key_index_in_range, lemma_key_index_first, lemma_lookup_push};

verus! {

broadcast use vstd::std_specs::vec::group_vec_axioms;

/// One merge step: entry `(k, v)` of the overlay falls onto entries `es`.
pub open spec fn merge_step(es: EntriesV, k: Seq<char>, v: JsonV) -> EntriesV
    decreases v, 2nat,
{
    if has_key(es, k) {
        es.update(key_index(es, k), (k, merged(es[key_index(es, k)].1, v)))
    } else {
        es.push((k, v))
    }
}

/// Entries of the overlay merged onto `bs`, in order.
pub open spec fn merged_entries(bs: EntriesV, os: EntriesV) -> EntriesV
    decreases os, 1nat,
{
    if os.len() == 0 {
        bs
    } else {
        merge_step(merged_entries(bs, os.drop_last()), os.last().0, os.last().1)
    }
}

/// The deep merge of `overlay` into `base`: objects merge per key, any
/// other pairing is replaced by the overlay value.
pub open spec fn merged(base: JsonV, overlay: JsonV) -> JsonV
    decreases overlay, 0nat,
{
    if base is Obj && overlay is Obj {
        JsonV::Obj(merged_entries(base->Obj_0, overlay->Obj_0))
    } else {
        overlay
    }
}

/// A structural copy of a value (verified, unlike a derived clone).
#[verifier::loop_isolation(false)]
pub fn json_clone(j: &Json) -> (r: Json)
    ensures
        r.jv() == j.jv(),
    decreases j,
{
    match j {
        Json::Null => Json::Null,
        Json::Bool(b) => Json::Bool(*b),
        Json::Num(s) => Json::Num(s.clone()),
        Json::Str(s) => Json::Str(s.clone()),
        Json::Arr(v) => {
            let n = v.len();
            let mut out: Vec<Json> = Vec::new();
            let mut i: usize = 0;
            while i < n
                invariant
                    0 <= i <= n,
                    out@.len() == i,
                    jv_seq(out@) == jv_seq(v@.take(i as int)),
                decreases n - i,
            {
                let ghost out0 = out@;
                let c = json_clone(&v[i]);
                out.push(c);
                proof {
                    assert(out@.drop_last() =~= out0);
                    assert(v@.take(i + 1).drop_last() =~= v@.take(i as int));
                    assert(v@.take(i + 1).last() == v@[i as int]);
                    assert(jv_seq(out@) =~= jv_seq(v@.take(i + 1)));
                }
                i = i + 1;
            }
            proof {
                assert(v@.take(n as int) =~= v@);
            }
            Json::Arr(out)
        },
        Json::Obj(v) => {
            let n = v.len();
            let mut out: Vec<(String, Json)> = Vec::new();
            let mut i: usize = 0;
            while i < n
                invariant
                    0 <= i <= n,
                    out@.len() == i,
                    jv_entries(out@) == jv_entries(v@.take(i as int)),
                decreases n - i,
            {
                let ghost out0 = out@;
                let c = json_clone(&v[i].1);
                let k = v[i].0.clone();
                out.push((k, c));
                proof {
                    assert(out@.drop_last() =~= out0);
                    assert(v@.take(i + 1).drop_last() =~= v@.take(i as int));
                    assert(v@.take(i + 1).last() == v@[i as int]);
                    assert(jv_entries(out@) =~= jv_entries(v@.take(i + 1)));
                }
                i = i + 1;
            }
            proof {
                assert(v@.take(n as int) =~= v@);
            }
            Json::Obj(out)
        },
    }
}

/// Merges `overlay` into `base` and returns the new document; `base` is
/// consumed.  Map-like nodes present in both merge per key (overlay-only
/// keys appended, base-only keys untouched); everywhere else the overlay
/// value replaces the base value, so sequences are never merged element-wise.
#[verifier::loop_isolation(false)]
pub fn deep_merge_json(base: Json, overlay: &Json) -> (r: Json)
    ensures
        r.jv() == merged(base.jv(), overlay.jv()),
    decreases overlay,
{
    match overlay {
        Json::Obj(os) => {
            match base {
                Json::Obj(mut bs) => {
                    let ghost bs0 = jv_entries(bs@);
                    let n = os.len();
                    let mut i: usize = 0;
                    while i < n
                        invariant
                            0 <= i <= n,
                            jv_entries(bs@) == merged_entries(bs0, jv_entries(os@).take(i as int)),
                        decreases n - i,
                    {
                        proof {
                            lemma_jv_entries_len(os@);
                            lemma_jv_entries_index(os@, i as int);
                        }
                        let k = &os[i].0;
                        let v = &os[i].1;
                        let ghost cur = jv_entries(bs@);
                        let ghost bsv0 = bs@;
                        match obj_find(&bs, k) {
                            Option::Some(j) => {
                                let entry = bs.remove(j);
                                let k2 = entry.0;
                                let merged_child = deep_merge_json(entry.1, v);
                                bs.insert(j, (k2, merged_child));
                                proof {
                                    lemma_jv_entries_len(bs@);
                                    lemma_jv_entries_len(bsv0);
                                    assert(bs@ =~= bsv0.update(
                                        j as int,
                                        (bsv0[j as int].0, merged_child),
                                    ));
                                    assert forall|l: int| 0 <= l < bs@.len() implies jv_entries(
                                        bs@,
                                    )[l] == merge_step(cur, k@, v.jv())[l] by {
                                        lemma_jv_entries_index(bs@, l);
                                        lemma_jv_entries_index(bsv0, l);
                                    }
                                    assert(jv_entries(bs@) =~= merge_step(cur, k@, v.jv()));
                                }
                            },
                            Option::None => {
                                let k2 = k.clone();
                                let c = json_clone(v);
                                bs.push((k2, c));
                                proof {
                                    assert(bs@.drop_last() =~= bsv0);
                                    assert(jv_entries(bs@) =~= merge_step(cur, k@, v.jv()));
                                }
                            },
                        }
                        proof {
                            assert(jv_entries(os@).take(i + 1).drop_last() =~= jv_entries(os@).take(
                                i as int,
                            ));
                            assert(jv_entries(os@).take(i + 1).last() == jv_entries(os@)[i as int]);
                            assert(jv_entries(bs@) =~= merged_entries(
                                bs0,
                                jv_entries(os@).take(i + 1),
                            ));
                        }
                        i = i + 1;
                    }
                    proof {
                        lemma_jv_entries_len(os@);
                        assert(jv_entries(os@).take(n as int) =~= jv_entries(os@));
                    }
                    Json::Obj(bs)
                },
                _ => json_clone(overlay),
            }
        },
        _ => json_clone(overlay),
    }
}


/// A verified copy of an object's entry list.
#[verifier::loop_isolation(false)]
pub fn entries_clone(es: &Vec<(String, Json)>) -> (r: Vec<(String, Json)>)
    ensures
        jv_entries(r@) == jv_entries(es@),
{
    let n = es.len();
    let mut out: Vec<(String, Json)> = Vec::new();
    let mut i: usize = 0;
    while i < n
        invariant
            0 <= i <= n,
            out@.len() == i,
            jv_entries(out@) == jv_entries(es@.take(i as int)),
        decreases n - i,
    {
        let ghost out0 = out@;
        let c = json_clone(&es[i].1);
        let k = es[i].0.clone();
        out.push((k, c));
        proof {
            assert(out@.drop_last() =~= out0);
            assert(es@.take(i + 1).drop_last() =~= es@.take(i as int));
            assert(es@.take(i + 1).last() == es@[i as int]);
            assert(jv_entries(out@) =~= jv_entries(es@.take(i + 1)));
        }
        i = i + 1;
    }
    proof {
        assert(es@.take(n as int) =~= es@);
    }
    out
}


/// Replacing an entry's value (keeping its key) never changes what any
/// other key looks up to.
pub proof fn lemma_lookup_update_other(es: EntriesV, i: int, e: (Seq<char>, JsonV), k: Seq<char>)
    requires
        0 <= i < es.len(),
        es[i].0 == e.0,
        e.0 != k,
    ensures
        lookup(es.update(i, e), k) == lookup(es, k),
{
    let es2 = es.update(i, e);
    assert(forall|j: int| 0 <= j < es.len() ==> es2[j].0 == es[j].0);
    if has_key(es, k) {
        lemma_key_index_in_range(es, k);
        let ki = key_index(es, k);
        assert(ki != i);
        assert(es2[ki].0 == k);
        assert(forall|j: int| 0 <= j < ki ==> es2[j].0 != k);
        lemma_key_index_first(es2, k, ki);
        assert(es2[ki].1 == es[ki].1);
    } else {
        assert(forall|j: int| 0 <= j < es2.len() ==> es2[j].0 != k);
    }
}

/// Merging never touches a key the overlay does not carry: a foreign key
/// of the base keeps exactly its old value.
pub proof fn lemma_merge_preserves_foreign(bs: EntriesV, os: EntriesV, k: Seq<char>)
    requires
        !has_key(os, k),
    ensures
        lookup(merged_entries(bs, os), k) == lookup(bs, k),
    decreases os,
{
    if os.len() > 0 {
        assert(forall|i: int| 0 <= i < os.len() ==> #[trigger] os[i].0 != k);
        let rest = os.drop_last();
        assert(forall|i: int| 0 <= i < rest.len() ==> rest[i] == os[i]);
        assert(!has_key(rest, k));
        lemma_merge_preserves_foreign(bs, rest, k);
        let es = merged_entries(bs, rest);
        let k2 = os.last().0;
        let v = os.last().1;
        assert(k2 != k);
        assert(merged_entries(bs, os) == merge_step(es, k2, v));
        if has_key(es, k2) {
            lemma_key_index_in_range(es, k2);
            lemma_lookup_update_other(
                es,
                key_index(es, k2),
                (k2, merged(es[key_index(es, k2)].1, v)),
                k,
            );
            assert(merge_step(es, k2, v) == es.update(
                key_index(es, k2),
                (k2, merged(es[key_index(es, k2)].1, v)),
            ));
        } else {
            lemma_lookup_push(es, (k2, v), k);
            assert(merge_step(es, k2, v) == es.push((k2, v)));
        }
    }
}

} // verus!
