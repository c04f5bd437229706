//! A structured-document model: JSON values with order-preserving objects.
//!
//! Numbers are carried as their literal text, so no value is ever
//! re-interpreted or rounded by this library.

use vstd::prelude::*;

verus! {

broadcast use vstd::std_specs::vec::group_vec_axioms;

/// A JSON document value.  Object entries keep their order; keys are unique
/// in a well-formed document.
pub enum Json {
    Null,
    Bool(bool),
    /// A number, kept as its literal text.
    Num(String),
    Str(String),
    Arr(Vec<Json>),
    Obj(Vec<(String, Json)>),
}

/// The mathematical model of a `Json` value.
pub enum JsonV {
    Null,
    Bool(bool),
    Num(Seq<char>),
    Str(Seq<char>),
    Arr(Seq<JsonV>),
    Obj(Seq<(Seq<char>, JsonV)>),
}

impl Json {
    /// The model of this value.
    pub open spec fn jv(self) -> JsonV
        decreases self,
    {
        match self {
            Json::Null => JsonV::Null,
            Json::Bool(b) => JsonV::Bool(b),
            Json::Num(s) => JsonV::Num(s@),
            Json::Str(s) => JsonV::Str(s@),
            Json::Arr(v) => JsonV::Arr(jv_seq(v@)),
            Json::Obj(v) => JsonV::Obj(jv_entries(v@)),
        }
    }
}

/// Model of a sequence of values.
pub open spec fn jv_seq(s: Seq<Json>) -> Seq<JsonV>
    decreases s,
{
    if s.len() == 0 {
        Seq::empty()
    } else {
        jv_seq(s.drop_last()).push(s.last().jv())
    }
}

/// Model of a sequence of object entries.
pub open spec fn jv_entries(s: Seq<(String, Json)>) -> Seq<(Seq<char>, JsonV)>
    decreases s,
{
    if s.len() == 0 {
        Seq::empty()
    } else {
        jv_entries(s.drop_last()).push((s.last().0@, s.last().1.jv()))
    }
}

pub broadcast proof fn lemma_jv_seq_len(s: Seq<Json>)
    ensures
        #[trigger] jv_seq(s).len() == s.len(),
    decreases s,
{
    if s.len() > 0 {
        lemma_jv_seq_len(s.drop_last());
    }
}

pub broadcast proof fn lemma_jv_seq_index(s: Seq<Json>, i: int)
    requires
        0 <= i < s.len(),
    ensures
        #[trigger] jv_seq(s)[i] == s[i].jv(),
    decreases s,
{
    lemma_jv_seq_len(s);
    if s.len() > 0 && i < s.len() - 1 {
        lemma_jv_seq_index(s.drop_last(), i);
    }
}

pub broadcast proof fn lemma_jv_entries_len(s: Seq<(String, Json)>)
    ensures
        #[trigger] jv_entries(s).len() == s.len(),
    decreases s,
{
    if s.len() > 0 {
        lemma_jv_entries_len(s.drop_last());
    }
}

pub broadcast proof fn lemma_jv_entries_index(s: Seq<(String, Json)>, i: int)
    requires
        0 <= i < s.len(),
    ensures
        #[trigger] jv_entries(s)[i] == (s[i].0@, s[i].1.jv()),
    decreases s,
{
    lemma_jv_entries_len(s);
    if s.len() > 0 && i < s.len() - 1 {
        lemma_jv_entries_index(s.drop_last(), i);
    }
}

/// Object entries at the model level.
pub type EntriesV = Seq<(Seq<char>, JsonV)>;

/// Whether some entry has key `k`.
pub open spec fn has_key(es: EntriesV, k: Seq<char>) -> bool {
    exists|i: int| 0 <= i < es.len() && es[i].0 == k
}

/// Index of the first entry with key `k` (meaningful only when `has_key`).
pub open spec fn key_index(es: EntriesV, k: Seq<char>) -> int
    decreases es,
{
    if es.len() == 0 {
        0
    } else if es[0].0 == k {
        0
    } else {
        1 + key_index(es.drop_first(), k)
    }
}

/// Every key occurs at most once.
pub open spec fn unique_keys(es: EntriesV) -> bool {
    forall|i: int, j: int| 0 <= i < j < es.len() ==> es[i].0 != es[j].0
}

pub proof fn lemma_key_index_first(es: EntriesV, k: Seq<char>, i: int)
    requires
        0 <= i < es.len(),
        es[i].0 == k,
        forall|j: int| 0 <= j < i ==> es[j].0 != k,
    ensures
        key_index(es, k) == i,
    decreases es,
{
    if i > 0 {
        assert(es.drop_first()[i - 1] == es[i]);
        assert(forall|j: int| 0 <= j < i - 1 ==> es.drop_first()[j] == es[j + 1]);
        lemma_key_index_first(es.drop_first(), k, i - 1);
    }
}

pub proof fn lemma_key_index_in_range(es: EntriesV, k: Seq<char>)
    requires
        has_key(es, k),
    ensures
        0 <= key_index(es, k) < es.len(),
        es[key_index(es, k)].0 == k,
        forall|j: int| 0 <= j < key_index(es, k) ==> es[j].0 != k,
    decreases es,
{
    if es.len() > 0 && es[0].0 != k {
        let w = choose|i: int| 0 <= i < es.len() && es[i].0 == k;
        assert(es.drop_first()[w - 1] == es[w]);
        lemma_key_index_in_range(es.drop_first(), k);
        assert forall|j: int| 0 <= j < key_index(es, k) implies es[j].0 != k by {
            if j > 0 {
                assert(es.drop_first()[j - 1] == es[j]);
            }
        }
    }
}

impl Json {
    /// Whether this is an object.
    pub open spec fn is_obj(self) -> bool {
        self is Obj
    }

    /// The model entries of an object value.
    pub open spec fn entries(self) -> EntriesV
        recommends
            self is Obj,
    {
        self.jv()->Obj_0
    }
}

/// Index of the first entry whose key equals `k`, scanning from the front.
pub fn obj_find(es: &Vec<(String, Json)>, k: &String) -> (r: Option<usize>)
    ensures
        match r {
            Option::None => !has_key(jv_entries(es@), k@),
            Option::Some(i) => {
                &&& 0 <= i < es@.len()
                &&& es@[i as int].0@ == k@
                &&& key_index(jv_entries(es@), k@) == i
                &&& has_key(jv_entries(es@), k@)
            },
        },
{
    broadcast use lemma_jv_entries_len, lemma_jv_entries_index;

    let n = es.len();
    let mut i: usize = 0;
    while i < n
        invariant
            n == es@.len(),
            jv_entries(es@).len() == es@.len(),
            0 <= i <= n,
            forall|j: int| 0 <= j < i ==> #[trigger] jv_entries(es@)[j].0 != k@,
        decreases n - i,
    {
        proof {
            lemma_jv_entries_index(es@, i as int);
        }
        if es[i].0 == *k {
            proof {
                lemma_key_index_first(jv_entries(es@), k@, i as int);
            }
            return Some(i);
        }
        i = i + 1;
    }
    None
}

/// Looks a key up in an object's entry list; `None` when absent.
pub fn obj_get<'a>(es: &'a Vec<(String, Json)>, k: &String) -> (r: Option<&'a Json>)
    ensures
        match r {
            Option::None => !has_key(jv_entries(es@), k@),
            Option::Some(v) => {
                &&& has_key(jv_entries(es@), k@)
                &&& jv_entries(es@)[key_index(jv_entries(es@), k@)] == (k@, v.jv())
            },
        },
{
    broadcast use lemma_jv_entries_len, lemma_jv_entries_index;

    match obj_find(es, k) {
        Option::None => None,
        Option::Some(i) => Some(&es[i].1),
    }
}

/// What one entry becomes when key `k` is set to `v`.
pub open spec fn entry_set(e: (Seq<char>, JsonV), k: Seq<char>, v: JsonV) -> (Seq<char>, JsonV) {
    if e.0 == k {
        (k, v)
    } else {
        e
    }
}

/// Sets `k` to `v`: replaces the value in place when the key exists,
/// appends a new entry otherwise.
pub fn obj_set(es: &mut Vec<(String, Json)>, k: String, v: Json)
    ensures
        has_key(jv_entries(old(es)@), k@) ==> {
            &&& final(es)@.len() == old(es)@.len()
            &&& jv_entries(final(es)@) == jv_entries(old(es)@).update(
                key_index(jv_entries(old(es)@), k@),
                (k@, v.jv()),
            )
        },
        !has_key(jv_entries(old(es)@), k@) ==> jv_entries(final(es)@) == jv_entries(
            old(es)@,
        ).push((k@, v.jv())),
{
    broadcast use lemma_jv_entries_len, lemma_jv_entries_index;

    match obj_find(es, &k) {
        Option::None => {
            es.push((k, v));
            assert(jv_entries(es@) =~= jv_entries(old(es)@).push((k@, v.jv())));
        },
        Option::Some(i) => {
            es.set(i, (k, v));
            assert(jv_entries(es@) =~= jv_entries(old(es)@).update(
                key_index(jv_entries(old(es)@), k@),
                (k@, v.jv()),
            ));
        },
    }
}

/// Removes the entry with key `k` if present; no effect otherwise.
pub fn obj_remove(es: &mut Vec<(String, Json)>, k: &String)
    ensures
        !has_key(jv_entries(old(es)@), k@) ==> final(es)@ == old(es)@,
        has_key(jv_entries(old(es)@), k@) ==> jv_entries(final(es)@) == jv_entries(
            old(es)@,
        ).remove(key_index(jv_entries(old(es)@), k@)),
{
    broadcast use lemma_jv_entries_len, lemma_jv_entries_index;

    match obj_find(es, k) {
        Option::None => {},
        Option::Some(i) => {
            es.remove(i);
            assert(jv_entries(es@) =~= jv_entries(old(es)@).remove(
                key_index(jv_entries(old(es)@), k@),
            ));
        },
    }
}


/// The value stored under key `k`, `None` when absent.
pub open spec fn lookup(es: EntriesV, k: Seq<char>) -> Option<JsonV> {
    if has_key(es, k) {
        Option::Some(es[key_index(es, k)].1)
    } else {
        Option::None
    }
}

/// A lookup resolves at the first index whose key matches.
pub proof fn lemma_lookup_at(es: EntriesV, k: Seq<char>, i: int)
    requires
        0 <= i < es.len(),
        es[i].0 == k,
        forall|j: int| 0 <= j < i ==> es[j].0 != k,
    ensures
        has_key(es, k),
        lookup(es, k) == Option::Some(es[i].1),
{
    lemma_key_index_first(es, k, i);
}


/// How a lookup behaves across a push at the end of the entry list.
pub proof fn lemma_lookup_push(es: EntriesV, e: (Seq<char>, JsonV), k: Seq<char>)
    ensures
        has_key(es, k) ==> lookup(es.push(e), k) == lookup(es, k),
        !has_key(es, k) && e.0 == k ==> lookup(es.push(e), k) == Option::Some(e.1),
        !has_key(es, k) && e.0 != k ==> lookup(es.push(e), k) is None,
    decreases es,
{
    let esp = es.push(e);
    assert(forall|i: int| 0 <= i < es.len() ==> esp[i] == es[i]);
    assert(esp[es.len() as int] == e);
    if es.len() == 0 {
        if e.0 == k {
            lemma_lookup_at(esp, k, 0);
        }
    } else {
        assert(esp.drop_first() =~= es.drop_first().push(e));
        lemma_lookup_push(es.drop_first(), e, k);
        if has_key(es, k) {
            lemma_key_index_in_range(es, k);
            let i = key_index(es, k);
            lemma_lookup_at(esp, k, i);
        } else {
            assert(forall|i: int| 0 <= i < es.len() ==> #[trigger] es[i].0 != k);
            if e.0 == k {
                lemma_lookup_at(esp, k, es.len() as int);
            } else {
                assert(forall|i: int| 0 <= i < esp.len() ==> #[trigger] esp[i].0 != k);
            }
        }
    }
}

/// Parses a document out of text: `Ok` exactly on well-formed text, with
/// the parsed document; anything else is a malformed-document error
/// carrying the parser's message.
pub fn parse_document(text: &str) -> (r: Result<Json, crate::err::StoreError>)
    ensures
        r is Ok <==> crate::trusted::parse_of(text@) is Some,
        r is Ok ==> r->Ok_0.jv() == crate::trusted::parse_of(text@)->0,
        r is Err ==> r->Err_0 is MalformedDocument,
{
    match crate::trusted::parse_json(text) {
        Result::Ok(doc) => Result::Ok(doc),
        Result::Err(m) => Result::Err(crate::err::StoreError::MalformedDocument(m)),
    }
}

} // verus!
