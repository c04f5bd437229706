//! The OpenClaw tool family: profile records, their document form, and the
//! projection that deep-merges a profile's configuration into the tool's
//! single live JSON file.

use vstd::prelude::*;
use vstd::utf8::encode_utf8;
use vstd::multiset::Multiset;
use crate::err::{StoreError, StoreErrorV};
use crate::ids::{valid_id, validate_profile_id, pointer_of, view_opt};
use crate::json::{Json, JsonV, EntriesV, has_key, lookup, jv_seq, jv_entries, obj_get,
    lemma_jv_seq_len, lemma_jv_seq_index, lemma_jv_entries_len, lemma_jv_entries_index,
    lemma_lookup_push};
use crate::merge::{merged, deep_merge_json};
use crate::text::{json_text, json_to_bytes, dec_chars, dec_val, all_digits,
    lemma_dec_chars_bytes, u32_to_string, parse_u64_digits};
use crate::trusted::{parse_of, parse_json, trimmed_of, str_trim, new_uuid, now_rfc3339, lower_of,
    to_lowercase};
use crate::writer::FileWrite;
use crate::order::{lex_le, lemma_lex_le_total, lemma_lex_le_trans, bytes_le,
    lemma_insert_to_multiset, str_eq};

verus! {

broadcast use vstd::std_specs::vec::group_vec_axioms;

/// One model a provider offers.
pub struct OpenClawModel {
    pub id: String,
    pub name: Option<String>,
    pub reasoning: bool,
    pub input: Vec<String>,
    pub context_window: Option<u32>,
    pub max_tokens: Option<u32>,
}

/// The model of an `OpenClawModel`.
pub struct OpenClawModelV {
    pub id: Seq<char>,
    pub name: Option<Seq<char>>,
    pub reasoning: bool,
    pub input: Seq<Seq<char>>,
    pub context_window: Option<u32>,
    pub max_tokens: Option<u32>,
}

/// The view of an optional string.
pub open spec fn opt_v(o: Option<String>) -> Option<Seq<char>> {
    match o {
        Option::None => Option::None,
        Option::Some(s) => Option::Some(s@),
    }
}

/// The views of a string vector.
pub open spec fn strs_v(ss: Seq<String>) -> Seq<Seq<char>> {
    Seq::new(ss.len(), |i: int| ss[i]@)
}

impl OpenClawModel {
    /// The model of this value.
    pub open spec fn v(self) -> OpenClawModelV {
        OpenClawModelV {
            id: self.id@,
            name: opt_v(self.name),
            reasoning: self.reasoning,
            input: strs_v(self.input@),
            context_window: self.context_window,
            max_tokens: self.max_tokens,
        }
    }
}

/// One provider's configuration.
pub struct OpenClawProviderConfig {
    pub base_url: Option<String>,
    pub api_key: Option<String>,
    pub api: Option<String>,
    pub models: Vec<OpenClawModel>,
}

/// The model of an `OpenClawProviderConfig`.
pub struct OpenClawProviderConfigV {
    pub base_url: Option<Seq<char>>,
    pub api_key: Option<Seq<char>>,
    pub api: Option<Seq<char>>,
    pub models: Seq<OpenClawModelV>,
}

impl OpenClawProviderConfig {
    /// The model of this value.
    pub open spec fn v(self) -> OpenClawProviderConfigV {
        OpenClawProviderConfigV {
            base_url: opt_v(self.base_url),
            api_key: opt_v(self.api_key),
            api: opt_v(self.api),
            models: Seq::new(self.models@.len(), |i: int| self.models@[i].v()),
        }
    }
}

/// A stored OpenClaw profile.
pub struct OpenClawProfile {
    pub id: String,
    pub name: String,
    pub description: Option<String>,
    pub created_at: String,
    pub updated_at: String,
    pub default_model: Option<String>,
    pub providers: Vec<(String, OpenClawProviderConfig)>,
}

/// The model of an `OpenClawProfile`.
pub struct OpenClawProfileV {
    pub id: Seq<char>,
    pub name: Seq<char>,
    pub description: Option<Seq<char>>,
    pub created_at: Seq<char>,
    pub updated_at: Seq<char>,
    pub default_model: Option<Seq<char>>,
    pub providers: Seq<(Seq<char>, OpenClawProviderConfigV)>,
}

impl OpenClawProfile {
    /// The model of this profile.
    pub open spec fn v(self) -> OpenClawProfileV {
        OpenClawProfileV {
            id: self.id@,
            name: self.name@,
            description: opt_v(self.description),
            created_at: self.created_at@,
            updated_at: self.updated_at@,
            default_model: opt_v(self.default_model),
            providers: Seq::new(
                self.providers@.len(),
                |i: int| (self.providers@[i].0@, self.providers@[i].1.v()),
            ),
        }
    }
}

/// Live-file status of the OpenClaw family.
pub struct OpenClawConfigStatus {
    pub config_exists: bool,
    pub config_path: String,
}

/// What the live OpenClaw file currently holds.
pub struct OpenClawCurrentConfig {
    pub default_model: Option<String>,
    pub providers: Vec<(String, OpenClawProviderConfig)>,
}

// ---------------------------------------------------------------------------
// Paths
// ---------------------------------------------------------------------------

/// The directory this library keeps OpenClaw profiles under.
pub open spec fn droidgear_openclaw_dir_v(home: Seq<char>) -> Seq<char> {
    home + "/.droidgear/openclaw"@
}

pub fn get_droidgear_openclaw_dir(home: &str) -> (r: String)
    ensures
        r@ == droidgear_openclaw_dir_v(home@),
{
    let mut s = String::from_str(home);
    s.append("/.droidgear/openclaw");
    s
}

/// `<home>/.droidgear/openclaw/profiles`
pub open spec fn openclaw_profiles_dir_v(home: Seq<char>) -> Seq<char> {
    droidgear_openclaw_dir_v(home) + "/profiles"@
}

pub fn get_profiles_dir(home: &str) -> (r: String)
    ensures
        r@ == openclaw_profiles_dir_v(home@),
{
    let mut s = get_droidgear_openclaw_dir(home);
    s.append("/profiles");
    s
}

/// `<home>/.droidgear/openclaw/active-profile.txt`
pub open spec fn openclaw_pointer_path_v(home: Seq<char>) -> Seq<char> {
    droidgear_openclaw_dir_v(home) + "/active-profile.txt"@
}

pub fn get_active_profile_path(home: &str) -> (r: String)
    ensures
        r@ == openclaw_pointer_path_v(home@),
{
    let mut s = get_droidgear_openclaw_dir(home);
    s.append("/active-profile.txt");
    s
}

/// `<home>/.openclaw/openclaw.json`
pub open spec fn openclaw_config_path_v(home: Seq<char>) -> Seq<char> {
    home + "/.openclaw/openclaw.json"@
}

pub fn get_openclaw_config_path(home: &str) -> (r: String)
    ensures
        r@ == openclaw_config_path_v(home@),
{
    let mut s = String::from_str(home);
    s.append("/.openclaw/openclaw.json");
    s
}

/// The document path of one profile.
pub open spec fn openclaw_profile_path_v(home: Seq<char>, id: Seq<char>) -> Seq<char> {
    openclaw_profiles_dir_v(home) + "/"@ + id + ".json"@
}

/// Path of a profile's document; rejects filename-unsafe ids before any
/// path is formed.
pub fn get_profile_path(home: &str, id: &str) -> (r: Result<String, StoreError>)
    ensures
        r is Ok <==> valid_id(id@),
        r is Ok ==> r->Ok_0@ == openclaw_profile_path_v(home@, id@),
        r is Err ==> r->Err_0 is InvalidIdentifier,
{
    validate_profile_id(id)?;
    let mut s = get_profiles_dir(home);
    s.append("/");
    s.append(id);
    s.append(".json");
    Ok(s)
}


// ---------------------------------------------------------------------------
// Document form
// ---------------------------------------------------------------------------

/// String values as document values.
pub open spec fn str_arr(ss: Seq<Seq<char>>) -> Seq<JsonV> {
    Seq::new(ss.len(), |i: int| JsonV::Str(ss[i]))
}

/// Whether a number text denotes a value that fits thirty-two bits.
pub open spec fn u32_text_ok(t: Seq<char>) -> bool {
    &&& all_digits(encode_utf8(t))
    &&& encode_utf8(t).len() > 0
    &&& dec_val(encode_utf8(t)) <= u32::MAX
}

/// The value of such a text.
pub open spec fn u32_text_val(t: Seq<char>) -> u32 {
    dec_val(encode_utf8(t)) as u32
}

/// The document entries of one model, in the order they are written.
pub open spec fn model_entries(m: OpenClawModelV) -> EntriesV {
    let e = seq![("id"@, JsonV::Str(m.id))];
    let e = match m.name {
        Option::Some(nm) => e.push(("name"@, JsonV::Str(nm))),
        Option::None => e,
    };
    let e = e.push(("reasoning"@, JsonV::Bool(m.reasoning)));
    let e = e.push(("input"@, JsonV::Arr(str_arr(m.input))));
    let e = match m.context_window {
        Option::Some(v) => e.push(("contextWindow"@, JsonV::Num(dec_chars(v as nat)))),
        Option::None => e,
    };
    match m.max_tokens {
        Option::Some(v) => e.push(("maxTokens"@, JsonV::Num(dec_chars(v as nat)))),
        Option::None => e,
    }
}

/// An optional boolean field that defaults to false.
pub open spec fn bool_field_or_false(es: EntriesV, k: Seq<char>) -> Option<bool> {
    match lookup(es, k) {
        Option::None => Option::Some(false),
        Option::Some(JsonV::Bool(b)) => Option::Some(b),
        _ => Option::None,
    }
}

/// An optional array-of-strings field that defaults to empty; every
/// element must be a string.
pub open spec fn strs_field_or_empty(es: EntriesV, k: Seq<char>) -> Option<Seq<Seq<char>>> {
    match lookup(es, k) {
        Option::None => Option::Some(Seq::empty()),
        Option::Some(JsonV::Arr(a)) => if forall|i: int| 0 <= i < a.len() ==> a[i] is Str {
            Option::Some(Seq::new(a.len(), |i: int| a[i]->Str_0))
        } else {
            Option::None
        },
        _ => Option::None,
    }
}

/// An optional number field: absent or null is an accepted absence; a
/// present value must be a digit string that fits thirty-two bits.
pub open spec fn opt_u32_field(es: EntriesV, k: Seq<char>) -> Option<Option<u32>> {
    match lookup(es, k) {
        Option::None => Option::Some(Option::None),
        Option::Some(JsonV::Null) => Option::Some(Option::None),
        Option::Some(JsonV::Num(t)) => if u32_text_ok(t) {
            Option::Some(Option::Some(u32_text_val(t)))
        } else {
            Option::None
        },
        _ => Option::None,
    }
}

/// What a document means as a model.
pub open spec fn model_of(v: JsonV) -> Option<OpenClawModelV> {
    if !(v is Obj) {
        Option::None
    } else {
        let es = v->Obj_0;
        if crate::codex::str_field(es, "id"@) is Some && crate::codex::opt_str_field(es, "name"@)
            is Some && bool_field_or_false(es, "reasoning"@) is Some && strs_field_or_empty(
            es,
            "input"@,
        ) is Some && opt_u32_field(es, "contextWindow"@) is Some && opt_u32_field(
            es,
            "maxTokens"@,
        ) is Some {
            Option::Some(
                OpenClawModelV {
                    id: crate::codex::str_field(es, "id"@)->0,
                    name: crate::codex::opt_str_field(es, "name"@)->0,
                    reasoning: bool_field_or_false(es, "reasoning"@)->0,
                    input: strs_field_or_empty(es, "input"@)->0,
                    context_window: opt_u32_field(es, "contextWindow"@)->0,
                    max_tokens: opt_u32_field(es, "maxTokens"@)->0,
                },
            )
        } else {
            Option::None
        }
    }
}

/// Builds the document of one model.
#[verifier::loop_isolation(false)]
pub fn model_to_json(m: &OpenClawModel) -> (r: Json)
    ensures
        r.jv() == JsonV::Obj(model_entries(m.v())),
{
    let mut es: Vec<(String, Json)> = Vec::new();
    es.push((String::from_str("id"), Json::Str(m.id.clone())));
    match &m.name {
        Option::Some(nm) => {
            es.push((String::from_str("name"), Json::Str(nm.clone())));
        },
        Option::None => {},
    }
    es.push((String::from_str("reasoning"), Json::Bool(m.reasoning)));
    let n = m.input.len();
    let mut arr: Vec<Json> = Vec::new();
    let mut i: usize = 0;
    while i < n
        invariant
            0 <= i <= n,
            arr@.len() == i,
            jv_seq(arr@) == str_arr(strs_v(m.input@)).take(i as int),
        decreases n - i,
    {
        let ghost arr0 = arr@;
        arr.push(Json::Str(m.input[i].clone()));
        proof {
            let ss = strs_v(m.input@);
            assert(arr@.drop_last() =~= arr0);
            assert(arr@.last().jv() == JsonV::Str(ss[i as int]));
            assert(jv_seq(arr@) =~= jv_seq(arr0).push(JsonV::Str(ss[i as int])));
            assert(str_arr(ss)[i as int] == JsonV::Str(ss[i as int]));
            assert(str_arr(ss).take(i + 1) =~= str_arr(ss).take(i as int).push(
                str_arr(ss)[i as int],
            ));
            assert(jv_seq(arr@) =~= str_arr(ss).take(i + 1));
        }
        i = i + 1;
    }
    proof {
        assert(str_arr(strs_v(m.input@)).take(n as int) =~= str_arr(strs_v(m.input@)));
    }
    es.push((String::from_str("input"), Json::Arr(arr)));
    match m.context_window {
        Option::Some(v) => {
            es.push((String::from_str("contextWindow"), Json::Num(u32_to_string(v))));
        },
        Option::None => {},
    }
    match m.max_tokens {
        Option::Some(v) => {
            es.push((String::from_str("maxTokens"), Json::Num(u32_to_string(v))));
        },
        Option::None => {},
    }
    proof {
        lemma_jv_entries_len(es@);
        assert forall|l: int| 0 <= l < es@.len() implies jv_entries(es@)[l] == model_entries(
            m.v(),
        )[l] by {
            lemma_jv_entries_index(es@, l);
        }
        assert(jv_entries(es@) =~= model_entries(m.v()));
    }
    Json::Obj(es)
}

/// Reads a model out of its document.
#[verifier::loop_isolation(false)]
pub fn model_from_json(j: &Json) -> (r: Option<OpenClawModel>)
    ensures
        match r {
            Option::Some(m) => model_of(j.jv()) == Option::Some(m.v()),
            Option::None => model_of(j.jv()) is None,
        },
{
    let es = match j {
        Json::Obj(es) => es,
        _ => {
            return Option::None;
        },
    };
    let id = match obj_get(es, &String::from_str("id")) {
        Option::Some(Json::Str(s)) => s.clone(),
        _ => {
            return Option::None;
        },
    };
    let name = match obj_get(es, &String::from_str("name")) {
        Option::None => Option::None,
        Option::Some(Json::Null) => Option::None,
        Option::Some(Json::Str(s)) => Option::Some(s.clone()),
        _ => {
            return Option::None;
        },
    };
    let reasoning = match obj_get(es, &String::from_str("reasoning")) {
        Option::None => false,
        Option::Some(Json::Bool(b)) => *b,
        _ => {
            return Option::None;
        },
    };
    let input = match obj_get(es, &String::from_str("input")) {
        Option::None => Vec::new(),
        Option::Some(Json::Arr(a)) => {
            let n = a.len();
            let mut out: Vec<String> = Vec::new();
            let mut i: usize = 0;
            while i < n
                invariant
                    0 <= i <= n,
                    out@.len() == i,
                    forall|l: int| 0 <= l < i ==> jv_seq(a@)[l] is Str,
                    strs_v(out@) == Seq::new(i as nat, |l: int| jv_seq(a@)[l]->Str_0),
                decreases n - i,
            {
                proof {
                    lemma_jv_seq_len(a@);
                    lemma_jv_seq_index(a@, i as int);
                }
                match &a[i] {
                    Json::Str(s) => {
                        let ghost out0 = out@;
                        out.push(s.clone());
                        proof {
                            assert(out@.drop_last() =~= out0);
                            assert(out@[i as int]@ == jv_seq(a@)[i as int]->Str_0);
                            assert forall|l: int| 0 <= l < i + 1 implies out@[l]@ == jv_seq(
                                a@,
                            )[l]->Str_0 by {
                                if l < i {
                                    assert(out@[l] == out0[l]);
                                    assert(strs_v(out0)[l] == out0[l]@);
                                    assert(Seq::new(
                                        i as nat,
                                        |ll: int| jv_seq(a@)[ll]->Str_0,
                                    )[l] == jv_seq(a@)[l]->Str_0);
                                }
                            }
                            assert(strs_v(out@) =~= Seq::new(
                                (i + 1) as nat,
                                |l: int| jv_seq(a@)[l]->Str_0,
                            ));
                        }
                    },
                    _ => {
                        proof {
                            lemma_jv_seq_len(a@);
                            assert(!(jv_seq(a@)[i as int] is Str));
                            assert(!(forall|l: int|
                                0 <= l < jv_seq(a@).len() ==> #[trigger] jv_seq(a@)[l] is Str));
                            assert(strs_field_or_empty(jv_entries(es@), "input"@) is None
                                || !(lookup(jv_entries(es@), "input"@) == Option::Some(
                                JsonV::Arr(jv_seq(a@)),
                            )));
                        }
                        return Option::None;
                    },
                }
                i = i + 1;
            }
            proof {
                lemma_jv_seq_len(a@);
                assert(strs_v(out@) =~= Seq::new(
                    jv_seq(a@).len(),
                    |l: int| jv_seq(a@)[l]->Str_0,
                ));
            }
            out
        },
        _ => {
            return Option::None;
        },
    };
    let context_window = match obj_get(es, &String::from_str("contextWindow")) {
        Option::None => Option::None,
        Option::Some(Json::Null) => Option::None,
        Option::Some(Json::Num(t)) => {
            match parse_u64_digits(t.as_str()) {
                Option::Some(v) => {
                    if v <= 0xffff_ffffu64 {
                        Option::Some(v as u32)
                    } else {
                        return Option::None;
                    }
                },
                Option::None => {
                    return Option::None;
                },
            }
        },
        _ => {
            return Option::None;
        },
    };
    let max_tokens = match obj_get(es, &String::from_str("maxTokens")) {
        Option::None => Option::None,
        Option::Some(Json::Null) => Option::None,
        Option::Some(Json::Num(t)) => {
            match parse_u64_digits(t.as_str()) {
                Option::Some(v) => {
                    if v <= 0xffff_ffffu64 {
                        Option::Some(v as u32)
                    } else {
                        return Option::None;
                    }
                },
                Option::None => {
                    return Option::None;
                },
            }
        },
        _ => {
            return Option::None;
        },
    };
    proof {
        let esv = jv_entries(es@);
        assert(crate::codex::str_field(esv, "id"@) == Option::Some(id@));
        assert(crate::codex::opt_str_field(esv, "name"@) == Option::Some(opt_v(name)));
        assert(bool_field_or_false(esv, "reasoning"@) == Option::Some(reasoning));
        assert(strs_field_or_empty(esv, "input"@) == Option::Some(strs_v(input@)));
        assert(opt_u32_field(esv, "contextWindow"@) == Option::Some(context_window));
        assert(opt_u32_field(esv, "maxTokens"@) == Option::Some(max_tokens));
    }
    Option::Some(OpenClawModel { id, name, reasoning, input, context_window, max_tokens })
}

/// A model document always reads back as exactly that model.
pub proof fn lemma_model_round_trip(m: OpenClawModelV)
    ensures
        model_of(JsonV::Obj(model_entries(m))) == Option::Some(m),
{
    reveal_strlit("id");
    reveal_strlit("name");
    reveal_strlit("reasoning");
    reveal_strlit("input");
    reveal_strlit("contextWindow");
    reveal_strlit("maxTokens");
    assert("id"@.len() == 2);
    assert("name"@.len() == 4);
    assert("reasoning"@.len() == 9);
    assert("input"@.len() == 5);
    assert("contextWindow"@.len() == 13);
    assert("maxTokens"@.len() == 9);
    assert("reasoning"@[0] == 'r' && "maxTokens"@[0] == 'm');
    assert("reasoning"@ != "maxTokens"@);
    let e1 = seq![("id"@, JsonV::Str(m.id))];
    let e2 = match m.name {
        Option::Some(nm) => e1.push(("name"@, JsonV::Str(nm))),
        Option::None => e1,
    };
    let e3 = e2.push(("reasoning"@, JsonV::Bool(m.reasoning)));
    let e4 = e3.push(("input"@, JsonV::Arr(str_arr(m.input))));
    let e5 = match m.context_window {
        Option::Some(v) => e4.push(("contextWindow"@, JsonV::Num(dec_chars(v as nat)))),
        Option::None => e4,
    };
    let e6 = match m.max_tokens {
        Option::Some(v) => e5.push(("maxTokens"@, JsonV::Num(dec_chars(v as nat)))),
        Option::None => e5,
    };
    assert(model_entries(m) == e6);
    lemma_track_key(e1, e2, e3, e4, e5, e6, m, "id"@);
    lemma_track_key(e1, e2, e3, e4, e5, e6, m, "name"@);
    lemma_track_key(e1, e2, e3, e4, e5, e6, m, "reasoning"@);
    lemma_track_key(e1, e2, e3, e4, e5, e6, m, "input"@);
    lemma_track_key(e1, e2, e3, e4, e5, e6, m, "contextWindow"@);
    lemma_track_key(e1, e2, e3, e4, e5, e6, m, "maxTokens"@);
    match m.context_window {
        Option::Some(v) => {
            lemma_dec_chars_bytes(v as nat);
            assert(u32_text_ok(dec_chars(v as nat)));
            assert(u32_text_val(dec_chars(v as nat)) == v);
        },
        Option::None => {},
    }
    match m.max_tokens {
        Option::Some(v) => {
            lemma_dec_chars_bytes(v as nat);
        },
        Option::None => {},
    }
    assert(strs_field_or_empty(e6, "input"@) == Option::Some(m.input)) by {
        assert(lookup(e6, "input"@) == Option::Some(JsonV::Arr(str_arr(m.input))));
        let a = str_arr(m.input);
        assert(forall|i: int| 0 <= i < a.len() ==> a[i] is Str);
        assert(Seq::new(a.len(), |i: int| a[i]->Str_0) =~= m.input);
    }
}

/// Follows each key through the pushes that build a model document.
proof fn lemma_track_key(
    e1: EntriesV,
    e2: EntriesV,
    e3: EntriesV,
    e4: EntriesV,
    e5: EntriesV,
    e6: EntriesV,
    m: OpenClawModelV,
    k: Seq<char>,
)
    requires
        e1 == seq![("id"@, JsonV::Str(m.id))],
        e2 == (match m.name {
            Option::Some(nm) => e1.push(("name"@, JsonV::Str(nm))),
            Option::None => e1,
        }),
        e3 == e2.push(("reasoning"@, JsonV::Bool(m.reasoning))),
        e4 == e3.push(("input"@, JsonV::Arr(str_arr(m.input)))),
        e5 == (match m.context_window {
            Option::Some(v) => e4.push(("contextWindow"@, JsonV::Num(dec_chars(v as nat)))),
            Option::None => e4,
        }),
        e6 == (match m.max_tokens {
            Option::Some(v) => e5.push(("maxTokens"@, JsonV::Num(dec_chars(v as nat)))),
            Option::None => e5,
        }),
        "id"@ != "name"@ && "id"@ != "reasoning"@ && "id"@ != "input"@ && "id"@
            != "contextWindow"@ && "id"@ != "maxTokens"@,
        "name"@ != "reasoning"@ && "name"@ != "input"@ && "name"@ != "contextWindow"@ && "name"@
            != "maxTokens"@,
        "reasoning"@ != "input"@ && "reasoning"@ != "contextWindow"@ && "reasoning"@
            != "maxTokens"@,
        "input"@ != "contextWindow"@ && "input"@ != "maxTokens"@,
        "contextWindow"@ != "maxTokens"@,
        k == "id"@ || k == "name"@ || k == "reasoning"@ || k == "input"@ || k == "contextWindow"@
            || k == "maxTokens"@,
    ensures
        lookup(e6, k) == (if k == "id"@ {
            Option::Some(JsonV::Str(m.id))
        } else if k == "name"@ {
            match m.name {
                Option::Some(nm) => Option::Some(JsonV::Str(nm)),
                Option::None => Option::None,
            }
        } else if k == "reasoning"@ {
            Option::Some(JsonV::Bool(m.reasoning))
        } else if k == "input"@ {
            Option::Some(JsonV::Arr(str_arr(m.input)))
        } else if k == "contextWindow"@ {
            match m.context_window {
                Option::Some(v) => Option::Some(JsonV::Num(dec_chars(v as nat))),
                Option::None => Option::None,
            }
        } else {
            match m.max_tokens {
                Option::Some(v) => Option::Some(JsonV::Num(dec_chars(v as nat))),
                Option::None => Option::None,
            }
        }),
{
    assert(e1 == Seq::<(Seq<char>, JsonV)>::empty().push(("id"@, JsonV::Str(m.id))));
    lemma_lookup_push(Seq::empty(), ("id"@, JsonV::Str(m.id)), k);
    match m.name {
        Option::Some(nm) => {
            lemma_lookup_push(e1, ("name"@, JsonV::Str(nm)), k);
        },
        Option::None => {},
    }
    lemma_lookup_push(e2, ("reasoning"@, JsonV::Bool(m.reasoning)), k);
    lemma_lookup_push(e3, ("input"@, JsonV::Arr(str_arr(m.input))), k);
    match m.context_window {
        Option::Some(v) => {
            lemma_lookup_push(e4, ("contextWindow"@, JsonV::Num(dec_chars(v as nat))), k);
        },
        Option::None => {},
    }
    match m.max_tokens {
        Option::Some(v) => {
            lemma_lookup_push(e5, ("maxTokens"@, JsonV::Num(dec_chars(v as nat))), k);
        },
        Option::None => {},
    }
}


/// The documents of a list of models.
pub open spec fn models_docs(ms: Seq<OpenClawModelV>) -> Seq<JsonV> {
    Seq::new(ms.len(), |i: int| JsonV::Obj(model_entries(ms[i])))
}

/// What an array of documents means as a list of models: every element
/// must read as a model.
pub open spec fn models_of_arr(a: Seq<JsonV>) -> Option<Seq<OpenClawModelV>>
    decreases a,
{
    if a.len() == 0 {
        Option::Some(Seq::empty())
    } else {
        match (models_of_arr(a.drop_last()), model_of(a.last())) {
            (Option::Some(ms), Option::Some(m)) => Option::Some(ms.push(m)),
            _ => Option::None,
        }
    }
}

/// A failed prefix never recovers.
pub proof fn lemma_models_none_extends(a: Seq<JsonV>, k: int)
    requires
        0 <= k <= a.len(),
        models_of_arr(a.take(k)) is None,
    ensures
        models_of_arr(a) is None,
    decreases a.len() - k,
{
    if k < a.len() {
        assert(a.take(k + 1).drop_last() =~= a.take(k));
        lemma_models_none_extends(a, k + 1);
    } else {
        assert(a.take(k) =~= a);
    }
}

/// The document entries of one provider, in the order they are written.
pub open spec fn provider_entries(p: OpenClawProviderConfigV) -> EntriesV {
    let e = Seq::<(Seq<char>, JsonV)>::empty();
    let e = match p.base_url {
        Option::Some(u) => e.push(("baseUrl"@, JsonV::Str(u))),
        Option::None => e,
    };
    let e = match p.api_key {
        Option::Some(u) => e.push(("apiKey"@, JsonV::Str(u))),
        Option::None => e,
    };
    let e = match p.api {
        Option::Some(u) => e.push(("api"@, JsonV::Str(u))),
        Option::None => e,
    };
    e.push(("models"@, JsonV::Arr(models_docs(p.models))))
}

/// What a document means as a provider.
pub open spec fn provider_of(v: JsonV) -> Option<OpenClawProviderConfigV> {
    if !(v is Obj) {
        Option::None
    } else {
        let es = v->Obj_0;
        let models = match lookup(es, "models"@) {
            Option::None => Option::Some(Seq::<OpenClawModelV>::empty()),
            Option::Some(JsonV::Arr(a)) => models_of_arr(a),
            _ => Option::None,
        };
        if crate::codex::opt_str_field(es, "baseUrl"@) is Some && crate::codex::opt_str_field(
            es,
            "apiKey"@,
        ) is Some && crate::codex::opt_str_field(es, "api"@) is Some && models is Some {
            Option::Some(
                OpenClawProviderConfigV {
                    base_url: crate::codex::opt_str_field(es, "baseUrl"@)->0,
                    api_key: crate::codex::opt_str_field(es, "apiKey"@)->0,
                    api: crate::codex::opt_str_field(es, "api"@)->0,
                    models: models->0,
                },
            )
        } else {
            Option::None
        }
    }
}

/// Builds the document of one provider.
#[verifier::loop_isolation(false)]
pub fn provider_to_json(p: &OpenClawProviderConfig) -> (r: Json)
    ensures
        r.jv() == JsonV::Obj(provider_entries(p.v())),
{
    let mut es: Vec<(String, Json)> = Vec::new();
    match &p.base_url {
        Option::Some(u) => {
            es.push((String::from_str("baseUrl"), Json::Str(u.clone())));
        },
        Option::None => {},
    }
    match &p.api_key {
        Option::Some(u) => {
            es.push((String::from_str("apiKey"), Json::Str(u.clone())));
        },
        Option::None => {},
    }
    match &p.api {
        Option::Some(u) => {
            es.push((String::from_str("api"), Json::Str(u.clone())));
        },
        Option::None => {},
    }
    let n = p.models.len();
    let mut arr: Vec<Json> = Vec::new();
    let mut i: usize = 0;
    while i < n
        invariant
            0 <= i <= n,
            arr@.len() == i,
            jv_seq(arr@) == models_docs(p.v().models).take(i as int),
        decreases n - i,
    {
        let ghost arr0 = arr@;
        let mj = model_to_json(&p.models[i]);
        arr.push(mj);
        proof {
            let md = models_docs(p.v().models);
            assert(arr@.drop_last() =~= arr0);
            assert(arr@.last().jv() == md[i as int]);
            assert(jv_seq(arr@) =~= jv_seq(arr0).push(md[i as int]));
            assert(md.take(i + 1) =~= md.take(i as int).push(md[i as int]));
            assert(jv_seq(arr@) =~= md.take(i + 1));
        }
        i = i + 1;
    }
    proof {
        assert(models_docs(p.v().models).take(n as int) =~= models_docs(p.v().models));
    }
    es.push((String::from_str("models"), Json::Arr(arr)));
    proof {
        lemma_jv_entries_len(es@);
        assert forall|l: int| 0 <= l < es@.len() implies jv_entries(es@)[l] == provider_entries(
            p.v(),
        )[l] by {
            lemma_jv_entries_index(es@, l);
        }
        assert(jv_entries(es@) =~= provider_entries(p.v()));
    }
    Json::Obj(es)
}

/// Reads a provider out of its document.
#[verifier::loop_isolation(false)]
pub fn provider_from_json(j: &Json) -> (r: Option<OpenClawProviderConfig>)
    ensures
        match r {
            Option::Some(p) => provider_of(j.jv()) == Option::Some(p.v()),
            Option::None => provider_of(j.jv()) is None,
        },
{
    let es = match j {
        Json::Obj(es) => es,
        _ => {
            return Option::None;
        },
    };
    let base_url = match obj_get(es, &String::from_str("baseUrl")) {
        Option::None => Option::None,
        Option::Some(Json::Null) => Option::None,
        Option::Some(Json::Str(s)) => Option::Some(s.clone()),
        _ => {
            return Option::None;
        },
    };
    let api_key = match obj_get(es, &String::from_str("apiKey")) {
        Option::None => Option::None,
        Option::Some(Json::Null) => Option::None,
        Option::Some(Json::Str(s)) => Option::Some(s.clone()),
        _ => {
            return Option::None;
        },
    };
    let api = match obj_get(es, &String::from_str("api")) {
        Option::None => Option::None,
        Option::Some(Json::Null) => Option::None,
        Option::Some(Json::Str(s)) => Option::Some(s.clone()),
        _ => {
            return Option::None;
        },
    };
    let models = match obj_get(es, &String::from_str("models")) {
        Option::None => {
            let v: Vec<OpenClawModel> = Vec::new();
            proof {
                assert(Seq::new(v@.len(), |i: int| v@[i].v())
                    =~= Seq::<OpenClawModelV>::empty());
            }
            v
        },
        Option::Some(Json::Arr(a)) => {
            let n = a.len();
            let mut out: Vec<OpenClawModel> = Vec::new();
            let mut i: usize = 0;
            while i < n
                invariant
                    0 <= i <= n,
                    out@.len() == i,
                    models_of_arr(jv_seq(a@).take(i as int)) == Option::Some(
                        Seq::new(i as nat, |l: int| out@[l].v()),
                    ),
                decreases n - i,
            {
                proof {
                    lemma_jv_seq_len(a@);
                    lemma_jv_seq_index(a@, i as int);
                }
                match model_from_json(&a[i]) {
                    Option::Some(m) => {
                        let ghost out0 = out@;
                        out.push(m);
                        proof {
                            let av = jv_seq(a@);
                            assert(av.take(i + 1).drop_last() =~= av.take(i as int));
                            assert(av.take(i + 1).last() == av[i as int]);
                            assert(Seq::new((i + 1) as nat, |ll: int| out@[ll].v()) =~= Seq::new(
                                i as nat,
                                |ll: int| out0[ll].v(),
                            ).push(out@[i as int].v()));
                            assert(models_of_arr(av.take(i + 1)) == Option::Some(
                                Seq::new((i + 1) as nat, |l: int| out@[l].v()),
                            ));
                        }
                    },
                    Option::None => {
                        proof {
                            let av = jv_seq(a@);
                            assert(av.take(i + 1).drop_last() =~= av.take(i as int));
                            assert(av.take(i + 1).last() == av[i as int]);
                            assert(models_of_arr(av.take(i + 1)) is None);
                            lemma_models_none_extends(av, i + 1);
                        }
                        return Option::None;
                    },
                }
                i = i + 1;
            }
            proof {
                lemma_jv_seq_len(a@);
                assert(jv_seq(a@).take(n as int) =~= jv_seq(a@));
                assert(Seq::new(out@.len(), |l: int| out@[l].v()) =~= Seq::new(
                    n as nat,
                    |l: int| out@[l].v(),
                ));
                assert(models_of_arr(jv_seq(a@)) == Option::Some(
                    Seq::new(out@.len(), |l: int| out@[l].v()),
                ));
            }
            out
        },
        _ => {
            return Option::None;
        },
    };
    proof {
        let esv = jv_entries(es@);
        assert(crate::codex::opt_str_field(esv, "baseUrl"@) == Option::Some(opt_v(base_url)));
        assert(crate::codex::opt_str_field(esv, "apiKey"@) == Option::Some(opt_v(api_key)));
        assert(crate::codex::opt_str_field(esv, "api"@) == Option::Some(opt_v(api)));
        let mv = Seq::new(models@.len(), |i: int| models@[i].v());
        assert((match lookup(esv, "models"@) {
            Option::None => Option::Some(Seq::<OpenClawModelV>::empty()),
            Option::Some(JsonV::Arr(a)) => models_of_arr(a),
            _ => Option::None,
        }) == Option::Some(mv));
    }
    Option::Some(OpenClawProviderConfig { base_url, api_key, api, models })
}

/// A provider document always reads back as exactly that provider.
pub proof fn lemma_provider_round_trip(p: OpenClawProviderConfigV)
    ensures
        provider_of(JsonV::Obj(provider_entries(p))) == Option::Some(p),
{
    reveal_strlit("baseUrl");
    reveal_strlit("apiKey");
    reveal_strlit("api");
    reveal_strlit("models");
    assert("baseUrl"@.len() == 7);
    assert("apiKey"@.len() == 6);
    assert("api"@.len() == 3);
    assert("models"@.len() == 6);
    assert("apiKey"@[0] == 'a' && "models"@[0] == 'm');
    assert("apiKey"@ != "models"@);
    let e0 = Seq::<(Seq<char>, JsonV)>::empty();
    let e1 = match p.base_url {
        Option::Some(u) => e0.push(("baseUrl"@, JsonV::Str(u))),
        Option::None => e0,
    };
    let e2 = match p.api_key {
        Option::Some(u) => e1.push(("apiKey"@, JsonV::Str(u))),
        Option::None => e1,
    };
    let e3 = match p.api {
        Option::Some(u) => e2.push(("api"@, JsonV::Str(u))),
        Option::None => e2,
    };
    let e4 = e3.push(("models"@, JsonV::Arr(models_docs(p.models))));
    assert(provider_entries(p) == e4);
    lemma_provider_track(e0, e1, e2, e3, e4, p, "baseUrl"@);
    lemma_provider_track(e0, e1, e2, e3, e4, p, "apiKey"@);
    lemma_provider_track(e0, e1, e2, e3, e4, p, "api"@);
    lemma_provider_track(e0, e1, e2, e3, e4, p, "models"@);
    lemma_models_docs_round_trip(p.models);
}

/// Follows each key through the pushes that build a provider document.
proof fn lemma_provider_track(
    e0: EntriesV,
    e1: EntriesV,
    e2: EntriesV,
    e3: EntriesV,
    e4: EntriesV,
    p: OpenClawProviderConfigV,
    k: Seq<char>,
)
    requires
        e0 == Seq::<(Seq<char>, JsonV)>::empty(),
        e1 == (match p.base_url {
            Option::Some(u) => e0.push(("baseUrl"@, JsonV::Str(u))),
            Option::None => e0,
        }),
        e2 == (match p.api_key {
            Option::Some(u) => e1.push(("apiKey"@, JsonV::Str(u))),
            Option::None => e1,
        }),
        e3 == (match p.api {
            Option::Some(u) => e2.push(("api"@, JsonV::Str(u))),
            Option::None => e2,
        }),
        e4 == e3.push(("models"@, JsonV::Arr(models_docs(p.models)))),
        "baseUrl"@ != "apiKey"@ && "baseUrl"@ != "api"@ && "baseUrl"@ != "models"@,
        "apiKey"@ != "api"@ && "apiKey"@ != "models"@,
        "api"@ != "models"@,
        k == "baseUrl"@ || k == "apiKey"@ || k == "api"@ || k == "models"@,
    ensures
        lookup(e4, k) == (if k == "baseUrl"@ {
            match p.base_url {
                Option::Some(u) => Option::Some(JsonV::Str(u)),
                Option::None => Option::None,
            }
        } else if k == "apiKey"@ {
            match p.api_key {
                Option::Some(u) => Option::Some(JsonV::Str(u)),
                Option::None => Option::None,
            }
        } else if k == "api"@ {
            match p.api {
                Option::Some(u) => Option::Some(JsonV::Str(u)),
                Option::None => Option::None,
            }
        } else {
            Option::Some(JsonV::Arr(models_docs(p.models)))
        }),
{
    match p.base_url {
        Option::Some(u) => {
            lemma_lookup_push(e0, ("baseUrl"@, JsonV::Str(u)), k);
        },
        Option::None => {},
    }
    match p.api_key {
        Option::Some(u) => {
            lemma_lookup_push(e1, ("apiKey"@, JsonV::Str(u)), k);
        },
        Option::None => {},
    }
    match p.api {
        Option::Some(u) => {
            lemma_lookup_push(e2, ("api"@, JsonV::Str(u)), k);
        },
        Option::None => {},
    }
    lemma_lookup_push(e3, ("models"@, JsonV::Arr(models_docs(p.models))), k);
}

/// A list of model documents always reads back as exactly those models.
pub proof fn lemma_models_docs_round_trip(ms: Seq<OpenClawModelV>)
    ensures
        models_of_arr(models_docs(ms)) == Option::Some(ms),
    decreases ms,
{
    if ms.len() == 0 {
        assert(models_docs(ms).len() == 0);
    } else {
        assert(models_docs(ms).drop_last() =~= models_docs(ms.drop_last()));
        lemma_models_docs_round_trip(ms.drop_last());
        lemma_model_round_trip(ms.last());
        assert(models_docs(ms).last() == JsonV::Obj(model_entries(ms.last())));
        assert(ms.drop_last().push(ms.last()) =~= ms);
    }
}


/// The provider entries of a profile document.
pub open spec fn providers_docs(ps: Seq<(Seq<char>, OpenClawProviderConfigV)>) -> EntriesV {
    Seq::new(ps.len(), |i: int| (ps[i].0, JsonV::Obj(provider_entries(ps[i].1))))
}

/// What an entry list means as a provider map: every value must read as a
/// provider.
pub open spec fn providers_of_entries(es: EntriesV) -> Option<
    Seq<(Seq<char>, OpenClawProviderConfigV)>,
>
    decreases es,
{
    if es.len() == 0 {
        Option::Some(Seq::empty())
    } else {
        match (providers_of_entries(es.drop_last()), provider_of(es.last().1)) {
            (Option::Some(ps), Option::Some(p)) => Option::Some(ps.push((es.last().0, p))),
            _ => Option::None,
        }
    }
}

/// A failed prefix never recovers.
pub proof fn lemma_providers_none_extends(es: EntriesV, k: int)
    requires
        0 <= k <= es.len(),
        providers_of_entries(es.take(k)) is None,
    ensures
        providers_of_entries(es) is None,
    decreases es.len() - k,
{
    if k < es.len() {
        assert(es.take(k + 1).drop_last() =~= es.take(k));
        lemma_providers_none_extends(es, k + 1);
    } else {
        assert(es.take(k) =~= es);
    }
}

/// A list of provider documents always reads back as exactly those
/// providers.
pub proof fn lemma_providers_docs_round_trip(ps: Seq<(Seq<char>, OpenClawProviderConfigV)>)
    ensures
        providers_of_entries(providers_docs(ps)) == Option::Some(ps),
    decreases ps,
{
    if ps.len() == 0 {
        assert(providers_docs(ps).len() == 0);
    } else {
        assert(providers_docs(ps).drop_last() =~= providers_docs(ps.drop_last()));
        lemma_providers_docs_round_trip(ps.drop_last());
        lemma_provider_round_trip(ps.last().1);
        assert(providers_docs(ps).last() == (ps.last().0, JsonV::Obj(provider_entries(
            ps.last().1,
        ))));
        assert(ps.drop_last().push(ps.last()) =~= ps);
    }
}

/// The entries of a profile's document, in the order they are written.
pub open spec fn openclaw_profile_entries(p: OpenClawProfileV) -> EntriesV {
    let e = seq![("id"@, JsonV::Str(p.id)), ("name"@, JsonV::Str(p.name))];
    let e = match p.description {
        Option::Some(d) => e.push(("description"@, JsonV::Str(d))),
        Option::None => e,
    };
    let e = e.push(("createdAt"@, JsonV::Str(p.created_at)));
    let e = e.push(("updatedAt"@, JsonV::Str(p.updated_at)));
    let e = match p.default_model {
        Option::Some(d) => e.push(("defaultModel"@, JsonV::Str(d))),
        Option::None => e,
    };
    e.push(("providers"@, JsonV::Obj(providers_docs(p.providers))))
}

/// The document a profile is persisted as.
pub open spec fn openclaw_profile_jv(p: OpenClawProfileV) -> JsonV {
    JsonV::Obj(openclaw_profile_entries(p))
}

/// What a document means as a profile.
pub open spec fn openclaw_profile_of(v: JsonV) -> Option<OpenClawProfileV> {
    if !(v is Obj) {
        Option::None
    } else {
        let es = v->Obj_0;
        let providers = match lookup(es, "providers"@) {
            Option::None => Option::Some(Seq::<(Seq<char>, OpenClawProviderConfigV)>::empty()),
            Option::Some(JsonV::Obj(o)) => providers_of_entries(o),
            _ => Option::None,
        };
        if crate::codex::str_field(es, "id"@) is Some && crate::codex::str_field(es, "name"@)
            is Some && crate::codex::opt_str_field(es, "description"@) is Some
            && crate::codex::str_field(es, "createdAt"@) is Some && crate::codex::str_field(
            es,
            "updatedAt"@,
        ) is Some && crate::codex::opt_str_field(es, "defaultModel"@) is Some && providers
            is Some {
            Option::Some(
                OpenClawProfileV {
                    id: crate::codex::str_field(es, "id"@)->0,
                    name: crate::codex::str_field(es, "name"@)->0,
                    description: crate::codex::opt_str_field(es, "description"@)->0,
                    created_at: crate::codex::str_field(es, "createdAt"@)->0,
                    updated_at: crate::codex::str_field(es, "updatedAt"@)->0,
                    default_model: crate::codex::opt_str_field(es, "defaultModel"@)->0,
                    providers: providers->0,
                },
            )
        } else {
            Option::None
        }
    }
}

/// Builds the document of a profile.
#[verifier::loop_isolation(false)]
pub fn openclaw_profile_to_json(p: &OpenClawProfile) -> (r: Json)
    ensures
        r.jv() == openclaw_profile_jv(p.v()),
{
    let mut es: Vec<(String, Json)> = Vec::new();
    es.push((String::from_str("id"), Json::Str(p.id.clone())));
    es.push((String::from_str("name"), Json::Str(p.name.clone())));
    match &p.description {
        Option::Some(d) => {
            es.push((String::from_str("description"), Json::Str(d.clone())));
        },
        Option::None => {},
    }
    es.push((String::from_str("createdAt"), Json::Str(p.created_at.clone())));
    es.push((String::from_str("updatedAt"), Json::Str(p.updated_at.clone())));
    match &p.default_model {
        Option::Some(d) => {
            es.push((String::from_str("defaultModel"), Json::Str(d.clone())));
        },
        Option::None => {},
    }
    let n = p.providers.len();
    let mut pes: Vec<(String, Json)> = Vec::new();
    let mut i: usize = 0;
    while i < n
        invariant
            0 <= i <= n,
            pes@.len() == i,
            jv_entries(pes@) == providers_docs(p.v().providers).take(i as int),
        decreases n - i,
    {
        let ghost pes0 = pes@;
        let pj = provider_to_json(&p.providers[i].1);
        let k = p.providers[i].0.clone();
        pes.push((k, pj));
        proof {
            let pd = providers_docs(p.v().providers);
            assert(pes@.drop_last() =~= pes0);
            assert((pes@.last().0@, pes@.last().1.jv()) == pd[i as int]);
            assert(jv_entries(pes@) =~= jv_entries(pes0).push(pd[i as int]));
            assert(pd.take(i + 1) =~= pd.take(i as int).push(pd[i as int]));
            assert(jv_entries(pes@) =~= pd.take(i + 1));
        }
        i = i + 1;
    }
    proof {
        assert(providers_docs(p.v().providers).take(n as int) =~= providers_docs(p.v().providers));
    }
    es.push((String::from_str("providers"), Json::Obj(pes)));
    proof {
        lemma_jv_entries_len(es@);
        assert forall|l: int| 0 <= l < es@.len() implies jv_entries(es@)[l]
            == openclaw_profile_entries(p.v())[l] by {
            lemma_jv_entries_index(es@, l);
        }
        assert(jv_entries(es@) =~= openclaw_profile_entries(p.v()));
    }
    Json::Obj(es)
}

/// Reads a profile out of its document.
#[verifier::loop_isolation(false)]
pub fn openclaw_profile_from_json(j: &Json) -> (r: Option<OpenClawProfile>)
    ensures
        match r {
            Option::Some(p) => openclaw_profile_of(j.jv()) == Option::Some(p.v()),
            Option::None => openclaw_profile_of(j.jv()) is None,
        },
{
    let es = match j {
        Json::Obj(es) => es,
        _ => {
            return Option::None;
        },
    };
    let id = match obj_get(es, &String::from_str("id")) {
        Option::Some(Json::Str(s)) => s.clone(),
        _ => {
            return Option::None;
        },
    };
    let name = match obj_get(es, &String::from_str("name")) {
        Option::Some(Json::Str(s)) => s.clone(),
        _ => {
            return Option::None;
        },
    };
    let description = match obj_get(es, &String::from_str("description")) {
        Option::None => Option::None,
        Option::Some(Json::Null) => Option::None,
        Option::Some(Json::Str(s)) => Option::Some(s.clone()),
        _ => {
            return Option::None;
        },
    };
    let created_at = match obj_get(es, &String::from_str("createdAt")) {
        Option::Some(Json::Str(s)) => s.clone(),
        _ => {
            return Option::None;
        },
    };
    let updated_at = match obj_get(es, &String::from_str("updatedAt")) {
        Option::Some(Json::Str(s)) => s.clone(),
        _ => {
            return Option::None;
        },
    };
    let default_model = match obj_get(es, &String::from_str("defaultModel")) {
        Option::None => Option::None,
        Option::Some(Json::Null) => Option::None,
        Option::Some(Json::Str(s)) => Option::Some(s.clone()),
        _ => {
            return Option::None;
        },
    };
    let providers = match obj_get(es, &String::from_str("providers")) {
        Option::None => {
            let v: Vec<(String, OpenClawProviderConfig)> = Vec::new();
            proof {
                assert(Seq::new(v@.len(), |i: int| (v@[i].0@, v@[i].1.v()))
                    =~= Seq::<(Seq<char>, OpenClawProviderConfigV)>::empty());
            }
            v
        },
        Option::Some(Json::Obj(o)) => {
            let n = o.len();
            let mut out: Vec<(String, OpenClawProviderConfig)> = Vec::new();
            let mut i: usize = 0;
            while i < n
                invariant
                    0 <= i <= n,
                    out@.len() == i,
                    providers_of_entries(jv_entries(o@).take(i as int)) == Option::Some(
                        Seq::new(i as nat, |l: int| (out@[l].0@, out@[l].1.v())),
                    ),
                decreases n - i,
            {
                proof {
                    lemma_jv_entries_len(o@);
                    lemma_jv_entries_index(o@, i as int);
                }
                match provider_from_json(&o[i].1) {
                    Option::Some(pc) => {
                        let ghost out0 = out@;
                        let k = o[i].0.clone();
                        out.push((k, pc));
                        proof {
                            let ov = jv_entries(o@);
                            assert(ov.take(i + 1).drop_last() =~= ov.take(i as int));
                            assert(ov.take(i + 1).last() == ov[i as int]);
                            assert(Seq::new((i + 1) as nat, |l: int| (out@[l].0@, out@[l].1.v()))
                                =~= Seq::new(i as nat, |l: int| (out0[l].0@, out0[l].1.v())).push(
                                (out@[i as int].0@, out@[i as int].1.v()),
                            ));
                            assert(providers_of_entries(ov.take(i + 1)) == Option::Some(
                                Seq::new((i + 1) as nat, |l: int| (out@[l].0@, out@[l].1.v())),
                            ));
                        }
                    },
                    Option::None => {
                        proof {
                            let ov = jv_entries(o@);
                            assert(ov.take(i + 1).drop_last() =~= ov.take(i as int));
                            assert(ov.take(i + 1).last() == ov[i as int]);
                            assert(providers_of_entries(ov.take(i + 1)) is None);
                            lemma_providers_none_extends(ov, i + 1);
                        }
                        return Option::None;
                    },
                }
                i = i + 1;
            }
            proof {
                lemma_jv_entries_len(o@);
                assert(jv_entries(o@).take(n as int) =~= jv_entries(o@));
                assert(Seq::new(out@.len(), |l: int| (out@[l].0@, out@[l].1.v())) =~= Seq::new(
                    n as nat,
                    |l: int| (out@[l].0@, out@[l].1.v()),
                ));
                assert(providers_of_entries(jv_entries(o@)) == Option::Some(
                    Seq::new(out@.len(), |l: int| (out@[l].0@, out@[l].1.v())),
                ));
            }
            out
        },
        _ => {
            return Option::None;
        },
    };
    proof {
        let esv = jv_entries(es@);
        assert(crate::codex::str_field(esv, "id"@) == Option::Some(id@));
        assert(crate::codex::str_field(esv, "name"@) == Option::Some(name@));
        assert(crate::codex::opt_str_field(esv, "description"@) == Option::Some(
            opt_v(description),
        ));
        assert(crate::codex::str_field(esv, "createdAt"@) == Option::Some(created_at@));
        assert(crate::codex::str_field(esv, "updatedAt"@) == Option::Some(updated_at@));
        assert(crate::codex::opt_str_field(esv, "defaultModel"@) == Option::Some(
            opt_v(default_model),
        ));
        let pv = Seq::new(providers@.len(), |i: int| (providers@[i].0@, providers@[i].1.v()));
        assert((match lookup(esv, "providers"@) {
            Option::None => Option::Some(Seq::<(Seq<char>, OpenClawProviderConfigV)>::empty()),
            Option::Some(JsonV::Obj(o)) => providers_of_entries(o),
            _ => Option::None,
        }) == Option::Some(pv));
    }
    Option::Some(
        OpenClawProfile { id, name, description, created_at, updated_at, default_model, providers },
    )
}

/// A profile's document always reads back as exactly that profile.
pub proof fn lemma_openclaw_profile_round_trip(p: OpenClawProfileV)
    ensures
        openclaw_profile_of(openclaw_profile_jv(p)) == Option::Some(p),
{
    reveal_strlit("id");
    reveal_strlit("name");
    reveal_strlit("description");
    reveal_strlit("createdAt");
    reveal_strlit("updatedAt");
    reveal_strlit("defaultModel");
    reveal_strlit("providers");
    assert("id"@.len() == 2);
    assert("name"@.len() == 4);
    assert("description"@.len() == 11);
    assert("createdAt"@.len() == 9);
    assert("updatedAt"@.len() == 9);
    assert("defaultModel"@.len() == 12);
    assert("providers"@.len() == 9);
    assert("createdAt"@[0] == 'c' && "updatedAt"@[0] == 'u' && "providers"@[0] == 'p');
    assert("createdAt"@ != "updatedAt"@ && "createdAt"@ != "providers"@ && "updatedAt"@
        != "providers"@);
    let e1 = seq![("id"@, JsonV::Str(p.id)), ("name"@, JsonV::Str(p.name))];
    let e2 = match p.description {
        Option::Some(d) => e1.push(("description"@, JsonV::Str(d))),
        Option::None => e1,
    };
    let e3 = e2.push(("createdAt"@, JsonV::Str(p.created_at)));
    let e4 = e3.push(("updatedAt"@, JsonV::Str(p.updated_at)));
    let e5 = match p.default_model {
        Option::Some(d) => e4.push(("defaultModel"@, JsonV::Str(d))),
        Option::None => e4,
    };
    let e6 = e5.push(("providers"@, JsonV::Obj(providers_docs(p.providers))));
    assert(openclaw_profile_entries(p) == e6);
    lemma_openclaw_track(e1, e2, e3, e4, e5, e6, p, "id"@);
    lemma_openclaw_track(e1, e2, e3, e4, e5, e6, p, "name"@);
    lemma_openclaw_track(e1, e2, e3, e4, e5, e6, p, "description"@);
    lemma_openclaw_track(e1, e2, e3, e4, e5, e6, p, "createdAt"@);
    lemma_openclaw_track(e1, e2, e3, e4, e5, e6, p, "updatedAt"@);
    lemma_openclaw_track(e1, e2, e3, e4, e5, e6, p, "defaultModel"@);
    lemma_openclaw_track(e1, e2, e3, e4, e5, e6, p, "providers"@);
    lemma_providers_docs_round_trip(p.providers);
}

/// Follows each key through the pushes that build a profile document.
proof fn lemma_openclaw_track(
    e1: EntriesV,
    e2: EntriesV,
    e3: EntriesV,
    e4: EntriesV,
    e5: EntriesV,
    e6: EntriesV,
    p: OpenClawProfileV,
    k: Seq<char>,
)
    requires
        e1 == seq![("id"@, JsonV::Str(p.id)), ("name"@, JsonV::Str(p.name))],
        e2 == (match p.description {
            Option::Some(d) => e1.push(("description"@, JsonV::Str(d))),
            Option::None => e1,
        }),
        e3 == e2.push(("createdAt"@, JsonV::Str(p.created_at))),
        e4 == e3.push(("updatedAt"@, JsonV::Str(p.updated_at))),
        e5 == (match p.default_model {
            Option::Some(d) => e4.push(("defaultModel"@, JsonV::Str(d))),
            Option::None => e4,
        }),
        e6 == e5.push(("providers"@, JsonV::Obj(providers_docs(p.providers)))),
        "id"@ != "name"@ && "id"@ != "description"@ && "id"@ != "createdAt"@ && "id"@
            != "updatedAt"@ && "id"@ != "defaultModel"@ && "id"@ != "providers"@,
        "name"@ != "description"@ && "name"@ != "createdAt"@ && "name"@ != "updatedAt"@ && "name"@
            != "defaultModel"@ && "name"@ != "providers"@,
        "description"@ != "createdAt"@ && "description"@ != "updatedAt"@ && "description"@
            != "defaultModel"@ && "description"@ != "providers"@,
        "createdAt"@ != "updatedAt"@ && "createdAt"@ != "defaultModel"@ && "createdAt"@
            != "providers"@,
        "updatedAt"@ != "defaultModel"@ && "updatedAt"@ != "providers"@,
        "defaultModel"@ != "providers"@,
        k == "id"@ || k == "name"@ || k == "description"@ || k == "createdAt"@ || k == "updatedAt"@
            || k == "defaultModel"@ || k == "providers"@,
    ensures
        lookup(e6, k) == (if k == "id"@ {
            Option::Some(JsonV::Str(p.id))
        } else if k == "name"@ {
            Option::Some(JsonV::Str(p.name))
        } else if k == "description"@ {
            match p.description {
                Option::Some(d) => Option::Some(JsonV::Str(d)),
                Option::None => Option::None,
            }
        } else if k == "createdAt"@ {
            Option::Some(JsonV::Str(p.created_at))
        } else if k == "updatedAt"@ {
            Option::Some(JsonV::Str(p.updated_at))
        } else if k == "defaultModel"@ {
            match p.default_model {
                Option::Some(d) => Option::Some(JsonV::Str(d)),
                Option::None => Option::None,
            }
        } else {
            Option::Some(JsonV::Obj(providers_docs(p.providers)))
        }),
{
    let e0 = Seq::<(Seq<char>, JsonV)>::empty();
    assert(e1 == e0.push(("id"@, JsonV::Str(p.id))).push(("name"@, JsonV::Str(p.name))));
    lemma_lookup_push(e0, ("id"@, JsonV::Str(p.id)), k);
    lemma_lookup_push(e0.push(("id"@, JsonV::Str(p.id))), ("name"@, JsonV::Str(p.name)), k);
    match p.description {
        Option::Some(d) => {
            lemma_lookup_push(e1, ("description"@, JsonV::Str(d)), k);
        },
        Option::None => {},
    }
    lemma_lookup_push(e2, ("createdAt"@, JsonV::Str(p.created_at)), k);
    lemma_lookup_push(e3, ("updatedAt"@, JsonV::Str(p.updated_at)), k);
    match p.default_model {
        Option::Some(d) => {
            lemma_lookup_push(e4, ("defaultModel"@, JsonV::Str(d)), k);
        },
        Option::None => {},
    }
    lemma_lookup_push(e5, ("providers"@, JsonV::Obj(providers_docs(p.providers))), k);
}


// ---------------------------------------------------------------------------
// Live configuration
// ---------------------------------------------------------------------------

/// A provider-qualified model reference.
pub open spec fn model_ref(pid: Seq<char>, mid: Seq<char>) -> Seq<char> {
    pid + "/"@ + mid
}

/// The references of one provider's models.
pub open spec fn refs_of_provider(pid: Seq<char>, ms: Seq<OpenClawModelV>) -> Seq<Seq<char>> {
    Seq::new(ms.len(), |i: int| model_ref(pid, ms[i].id))
}

/// All model references of a profile, provider by provider.
pub open spec fn refs_of_providers(ps: Seq<(Seq<char>, OpenClawProviderConfigV)>) -> Seq<Seq<char>>
    decreases ps,
{
    if ps.len() == 0 {
        Seq::empty()
    } else {
        refs_of_providers(ps.drop_last()) + refs_of_provider(ps.last().0, ps.last().1.models)
    }
}

/// Model references as an object with empty-object values.
pub open spec fn refs_entries(refs: Seq<Seq<char>>) -> EntriesV {
    Seq::new(refs.len(), |i: int| (refs[i], JsonV::Obj(Seq::empty())))
}

/// The `agents.defaults` section the profile projects.
pub open spec fn agents_defaults_entries(p: OpenClawProfileV) -> EntriesV {
    let d = Seq::<(Seq<char>, JsonV)>::empty();
    let d = match p.default_model {
        Option::Some(m) => d.push(
            ("model"@, JsonV::Obj(seq![("primary"@, JsonV::Str(m))])),
        ),
        Option::None => d,
    };
    if refs_of_providers(p.providers).len() > 0 {
        d.push(("models"@, JsonV::Obj(refs_entries(refs_of_providers(p.providers)))))
    } else {
        d
    }
}

/// One model as it appears in the live file.
pub open spec fn live_model_entries(m: OpenClawModelV) -> EntriesV {
    let e = seq![("id"@, JsonV::Str(m.id))];
    let e = match m.name {
        Option::Some(nm) => e.push(("name"@, JsonV::Str(nm))),
        Option::None => e,
    };
    let e = e.push(("reasoning"@, JsonV::Bool(m.reasoning)));
    let e = if m.input.len() > 0 {
        e.push(("input"@, JsonV::Arr(str_arr(m.input))))
    } else {
        e
    };
    let e = match m.context_window {
        Option::Some(v) => e.push(("contextWindow"@, JsonV::Num(dec_chars(v as nat)))),
        Option::None => e,
    };
    match m.max_tokens {
        Option::Some(v) => e.push(("maxTokens"@, JsonV::Num(dec_chars(v as nat)))),
        Option::None => e,
    }
}

/// One provider as it appears in the live file.
pub open spec fn live_provider_entries(pv: OpenClawProviderConfigV) -> EntriesV {
    let e = Seq::<(Seq<char>, JsonV)>::empty();
    let e = match pv.base_url {
        Option::Some(u) => e.push(("baseUrl"@, JsonV::Str(u))),
        Option::None => e,
    };
    let e = match pv.api_key {
        Option::Some(u) => e.push(("apiKey"@, JsonV::Str(u))),
        Option::None => e,
    };
    let e = match pv.api {
        Option::Some(u) => e.push(("api"@, JsonV::Str(u))),
        Option::None => e,
    };
    if pv.models.len() > 0 {
        e.push(
            ("models"@, JsonV::Arr(
                Seq::new(pv.models.len(), |i: int| JsonV::Obj(live_model_entries(pv.models[i]))),
            )),
        )
    } else {
        e
    }
}

/// The providers section of the live file.
pub open spec fn live_providers_entries(ps: Seq<(Seq<char>, OpenClawProviderConfigV)>) -> EntriesV {
    Seq::new(ps.len(), |i: int| (ps[i].0, JsonV::Obj(live_provider_entries(ps[i].1))))
}

/// Everything a profile writes into the live file: an `agents` section
/// when there is a default model or any model reference, and a `models`
/// section when there are providers.
pub open spec fn overlay_entries(p: OpenClawProfileV) -> EntriesV {
    let e = Seq::<(Seq<char>, JsonV)>::empty();
    let e = if p.default_model is Some || refs_of_providers(p.providers).len() > 0 {
        e.push(
            ("agents"@, JsonV::Obj(seq![("defaults"@, JsonV::Obj(agents_defaults_entries(p)))])),
        )
    } else {
        e
    };
    if p.providers.len() > 0 {
        e.push(
            ("models"@, JsonV::Obj(
                seq![
                    ("mode"@, JsonV::Str("merge"@)),
                    ("providers"@, JsonV::Obj(live_providers_entries(p.providers))),
                ],
            )),
        )
    } else {
        e
    }
}

/// The document a profile projects onto the live file.
pub open spec fn openclaw_overlay_jv(p: OpenClawProfileV) -> JsonV {
    JsonV::Obj(overlay_entries(p))
}

/// Builds one live-file model object.
#[verifier::loop_isolation(false)]
fn live_model_to_json(m: &OpenClawModel) -> (r: Json)
    ensures
        r.jv() == JsonV::Obj(live_model_entries(m.v())),
{
    let mut es: Vec<(String, Json)> = Vec::new();
    es.push((String::from_str("id"), Json::Str(m.id.clone())));
    match &m.name {
        Option::Some(nm) => {
            es.push((String::from_str("name"), Json::Str(nm.clone())));
        },
        Option::None => {},
    }
    es.push((String::from_str("reasoning"), Json::Bool(m.reasoning)));
    if m.input.len() > 0 {
        let n = m.input.len();
        let mut arr: Vec<Json> = Vec::new();
        let mut i: usize = 0;
        while i < n
            invariant
                0 <= i <= n,
                arr@.len() == i,
                jv_seq(arr@) == str_arr(strs_v(m.input@)).take(i as int),
            decreases n - i,
        {
            let ghost arr0 = arr@;
            arr.push(Json::Str(m.input[i].clone()));
            proof {
                let ss = strs_v(m.input@);
                assert(arr@.drop_last() =~= arr0);
                assert(arr@.last().jv() == JsonV::Str(ss[i as int]));
                assert(jv_seq(arr@) =~= jv_seq(arr0).push(JsonV::Str(ss[i as int])));
                assert(str_arr(ss).take(i + 1) =~= str_arr(ss).take(i as int).push(
                    str_arr(ss)[i as int],
                ));
                assert(jv_seq(arr@) =~= str_arr(ss).take(i + 1));
            }
            i = i + 1;
        }
        proof {
            assert(str_arr(strs_v(m.input@)).take(n as int) =~= str_arr(strs_v(m.input@)));
        }
        es.push((String::from_str("input"), Json::Arr(arr)));
    }
    match m.context_window {
        Option::Some(v) => {
            es.push((String::from_str("contextWindow"), Json::Num(u32_to_string(v))));
        },
        Option::None => {},
    }
    match m.max_tokens {
        Option::Some(v) => {
            es.push((String::from_str("maxTokens"), Json::Num(u32_to_string(v))));
        },
        Option::None => {},
    }
    proof {
        lemma_jv_entries_len(es@);
        assert forall|l: int| 0 <= l < es@.len() implies jv_entries(es@)[l] == live_model_entries(
            m.v(),
        )[l] by {
            lemma_jv_entries_index(es@, l);
        }
        assert(jv_entries(es@) =~= live_model_entries(m.v()));
    }
    Json::Obj(es)
}

/// Builds one live-file provider object.
#[verifier::loop_isolation(false)]
fn live_provider_to_json(p: &OpenClawProviderConfig) -> (r: Json)
    ensures
        r.jv() == JsonV::Obj(live_provider_entries(p.v())),
{
    let mut es: Vec<(String, Json)> = Vec::new();
    match &p.base_url {
        Option::Some(u) => {
            es.push((String::from_str("baseUrl"), Json::Str(u.clone())));
        },
        Option::None => {},
    }
    match &p.api_key {
        Option::Some(u) => {
            es.push((String::from_str("apiKey"), Json::Str(u.clone())));
        },
        Option::None => {},
    }
    match &p.api {
        Option::Some(u) => {
            es.push((String::from_str("api"), Json::Str(u.clone())));
        },
        Option::None => {},
    }
    if p.models.len() > 0 {
        let n = p.models.len();
        let mut arr: Vec<Json> = Vec::new();
        let mut i: usize = 0;
        while i < n
            invariant
                0 <= i <= n,
                arr@.len() == i,
                jv_seq(arr@) == Seq::new(
                    p.v().models.len(),
                    |l: int| JsonV::Obj(live_model_entries(p.v().models[l])),
                ).take(i as int),
            decreases n - i,
        {
            let ghost arr0 = arr@;
            let mj = live_model_to_json(&p.models[i]);
            arr.push(mj);
            proof {
                let md = Seq::new(
                    p.v().models.len(),
                    |l: int| JsonV::Obj(live_model_entries(p.v().models[l])),
                );
                assert(arr@.drop_last() =~= arr0);
                assert(arr@.last().jv() == md[i as int]);
                assert(jv_seq(arr@) =~= jv_seq(arr0).push(md[i as int]));
                assert(md.take(i + 1) =~= md.take(i as int).push(md[i as int]));
                assert(jv_seq(arr@) =~= md.take(i + 1));
            }
            i = i + 1;
        }
        proof {
            let md = Seq::new(
                p.v().models.len(),
                |l: int| JsonV::Obj(live_model_entries(p.v().models[l])),
            );
            assert(md.take(n as int) =~= md);
        }
        es.push((String::from_str("models"), Json::Arr(arr)));
    }
    proof {
        lemma_jv_entries_len(es@);
        assert forall|l: int| 0 <= l < es@.len() implies jv_entries(es@)[l]
            == live_provider_entries(p.v())[l] by {
            lemma_jv_entries_index(es@, l);
        }
        assert(jv_entries(es@) =~= live_provider_entries(p.v()));
    }
    Json::Obj(es)
}

/// Builds the whole overlay document of a profile.
#[verifier::loop_isolation(false)]
pub fn build_openclaw_config(p: &OpenClawProfile) -> (r: Json)
    ensures
        r.jv() == openclaw_overlay_jv(p.v()),
{
    let np = p.providers.len();

    // Collect every provider-qualified model reference, in order.
    let mut refs: Vec<String> = Vec::new();
    let mut i: usize = 0;
    while i < np
        invariant
            0 <= i <= np,
            strs_v(refs@) == refs_of_providers(p.v().providers.take(i as int)),
        decreases np - i,
    {
        let pid = &p.providers[i].0;
        let nm = p.providers[i].1.models.len();
        let mut j: usize = 0;
        while j < nm
            invariant
                0 <= j <= nm,
                0 <= i < np,
                nm == p.providers@[i as int].1.models@.len(),
                strs_v(refs@) == refs_of_providers(p.v().providers.take(i as int))
                    + refs_of_provider(
                    p.v().providers[i as int].0,
                    p.v().providers[i as int].1.models.take(j as int),
                ),
            decreases nm - j,
        {
            let ghost refs0 = refs@;
            let mut r = pid.clone();
            r.append("/");
            r.append(p.providers[i].1.models[j].id.as_str());
            refs.push(r);
            proof {
                let pvv = p.v().providers;
                let ms = pvv[i as int].1.models;
                assert(refs@.drop_last() =~= refs0);
                assert(refs@.last()@ == model_ref(pvv[i as int].0, ms[j as int].id));
                assert(refs_of_provider(pvv[i as int].0, ms.take(j + 1)) =~= refs_of_provider(
                    pvv[i as int].0,
                    ms.take(j as int),
                ).push(model_ref(pvv[i as int].0, ms[j as int].id)));
                assert(strs_v(refs@) =~= strs_v(refs0).push(refs@.last()@));
                assert(strs_v(refs@) =~= refs_of_providers(pvv.take(i as int)) + refs_of_provider(
                    pvv[i as int].0,
                    ms.take(j + 1),
                ));
            }
            j = j + 1;
        }
        proof {
            let pvv = p.v().providers;
            let ms = pvv[i as int].1.models;
            assert(ms.take(nm as int) =~= ms);
            assert(pvv.take(i + 1).drop_last() =~= pvv.take(i as int));
            assert(pvv.take(i + 1).last() == pvv[i as int]);
            assert(strs_v(refs@) =~= refs_of_providers(pvv.take(i + 1)));
        }
        i = i + 1;
    }
    proof {
        assert(p.v().providers.take(np as int) =~= p.v().providers);
    }

    let mut es: Vec<(String, Json)> = Vec::new();
    let has_refs = refs.len() > 0;
    let has_default = match &p.default_model {
        Option::Some(_) => true,
        Option::None => false,
    };
    if has_default || has_refs {
        let mut defaults: Vec<(String, Json)> = Vec::new();
        match &p.default_model {
            Option::Some(m) => {
                let mut mo: Vec<(String, Json)> = Vec::new();
                mo.push((String::from_str("primary"), Json::Str(m.clone())));
                proof {
                    lemma_jv_entries_len(mo@);
                    lemma_jv_entries_index(mo@, 0);
                    assert(jv_entries(mo@) =~= seq![("primary"@, JsonV::Str(m@))]);
                }
                defaults.push((String::from_str("model"), Json::Obj(mo)));
            },
            Option::None => {},
        }
        if has_refs {
            let nr = refs.len();
            let mut mm: Vec<(String, Json)> = Vec::new();
            let mut l: usize = 0;
            while l < nr
                invariant
                    0 <= l <= nr,
                    mm@.len() == l,
                    nr == refs@.len(),
                    jv_entries(mm@) == refs_entries(strs_v(refs@)).take(l as int),
                decreases nr - l,
            {
                let ghost mm0 = mm@;
                let empty_obj: Vec<(String, Json)> = Vec::new();
                mm.push((refs[l].clone(), Json::Obj(empty_obj)));
                proof {
                    let re = refs_entries(strs_v(refs@));
                    assert(mm@.drop_last() =~= mm0);
                    assert((mm@.last().0@, mm@.last().1.jv()) == re[l as int]);
                    assert(jv_entries(mm@) =~= jv_entries(mm0).push(re[l as int]));
                    assert(re.take(l + 1) =~= re.take(l as int).push(re[l as int]));
                    assert(jv_entries(mm@) =~= re.take(l + 1));
                }
                l = l + 1;
            }
            proof {
                assert(refs_entries(strs_v(refs@)).take(nr as int) =~= refs_entries(
                    strs_v(refs@),
                ));
            }
            defaults.push((String::from_str("models"), Json::Obj(mm)));
        }
        proof {
            lemma_jv_entries_len(defaults@);
            assert forall|l: int| 0 <= l < defaults@.len() implies jv_entries(defaults@)[l]
                == agents_defaults_entries(p.v())[l] by {
                lemma_jv_entries_index(defaults@, l);
            }
            assert(refs_of_providers(p.v().providers).len() == strs_v(refs@).len());
            assert(jv_entries(defaults@) =~= agents_defaults_entries(p.v()));
        }
        let mut agents: Vec<(String, Json)> = Vec::new();
        agents.push((String::from_str("defaults"), Json::Obj(defaults)));
        proof {
            lemma_jv_entries_len(agents@);
            lemma_jv_entries_index(agents@, 0);
            assert(jv_entries(agents@) =~= seq![
                ("defaults"@, JsonV::Obj(agents_defaults_entries(p.v()))),
            ]);
        }
        es.push((String::from_str("agents"), Json::Obj(agents)));
    }
    if p.providers.len() > 0 {
        let mut models: Vec<(String, Json)> = Vec::new();
        models.push((String::from_str("mode"), Json::Str(String::from_str("merge"))));
        let mut provs: Vec<(String, Json)> = Vec::new();
        let mut l: usize = 0;
        while l < np
            invariant
                0 <= l <= np,
                provs@.len() == l,
                jv_entries(provs@) == live_providers_entries(p.v().providers).take(l as int),
            decreases np - l,
        {
            let ghost provs0 = provs@;
            let pj = live_provider_to_json(&p.providers[l].1);
            let k = p.providers[l].0.clone();
            provs.push((k, pj));
            proof {
                let lp = live_providers_entries(p.v().providers);
                assert(provs@.drop_last() =~= provs0);
                assert((provs@.last().0@, provs@.last().1.jv()) == lp[l as int]);
                assert(jv_entries(provs@) =~= jv_entries(provs0).push(lp[l as int]));
                assert(lp.take(l + 1) =~= lp.take(l as int).push(lp[l as int]));
                assert(jv_entries(provs@) =~= lp.take(l + 1));
            }
            l = l + 1;
        }
        proof {
            assert(live_providers_entries(p.v().providers).take(np as int)
                =~= live_providers_entries(p.v().providers));
        }
        models.push((String::from_str("providers"), Json::Obj(provs)));
        proof {
            lemma_jv_entries_len(models@);
            lemma_jv_entries_index(models@, 0);
            lemma_jv_entries_index(models@, 1);
            assert(jv_entries(models@) =~= seq![
                ("mode"@, JsonV::Str("merge"@)),
                ("providers"@, JsonV::Obj(live_providers_entries(p.v().providers))),
            ]);
        }
        es.push((String::from_str("models"), Json::Obj(models)));
    }
    proof {
        lemma_jv_entries_len(es@);
        assert forall|l: int| 0 <= l < es@.len() implies jv_entries(es@)[l] == overlay_entries(
            p.v(),
        )[l] by {
            lemma_jv_entries_index(es@, l);
        }
        assert(refs_of_providers(p.v().providers).len() == strs_v(refs@).len());
        assert(jv_entries(es@) =~= overlay_entries(p.v()));
    }
    Json::Obj(es)
}


// ---------------------------------------------------------------------------
// Reading the live configuration
// ---------------------------------------------------------------------------

/// A value read as a string, if it is one.
pub open spec fn as_str_of(v: Option<JsonV>) -> Option<Seq<char>> {
    match v {
        Option::Some(JsonV::Str(s)) => Option::Some(s),
        _ => Option::None,
    }
}

/// The strings among an array's elements, in order.
pub open spec fn keep_strs(a: Seq<JsonV>) -> Seq<Seq<char>>
    decreases a,
{
    if a.len() == 0 {
        Seq::empty()
    } else if a.last() is Str {
        keep_strs(a.drop_last()).push(a.last()->Str_0)
    } else {
        keep_strs(a.drop_last())
    }
}

/// A number read leniently: a digit text that fits sixty-four bits,
/// truncated to thirty-two.
pub open spec fn lenient_u32(v: Option<JsonV>) -> Option<u32> {
    match v {
        Option::Some(JsonV::Num(t)) => if all_digits(encode_utf8(t)) && encode_utf8(t).len() > 0
            && dec_val(encode_utf8(t)) <= u64::MAX {
            Option::Some((dec_val(encode_utf8(t)) % 0x1_0000_0000) as u32)
        } else {
            Option::None
        },
        _ => Option::None,
    }
}

/// One live-file model, read leniently: a missing id reads as empty, other
/// fields fall back to their defaults; a non-object is skipped.
pub open spec fn parsed_live_model(v: JsonV) -> Option<OpenClawModelV> {
    if v is Obj {
        let es = v->Obj_0;
        Option::Some(
            OpenClawModelV {
                id: match as_str_of(lookup(es, "id"@)) {
                    Option::Some(s) => s,
                    Option::None => Seq::empty(),
                },
                name: as_str_of(lookup(es, "name"@)),
                reasoning: match lookup(es, "reasoning"@) {
                    Option::Some(JsonV::Bool(b)) => b,
                    _ => false,
                },
                input: match lookup(es, "input"@) {
                    Option::Some(JsonV::Arr(a)) => keep_strs(a),
                    _ => Seq::empty(),
                },
                context_window: lenient_u32(lookup(es, "contextWindow"@)),
                max_tokens: lenient_u32(lookup(es, "maxTokens"@)),
            },
        )
    } else {
        Option::None
    }
}

/// The models of a live-file array, skipping non-objects.
pub open spec fn parsed_live_models(a: Seq<JsonV>) -> Seq<OpenClawModelV>
    decreases a,
{
    if a.len() == 0 {
        Seq::empty()
    } else {
        match parsed_live_model(a.last()) {
            Option::Some(m) => parsed_live_models(a.drop_last()).push(m),
            Option::None => parsed_live_models(a.drop_last()),
        }
    }
}

/// One live-file provider, read leniently; a non-object is skipped.
pub open spec fn parsed_live_provider(v: JsonV) -> Option<OpenClawProviderConfigV> {
    if v is Obj {
        let es = v->Obj_0;
        Option::Some(
            OpenClawProviderConfigV {
                base_url: as_str_of(lookup(es, "baseUrl"@)),
                api_key: as_str_of(lookup(es, "apiKey"@)),
                api: as_str_of(lookup(es, "api"@)),
                models: match lookup(es, "models"@) {
                    Option::Some(JsonV::Arr(a)) => parsed_live_models(a),
                    _ => Seq::empty(),
                },
            },
        )
    } else {
        Option::None
    }
}

/// The providers of the live file's provider object, skipping entries
/// whose value is not an object.
pub open spec fn parsed_live_providers(es: EntriesV) -> Seq<(Seq<char>, OpenClawProviderConfigV)>
    decreases es,
{
    if es.len() == 0 {
        Seq::empty()
    } else {
        match parsed_live_provider(es.last().1) {
            Option::Some(p) => parsed_live_providers(es.drop_last()).push((es.last().0, p)),
            Option::None => parsed_live_providers(es.drop_last()),
        }
    }
}

/// The default model recorded in the live file, if any.
pub open spec fn parsed_default_model(v: JsonV) -> Option<Seq<char>> {
    if v is Obj {
        match lookup(v->Obj_0, "agents"@) {
            Option::Some(JsonV::Obj(ags)) => match lookup(ags, "defaults"@) {
                Option::Some(JsonV::Obj(ds)) => match lookup(ds, "model"@) {
                    Option::Some(JsonV::Obj(ms)) => as_str_of(lookup(ms, "primary"@)),
                    _ => Option::None,
                },
                _ => Option::None,
            },
            _ => Option::None,
        }
    } else {
        Option::None
    }
}

/// The providers recorded in the live file.
pub open spec fn parsed_config_providers(v: JsonV) -> Seq<(Seq<char>, OpenClawProviderConfigV)> {
    if v is Obj {
        match lookup(v->Obj_0, "models"@) {
            Option::Some(JsonV::Obj(ms)) => match lookup(ms, "providers"@) {
                Option::Some(JsonV::Obj(ps)) => parsed_live_providers(ps),
                _ => Seq::empty(),
            },
            _ => Seq::empty(),
        }
    } else {
        Seq::empty()
    }
}

/// Reads one live-file model leniently.
#[verifier::loop_isolation(false)]
fn parse_live_model(j: &Json) -> (r: Option<OpenClawModel>)
    ensures
        match r {
            Option::Some(m) => parsed_live_model(j.jv()) == Option::Some(m.v()),
            Option::None => parsed_live_model(j.jv()) is None,
        },
{
    let es = match j {
        Json::Obj(es) => es,
        _ => {
            return Option::None;
        },
    };
    let id = match obj_get(es, &String::from_str("id")) {
        Option::Some(Json::Str(s)) => s.clone(),
        _ => String::new(),
    };
    let name = match obj_get(es, &String::from_str("name")) {
        Option::Some(Json::Str(s)) => Option::Some(s.clone()),
        _ => Option::None,
    };
    let reasoning = match obj_get(es, &String::from_str("reasoning")) {
        Option::Some(Json::Bool(b)) => *b,
        _ => false,
    };
    let input = match obj_get(es, &String::from_str("input")) {
        Option::Some(Json::Arr(a)) => {
            let n = a.len();
            let mut out: Vec<String> = Vec::new();
            let mut i: usize = 0;
            while i < n
                invariant
                    0 <= i <= n,
                    strs_v(out@) == keep_strs(jv_seq(a@).take(i as int)),
                decreases n - i,
            {
                proof {
                    lemma_jv_seq_len(a@);
                    lemma_jv_seq_index(a@, i as int);
                }
                let ghost out0 = out@;
                match &a[i] {
                    Json::Str(s) => {
                        out.push(s.clone());
                        proof {
                            assert(out@.drop_last() =~= out0);
                            assert(strs_v(out@) =~= strs_v(out0).push(out@.last()@));
                        }
                    },
                    _ => {},
                }
                proof {
                    let av = jv_seq(a@);
                    assert(av.take(i + 1).drop_last() =~= av.take(i as int));
                    assert(av.take(i + 1).last() == av[i as int]);
                    assert(strs_v(out@) =~= keep_strs(av.take(i + 1)));
                }
                i = i + 1;
            }
            proof {
                lemma_jv_seq_len(a@);
                assert(jv_seq(a@).take(n as int) =~= jv_seq(a@));
            }
            out
        },
        _ => Vec::new(),
    };
    let context_window = match obj_get(es, &String::from_str("contextWindow")) {
        Option::Some(Json::Num(t)) => {
            match parse_u64_digits(t.as_str()) {
                Option::Some(v) => {
                    let w = #[verifier::truncate] (v as u32);
                    proof {
                        assert(w as u64 == v % 0x1_0000_0000u64) by (bit_vector)
                            requires
                                w == v as u32,
                        ;
                    }
                    Option::Some(w)
                },
                Option::None => Option::None,
            }
        },
        _ => Option::None,
    };
    let max_tokens = match obj_get(es, &String::from_str("maxTokens")) {
        Option::Some(Json::Num(t)) => {
            match parse_u64_digits(t.as_str()) {
                Option::Some(v) => {
                    let w = #[verifier::truncate] (v as u32);
                    proof {
                        assert(w as u64 == v % 0x1_0000_0000u64) by (bit_vector)
                            requires
                                w == v as u32,
                        ;
                    }
                    Option::Some(w)
                },
                Option::None => Option::None,
            }
        },
        _ => Option::None,
    };
    proof {
        let esv = jv_entries(es@);
        assert(id@ == (match as_str_of(lookup(esv, "id"@)) {
            Option::Some(s) => s,
            Option::None => Seq::<char>::empty(),
        }));
        assert(opt_v(name) == as_str_of(lookup(esv, "name"@)));
        assert(reasoning == (match lookup(esv, "reasoning"@) {
            Option::Some(JsonV::Bool(b)) => b,
            _ => false,
        }));
        assert(strs_v(input@) == (match lookup(esv, "input"@) {
            Option::Some(JsonV::Arr(a)) => keep_strs(a),
            _ => Seq::<Seq<char>>::empty(),
        }));
        assert(lenient_u32(lookup(esv, "contextWindow"@)) == context_window);
        assert(lenient_u32(lookup(esv, "maxTokens"@)) == max_tokens);
    }
    Option::Some(OpenClawModel { id, name, reasoning, input, context_window, max_tokens })
}

/// Reads one live-file provider leniently.
#[verifier::loop_isolation(false)]
fn parse_live_provider(j: &Json) -> (r: Option<OpenClawProviderConfig>)
    ensures
        match r {
            Option::Some(p) => parsed_live_provider(j.jv()) == Option::Some(p.v()),
            Option::None => parsed_live_provider(j.jv()) is None,
        },
{
    let es = match j {
        Json::Obj(es) => es,
        _ => {
            return Option::None;
        },
    };
    let base_url = match obj_get(es, &String::from_str("baseUrl")) {
        Option::Some(Json::Str(s)) => Option::Some(s.clone()),
        _ => Option::None,
    };
    let api_key = match obj_get(es, &String::from_str("apiKey")) {
        Option::Some(Json::Str(s)) => Option::Some(s.clone()),
        _ => Option::None,
    };
    let api = match obj_get(es, &String::from_str("api")) {
        Option::Some(Json::Str(s)) => Option::Some(s.clone()),
        _ => Option::None,
    };
    let models = match obj_get(es, &String::from_str("models")) {
        Option::Some(Json::Arr(a)) => {
            let n = a.len();
            let mut out: Vec<OpenClawModel> = Vec::new();
            let mut i: usize = 0;
            while i < n
                invariant
                    0 <= i <= n,
                    Seq::new(out@.len(), |l: int| out@[l].v()) == parsed_live_models(
                        jv_seq(a@).take(i as int),
                    ),
                decreases n - i,
            {
                proof {
                    lemma_jv_seq_len(a@);
                    lemma_jv_seq_index(a@, i as int);
                }
                let ghost out0 = out@;
                match parse_live_model(&a[i]) {
                    Option::Some(m) => {
                        out.push(m);
                        proof {
                            assert(Seq::new(out@.len(), |l: int| out@[l].v()) =~= Seq::new(
                                out0.len(),
                                |l: int| out0[l].v(),
                            ).push(out@.last().v()));
                        }
                    },
                    Option::None => {},
                }
                proof {
                    let av = jv_seq(a@);
                    assert(av.take(i + 1).drop_last() =~= av.take(i as int));
                    assert(av.take(i + 1).last() == av[i as int]);
                    assert(Seq::new(out@.len(), |l: int| out@[l].v()) =~= parsed_live_models(
                        av.take(i + 1),
                    ));
                }
                i = i + 1;
            }
            proof {
                lemma_jv_seq_len(a@);
                assert(jv_seq(a@).take(n as int) =~= jv_seq(a@));
            }
            out
        },
        _ => Vec::new(),
    };
    proof {
        let esv = jv_entries(es@);
        assert(opt_v(base_url) == as_str_of(lookup(esv, "baseUrl"@)));
        assert(opt_v(api_key) == as_str_of(lookup(esv, "apiKey"@)));
        assert(opt_v(api) == as_str_of(lookup(esv, "api"@)));
        assert(Seq::new(models@.len(), |l: int| models@[l].v()) == (match lookup(esv, "models"@) {
            Option::Some(JsonV::Arr(a)) => parsed_live_models(a),
            _ => Seq::<OpenClawModelV>::empty(),
        }));
    }
    Option::Some(OpenClawProviderConfig { base_url, api_key, api, models })
}

/// Reads the live configuration: the default model and the providers.
#[verifier::loop_isolation(false)]
pub fn parse_openclaw_config(config: &Json) -> (r: (
    Option<String>,
    Vec<(String, OpenClawProviderConfig)>,
))
    ensures
        opt_v(r.0) == parsed_default_model(config.jv()),
        Seq::new(r.1@.len(), |i: int| (r.1@[i].0@, r.1@[i].1.v())) == parsed_config_providers(
            config.jv(),
        ),
{
    let es = match config {
        Json::Obj(es) => es,
        _ => {
            let v: Vec<(String, OpenClawProviderConfig)> = Vec::new();
            proof {
                assert(Seq::new(v@.len(), |i: int| (v@[i].0@, v@[i].1.v()))
                    =~= Seq::<(Seq<char>, OpenClawProviderConfigV)>::empty());
            }
            return (Option::None, v);
        },
    };
    let default_model = match obj_get(es, &String::from_str("agents")) {
        Option::Some(Json::Obj(ags)) => match obj_get(ags, &String::from_str("defaults")) {
            Option::Some(Json::Obj(ds)) => match obj_get(ds, &String::from_str("model")) {
                Option::Some(Json::Obj(ms)) => match obj_get(ms, &String::from_str("primary")) {
                    Option::Some(Json::Str(s)) => Option::Some(s.clone()),
                    _ => Option::None,
                },
                _ => Option::None,
            },
            _ => Option::None,
        },
        _ => Option::None,
    };
    let providers = match obj_get(es, &String::from_str("models")) {
        Option::Some(Json::Obj(ms)) => match obj_get(ms, &String::from_str("providers")) {
            Option::Some(Json::Obj(ps)) => {
                let n = ps.len();
                let mut out: Vec<(String, OpenClawProviderConfig)> = Vec::new();
                let mut i: usize = 0;
                while i < n
                    invariant
                        0 <= i <= n,
                        Seq::new(out@.len(), |l: int| (out@[l].0@, out@[l].1.v()))
                            == parsed_live_providers(jv_entries(ps@).take(i as int)),
                    decreases n - i,
                {
                    proof {
                        lemma_jv_entries_len(ps@);
                        lemma_jv_entries_index(ps@, i as int);
                    }
                    let ghost out0 = out@;
                    match parse_live_provider(&ps[i].1) {
                        Option::Some(pc) => {
                            let k = ps[i].0.clone();
                            out.push((k, pc));
                            proof {
                                assert(Seq::new(out@.len(), |l: int| (out@[l].0@, out@[l].1.v()))
                                    =~= Seq::new(
                                    out0.len(),
                                    |l: int| (out0[l].0@, out0[l].1.v()),
                                ).push((out@.last().0@, out@.last().1.v())));
                            }
                        },
                        Option::None => {},
                    }
                    proof {
                        let pv = jv_entries(ps@);
                        assert(pv.take(i + 1).drop_last() =~= pv.take(i as int));
                        assert(pv.take(i + 1).last() == pv[i as int]);
                        assert(Seq::new(out@.len(), |l: int| (out@[l].0@, out@[l].1.v()))
                            =~= parsed_live_providers(pv.take(i + 1)));
                    }
                    i = i + 1;
                }
                proof {
                    lemma_jv_entries_len(ps@);
                    assert(jv_entries(ps@).take(n as int) =~= jv_entries(ps@));
                }
                out
            },
            _ => Vec::new(),
        },
        _ => Vec::new(),
    };
    proof {
        assert(Seq::new(providers@.len(), |i: int| (providers@[i].0@, providers@[i].1.v()))
            =~= Seq::new(providers@.len(), |i: int| (providers@[i].0@, providers@[i].1.v())));
    }
    (default_model, providers)
}


// ---------------------------------------------------------------------------
// Store operations
// ---------------------------------------------------------------------------

/// What `get` yields from the content of a profile's document file.
pub open spec fn openclaw_get_of(text: Option<Seq<char>>) -> Result<OpenClawProfileV, StoreErrorV> {
    match text {
        Option::None => Result::Err(StoreErrorV::NotFound),
        Option::Some(t) => match parse_of(t) {
            Option::None => Result::Err(StoreErrorV::MalformedDocument),
            Option::Some(doc) => match openclaw_profile_of(doc) {
                Option::None => Result::Err(StoreErrorV::MalformedDocument),
                Option::Some(p) => Result::Ok(p),
            },
        },
    }
}

/// Loads one profile from its document file's content (`None` when the
/// file is absent).
pub fn get_openclaw_profile(text: Option<String>) -> (r: Result<OpenClawProfile, StoreError>)
    ensures
        match r {
            Result::Ok(p) => openclaw_get_of(view_opt(text)) == Result::<OpenClawProfileV,
                StoreErrorV,
            >::Ok(p.v()),
            Result::Err(e) => openclaw_get_of(view_opt(text)) == Result::<OpenClawProfileV,
                StoreErrorV,
            >::Err(e.v()),
        },
{
    let t = match text {
        Option::None => {
            return Result::Err(StoreError::NotFound);
        },
        Option::Some(t) => t,
    };
    let doc = match parse_json(t.as_str()) {
        Result::Ok(doc) => doc,
        Result::Err(m) => {
            return Result::Err(StoreError::MalformedDocument(m));
        },
    };
    match openclaw_profile_from_json(&doc) {
        Option::Some(p) => Result::Ok(p),
        Option::None => Result::Err(
            StoreError::MalformedDocument(String::from_str("invalid profile document")),
        ),
    }
}

/// The `createdAt` a profile keeps when saved.
pub open spec fn saved_openclaw_created(
    p: OpenClawProfileV,
    existing: Option<Seq<char>>,
    now: Seq<char>,
) -> Seq<char> {
    if trimmed_of(p.id).len() == 0 {
        now
    } else {
        match existing {
            Option::Some(t) => match parse_of(t) {
                Option::Some(doc) => match openclaw_profile_of(doc) {
                    Option::Some(old) => old.created_at,
                    Option::None => p.created_at,
                },
                Option::None => p.created_at,
            },
            Option::None => if trimmed_of(p.created_at).len() == 0 {
                now
            } else {
                p.created_at
            },
        }
    }
}

/// The record a save persists.
pub open spec fn saved_openclaw_profile(
    p: OpenClawProfileV,
    existing: Option<Seq<char>>,
    now: Seq<char>,
    fresh_id: Seq<char>,
) -> OpenClawProfileV {
    OpenClawProfileV {
        id: if trimmed_of(p.id).len() == 0 {
            fresh_id
        } else {
            p.id
        },
        created_at: saved_openclaw_created(p, existing, now),
        updated_at: now,
        ..p
    }
}

/// Saves a profile (create or update): decides the stored record and the
/// one document write that persists it.
pub fn save_openclaw_profile_with(
    home: &str,
    profile: OpenClawProfile,
    existing_text: Option<String>,
    now: String,
    fresh_id: String,
) -> (r: Result<(OpenClawProfile, FileWrite), StoreError>)
    requires
        valid_id(fresh_id@),
    ensures
        r is Ok <==> (trimmed_of(profile.id@).len() == 0 || valid_id(profile.id@)),
        r is Err ==> r->Err_0 is InvalidIdentifier,
        r is Ok ==> {
            let saved = saved_openclaw_profile(
                profile.v(),
                view_opt(existing_text),
                now@,
                fresh_id@,
            );
            &&& r->Ok_0.0.v() == saved
            &&& r->Ok_0.1.path@ == openclaw_profile_path_v(home@, saved.id)
            &&& r->Ok_0.1.bytes@ == json_text(openclaw_profile_jv(saved))
        },
{
    let mut profile = profile;
    let id_trim = str_trim(profile.id.as_str());
    if id_trim.as_str().is_empty() {
        profile.id = fresh_id;
        profile.created_at = now.clone();
    } else {
        if let Result::Err(e) = validate_profile_id(profile.id.as_str()) {
            return Result::Err(e);
        }
        match existing_text {
            Option::Some(t) => {
                match parse_json(t.as_str()) {
                    Result::Ok(doc) => match openclaw_profile_from_json(&doc) {
                        Option::Some(old) => {
                            profile.created_at = old.created_at;
                        },
                        Option::None => {},
                    },
                    Result::Err(_) => {},
                }
            },
            Option::None => {
                let created_trim = str_trim(profile.created_at.as_str());
                if created_trim.as_str().is_empty() {
                    profile.created_at = now.clone();
                }
            },
        }
    }
    profile.updated_at = now;
    let path = match get_profile_path(home, profile.id.as_str()) {
        Result::Ok(p) => p,
        Result::Err(e) => {
            return Result::Err(e);
        },
    };
    let doc = openclaw_profile_to_json(&profile);
    let bytes = json_to_bytes(&doc);
    Result::Ok((profile, FileWrite { path, bytes }))
}

/// Law: saving and then loading the saved document yields the saved
/// record — equal to the input except that `updatedAt` is refreshed (and
/// `id`/`createdAt` are assigned on first persistence).
pub proof fn lemma_openclaw_save_then_get(
    p: OpenClawProfileV,
    existing: Option<Seq<char>>,
    now: Seq<char>,
    fresh_id: Seq<char>,
)
    ensures
        ({
            let saved = saved_openclaw_profile(p, existing, now, fresh_id);
            &&& openclaw_profile_of(openclaw_profile_jv(saved)) == Option::Some(saved)
            &&& saved.updated_at == now
            &&& saved.name == p.name
            &&& saved.description == p.description
            &&& saved.default_model == p.default_model
            &&& saved.providers == p.providers
            &&& trimmed_of(p.id).len() > 0 ==> saved.id == p.id
        }),
{
    lemma_openclaw_profile_round_trip(saved_openclaw_profile(p, existing, now, fresh_id));
}

/// Deletes a profile: absence is not an error, and when the deleted id is
/// the active pointer the pointer is cleared as part of the same plan.
pub fn delete_openclaw_profile(
    home: &str,
    id: &str,
    profile_exists: bool,
    pointer_text: Option<String>,
) -> (r: Result<crate::writer::DeletePlan, StoreError>)
    ensures
        r is Ok <==> valid_id(id@),
        r is Err ==> r->Err_0 is InvalidIdentifier,
        r is Ok ==> {
            let plan = r->Ok_0;
            &&& (plan.remove_profile is Some <==> profile_exists)
            &&& plan.remove_profile is Some ==> plan.remove_profile->0@ == openclaw_profile_path_v(
                home@,
                id@,
            )
            &&& plan.clear_pointer == (pointer_of(view_opt(pointer_text)) == Option::Some(id@))
            &&& plan.pointer_path@ == openclaw_pointer_path_v(home@)
        },
{
    let path = get_profile_path(home, id)?;
    let active = crate::ids::parse_pointer(pointer_text);
    let clear_pointer = match active {
        Option::Some(a) => str_eq(a.as_str(), id),
        Option::None => false,
    };
    Result::Ok(
        crate::writer::DeletePlan {
            remove_profile: if profile_exists {
                Option::Some(path)
            } else {
                Option::None
            },
            clear_pointer,
            pointer_path: get_active_profile_path(home),
        },
    )
}

/// The record a duplicate persists: the source under a fresh id and
/// name, with both timestamps set to `now`.
pub open spec fn duplicated_openclaw_profile(
    src: OpenClawProfileV,
    new_name: Seq<char>,
    now: Seq<char>,
    fresh_id: Seq<char>,
) -> OpenClawProfileV {
    OpenClawProfileV { id: fresh_id, name: new_name, created_at: now, updated_at: now, ..src }
}

/// Duplicates a loaded profile under a fresh id and name; both timestamps
/// are set to `now`, and the source document is untouched.
pub fn duplicate_openclaw_profile_with(
    home: &str,
    text: Option<String>,
    new_name: String,
    now: String,
    fresh_id: String,
) -> (r: Result<(OpenClawProfile, FileWrite), StoreError>)
    requires
        valid_id(fresh_id@),
    ensures
        r is Ok <==> openclaw_get_of(view_opt(text)) is Ok,
        r is Ok ==> {
            let src = openclaw_get_of(view_opt(text))->Ok_0;
            let dup = duplicated_openclaw_profile(src, new_name@, now@, fresh_id@);
            &&& r->Ok_0.0.v() == dup
            &&& r->Ok_0.1.path@ == openclaw_profile_path_v(home@, fresh_id@)
            &&& r->Ok_0.1.bytes@ == json_text(openclaw_profile_jv(dup))
        },
{
    let mut profile = get_openclaw_profile(text)?;
    profile.id = fresh_id;
    profile.name = new_name;
    profile.created_at = now.clone();
    profile.updated_at = now;
    let path = match get_profile_path(home, profile.id.as_str()) {
        Result::Ok(p) => p,
        Result::Err(_) => {
            return Result::Err(StoreError::InvalidIdentifier);
        },
    };
    let doc = openclaw_profile_to_json(&profile);
    let bytes = json_to_bytes(&doc);
    Result::Ok((profile, FileWrite { path, bytes }))
}

/// The active profile id, read from the pointer file's content.
pub fn get_active_openclaw_profile_id(text: Option<String>) -> (r: Option<String>)
    ensures
        match r {
            Option::None => pointer_of(view_opt(text)) is None,
            Option::Some(id) => pointer_of(view_opt(text)) == Option::Some(id@),
        },
{
    crate::ids::parse_pointer(text)
}

// ---------------------------------------------------------------------------
// Projection
// ---------------------------------------------------------------------------

/// What the live file reads as before a merge: an empty document when the
/// file is absent; a file that does not parse aborts the apply.
pub open spec fn openclaw_live_of(text: Option<Seq<char>>) -> Result<JsonV, StoreErrorV> {
    match text {
        Option::None => Result::Ok(JsonV::Obj(Seq::empty())),
        Option::Some(t) => match parse_of(t) {
            Option::Some(doc) => Result::Ok(doc),
            Option::None => Result::Err(StoreErrorV::MalformedDocument),
        },
    }
}

/// Everything `apply` changes for this family: the one live-file write,
/// and the pointer write that comes last, only on success.
pub struct OpenClawApplyPlan {
    pub config: FileWrite,
    pub pointer: FileWrite,
}

/// Plans the projection of a stored profile onto the live OpenClaw file:
/// the stored profile's sections are deep-merged into the current live
/// document, so foreign keys survive untouched.  No plan — and so no side
/// effect at all — unless the profile and the live document both load.
pub fn apply_openclaw_profile(
    home: &str,
    id: &str,
    profile_text: Option<String>,
    live_text: Option<String>,
) -> (r: Result<OpenClawApplyPlan, StoreError>)
    ensures
        ({
            let loaded = openclaw_get_of(view_opt(profile_text));
            let live = openclaw_live_of(view_opt(live_text));
            match r {
                Result::Err(e) => match e {
                    StoreError::InvalidIdentifier => !valid_id(id@),
                    StoreError::NotFound => valid_id(id@) && profile_text is None,
                    StoreError::MalformedDocument(_) => valid_id(id@) && (loaded is Err || (loaded
                        is Ok && live is Err)),
                    _ => false,
                },
                Result::Ok(plan) => {
                    &&& valid_id(id@)
                    &&& loaded is Ok
                    &&& live is Ok
                    &&& plan.config.path@ == openclaw_config_path_v(home@)
                    &&& plan.config.bytes@ == json_text(
                        merged(live->Ok_0, openclaw_overlay_jv(loaded->Ok_0)),
                    )
                    &&& plan.pointer.path@ == openclaw_pointer_path_v(home@)
                    &&& plan.pointer.bytes@ == encode_utf8(id@)
                },
            }
        }),
{
    validate_profile_id(id)?;
    let profile = get_openclaw_profile(profile_text)?;
    let base = match live_text {
        Option::None => {
            let empty_entries: Vec<(String, Json)> = Vec::new();
            proof {
                assert(jv_entries(empty_entries@) =~= Seq::<(Seq<char>, JsonV)>::empty());
            }
            Json::Obj(empty_entries)
        },
        Option::Some(t) => match parse_json(t.as_str()) {
            Result::Ok(doc) => doc,
            Result::Err(m) => {
                return Result::Err(StoreError::MalformedDocument(m));
            },
        },
    };
    let overlay = build_openclaw_config(&profile);
    let merged_doc = deep_merge_json(base, &overlay);
    let bytes = json_to_bytes(&merged_doc);
    let config = FileWrite { path: get_openclaw_config_path(home), bytes };
    let pointer = FileWrite {
        path: get_active_profile_path(home),
        bytes: id.as_bytes_vec(),
    };
    Result::Ok(OpenClawApplyPlan { config, pointer })
}

/// Law: applying a profile never touches a foreign key of the live
/// document.  The overlay only carries the `agents` and `models`
/// sections, so every other key of the live object keeps exactly its old
/// value.
pub proof fn lemma_openclaw_apply_preserves_foreign(
    live: JsonV,
    p: OpenClawProfileV,
    k: Seq<char>,
)
    requires
        live is Obj,
        k != "agents"@,
        k != "models"@,
    ensures
        merged(live, openclaw_overlay_jv(p)) is Obj,
        lookup(merged(live, openclaw_overlay_jv(p))->Obj_0, k) == lookup(live->Obj_0, k),
{
    let os = overlay_entries(p);
    assert forall|i: int| 0 <= i < os.len() implies #[trigger] os[i].0 != k by {
        let e0 = Seq::<(Seq<char>, JsonV)>::empty();
        let e1 = if p.default_model is Some || refs_of_providers(p.providers).len() > 0 {
            e0.push(
                ("agents"@, JsonV::Obj(
                    seq![("defaults"@, JsonV::Obj(agents_defaults_entries(p)))],
                )),
            )
        } else {
            e0
        };
        assert(forall|j: int| 0 <= j < e1.len() ==> #[trigger] e1[j].0 == "agents"@);
        assert(os[i].0 == "agents"@ || os[i].0 == "models"@);
    }
    assert(!has_key(os, k));
    crate::merge::lemma_merge_preserves_foreign(live->Obj_0, os, k);
}

/// Live-file status.
pub fn get_openclaw_config_status(home: &str, config_exists: bool) -> (r: OpenClawConfigStatus)
    ensures
        r.config_exists == config_exists,
        r.config_path@ == openclaw_config_path_v(home@),
{
    OpenClawConfigStatus { config_exists, config_path: get_openclaw_config_path(home) }
}

/// What `read current` yields: an empty configuration when the live file
/// is absent; otherwise it must parse, and its sections are read
/// leniently.
pub fn read_openclaw_current_config(text: Option<String>) -> (r: Result<
    OpenClawCurrentConfig,
    StoreError,
>)
    ensures
        match r {
            Result::Ok(c) => match view_opt(text) {
                Option::None => opt_v(c.default_model) is None && c.providers@.len() == 0,
                Option::Some(t) => {
                    &&& parse_of(t) is Some
                    &&& opt_v(c.default_model) == parsed_default_model(parse_of(t)->0)
                    &&& Seq::new(
                        c.providers@.len(),
                        |i: int| (c.providers@[i].0@, c.providers@[i].1.v()),
                    ) == parsed_config_providers(parse_of(t)->0)
                },
            },
            Result::Err(e) => {
                &&& e is MalformedDocument
                &&& view_opt(text) is Some
                &&& parse_of(view_opt(text)->0) is None
            },
        },
{
    let t = match text {
        Option::None => {
            return Result::Ok(
                OpenClawCurrentConfig { default_model: Option::None, providers: Vec::new() },
            );
        },
        Option::Some(t) => t,
    };
    let doc = match parse_json(t.as_str()) {
        Result::Ok(doc) => doc,
        Result::Err(m) => {
            return Result::Err(StoreError::MalformedDocument(m));
        },
    };
    let parsed = parse_openclaw_config(&doc);
    Result::Ok(OpenClawCurrentConfig { default_model: parsed.0, providers: parsed.1 })
}


// ---------------------------------------------------------------------------
// Listing
// ---------------------------------------------------------------------------

/// The sort key of a profile: its case-folded display name, as bytes.
pub open spec fn openclaw_key(p: OpenClawProfileV) -> Seq<u8> {
    encode_utf8(lower_of(p.name))
}

/// Sorted by case-insensitive display name.
pub open spec fn openclaw_sorted(s: Seq<OpenClawProfileV>) -> bool {
    forall|l: int, m: int| 0 <= l < m < s.len() ==> lex_le(openclaw_key(s[l]), openclaw_key(s[m]))
}

/// The models of a profile vector.
pub open spec fn openclaw_vs(s: Seq<OpenClawProfile>) -> Seq<OpenClawProfileV> {
    Seq::new(s.len(), |i: int| s[i].v())
}

/// The profiles a directory listing yields.
pub open spec fn openclaw_listed(files: Seq<(Seq<char>, Seq<char>)>) -> Seq<OpenClawProfileV>
    decreases files,
{
    if files.len() == 0 {
        Seq::empty()
    } else {
        openclaw_listed(files.drop_last()) + openclaw_listed_one(files.last())
    }
}

/// The profiles one directory entry contributes.
pub open spec fn openclaw_listed_one(f: (Seq<char>, Seq<char>)) -> Seq<OpenClawProfileV> {
    if crate::codex::ends_json(f.0) {
        match parse_of(f.1) {
            Option::Some(doc) => match openclaw_profile_of(doc) {
                Option::Some(p) => seq![p],
                Option::None => Seq::empty(),
            },
            Option::None => Seq::empty(),
        }
    } else {
        Seq::empty()
    }
}

/// Inserts a profile into a vector sorted by case-folded name.
fn insert_openclaw_sorted(v: &mut Vec<OpenClawProfile>, p: OpenClawProfile, key: Vec<u8>)
    requires
        openclaw_sorted(openclaw_vs(old(v)@)),
        key@ == openclaw_key(p.v()),
    ensures
        openclaw_sorted(openclaw_vs(final(v)@)),
        openclaw_vs(final(v)@).to_multiset() == openclaw_vs(old(v)@).to_multiset().insert(p.v()),
{
    let n = v.len();
    let mut pos: usize = 0;
    while pos < n
        invariant
            0 <= pos <= n,
            n == v@.len(),
            v@ == old(v)@,
            openclaw_sorted(openclaw_vs(v@)),
            key@ == openclaw_key(p.v()),
            forall|l: int| 0 <= l < pos ==> lex_le(openclaw_key(openclaw_vs(v@)[l]), key@),
        ensures
            0 <= pos <= n,
            v@ == old(v)@,
            forall|l: int| 0 <= l < pos ==> lex_le(openclaw_key(openclaw_vs(v@)[l]), key@),
            pos < n ==> lex_le(key@, openclaw_key(openclaw_vs(v@)[pos as int])),
        decreases n - pos,
    {
        let ek = to_lowercase(v[pos].name.as_str());
        let ekb = ek.as_bytes_vec();
        proof {
            assert(ekb@ == openclaw_key(openclaw_vs(v@)[pos as int]));
        }
        if !bytes_le(&ekb, &key) {
            proof {
                lemma_lex_le_total(openclaw_key(openclaw_vs(v@)[pos as int]), key@);
            }
            break ;
        }
        pos = pos + 1;
    }
    let ghost old_vs = openclaw_vs(v@);
    let ghost posg = pos as int;
    v.insert(pos, p);
    proof {
        assert(openclaw_vs(v@) =~= old_vs.insert(posg, p.v()));
        lemma_insert_to_multiset(old_vs, posg, p.v());
        assert forall|l: int, m: int|
            0 <= l < m < openclaw_vs(v@).len() implies lex_le(
            openclaw_key(openclaw_vs(v@)[l]),
            openclaw_key(openclaw_vs(v@)[m]),
        ) by {
            let s = openclaw_vs(v@);
            if m == posg {
                if l < posg {
                    assert(s[l] == old_vs[l]);
                }
            } else if l == posg {
                assert(s[m] == old_vs[m - 1]);
                assert(posg < old_vs.len() + 1);
                assert(lex_le(key@, openclaw_key(old_vs[posg])));
                if m - 1 > posg {
                    assert(lex_le(openclaw_key(old_vs[posg]), openclaw_key(old_vs[m - 1])));
                    lemma_lex_le_trans(
                        key@,
                        openclaw_key(old_vs[posg]),
                        openclaw_key(old_vs[m - 1]),
                    );
                }
            } else if l < posg && m > posg {
                assert(s[l] == old_vs[l] && s[m] == old_vs[m - 1]);
            } else if m < posg {
                assert(s[l] == old_vs[l] && s[m] == old_vs[m]);
            } else {
                assert(s[l] == old_vs[l - 1] && s[m] == old_vs[m - 1]);
            }
        }
    }
}

/// Lists the profiles out of a directory's files, sorted by
/// case-insensitive display name; files that do not parse are skipped.
#[verifier::loop_isolation(false)]
pub fn list_openclaw_profiles(files: Vec<(String, String)>) -> (r: Vec<OpenClawProfile>)
    ensures
        openclaw_sorted(openclaw_vs(r@)),
        openclaw_vs(r@).to_multiset() == openclaw_listed(
            crate::codex::files_v(files@),
        ).to_multiset(),
{
    broadcast use vstd::seq_lib::group_to_multiset_ensures;

    let n = files.len();
    let mut out: Vec<OpenClawProfile> = Vec::new();
    let mut i: usize = 0;
    while i < n
        invariant
            0 <= i <= n,
            openclaw_sorted(openclaw_vs(out@)),
            openclaw_vs(out@).to_multiset() == openclaw_listed(
                crate::codex::files_v(files@).take(i as int),
            ).to_multiset(),
        decreases n - i,
    {
        let ghost fv = crate::codex::files_v(files@);
        if crate::codex::name_ends_json(files[i].0.as_str()) {
            match parse_json(files[i].1.as_str()) {
                Result::Ok(doc) => {
                    match openclaw_profile_from_json(&doc) {
                        Option::Some(p) => {
                            let lk = to_lowercase(p.name.as_str());
                            let key = lk.as_bytes_vec();
                            insert_openclaw_sorted(&mut out, p, key);
                        },
                        Option::None => {},
                    }
                },
                Result::Err(_) => {},
            }
        }
        proof {
            assert(fv.take(i + 1).drop_last() =~= fv.take(i as int));
            assert(fv.take(i + 1).last() == fv[i as int]);
            let one = openclaw_listed_one(fv[i as int]);
            vstd::seq_lib::lemma_multiset_commutative(openclaw_listed(fv.take(i as int)), one);
            if one.len() == 1 {
                assert(one =~= Seq::empty().push(one[0]));
                assert(one.to_multiset() =~= Multiset::empty().insert(one[0]));
            } else {
                assert(one =~= Seq::<OpenClawProfileV>::empty());
                assert(one.to_multiset() =~= Multiset::<OpenClawProfileV>::empty());
            }
            assert(openclaw_vs(out@).to_multiset() =~= openclaw_listed(
                fv.take(i + 1),
            ).to_multiset());
        }
        i = i + 1;
    }
    proof {
        assert(crate::codex::files_v(files@).take(n as int) =~= crate::codex::files_v(files@));
    }
    out
}

/// Creates the default profile: seeded from the live file when one exists
/// (which must then parse), otherwise a stock default model.
pub fn create_default_openclaw_profile(home: &str, live_text: Option<String>, now: String,
    fresh_id: String) -> (r: Result<(OpenClawProfile, FileWrite), StoreError>)
    requires
        valid_id(fresh_id@),
    ensures
        r is Ok <==> (view_opt(live_text) is None || parse_of(view_opt(live_text)->0) is Some),
        r is Err ==> r->Err_0 is MalformedDocument,
        r is Ok ==> {
            let p = r->Ok_0.0.v();
            &&& p.id == fresh_id@
            &&& p.created_at == now@
            &&& p.updated_at == now@
            &&& (match view_opt(live_text) {
                Option::None => p.default_model == Option::Some(
                    "anthropic/sonnet-4-20250514"@,
                ) && p.providers.len() == 0,
                Option::Some(t) => p.default_model == parsed_default_model(parse_of(t)->0)
                    && p.providers == parsed_config_providers(parse_of(t)->0),
            })
            &&& r->Ok_0.1.path@ == openclaw_profile_path_v(home@, fresh_id@)
            &&& r->Ok_0.1.bytes@ == json_text(openclaw_profile_jv(p))
        },
{
    let (default_model, providers) = match live_text {
        Option::None => {
            let v: Vec<(String, OpenClawProviderConfig)> = Vec::new();
            proof {
                assert(Seq::new(v@.len(), |i: int| (v@[i].0@, v@[i].1.v()))
                    =~= Seq::<(Seq<char>, OpenClawProviderConfigV)>::empty());
            }
            (Option::Some(String::from_str("anthropic/sonnet-4-20250514")), v)
        },
        Option::Some(t) => {
            let doc = match parse_json(t.as_str()) {
                Result::Ok(doc) => doc,
                Result::Err(m) => {
                    return Result::Err(StoreError::MalformedDocument(m));
                },
            };
            parse_openclaw_config(&doc)
        },
    };
    let profile = OpenClawProfile {
        id: fresh_id,
        name: String::from_str("Default"),
        description: Option::Some(String::from_str("Default OpenClaw profile")),
        created_at: now.clone(),
        updated_at: now,
        default_model,
        providers,
    };
    let path = match get_profile_path(home, profile.id.as_str()) {
        Result::Ok(p) => p,
        Result::Err(_) => {
            return Result::Err(StoreError::MalformedDocument(String::new()));
        },
    };
    let doc = openclaw_profile_to_json(&profile);
    let bytes = json_to_bytes(&doc);
    Result::Ok((profile, FileWrite { path, bytes }))
}


/// Saves a profile with a fresh timestamp and, if needed, a fresh id.
pub fn save_openclaw_profile(home: &str, profile: OpenClawProfile, existing_text: Option<String>)
    -> (r: Result<(OpenClawProfile, FileWrite), StoreError>)
    ensures
        r is Ok <==> (trimmed_of(profile.id@).len() == 0 || valid_id(profile.id@)),
        r is Err ==> r->Err_0 is InvalidIdentifier,
        r is Ok ==> (exists|now: Seq<char>, fid: Seq<char>|
            valid_id(fid) && r->Ok_0.0.v() == #[trigger] saved_openclaw_profile(
                profile.v(),
                view_opt(existing_text),
                now,
                fid,
            )),
        r is Ok ==> {
            let p = r->Ok_0.0;
            &&& r->Ok_0.1.path@ == openclaw_profile_path_v(home@, p.id@)
            &&& r->Ok_0.1.bytes@ == json_text(openclaw_profile_jv(p.v()))
            &&& p.name@ == profile.name@
            &&& p.v().providers == profile.v().providers
            &&& p.v().default_model == profile.v().default_model
        },
{
    let now = now_rfc3339();
    let fresh_id = new_uuid();
    save_openclaw_profile_with(home, profile, existing_text, now, fresh_id)
}

/// Duplicates a stored profile under a new name, stamped with the
/// current time and a fresh id.
pub fn duplicate_openclaw_profile(home: &str, text: Option<String>, new_name: String) -> (r:
    Result<(OpenClawProfile, FileWrite), StoreError>)
    ensures
        r is Ok <==> openclaw_get_of(view_opt(text)) is Ok,
        r is Ok ==> ({
            let src = openclaw_get_of(view_opt(text))->Ok_0;
            exists|now: Seq<char>, fid: Seq<char>|
                valid_id(fid) && r->Ok_0.0.v() == #[trigger] duplicated_openclaw_profile(
                    src,
                    new_name@,
                    now,
                    fid,
                )
        }),
        r is Ok ==> {
            let src = openclaw_get_of(view_opt(text))->Ok_0;
            let p = r->Ok_0.0;
            &&& p.name@ == new_name@
            &&& p.v().providers == src.providers
            &&& p.v().default_model == src.default_model
            &&& r->Ok_0.1.path@ == openclaw_profile_path_v(home@, p.id@)
            &&& r->Ok_0.1.bytes@ == json_text(openclaw_profile_jv(p.v()))
        },
{
    let now = now_rfc3339();
    let fresh_id = new_uuid();
    duplicate_openclaw_profile_with(home, text, new_name, now, fresh_id)
}

} // verus!
