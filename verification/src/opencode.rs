//! The OpenCode tool family: profile records, their document form, and the
//! projection onto the tool's two live files, both of which may use the
//! comment-tolerant variant of the document format.

use vstd::prelude::*;
use vstd::utf8::encode_utf8;
use vstd::multiset::Multiset;
use crate::err::{StoreError, StoreErrorV};
use crate::ids::{valid_id, validate_profile_id, pointer_of, view_opt};
use crate::json::{Json, JsonV, EntriesV, has_key, key_index, lookup, jv_entries, obj_get,
    obj_set, lemma_jv_entries_len,
    lemma_jv_entries_index, lemma_lookup_push};
use crate::merge::{json_clone, entries_clone};
use crate::text::{json_text, json_to_bytes, dec_chars, lemma_dec_chars_bytes,
    u32_to_string, parse_u64_digits};
use crate::trusted::{parse_of, parse_json, stripped_of, strip_ok, strip_json_comments,
    trimmed_of, str_trim, lower_of, to_lowercase};
use crate::writer::{FileWrite, WriteGroup, originals_v};
use crate::order::{lex_le, lemma_lex_le_total, lemma_lex_le_trans, bytes_le,
    lemma_insert_to_multiset, str_eq};
use crate::codex::{str_field, opt_str_field, ends_json, name_ends_json,
    files_v};
use crate::openclaw::{opt_v, u32_text_ok, opt_u32_field, as_str_of};

verus! {

broadcast use vstd::std_specs::vec::group_vec_axioms;

/// Connection options of one provider.
pub struct OpenCodeProviderOptions {
    pub base_url: Option<String>,
    pub api_key: Option<String>,
    pub timeout: Option<u32>,
    pub headers: Option<Vec<(String, String)>>,
}

/// The model of provider options.
pub struct OpenCodeProviderOptionsV {
    pub base_url: Option<Seq<char>>,
    pub api_key: Option<Seq<char>>,
    pub timeout: Option<u32>,
    pub headers: Option<Seq<(Seq<char>, Seq<char>)>>,
}

/// The views of a header list.
pub open spec fn headers_v(hs: Seq<(String, String)>) -> Seq<(Seq<char>, Seq<char>)> {
    Seq::new(hs.len(), |i: int| (hs[i].0@, hs[i].1@))
}

impl OpenCodeProviderOptions {
    /// The model of this value.
    pub open spec fn v(self) -> OpenCodeProviderOptionsV {
        OpenCodeProviderOptionsV {
            base_url: opt_v(self.base_url),
            api_key: opt_v(self.api_key),
            timeout: self.timeout,
            headers: match self.headers {
                Option::None => Option::None,
                Option::Some(hs) => Option::Some(headers_v(hs@)),
            },
        }
    }
}

/// One provider's configuration.
pub struct OpenCodeProviderConfig {
    pub npm: Option<String>,
    pub name: Option<String>,
    pub options: Option<OpenCodeProviderOptions>,
}

/// The model of a provider configuration.
pub struct OpenCodeProviderConfigV {
    pub npm: Option<Seq<char>>,
    pub name: Option<Seq<char>>,
    pub options: Option<OpenCodeProviderOptionsV>,
}

impl OpenCodeProviderConfig {
    /// The model of this value.
    pub open spec fn v(self) -> OpenCodeProviderConfigV {
        OpenCodeProviderConfigV {
            npm: opt_v(self.npm),
            name: opt_v(self.name),
            options: match self.options {
                Option::None => Option::None,
                Option::Some(o) => Option::Some(o.v()),
            },
        }
    }
}

/// A stored OpenCode profile.
pub struct OpenCodeProfile {
    pub id: String,
    pub name: String,
    pub description: Option<String>,
    pub created_at: String,
    pub updated_at: String,
    pub providers: Vec<(String, OpenCodeProviderConfig)>,
    /// The secrets document: a JSON object's entries.
    pub auth: Vec<(String, Json)>,
}

/// The model of an OpenCode profile.
pub struct OpenCodeProfileV {
    pub id: Seq<char>,
    pub name: Seq<char>,
    pub description: Option<Seq<char>>,
    pub created_at: Seq<char>,
    pub updated_at: Seq<char>,
    pub providers: Seq<(Seq<char>, OpenCodeProviderConfigV)>,
    pub auth: EntriesV,
}

impl OpenCodeProfile {
    /// The model of this profile.
    pub open spec fn v(self) -> OpenCodeProfileV {
        OpenCodeProfileV {
            id: self.id@,
            name: self.name@,
            description: opt_v(self.description),
            created_at: self.created_at@,
            updated_at: self.updated_at@,
            providers: Seq::new(
                self.providers@.len(),
                |i: int| (self.providers@[i].0@, self.providers@[i].1.v()),
            ),
            auth: jv_entries(self.auth@),
        }
    }
}

/// Live-file status of the OpenCode family.
pub struct OpenCodeConfigStatus {
    pub config_exists: bool,
    pub auth_exists: bool,
    pub config_path: String,
    pub auth_path: String,
}

/// A ready-made provider description for quick setup.
pub struct ProviderTemplate {
    pub id: String,
    pub name: String,
    pub default_base_url: Option<String>,
    pub requires_api_key: bool,
}

/// What the live OpenCode files currently hold.
pub struct OpenCodeCurrentConfig {
    pub providers: Vec<(String, OpenCodeProviderConfig)>,
    pub auth: Vec<(String, Json)>,
}

// ---------------------------------------------------------------------------
// Paths
// ---------------------------------------------------------------------------

/// The directory this library keeps OpenCode profiles under.
pub open spec fn droidgear_opencode_dir_v(home: Seq<char>) -> Seq<char> {
    home + "/.droidgear/opencode"@
}

pub fn get_droidgear_opencode_dir(home: &str) -> (r: String)
    ensures
        r@ == droidgear_opencode_dir_v(home@),
{
    let mut s = String::from_str(home);
    s.append("/.droidgear/opencode");
    s
}

/// `<home>/.droidgear/opencode/profiles`
pub open spec fn opencode_profiles_dir_v(home: Seq<char>) -> Seq<char> {
    droidgear_opencode_dir_v(home) + "/profiles"@
}

pub fn get_profiles_dir(home: &str) -> (r: String)
    ensures
        r@ == opencode_profiles_dir_v(home@),
{
    let mut s = get_droidgear_opencode_dir(home);
    s.append("/profiles");
    s
}

/// `<home>/.droidgear/opencode/active-profile.txt`
pub open spec fn opencode_pointer_path_v(home: Seq<char>) -> Seq<char> {
    droidgear_opencode_dir_v(home) + "/active-profile.txt"@
}

pub fn get_active_profile_path(home: &str) -> (r: String)
    ensures
        r@ == opencode_pointer_path_v(home@),
{
    let mut s = get_droidgear_opencode_dir(home);
    s.append("/active-profile.txt");
    s
}

/// `<home>/.config/opencode`
pub open spec fn opencode_config_dir_v(home: Seq<char>) -> Seq<char> {
    home + "/.config/opencode"@
}

pub fn get_opencode_config_dir(home: &str) -> (r: String)
    ensures
        r@ == opencode_config_dir_v(home@),
{
    let mut s = String::from_str(home);
    s.append("/.config/opencode");
    s
}

/// `<home>/.local/share/opencode`
pub open spec fn opencode_auth_dir_v(home: Seq<char>) -> Seq<char> {
    home + "/.local/share/opencode"@
}

pub fn get_opencode_auth_dir(home: &str) -> (r: String)
    ensures
        r@ == opencode_auth_dir_v(home@),
{
    let mut s = String::from_str(home);
    s.append("/.local/share/opencode");
    s
}

/// The path a live file resolves to: the comment-tolerant variant when it
/// exists, else the plain variant (also the default target for a first
/// write).
pub open spec fn resolved_config_file_v(dir: Seq<char>, base: Seq<char>, jsonc_exists: bool) -> Seq<
    char,
> {
    if jsonc_exists {
        dir + "/"@ + base + ".jsonc"@
    } else {
        dir + "/"@ + base + ".json"@
    }
}

/// Resolves a live file's path, preferring the comment-tolerant variant
/// when it exists.
pub fn resolve_config_file(dir: &str, base: &str, jsonc_exists: bool) -> (r: String)
    ensures
        r@ == resolved_config_file_v(dir@, base@, jsonc_exists),
{
    let mut s = String::from_str(dir);
    s.append("/");
    s.append(base);
    if jsonc_exists {
        s.append(".jsonc");
    } else {
        s.append(".json");
    }
    s
}

/// The resolved live configuration file path.
pub fn get_opencode_config_path(home: &str, jsonc_exists: bool) -> (r: String)
    ensures
        r@ == resolved_config_file_v(opencode_config_dir_v(home@), "opencode"@, jsonc_exists),
{
    let dir = get_opencode_config_dir(home);
    resolve_config_file(dir.as_str(), "opencode", jsonc_exists)
}

/// The resolved live secrets file path.
pub fn get_opencode_auth_path(home: &str, jsonc_exists: bool) -> (r: String)
    ensures
        r@ == resolved_config_file_v(opencode_auth_dir_v(home@), "auth"@, jsonc_exists),
{
    let dir = get_opencode_auth_dir(home);
    resolve_config_file(dir.as_str(), "auth", jsonc_exists)
}

/// The document path of one profile.
pub open spec fn opencode_profile_path_v(home: Seq<char>, id: Seq<char>) -> Seq<char> {
    opencode_profiles_dir_v(home) + "/"@ + id + ".json"@
}

/// Path of a profile's document; rejects filename-unsafe ids before any
/// path is formed.
pub fn get_profile_path(home: &str, id: &str) -> (r: Result<String, StoreError>)
    ensures
        r is Ok <==> valid_id(id@),
        r is Ok ==> r->Ok_0@ == opencode_profile_path_v(home@, id@),
        r is Err ==> r->Err_0 is InvalidIdentifier,
{
    validate_profile_id(id)?;
    let mut s = get_profiles_dir(home);
    s.append("/");
    s.append(id);
    s.append(".json");
    Ok(s)
}


// ---------------------------------------------------------------------------
// Document form
// ---------------------------------------------------------------------------

/// Header pairs as document entries.
pub open spec fn headers_entries(hs: Seq<(Seq<char>, Seq<char>)>) -> EntriesV {
    Seq::new(hs.len(), |i: int| (hs[i].0, JsonV::Str(hs[i].1)))
}

/// The document entries of provider options, in the order written.
pub open spec fn options_entries(o: OpenCodeProviderOptionsV) -> EntriesV {
    let e = Seq::<(Seq<char>, JsonV)>::empty();
    let e = match o.base_url {
        Option::Some(u) => e.push(("baseUrl"@, JsonV::Str(u))),
        Option::None => e,
    };
    let e = match o.api_key {
        Option::Some(u) => e.push(("apiKey"@, JsonV::Str(u))),
        Option::None => e,
    };
    let e = match o.timeout {
        Option::Some(t) => e.push(("timeout"@, JsonV::Num(dec_chars(t as nat)))),
        Option::None => e,
    };
    match o.headers {
        Option::Some(hs) => e.push(("headers"@, JsonV::Obj(headers_entries(hs)))),
        Option::None => e,
    }
}

/// An optional object-of-strings field: absent or null is an accepted
/// absence; every value present must be a string.
pub open spec fn opt_headers_field(es: EntriesV, k: Seq<char>) -> Option<
    Option<Seq<(Seq<char>, Seq<char>)>>,
> {
    match lookup(es, k) {
        Option::None => Option::Some(Option::None),
        Option::Some(JsonV::Null) => Option::Some(Option::None),
        Option::Some(JsonV::Obj(hs)) => if forall|i: int| 0 <= i < hs.len() ==> hs[i].1 is Str {
            Option::Some(Option::Some(Seq::new(hs.len(), |i: int| (hs[i].0, hs[i].1->Str_0))))
        } else {
            Option::None
        },
        _ => Option::None,
    }
}

/// What a document means as provider options.
pub open spec fn options_of(v: JsonV) -> Option<OpenCodeProviderOptionsV> {
    if !(v is Obj) {
        Option::None
    } else {
        let es = v->Obj_0;
        if opt_str_field(es, "baseUrl"@) is Some && opt_str_field(es, "apiKey"@) is Some
            && opt_u32_field(es, "timeout"@) is Some && opt_headers_field(es, "headers"@)
            is Some {
            Option::Some(
                OpenCodeProviderOptionsV {
                    base_url: opt_str_field(es, "baseUrl"@)->0,
                    api_key: opt_str_field(es, "apiKey"@)->0,
                    timeout: opt_u32_field(es, "timeout"@)->0,
                    headers: opt_headers_field(es, "headers"@)->0,
                },
            )
        } else {
            Option::None
        }
    }
}

/// Builds the document of provider options.
#[verifier::loop_isolation(false)]
pub fn options_to_json(o: &OpenCodeProviderOptions) -> (r: Json)
    ensures
        r.jv() == JsonV::Obj(options_entries(o.v())),
{
    let mut es: Vec<(String, Json)> = Vec::new();
    match &o.base_url {
        Option::Some(u) => {
            es.push((String::from_str("baseUrl"), Json::Str(u.clone())));
        },
        Option::None => {},
    }
    match &o.api_key {
        Option::Some(u) => {
            es.push((String::from_str("apiKey"), Json::Str(u.clone())));
        },
        Option::None => {},
    }
    match o.timeout {
        Option::Some(t) => {
            es.push((String::from_str("timeout"), Json::Num(u32_to_string(t))));
        },
        Option::None => {},
    }
    match &o.headers {
        Option::Some(hs) => {
            let n = hs.len();
            let mut hv: Vec<(String, Json)> = Vec::new();
            let mut i: usize = 0;
            while i < n
                invariant
                    0 <= i <= n,
                    hv@.len() == i,
                    jv_entries(hv@) == headers_entries(headers_v(hs@)).take(i as int),
                decreases n - i,
            {
                let ghost hv0 = hv@;
                hv.push((hs[i].0.clone(), Json::Str(hs[i].1.clone())));
                proof {
                    let he = headers_entries(headers_v(hs@));
                    assert(hv@.drop_last() =~= hv0);
                    assert((hv@.last().0@, hv@.last().1.jv()) == he[i as int]);
                    assert(jv_entries(hv@) =~= jv_entries(hv0).push(he[i as int]));
                    assert(he.take(i + 1) =~= he.take(i as int).push(he[i as int]));
                    assert(jv_entries(hv@) =~= he.take(i + 1));
                }
                i = i + 1;
            }
            proof {
                assert(headers_entries(headers_v(hs@)).take(n as int) =~= headers_entries(
                    headers_v(hs@),
                ));
            }
            es.push((String::from_str("headers"), Json::Obj(hv)));
        },
        Option::None => {},
    }
    proof {
        lemma_jv_entries_len(es@);
        assert forall|l: int| 0 <= l < es@.len() implies jv_entries(es@)[l] == options_entries(
            o.v(),
        )[l] by {
            lemma_jv_entries_index(es@, l);
        }
        assert(jv_entries(es@) =~= options_entries(o.v()));
    }
    Json::Obj(es)
}

/// Reads provider options out of their document.
#[verifier::loop_isolation(false)]
pub fn options_from_json(j: &Json) -> (r: Option<OpenCodeProviderOptions>)
    ensures
        match r {
            Option::Some(o) => options_of(j.jv()) == Option::Some(o.v()),
            Option::None => options_of(j.jv()) is None,
        },
{
    let es = match j {
        Json::Obj(es) => es,
        _ => {
            return Option::None;
        },
    };
    let base_url = match obj_get(es, &String::from_str("baseUrl")) {
        Option::None => Option::None,
        Option::Some(Json::Null) => Option::None,
        Option::Some(Json::Str(s)) => Option::Some(s.clone()),
        _ => {
            return Option::None;
        },
    };
    let api_key = match obj_get(es, &String::from_str("apiKey")) {
        Option::None => Option::None,
        Option::Some(Json::Null) => Option::None,
        Option::Some(Json::Str(s)) => Option::Some(s.clone()),
        _ => {
            return Option::None;
        },
    };
    let timeout = match obj_get(es, &String::from_str("timeout")) {
        Option::None => Option::None,
        Option::Some(Json::Null) => Option::None,
        Option::Some(Json::Num(t)) => {
            match parse_u64_digits(t.as_str()) {
                Option::Some(v) => {
                    if v <= 0xffff_ffffu64 {
                        Option::Some(v as u32)
                    } else {
                        return Option::None;
                    }
                },
                Option::None => {
                    return Option::None;
                },
            }
        },
        _ => {
            return Option::None;
        },
    };
    let headers = match obj_get(es, &String::from_str("headers")) {
        Option::None => Option::None,
        Option::Some(Json::Null) => Option::None,
        Option::Some(Json::Obj(hs)) => {
            let n = hs.len();
            let mut out: Vec<(String, String)> = Vec::new();
            let mut i: usize = 0;
            while i < n
                invariant
                    0 <= i <= n,
                    out@.len() == i,
                    forall|l: int| 0 <= l < i ==> jv_entries(hs@)[l].1 is Str,
                    headers_v(out@) == Seq::new(
                        i as nat,
                        |l: int| (jv_entries(hs@)[l].0, jv_entries(hs@)[l].1->Str_0),
                    ),
                decreases n - i,
            {
                proof {
                    lemma_jv_entries_len(hs@);
                    lemma_jv_entries_index(hs@, i as int);
                }
                match &hs[i].1 {
                    Json::Str(s) => {
                        let ghost out0 = out@;
                        out.push((hs[i].0.clone(), s.clone()));
                        proof {
                            assert(out@.drop_last() =~= out0);
                            assert forall|l: int| 0 <= l < i + 1 implies (#[trigger] out@[l]).0@
                                == jv_entries(hs@)[l].0 && out@[l].1@ == jv_entries(
                                hs@,
                            )[l].1->Str_0 by {
                                if l < i {
                                    assert(out@[l] == out0[l]);
                                    assert(headers_v(out0)[l] == (out0[l].0@, out0[l].1@));
                                    assert(Seq::new(
                                        i as nat,
                                        |ll: int| (jv_entries(hs@)[ll].0, jv_entries(
                                            hs@,
                                        )[ll].1->Str_0),
                                    )[l] == (jv_entries(hs@)[l].0, jv_entries(hs@)[l].1->Str_0));
                                } else {
                                    lemma_jv_entries_index(hs@, l);
                                }
                            }
                            assert(headers_v(out@) =~= Seq::new(
                                (i + 1) as nat,
                                |l: int| (jv_entries(hs@)[l].0, jv_entries(hs@)[l].1->Str_0),
                            ));
                        }
                    },
                    _ => {
                        proof {
                            lemma_jv_entries_len(hs@);
                            assert(!(jv_entries(hs@)[i as int].1 is Str));
                        }
                        return Option::None;
                    },
                }
                i = i + 1;
            }
            proof {
                lemma_jv_entries_len(hs@);
                assert(headers_v(out@) =~= Seq::new(
                    jv_entries(hs@).len(),
                    |l: int| (jv_entries(hs@)[l].0, jv_entries(hs@)[l].1->Str_0),
                ));
            }
            Option::Some(out)
        },
        _ => {
            return Option::None;
        },
    };
    proof {
        let esv = jv_entries(es@);
        assert(opt_str_field(esv, "baseUrl"@) == Option::Some(opt_v(base_url)));
        assert(opt_str_field(esv, "apiKey"@) == Option::Some(opt_v(api_key)));
        assert(opt_u32_field(esv, "timeout"@) == Option::Some(timeout));
        assert(opt_headers_field(esv, "headers"@) == Option::Some(match headers {
            Option::None => Option::None,
            Option::Some(hs) => Option::Some(headers_v(hs@)),
        }));
    }
    Option::Some(OpenCodeProviderOptions { base_url, api_key, timeout, headers })
}

/// Options documents always read back as exactly those options.
pub proof fn lemma_options_round_trip(o: OpenCodeProviderOptionsV)
    ensures
        options_of(JsonV::Obj(options_entries(o))) == Option::Some(o),
{
    reveal_strlit("baseUrl");
    reveal_strlit("apiKey");
    reveal_strlit("timeout");
    reveal_strlit("headers");
    assert("baseUrl"@.len() == 7);
    assert("apiKey"@.len() == 6);
    assert("timeout"@.len() == 7);
    assert("headers"@.len() == 7);
    assert("baseUrl"@[0] == 'b' && "timeout"@[0] == 't' && "headers"@[0] == 'h');
    assert("baseUrl"@ != "timeout"@ && "baseUrl"@ != "headers"@ && "timeout"@ != "headers"@);
    let e0 = Seq::<(Seq<char>, JsonV)>::empty();
    let e1 = match o.base_url {
        Option::Some(u) => e0.push(("baseUrl"@, JsonV::Str(u))),
        Option::None => e0,
    };
    let e2 = match o.api_key {
        Option::Some(u) => e1.push(("apiKey"@, JsonV::Str(u))),
        Option::None => e1,
    };
    let e3 = match o.timeout {
        Option::Some(t) => e2.push(("timeout"@, JsonV::Num(dec_chars(t as nat)))),
        Option::None => e2,
    };
    let e4 = match o.headers {
        Option::Some(hs) => e3.push(("headers"@, JsonV::Obj(headers_entries(hs)))),
        Option::None => e3,
    };
    assert(options_entries(o) == e4);
    lemma_options_track(e0, e1, e2, e3, e4, o, "baseUrl"@);
    lemma_options_track(e0, e1, e2, e3, e4, o, "apiKey"@);
    lemma_options_track(e0, e1, e2, e3, e4, o, "timeout"@);
    lemma_options_track(e0, e1, e2, e3, e4, o, "headers"@);
    match o.timeout {
        Option::Some(t) => {
            lemma_dec_chars_bytes(t as nat);
            assert(u32_text_ok(dec_chars(t as nat)));
        },
        Option::None => {},
    }
    match o.headers {
        Option::Some(hs) => {
            let he = headers_entries(hs);
            assert(forall|i: int| 0 <= i < he.len() ==> he[i].1 is Str);
            assert(Seq::new(he.len(), |i: int| (he[i].0, he[i].1->Str_0)) =~= hs);
        },
        Option::None => {},
    }
}

/// Follows each key through the pushes that build an options document.
proof fn lemma_options_track(
    e0: EntriesV,
    e1: EntriesV,
    e2: EntriesV,
    e3: EntriesV,
    e4: EntriesV,
    o: OpenCodeProviderOptionsV,
    k: Seq<char>,
)
    requires
        e0 == Seq::<(Seq<char>, JsonV)>::empty(),
        e1 == (match o.base_url {
            Option::Some(u) => e0.push(("baseUrl"@, JsonV::Str(u))),
            Option::None => e0,
        }),
        e2 == (match o.api_key {
            Option::Some(u) => e1.push(("apiKey"@, JsonV::Str(u))),
            Option::None => e1,
        }),
        e3 == (match o.timeout {
            Option::Some(t) => e2.push(("timeout"@, JsonV::Num(dec_chars(t as nat)))),
            Option::None => e2,
        }),
        e4 == (match o.headers {
            Option::Some(hs) => e3.push(("headers"@, JsonV::Obj(headers_entries(hs)))),
            Option::None => e3,
        }),
        "baseUrl"@ != "apiKey"@ && "baseUrl"@ != "timeout"@ && "baseUrl"@ != "headers"@,
        "apiKey"@ != "timeout"@ && "apiKey"@ != "headers"@,
        "timeout"@ != "headers"@,
        k == "baseUrl"@ || k == "apiKey"@ || k == "timeout"@ || k == "headers"@,
    ensures
        lookup(e4, k) == (if k == "baseUrl"@ {
            match o.base_url {
                Option::Some(u) => Option::Some(JsonV::Str(u)),
                Option::None => Option::None,
            }
        } else if k == "apiKey"@ {
            match o.api_key {
                Option::Some(u) => Option::Some(JsonV::Str(u)),
                Option::None => Option::None,
            }
        } else if k == "timeout"@ {
            match o.timeout {
                Option::Some(t) => Option::Some(JsonV::Num(dec_chars(t as nat))),
                Option::None => Option::None,
            }
        } else {
            match o.headers {
                Option::Some(hs) => Option::Some(JsonV::Obj(headers_entries(hs))),
                Option::None => Option::None,
            }
        }),
{
    match o.base_url {
        Option::Some(u) => {
            lemma_lookup_push(e0, ("baseUrl"@, JsonV::Str(u)), k);
        },
        Option::None => {},
    }
    match o.api_key {
        Option::Some(u) => {
            lemma_lookup_push(e1, ("apiKey"@, JsonV::Str(u)), k);
        },
        Option::None => {},
    }
    match o.timeout {
        Option::Some(t) => {
            lemma_lookup_push(e2, ("timeout"@, JsonV::Num(dec_chars(t as nat))), k);
        },
        Option::None => {},
    }
    match o.headers {
        Option::Some(hs) => {
            lemma_lookup_push(e3, ("headers"@, JsonV::Obj(headers_entries(hs))), k);
        },
        Option::None => {},
    }
}


/// The document entries of one provider, in the order written.
pub open spec fn oc_provider_entries(p: OpenCodeProviderConfigV) -> EntriesV {
    let e = Seq::<(Seq<char>, JsonV)>::empty();
    let e = match p.npm {
        Option::Some(u) => e.push(("npm"@, JsonV::Str(u))),
        Option::None => e,
    };
    let e = match p.name {
        Option::Some(u) => e.push(("name"@, JsonV::Str(u))),
        Option::None => e,
    };
    match p.options {
        Option::Some(o) => e.push(("options"@, JsonV::Obj(options_entries(o)))),
        Option::None => e,
    }
}

/// What a document means as a provider.
pub open spec fn oc_provider_of(v: JsonV) -> Option<OpenCodeProviderConfigV> {
    if !(v is Obj) {
        Option::None
    } else {
        let es = v->Obj_0;
        let options = match lookup(es, "options"@) {
            Option::None => Option::Some(Option::None),
            Option::Some(JsonV::Null) => Option::Some(Option::None),
            Option::Some(o) => match options_of(o) {
                Option::Some(ov) => Option::Some(Option::Some(ov)),
                Option::None => Option::None,
            },
        };
        if opt_str_field(es, "npm"@) is Some && opt_str_field(es, "name"@) is Some && options
            is Some {
            Option::Some(
                OpenCodeProviderConfigV {
                    npm: opt_str_field(es, "npm"@)->0,
                    name: opt_str_field(es, "name"@)->0,
                    options: options->0,
                },
            )
        } else {
            Option::None
        }
    }
}

/// Builds the document of one provider.
pub fn oc_provider_to_json(p: &OpenCodeProviderConfig) -> (r: Json)
    ensures
        r.jv() == JsonV::Obj(oc_provider_entries(p.v())),
{
    let mut es: Vec<(String, Json)> = Vec::new();
    match &p.npm {
        Option::Some(u) => {
            es.push((String::from_str("npm"), Json::Str(u.clone())));
        },
        Option::None => {},
    }
    match &p.name {
        Option::Some(u) => {
            es.push((String::from_str("name"), Json::Str(u.clone())));
        },
        Option::None => {},
    }
    match &p.options {
        Option::Some(o) => {
            es.push((String::from_str("options"), options_to_json(o)));
        },
        Option::None => {},
    }
    proof {
        lemma_jv_entries_len(es@);
        assert forall|l: int| 0 <= l < es@.len() implies jv_entries(es@)[l] == oc_provider_entries(
            p.v(),
        )[l] by {
            lemma_jv_entries_index(es@, l);
        }
        assert(jv_entries(es@) =~= oc_provider_entries(p.v()));
    }
    Json::Obj(es)
}

/// Reads a provider out of its document.
pub fn oc_provider_from_json(j: &Json) -> (r: Option<OpenCodeProviderConfig>)
    ensures
        match r {
            Option::Some(p) => oc_provider_of(j.jv()) == Option::Some(p.v()),
            Option::None => oc_provider_of(j.jv()) is None,
        },
{
    let es = match j {
        Json::Obj(es) => es,
        _ => {
            return Option::None;
        },
    };
    let npm = match obj_get(es, &String::from_str("npm")) {
        Option::None => Option::None,
        Option::Some(Json::Null) => Option::None,
        Option::Some(Json::Str(s)) => Option::Some(s.clone()),
        _ => {
            return Option::None;
        },
    };
    let name = match obj_get(es, &String::from_str("name")) {
        Option::None => Option::None,
        Option::Some(Json::Null) => Option::None,
        Option::Some(Json::Str(s)) => Option::Some(s.clone()),
        _ => {
            return Option::None;
        },
    };
    let options = match obj_get(es, &String::from_str("options")) {
        Option::None => Option::None,
        Option::Some(Json::Null) => Option::None,
        Option::Some(o) => match options_from_json(o) {
            Option::Some(ov) => Option::Some(ov),
            Option::None => {
                return Option::None;
            },
        },
    };
    proof {
        let esv = jv_entries(es@);
        assert(opt_str_field(esv, "npm"@) == Option::Some(opt_v(npm)));
        assert(opt_str_field(esv, "name"@) == Option::Some(opt_v(name)));
    }
    Option::Some(OpenCodeProviderConfig { npm, name, options })
}

/// A provider document always reads back as exactly that provider.
pub proof fn lemma_oc_provider_round_trip(p: OpenCodeProviderConfigV)
    ensures
        oc_provider_of(JsonV::Obj(oc_provider_entries(p))) == Option::Some(p),
{
    reveal_strlit("npm");
    reveal_strlit("name");
    reveal_strlit("options");
    assert("npm"@.len() == 3);
    assert("name"@.len() == 4);
    assert("options"@.len() == 7);
    let e0 = Seq::<(Seq<char>, JsonV)>::empty();
    let e1 = match p.npm {
        Option::Some(u) => e0.push(("npm"@, JsonV::Str(u))),
        Option::None => e0,
    };
    let e2 = match p.name {
        Option::Some(u) => e1.push(("name"@, JsonV::Str(u))),
        Option::None => e1,
    };
    let e3 = match p.options {
        Option::Some(o) => e2.push(("options"@, JsonV::Obj(options_entries(o)))),
        Option::None => e2,
    };
    assert(oc_provider_entries(p) == e3);
    lemma_oc_provider_track(e0, e1, e2, e3, p, "npm"@);
    lemma_oc_provider_track(e0, e1, e2, e3, p, "name"@);
    lemma_oc_provider_track(e0, e1, e2, e3, p, "options"@);
    match p.options {
        Option::Some(o) => {
            lemma_options_round_trip(o);
            assert(!(JsonV::Obj(options_entries(o)) is Null));
        },
        Option::None => {},
    }
}

/// Follows each key through the pushes that build a provider document.
proof fn lemma_oc_provider_track(
    e0: EntriesV,
    e1: EntriesV,
    e2: EntriesV,
    e3: EntriesV,
    p: OpenCodeProviderConfigV,
    k: Seq<char>,
)
    requires
        e0 == Seq::<(Seq<char>, JsonV)>::empty(),
        e1 == (match p.npm {
            Option::Some(u) => e0.push(("npm"@, JsonV::Str(u))),
            Option::None => e0,
        }),
        e2 == (match p.name {
            Option::Some(u) => e1.push(("name"@, JsonV::Str(u))),
            Option::None => e1,
        }),
        e3 == (match p.options {
            Option::Some(o) => e2.push(("options"@, JsonV::Obj(options_entries(o)))),
            Option::None => e2,
        }),
        "npm"@ != "name"@ && "npm"@ != "options"@ && "name"@ != "options"@,
        k == "npm"@ || k == "name"@ || k == "options"@,
    ensures
        lookup(e3, k) == (if k == "npm"@ {
            match p.npm {
                Option::Some(u) => Option::Some(JsonV::Str(u)),
                Option::None => Option::None,
            }
        } else if k == "name"@ {
            match p.name {
                Option::Some(u) => Option::Some(JsonV::Str(u)),
                Option::None => Option::None,
            }
        } else {
            match p.options {
                Option::Some(o) => Option::Some(JsonV::Obj(options_entries(o))),
                Option::None => Option::None,
            }
        }),
{
    match p.npm {
        Option::Some(u) => {
            lemma_lookup_push(e0, ("npm"@, JsonV::Str(u)), k);
        },
        Option::None => {},
    }
    match p.name {
        Option::Some(u) => {
            lemma_lookup_push(e1, ("name"@, JsonV::Str(u)), k);
        },
        Option::None => {},
    }
    match p.options {
        Option::Some(o) => {
            lemma_lookup_push(e2, ("options"@, JsonV::Obj(options_entries(o))), k);
        },
        Option::None => {},
    }
}


/// The provider entries of a profile document.
pub open spec fn oc_providers_docs(ps: Seq<(Seq<char>, OpenCodeProviderConfigV)>) -> EntriesV {
    Seq::new(ps.len(), |i: int| (ps[i].0, JsonV::Obj(oc_provider_entries(ps[i].1))))
}

/// What an entry list means as a provider map: every value must read as a
/// provider.
pub open spec fn oc_providers_of_entries(es: EntriesV) -> Option<
    Seq<(Seq<char>, OpenCodeProviderConfigV)>,
>
    decreases es,
{
    if es.len() == 0 {
        Option::Some(Seq::empty())
    } else {
        match (oc_providers_of_entries(es.drop_last()), oc_provider_of(es.last().1)) {
            (Option::Some(ps), Option::Some(p)) => Option::Some(ps.push((es.last().0, p))),
            _ => Option::None,
        }
    }
}

/// A failed prefix never recovers.
pub proof fn lemma_oc_providers_none_extends(es: EntriesV, k: int)
    requires
        0 <= k <= es.len(),
        oc_providers_of_entries(es.take(k)) is None,
    ensures
        oc_providers_of_entries(es) is None,
    decreases es.len() - k,
{
    if k < es.len() {
        assert(es.take(k + 1).drop_last() =~= es.take(k));
        lemma_oc_providers_none_extends(es, k + 1);
    } else {
        assert(es.take(k) =~= es);
    }
}

/// A list of provider documents always reads back as exactly those
/// providers.
pub proof fn lemma_oc_providers_docs_round_trip(ps: Seq<(Seq<char>, OpenCodeProviderConfigV)>)
    ensures
        oc_providers_of_entries(oc_providers_docs(ps)) == Option::Some(ps),
    decreases ps,
{
    if ps.len() == 0 {
        assert(oc_providers_docs(ps).len() == 0);
    } else {
        assert(oc_providers_docs(ps).drop_last() =~= oc_providers_docs(ps.drop_last()));
        lemma_oc_providers_docs_round_trip(ps.drop_last());
        lemma_oc_provider_round_trip(ps.last().1);
        assert(oc_providers_docs(ps).last() == (ps.last().0, JsonV::Obj(oc_provider_entries(
            ps.last().1,
        ))));
        assert(ps.drop_last().push(ps.last()) =~= ps);
    }
}

/// The entries of a profile's document, in the order they are written.
pub open spec fn opencode_profile_entries(p: OpenCodeProfileV) -> EntriesV {
    let e = seq![("id"@, JsonV::Str(p.id)), ("name"@, JsonV::Str(p.name))];
    let e = match p.description {
        Option::Some(d) => e.push(("description"@, JsonV::Str(d))),
        Option::None => e,
    };
    let e = e.push(("createdAt"@, JsonV::Str(p.created_at)));
    let e = e.push(("updatedAt"@, JsonV::Str(p.updated_at)));
    let e = e.push(("providers"@, JsonV::Obj(oc_providers_docs(p.providers))));
    e.push(("auth"@, JsonV::Obj(p.auth)))
}

/// The document a profile is persisted as.
pub open spec fn opencode_profile_jv(p: OpenCodeProfileV) -> JsonV {
    JsonV::Obj(opencode_profile_entries(p))
}

/// What a document means as a profile.
pub open spec fn opencode_profile_of(v: JsonV) -> Option<OpenCodeProfileV> {
    if !(v is Obj) {
        Option::None
    } else {
        let es = v->Obj_0;
        let providers = match lookup(es, "providers"@) {
            Option::Some(JsonV::Obj(o)) => oc_providers_of_entries(o),
            _ => Option::None,
        };
        let auth = match lookup(es, "auth"@) {
            Option::Some(JsonV::Obj(a)) => Option::Some(a),
            _ => Option::None,
        };
        if str_field(es, "id"@) is Some && str_field(es, "name"@) is Some && opt_str_field(
            es,
            "description"@,
        ) is Some && str_field(es, "createdAt"@) is Some && str_field(es, "updatedAt"@) is Some
            && providers is Some && auth is Some {
            Option::Some(
                OpenCodeProfileV {
                    id: str_field(es, "id"@)->0,
                    name: str_field(es, "name"@)->0,
                    description: opt_str_field(es, "description"@)->0,
                    created_at: str_field(es, "createdAt"@)->0,
                    updated_at: str_field(es, "updatedAt"@)->0,
                    providers: providers->0,
                    auth: auth->0,
                },
            )
        } else {
            Option::None
        }
    }
}

/// Builds the document of a profile.
#[verifier::loop_isolation(false)]
pub fn opencode_profile_to_json(p: &OpenCodeProfile) -> (r: Json)
    ensures
        r.jv() == opencode_profile_jv(p.v()),
{
    let mut es: Vec<(String, Json)> = Vec::new();
    es.push((String::from_str("id"), Json::Str(p.id.clone())));
    es.push((String::from_str("name"), Json::Str(p.name.clone())));
    match &p.description {
        Option::Some(d) => {
            es.push((String::from_str("description"), Json::Str(d.clone())));
        },
        Option::None => {},
    }
    es.push((String::from_str("createdAt"), Json::Str(p.created_at.clone())));
    es.push((String::from_str("updatedAt"), Json::Str(p.updated_at.clone())));
    let n = p.providers.len();
    let mut pes: Vec<(String, Json)> = Vec::new();
    let mut i: usize = 0;
    while i < n
        invariant
            0 <= i <= n,
            pes@.len() == i,
            jv_entries(pes@) == oc_providers_docs(p.v().providers).take(i as int),
        decreases n - i,
    {
        let ghost pes0 = pes@;
        let pj = oc_provider_to_json(&p.providers[i].1);
        let k = p.providers[i].0.clone();
        pes.push((k, pj));
        proof {
            let pd = oc_providers_docs(p.v().providers);
            assert(pes@.drop_last() =~= pes0);
            assert((pes@.last().0@, pes@.last().1.jv()) == pd[i as int]);
            assert(jv_entries(pes@) =~= jv_entries(pes0).push(pd[i as int]));
            assert(pd.take(i + 1) =~= pd.take(i as int).push(pd[i as int]));
            assert(jv_entries(pes@) =~= pd.take(i + 1));
        }
        i = i + 1;
    }
    proof {
        assert(oc_providers_docs(p.v().providers).take(n as int) =~= oc_providers_docs(
            p.v().providers,
        ));
    }
    es.push((String::from_str("providers"), Json::Obj(pes)));
    es.push((String::from_str("auth"), Json::Obj(entries_clone(&p.auth))));
    proof {
        lemma_jv_entries_len(es@);
        assert forall|l: int| 0 <= l < es@.len() implies jv_entries(es@)[l]
            == opencode_profile_entries(p.v())[l] by {
            lemma_jv_entries_index(es@, l);
        }
        assert(jv_entries(es@) =~= opencode_profile_entries(p.v()));
    }
    Json::Obj(es)
}

/// Reads a profile out of its document.
#[verifier::loop_isolation(false)]
pub fn opencode_profile_from_json(j: &Json) -> (r: Option<OpenCodeProfile>)
    ensures
        match r {
            Option::Some(p) => opencode_profile_of(j.jv()) == Option::Some(p.v()),
            Option::None => opencode_profile_of(j.jv()) is None,
        },
{
    let es = match j {
        Json::Obj(es) => es,
        _ => {
            return Option::None;
        },
    };
    let id = match obj_get(es, &String::from_str("id")) {
        Option::Some(Json::Str(s)) => s.clone(),
        _ => {
            return Option::None;
        },
    };
    let name = match obj_get(es, &String::from_str("name")) {
        Option::Some(Json::Str(s)) => s.clone(),
        _ => {
            return Option::None;
        },
    };
    let description = match obj_get(es, &String::from_str("description")) {
        Option::None => Option::None,
        Option::Some(Json::Null) => Option::None,
        Option::Some(Json::Str(s)) => Option::Some(s.clone()),
        _ => {
            return Option::None;
        },
    };
    let created_at = match obj_get(es, &String::from_str("createdAt")) {
        Option::Some(Json::Str(s)) => s.clone(),
        _ => {
            return Option::None;
        },
    };
    let updated_at = match obj_get(es, &String::from_str("updatedAt")) {
        Option::Some(Json::Str(s)) => s.clone(),
        _ => {
            return Option::None;
        },
    };
    let providers = match obj_get(es, &String::from_str("providers")) {
        Option::Some(Json::Obj(o)) => {
            let n = o.len();
            let mut out: Vec<(String, OpenCodeProviderConfig)> = Vec::new();
            let mut i: usize = 0;
            while i < n
                invariant
                    0 <= i <= n,
                    out@.len() == i,
                    oc_providers_of_entries(jv_entries(o@).take(i as int)) == Option::Some(
                        Seq::new(i as nat, |l: int| (out@[l].0@, out@[l].1.v())),
                    ),
                decreases n - i,
            {
                proof {
                    lemma_jv_entries_len(o@);
                    lemma_jv_entries_index(o@, i as int);
                }
                match oc_provider_from_json(&o[i].1) {
                    Option::Some(pc) => {
                        let ghost out0 = out@;
                        let k = o[i].0.clone();
                        out.push((k, pc));
                        proof {
                            let ov = jv_entries(o@);
                            assert(ov.take(i + 1).drop_last() =~= ov.take(i as int));
                            assert(ov.take(i + 1).last() == ov[i as int]);
                            assert(Seq::new((i + 1) as nat, |l: int| (out@[l].0@, out@[l].1.v()))
                                =~= Seq::new(i as nat, |l: int| (out0[l].0@, out0[l].1.v())).push(
                                (out@[i as int].0@, out@[i as int].1.v()),
                            ));
                            assert(oc_providers_of_entries(ov.take(i + 1)) == Option::Some(
                                Seq::new((i + 1) as nat, |l: int| (out@[l].0@, out@[l].1.v())),
                            ));
                        }
                    },
                    Option::None => {
                        proof {
                            let ov = jv_entries(o@);
                            assert(ov.take(i + 1).drop_last() =~= ov.take(i as int));
                            assert(ov.take(i + 1).last() == ov[i as int]);
                            assert(oc_providers_of_entries(ov.take(i + 1)) is None);
                            lemma_oc_providers_none_extends(ov, i + 1);
                        }
                        return Option::None;
                    },
                }
                i = i + 1;
            }
            proof {
                lemma_jv_entries_len(o@);
                assert(jv_entries(o@).take(n as int) =~= jv_entries(o@));
                assert(Seq::new(out@.len(), |l: int| (out@[l].0@, out@[l].1.v())) =~= Seq::new(
                    n as nat,
                    |l: int| (out@[l].0@, out@[l].1.v()),
                ));
                assert(oc_providers_of_entries(jv_entries(o@)) == Option::Some(
                    Seq::new(out@.len(), |l: int| (out@[l].0@, out@[l].1.v())),
                ));
            }
            out
        },
        _ => {
            return Option::None;
        },
    };
    let auth = match obj_get(es, &String::from_str("auth")) {
        Option::Some(Json::Obj(a)) => entries_clone(a),
        _ => {
            return Option::None;
        },
    };
    proof {
        let esv = jv_entries(es@);
        assert(str_field(esv, "id"@) == Option::Some(id@));
        assert(str_field(esv, "name"@) == Option::Some(name@));
        assert(opt_str_field(esv, "description"@) == Option::Some(opt_v(description)));
        assert(str_field(esv, "createdAt"@) == Option::Some(created_at@));
        assert(str_field(esv, "updatedAt"@) == Option::Some(updated_at@));
        let pv = Seq::new(providers@.len(), |i: int| (providers@[i].0@, providers@[i].1.v()));
        assert((match lookup(esv, "providers"@) {
            Option::Some(JsonV::Obj(o)) => oc_providers_of_entries(o),
            _ => Option::None,
        }) == Option::Some(pv));
        assert((match lookup(esv, "auth"@) {
            Option::Some(JsonV::Obj(a)) => Option::Some(a),
            _ => Option::<EntriesV>::None,
        }) == Option::Some(jv_entries(auth@)));
    }
    Option::Some(
        OpenCodeProfile { id, name, description, created_at, updated_at, providers, auth },
    )
}

/// A profile's document always reads back as exactly that profile.
pub proof fn lemma_opencode_profile_round_trip(p: OpenCodeProfileV)
    ensures
        opencode_profile_of(opencode_profile_jv(p)) == Option::Some(p),
{
    reveal_strlit("id");
    reveal_strlit("name");
    reveal_strlit("description");
    reveal_strlit("createdAt");
    reveal_strlit("updatedAt");
    reveal_strlit("providers");
    reveal_strlit("auth");
    assert("id"@.len() == 2);
    assert("name"@.len() == 4);
    assert("description"@.len() == 11);
    assert("createdAt"@.len() == 9);
    assert("updatedAt"@.len() == 9);
    assert("providers"@.len() == 9);
    assert("auth"@.len() == 4);
    assert("createdAt"@[0] == 'c' && "updatedAt"@[0] == 'u' && "providers"@[0] == 'p');
    assert("createdAt"@ != "updatedAt"@ && "createdAt"@ != "providers"@ && "updatedAt"@
        != "providers"@);
    assert("name"@[0] == 'n' && "auth"@[0] == 'a');
    assert("name"@ != "auth"@);
    let e1 = seq![("id"@, JsonV::Str(p.id)), ("name"@, JsonV::Str(p.name))];
    let e2 = match p.description {
        Option::Some(d) => e1.push(("description"@, JsonV::Str(d))),
        Option::None => e1,
    };
    let e3 = e2.push(("createdAt"@, JsonV::Str(p.created_at)));
    let e4 = e3.push(("updatedAt"@, JsonV::Str(p.updated_at)));
    let e5 = e4.push(("providers"@, JsonV::Obj(oc_providers_docs(p.providers))));
    let e6 = e5.push(("auth"@, JsonV::Obj(p.auth)));
    assert(opencode_profile_entries(p) == e6);
    lemma_opencode_track(e1, e2, e3, e4, e5, e6, p, "id"@);
    lemma_opencode_track(e1, e2, e3, e4, e5, e6, p, "name"@);
    lemma_opencode_track(e1, e2, e3, e4, e5, e6, p, "description"@);
    lemma_opencode_track(e1, e2, e3, e4, e5, e6, p, "createdAt"@);
    lemma_opencode_track(e1, e2, e3, e4, e5, e6, p, "updatedAt"@);
    lemma_opencode_track(e1, e2, e3, e4, e5, e6, p, "providers"@);
    lemma_opencode_track(e1, e2, e3, e4, e5, e6, p, "auth"@);
    lemma_oc_providers_docs_round_trip(p.providers);
}

/// Follows each key through the pushes that build a profile document.
proof fn lemma_opencode_track(
    e1: EntriesV,
    e2: EntriesV,
    e3: EntriesV,
    e4: EntriesV,
    e5: EntriesV,
    e6: EntriesV,
    p: OpenCodeProfileV,
    k: Seq<char>,
)
    requires
        e1 == seq![("id"@, JsonV::Str(p.id)), ("name"@, JsonV::Str(p.name))],
        e2 == (match p.description {
            Option::Some(d) => e1.push(("description"@, JsonV::Str(d))),
            Option::None => e1,
        }),
        e3 == e2.push(("createdAt"@, JsonV::Str(p.created_at))),
        e4 == e3.push(("updatedAt"@, JsonV::Str(p.updated_at))),
        e5 == e4.push(("providers"@, JsonV::Obj(oc_providers_docs(p.providers)))),
        e6 == e5.push(("auth"@, JsonV::Obj(p.auth))),
        "id"@ != "name"@ && "id"@ != "description"@ && "id"@ != "createdAt"@ && "id"@
            != "updatedAt"@ && "id"@ != "providers"@ && "id"@ != "auth"@,
        "name"@ != "description"@ && "name"@ != "createdAt"@ && "name"@ != "updatedAt"@ && "name"@
            != "providers"@ && "name"@ != "auth"@,
        "description"@ != "createdAt"@ && "description"@ != "updatedAt"@ && "description"@
            != "providers"@ && "description"@ != "auth"@,
        "createdAt"@ != "updatedAt"@ && "createdAt"@ != "providers"@ && "createdAt"@ != "auth"@,
        "updatedAt"@ != "providers"@ && "updatedAt"@ != "auth"@,
        "providers"@ != "auth"@,
        k == "id"@ || k == "name"@ || k == "description"@ || k == "createdAt"@ || k == "updatedAt"@
            || k == "providers"@ || k == "auth"@,
    ensures
        lookup(e6, k) == (if k == "id"@ {
            Option::Some(JsonV::Str(p.id))
        } else if k == "name"@ {
            Option::Some(JsonV::Str(p.name))
        } else if k == "description"@ {
            match p.description {
                Option::Some(d) => Option::Some(JsonV::Str(d)),
                Option::None => Option::None,
            }
        } else if k == "createdAt"@ {
            Option::Some(JsonV::Str(p.created_at))
        } else if k == "updatedAt"@ {
            Option::Some(JsonV::Str(p.updated_at))
        } else if k == "providers"@ {
            Option::Some(JsonV::Obj(oc_providers_docs(p.providers)))
        } else {
            Option::Some(JsonV::Obj(p.auth))
        }),
{
    let e0 = Seq::<(Seq<char>, JsonV)>::empty();
    assert(e1 == e0.push(("id"@, JsonV::Str(p.id))).push(("name"@, JsonV::Str(p.name))));
    lemma_lookup_push(e0, ("id"@, JsonV::Str(p.id)), k);
    lemma_lookup_push(e0.push(("id"@, JsonV::Str(p.id))), ("name"@, JsonV::Str(p.name)), k);
    match p.description {
        Option::Some(d) => {
            lemma_lookup_push(e1, ("description"@, JsonV::Str(d)), k);
        },
        Option::None => {},
    }
    lemma_lookup_push(e2, ("createdAt"@, JsonV::Str(p.created_at)), k);
    lemma_lookup_push(e3, ("updatedAt"@, JsonV::Str(p.updated_at)), k);
    lemma_lookup_push(e4, ("providers"@, JsonV::Obj(oc_providers_docs(p.providers))), k);
    lemma_lookup_push(e5, ("auth"@, JsonV::Obj(p.auth)), k);
}


// ---------------------------------------------------------------------------
// Comment-tolerant reads
// ---------------------------------------------------------------------------

/// What a comment-tolerant read yields on a text the stripper accepts:
/// comments are stripped, then the text is parsed; an unparsable text is
/// an empty document.
pub open spec fn jsonc_doc_of(t: Seq<char>) -> JsonV {
    match parse_of(stripped_of(t)) {
        Option::Some(d) => d,
        Option::None => JsonV::Obj(Seq::empty()),
    }
}

/// What a comment-tolerant read yields on any text: the stripped and
/// parsed document when the stripper accepts the text, the empty
/// document otherwise.
pub open spec fn jsonc_read_of(t: Seq<char>) -> JsonV {
    if strip_ok(t) {
        jsonc_doc_of(t)
    } else {
        JsonV::Obj(Seq::empty())
    }
}

/// What a comment-tolerant read yields on a file's content (`None` when
/// the file is absent).
pub open spec fn live_doc_read(text: Option<Seq<char>>) -> JsonV {
    match text {
        Option::None => JsonV::Obj(Seq::empty()),
        Option::Some(t) => jsonc_read_of(t),
    }
}

/// Reads a live document, tolerating comments: an absent or unreadable
/// file is an empty document, never an error.
pub fn read_json_file(text: Option<String>) -> (r: Json)
    ensures
        r.jv() == live_doc_read(view_opt(text)),
{
    let empty = Json::Obj(Vec::new());
    proof {
        assert(jv_entries(Seq::<(String, Json)>::empty()) =~= Seq::<(Seq<char>, JsonV)>::empty());
    }
    let t = match text {
        Option::None => {
            return empty;
        },
        Option::Some(t) => t,
    };
    let stripped = match strip_json_comments(t.as_str()) {
        Result::Ok(s) => s,
        Result::Err(_) => {
            return empty;
        },
    };
    match parse_json(stripped.as_str()) {
        Result::Ok(doc) => doc,
        Result::Err(_) => empty,
    }
}

// ---------------------------------------------------------------------------
// Projection
// ---------------------------------------------------------------------------

/// Setting one key wholesale: replace in place, or append.
pub open spec fn set_one(es: EntriesV, k: Seq<char>, v: JsonV) -> EntriesV {
    if has_key(es, k) {
        es.update(key_index(es, k), (k, v))
    } else {
        es.push((k, v))
    }
}

/// Setting a list of entries wholesale, in order.
pub open spec fn set_all(es: EntriesV, ps: EntriesV) -> EntriesV
    decreases ps,
{
    if ps.len() == 0 {
        es
    } else {
        set_one(set_all(es, ps.drop_last()), ps.last().0, ps.last().1)
    }
}

/// The live configuration document after a profile's providers fall onto
/// it: each named provider replaces its entry under the `provider` key
/// wholesale; everything else — in particular any foreign key — is kept.
/// A non-object document, or one whose `provider` value is not an object,
/// is left unchanged.
pub open spec fn oc_config_after(doc: JsonV, ps: EntriesV) -> JsonV {
    if ps.len() == 0 {
        doc
    } else if doc is Obj {
        let es = doc->Obj_0;
        match lookup(es, "provider"@) {
            Option::None => JsonV::Obj(
                set_one(es, "provider"@, JsonV::Obj(set_all(Seq::empty(), ps))),
            ),
            Option::Some(JsonV::Obj(pes)) => JsonV::Obj(
                es.update(key_index(es, "provider"@), ("provider"@, JsonV::Obj(set_all(pes, ps)))),
            ),
            Option::Some(_) => doc,
        }
    } else {
        doc
    }
}

/// The live secrets document after a profile's auth entries fall onto it.
pub open spec fn oc_auth_after(doc: JsonV, auth: EntriesV) -> JsonV {
    if auth.len() == 0 {
        doc
    } else if doc is Obj {
        JsonV::Obj(set_all(doc->Obj_0, auth))
    } else {
        doc
    }
}

/// Sets every entry of `ps` on `es`, wholesale, in order.
#[verifier::loop_isolation(false)]
fn set_all_entries(es: &mut Vec<(String, Json)>, ps: &Vec<(String, Json)>)
    ensures
        jv_entries(final(es)@) == set_all(jv_entries(old(es)@), jv_entries(ps@)),
{
    let n = ps.len();
    let mut i: usize = 0;
    while i < n
        invariant
            0 <= i <= n,
            jv_entries(es@) == set_all(jv_entries(old(es)@), jv_entries(ps@).take(i as int)),
        decreases n - i,
    {
        proof {
            lemma_jv_entries_len(ps@);
            lemma_jv_entries_index(ps@, i as int);
        }
        let k = ps[i].0.clone();
        let v = json_clone(&ps[i].1);
        obj_set(es, k, v);
        proof {
            let pv = jv_entries(ps@);
            assert(pv.take(i + 1).drop_last() =~= pv.take(i as int));
            assert(pv.take(i + 1).last() == pv[i as int]);
            assert(jv_entries(es@) =~= set_all(jv_entries(old(es)@), pv.take(i + 1)));
        }
        i = i + 1;
    }
    proof {
        lemma_jv_entries_len(ps@);
        assert(jv_entries(ps@).take(n as int) =~= jv_entries(ps@));
    }
}

/// Projects a list of provider documents onto the configuration document:
/// each one replaces its entry under the `provider` key wholesale.
#[verifier::loop_isolation(false)]
fn project_config(doc: Json, pdocs: &Vec<(String, Json)>) -> (r: Json)
    ensures
        r.jv() == oc_config_after(doc.jv(), jv_entries(pdocs@)),
{
    if pdocs.len() == 0 {
        proof {
            lemma_jv_entries_len(pdocs@);
        }
        return doc;
    }
    proof {
        lemma_jv_entries_len(pdocs@);
    }
    match doc {
        Json::Obj(mut es) => {
            let ghost es0 = jv_entries(es@);
            let ghost esv0 = es@;
            match crate::json::obj_find(&es, &String::from_str("provider")) {
                Option::None => {
                    let mut section: Vec<(String, Json)> = Vec::new();
                    proof {
                        assert(jv_entries(section@) =~= Seq::<(Seq<char>, JsonV)>::empty());
                    }
                    set_all_entries(&mut section, pdocs);
                    obj_set(&mut es, String::from_str("provider"), Json::Obj(section));
                    proof {
                        assert(jv_entries(es@) =~= set_one(
                            es0,
                            "provider"@,
                            JsonV::Obj(set_all(Seq::empty(), jv_entries(pdocs@))),
                        ));
                    }
                    Json::Obj(es)
                },
                Option::Some(j) => {
                    let entry = es.remove(j);
                    match entry.1 {
                        Json::Obj(mut pes) => {
                            let ghost pes0v = jv_entries(pes@);
                            set_all_entries(&mut pes, pdocs);
                            es.insert(j, (entry.0, Json::Obj(pes)));
                            proof {
                                let target = es0.update(
                                    key_index(es0, "provider"@),
                                    ("provider"@, JsonV::Obj(
                                        set_all(
                                            es0[key_index(es0, "provider"@)].1->Obj_0,
                                            jv_entries(pdocs@),
                                        ),
                                    )),
                                );
                                lemma_jv_entries_len(es@);
                                lemma_jv_entries_len(esv0);
                                assert(es0[j as int].1 is Obj && es0[j as int].1->Obj_0 == pes0v)
                                    by {
                                    lemma_jv_entries_index(esv0, j as int);
                                    assert(esv0[j as int].1.jv() == JsonV::Obj(pes0v));
                                }
                                assert(lookup(es0, "provider"@) == Option::Some(es0[j as int].1));
                                assert forall|l: int|
                                    0 <= l < jv_entries(es@).len() implies jv_entries(es@)[l]
                                    == target[l] by {
                                    lemma_jv_entries_index(es@, l);
                                    lemma_jv_entries_index(esv0, l);
                                }
                                assert(jv_entries(es@) =~= target);
                                assert(lookup(es0, "provider"@) == Option::Some(
                                    es0[key_index(es0, "provider"@)].1,
                                ));
                            }
                            Json::Obj(es)
                        },
                        other => {
                            es.insert(j, (entry.0, other));
                            proof {
                                assert(es@ =~= esv0);
                                lemma_jv_entries_index(esv0, j as int);
                                assert(lookup(es0, "provider"@) == Option::Some(
                                    es0[key_index(es0, "provider"@)].1,
                                ));
                                assert(!(es0[key_index(es0, "provider"@)].1 is Obj));
                            }
                            Json::Obj(es)
                        },
                    }
                },
            }
        },
        other => other,
    }
}

/// Everything `apply` changes for this family: the two live files as one
/// all-or-nothing group, and the pointer write that comes last.
pub struct OpenCodeApplyPlan {
    pub group: WriteGroup,
    pub pointer: FileWrite,
}

/// Plans the projection of a stored profile onto the live OpenCode files.
/// The profile's providers replace their entries under the configuration
/// document's `provider` key; its auth entries replace theirs in the
/// secrets document; foreign keys in both documents survive.  Both files
/// are written as one group that rolls back on partial failure.
#[verifier::rlimit(30)]
#[verifier::loop_isolation(false)]
pub fn apply_opencode_profile(
    home: &str,
    id: &str,
    profile_text: Option<String>,
    config_text: Option<String>,
    auth_text: Option<String>,
    config_jsonc: bool,
    auth_jsonc: bool,
    config_orig: Option<Vec<u8>>,
    auth_orig: Option<Vec<u8>>,
) -> (r: Result<OpenCodeApplyPlan, StoreError>)
    ensures
        ({
            let loaded = opencode_get_of(view_opt(profile_text));
            let config_path = resolved_config_file_v(
                opencode_config_dir_v(home@),
                "opencode"@,
                config_jsonc,
            );
            let auth_path = resolved_config_file_v(opencode_auth_dir_v(home@), "auth"@, auth_jsonc);
            match r {
                Result::Err(e) => match e {
                    StoreError::InvalidIdentifier => !valid_id(id@),
                    StoreError::NotFound => valid_id(id@) && profile_text is None,
                    StoreError::MalformedDocument(_) => valid_id(id@) && loaded is Err
                        && profile_text is Some,
                    _ => false,
                },
                Result::Ok(plan) => {
                    let p = loaded->Ok_0;
                    &&& valid_id(id@)
                    &&& loaded is Ok
                    &&& plan.group.wf()
                    &&& plan.group.committed == 0
                    &&& plan.group.ops@.len() == 2
                    &&& plan.group.ops@[0].path@ == config_path
                    &&& plan.group.ops@[1].path@ == auth_path
                    &&& originals_v(plan.group.originals@) == seq![
                        (config_path, crate::writer::opt_bytes_v(config_orig)),
                        (auth_path, crate::writer::opt_bytes_v(auth_orig)),
                    ]
                    &&& plan.group.ops@[0].bytes@ == json_text(
                        oc_config_after(
                            live_doc_read(view_opt(config_text)),
                            oc_providers_docs(p.providers),
                        ),
                    )
                    &&& plan.group.ops@[1].bytes@ == json_text(
                        oc_auth_after(live_doc_read(view_opt(auth_text)), p.auth),
                    )
                    &&& plan.pointer.path@ == opencode_pointer_path_v(home@)
                    &&& plan.pointer.bytes@ == encode_utf8(id@)
                },
            }
        }),
{
    validate_profile_id(id)?;
    let profile = get_opencode_profile(profile_text)?;

    // Project the providers into the configuration document.
    let config_doc = read_json_file(config_text);
    let mut pdocs: Vec<(String, Json)> = Vec::new();
    let np = profile.providers.len();
    let mut i: usize = 0;
    while i < np
        invariant
            0 <= i <= np,
            pdocs@.len() == i,
            jv_entries(pdocs@) == oc_providers_docs(profile.v().providers).take(i as int),
        decreases np - i,
    {
        let ghost pd0 = pdocs@;
        let pj = oc_provider_to_json(&profile.providers[i].1);
        let k = profile.providers[i].0.clone();
        pdocs.push((k, pj));
        proof {
            let pd = oc_providers_docs(profile.v().providers);
            assert(pdocs@.drop_last() =~= pd0);
            assert((pdocs@.last().0@, pdocs@.last().1.jv()) == pd[i as int]);
            assert(jv_entries(pdocs@) =~= jv_entries(pd0).push(pd[i as int]));
            assert(pd.take(i + 1) =~= pd.take(i as int).push(pd[i as int]));
            assert(jv_entries(pdocs@) =~= pd.take(i + 1));
        }
        i = i + 1;
    }
    proof {
        assert(oc_providers_docs(profile.v().providers).take(np as int) =~= oc_providers_docs(
            profile.v().providers,
        ));
    }
    let new_config = project_config(config_doc, &pdocs);
    proof {
        let pd = oc_providers_docs(profile.v().providers);
        assert(new_config.jv() == oc_config_after(live_doc_read(view_opt(config_text)), pd));
    }
    let config_bytes = json_to_bytes(&new_config);

    // Project the auth entries into the secrets document.
    let auth_doc = read_json_file(auth_text);
    let new_auth = if profile.auth.len() == 0 {
        auth_doc
    } else {
        match auth_doc {
            Json::Obj(mut aes) => {
                set_all_entries(&mut aes, &profile.auth);
                Json::Obj(aes)
            },
            other => other,
        }
    };
    proof {
        assert(new_auth.jv() == oc_auth_after(live_doc_read(view_opt(auth_text)), profile.v().auth));
    }
    let auth_bytes = json_to_bytes(&new_auth);

    let config_dir = get_opencode_config_dir(home);
    let auth_dir = get_opencode_auth_dir(home);
    let config_path = resolve_config_file(config_dir.as_str(), "opencode", config_jsonc);
    let auth_path = resolve_config_file(auth_dir.as_str(), "auth", auth_jsonc);
    proof {
        reveal_strlit("/.config/opencode");
        reveal_strlit("/.local/share/opencode");
        reveal_strlit("/");
        reveal_strlit("opencode");
        reveal_strlit("auth");
        reveal_strlit(".json");
        reveal_strlit(".jsonc");
        let hl = home@.len() as int;
        assert(config_path@[hl + 2] == 'c');
        assert(auth_path@[hl + 2] == 'l');
        assert(config_path@ != auth_path@);
    }
    let mut ops: Vec<FileWrite> = Vec::new();
    ops.push(FileWrite { path: config_path.clone(), bytes: config_bytes });
    ops.push(FileWrite { path: auth_path.clone(), bytes: auth_bytes });
    let mut originals: Vec<(String, Option<Vec<u8>>)> = Vec::new();
    originals.push((config_path, config_orig));
    originals.push((auth_path, auth_orig));
    proof {
        let ps = Seq::new(ops@.len(), |i: int| ops@[i].path@);
        assert(ps[0] != ps[1]);
        assert(crate::writer::distinct_paths(ps));
    }
    let group = match WriteGroup::new(ops, originals) {
        Option::Some(g) => g,
        Option::None => {
            proof {
                assert(false);
            }
            return Result::Err(StoreError::IoFailure(String::new()));
        },
    };
    proof {
        assert(originals_v(group.originals@) =~= seq![
            (resolved_config_file_v(opencode_config_dir_v(home@), "opencode"@, config_jsonc),
                crate::writer::opt_bytes_v(config_orig)),
            (resolved_config_file_v(opencode_auth_dir_v(home@), "auth"@, auth_jsonc),
                crate::writer::opt_bytes_v(auth_orig)),
        ]);
    }
    let pointer = FileWrite { path: get_active_profile_path(home), bytes: id.as_bytes_vec() };
    Result::Ok(OpenCodeApplyPlan { group, pointer })
}

/// What `get` yields from the content of a profile's document file.
pub open spec fn opencode_get_of(text: Option<Seq<char>>) -> Result<OpenCodeProfileV, StoreErrorV> {
    match text {
        Option::None => Result::Err(StoreErrorV::NotFound),
        Option::Some(t) => match parse_of(t) {
            Option::None => Result::Err(StoreErrorV::MalformedDocument),
            Option::Some(doc) => match opencode_profile_of(doc) {
                Option::None => Result::Err(StoreErrorV::MalformedDocument),
                Option::Some(p) => Result::Ok(p),
            },
        },
    }
}

/// Loads one profile from its document file's content.
pub fn get_opencode_profile(text: Option<String>) -> (r: Result<OpenCodeProfile, StoreError>)
    ensures
        match r {
            Result::Ok(p) => opencode_get_of(view_opt(text)) == Result::<OpenCodeProfileV,
                StoreErrorV,
            >::Ok(p.v()),
            Result::Err(e) => opencode_get_of(view_opt(text)) == Result::<OpenCodeProfileV,
                StoreErrorV,
            >::Err(e.v()),
        },
{
    let t = match text {
        Option::None => {
            return Result::Err(StoreError::NotFound);
        },
        Option::Some(t) => t,
    };
    let doc = match parse_json(t.as_str()) {
        Result::Ok(doc) => doc,
        Result::Err(m) => {
            return Result::Err(StoreError::MalformedDocument(m));
        },
    };
    match opencode_profile_from_json(&doc) {
        Option::Some(p) => Result::Ok(p),
        Option::None => Result::Err(
            StoreError::MalformedDocument(String::from_str("invalid profile document")),
        ),
    }
}


/// The `createdAt` a profile keeps when saved.
pub open spec fn saved_opencode_created(
    p: OpenCodeProfileV,
    existing: Option<Seq<char>>,
    now: Seq<char>,
) -> Seq<char> {
    if trimmed_of(p.id).len() == 0 {
        now
    } else {
        match existing {
            Option::Some(t) => match parse_of(t) {
                Option::Some(doc) => match opencode_profile_of(doc) {
                    Option::Some(old) => old.created_at,
                    Option::None => p.created_at,
                },
                Option::None => p.created_at,
            },
            Option::None => if trimmed_of(p.created_at).len() == 0 {
                now
            } else {
                p.created_at
            },
        }
    }
}

/// The record a save persists.
pub open spec fn saved_opencode_profile(
    p: OpenCodeProfileV,
    existing: Option<Seq<char>>,
    now: Seq<char>,
    fresh_id: Seq<char>,
) -> OpenCodeProfileV {
    OpenCodeProfileV {
        id: if trimmed_of(p.id).len() == 0 {
            fresh_id
        } else {
            p.id
        },
        created_at: saved_opencode_created(p, existing, now),
        updated_at: now,
        ..p
    }
}

/// Saves a profile (create or update): decides the stored record and the
/// one document write that persists it.
pub fn save_opencode_profile_with(
    home: &str,
    profile: OpenCodeProfile,
    existing_text: Option<String>,
    now: String,
    fresh_id: String,
) -> (r: Result<(OpenCodeProfile, FileWrite), StoreError>)
    requires
        valid_id(fresh_id@),
    ensures
        r is Ok <==> (trimmed_of(profile.id@).len() == 0 || valid_id(profile.id@)),
        r is Err ==> r->Err_0 is InvalidIdentifier,
        r is Ok ==> {
            let saved = saved_opencode_profile(
                profile.v(),
                view_opt(existing_text),
                now@,
                fresh_id@,
            );
            &&& r->Ok_0.0.v() == saved
            &&& r->Ok_0.1.path@ == opencode_profile_path_v(home@, saved.id)
            &&& r->Ok_0.1.bytes@ == json_text(opencode_profile_jv(saved))
        },
{
    let mut profile = profile;
    let id_trim = str_trim(profile.id.as_str());
    if id_trim.as_str().is_empty() {
        profile.id = fresh_id;
        profile.created_at = now.clone();
    } else {
        if let Result::Err(e) = validate_profile_id(profile.id.as_str()) {
            return Result::Err(e);
        }
        match existing_text {
            Option::Some(t) => {
                match parse_json(t.as_str()) {
                    Result::Ok(doc) => match opencode_profile_from_json(&doc) {
                        Option::Some(old) => {
                            profile.created_at = old.created_at;
                        },
                        Option::None => {},
                    },
                    Result::Err(_) => {},
                }
            },
            Option::None => {
                let created_trim = str_trim(profile.created_at.as_str());
                if created_trim.as_str().is_empty() {
                    profile.created_at = now.clone();
                }
            },
        }
    }
    profile.updated_at = now;
    let path = match get_profile_path(home, profile.id.as_str()) {
        Result::Ok(p) => p,
        Result::Err(e) => {
            return Result::Err(e);
        },
    };
    let doc = opencode_profile_to_json(&profile);
    let bytes = json_to_bytes(&doc);
    Result::Ok((profile, FileWrite { path, bytes }))
}

/// Law: saving and then loading the saved document yields the saved
/// record — equal to the input except that `updatedAt` is refreshed (and
/// `id`/`createdAt` are assigned on first persistence).
pub proof fn lemma_opencode_save_then_get(
    p: OpenCodeProfileV,
    existing: Option<Seq<char>>,
    now: Seq<char>,
    fresh_id: Seq<char>,
)
    ensures
        ({
            let saved = saved_opencode_profile(p, existing, now, fresh_id);
            &&& opencode_profile_of(opencode_profile_jv(saved)) == Option::Some(saved)
            &&& saved.updated_at == now
            &&& saved.name == p.name
            &&& saved.description == p.description
            &&& saved.providers == p.providers
            &&& saved.auth == p.auth
            &&& trimmed_of(p.id).len() > 0 ==> saved.id == p.id
        }),
{
    lemma_opencode_profile_round_trip(saved_opencode_profile(p, existing, now, fresh_id));
}

/// Deletes a profile: absence is not an error, and when the deleted id is
/// the active pointer the pointer is cleared as part of the same plan.
pub fn delete_opencode_profile(
    home: &str,
    id: &str,
    profile_exists: bool,
    pointer_text: Option<String>,
) -> (r: Result<crate::writer::DeletePlan, StoreError>)
    ensures
        r is Ok <==> valid_id(id@),
        r is Err ==> r->Err_0 is InvalidIdentifier,
        r is Ok ==> {
            let plan = r->Ok_0;
            &&& (plan.remove_profile is Some <==> profile_exists)
            &&& plan.remove_profile is Some ==> plan.remove_profile->0@ == opencode_profile_path_v(
                home@,
                id@,
            )
            &&& plan.clear_pointer == (pointer_of(view_opt(pointer_text)) == Option::Some(id@))
            &&& plan.pointer_path@ == opencode_pointer_path_v(home@)
        },
{
    let path = get_profile_path(home, id)?;
    let active = crate::ids::parse_pointer(pointer_text);
    let clear_pointer = match active {
        Option::Some(a) => str_eq(a.as_str(), id),
        Option::None => false,
    };
    Result::Ok(
        crate::writer::DeletePlan {
            remove_profile: if profile_exists {
                Option::Some(path)
            } else {
                Option::None
            },
            clear_pointer,
            pointer_path: get_active_profile_path(home),
        },
    )
}

/// The record a duplicate persists: the source under a fresh id and
/// name, with both timestamps set to `now`.
pub open spec fn duplicated_opencode_profile(
    src: OpenCodeProfileV,
    new_name: Seq<char>,
    now: Seq<char>,
    fresh_id: Seq<char>,
) -> OpenCodeProfileV {
    OpenCodeProfileV { id: fresh_id, name: new_name, created_at: now, updated_at: now, ..src }
}

/// Duplicates a loaded profile under a fresh id and name; both timestamps
/// are set to `now`, and the source document is untouched.
pub fn duplicate_opencode_profile_with(
    home: &str,
    text: Option<String>,
    new_name: String,
    now: String,
    fresh_id: String,
) -> (r: Result<(OpenCodeProfile, FileWrite), StoreError>)
    requires
        valid_id(fresh_id@),
    ensures
        r is Ok <==> opencode_get_of(view_opt(text)) is Ok,
        r is Ok ==> {
            let src = opencode_get_of(view_opt(text))->Ok_0;
            let dup = duplicated_opencode_profile(src, new_name@, now@, fresh_id@);
            &&& r->Ok_0.0.v() == dup
            &&& r->Ok_0.1.path@ == opencode_profile_path_v(home@, fresh_id@)
            &&& r->Ok_0.1.bytes@ == json_text(opencode_profile_jv(dup))
        },
{
    let mut profile = get_opencode_profile(text)?;
    profile.id = fresh_id;
    profile.name = new_name;
    profile.created_at = now.clone();
    profile.updated_at = now;
    let path = match get_profile_path(home, profile.id.as_str()) {
        Result::Ok(p) => p,
        Result::Err(_) => {
            return Result::Err(StoreError::InvalidIdentifier);
        },
    };
    let doc = opencode_profile_to_json(&profile);
    let bytes = json_to_bytes(&doc);
    Result::Ok((profile, FileWrite { path, bytes }))
}

/// Creates the default profile; refused when any profile already exists.
/// The new profile also becomes the active one, so the plan carries a
/// pointer write besides the document write.
pub fn create_default_profile(home: &str, profiles_exist: bool, now: String, fresh_id: String)
    -> (r: Option<(OpenCodeProfile, FileWrite, FileWrite)>)
    requires
        valid_id(fresh_id@),
    ensures
        r is Some <==> !profiles_exist,
        r is Some ==> ({
            let (prof, doc_write, pointer_write) = r->0;
            let p = prof.v();
            &&& p.id == fresh_id@
            &&& p.name == "Default"@
            &&& p.description is None
            &&& p.created_at == now@
            &&& p.updated_at == now@
            &&& p.providers.len() == 0
            &&& p.auth.len() == 0
            &&& doc_write.path@ == opencode_profile_path_v(home@, fresh_id@)
            &&& doc_write.bytes@ == json_text(opencode_profile_jv(p))
            &&& pointer_write.path@ == opencode_pointer_path_v(home@)
            &&& pointer_write.bytes@ == encode_utf8(fresh_id@)
        }),
{
    if profiles_exist {
        return Option::None;
    }
    let profile = OpenCodeProfile {
        id: fresh_id.clone(),
        name: String::from_str("Default"),
        description: Option::None,
        created_at: now.clone(),
        updated_at: now,
        providers: Vec::new(),
        auth: Vec::new(),
    };
    let path = match get_profile_path(home, profile.id.as_str()) {
        Result::Ok(p) => p,
        Result::Err(_) => {
            return Option::None;
        },
    };
    proof {
        assert(profile.v().providers =~= Seq::<(Seq<char>, OpenCodeProviderConfigV)>::empty());
        assert(profile.v().auth =~= Seq::<(Seq<char>, JsonV)>::empty());
    }
    let doc = opencode_profile_to_json(&profile);
    let bytes = json_to_bytes(&doc);
    let pointer = FileWrite {
        path: get_active_profile_path(home),
        bytes: fresh_id.as_str().as_bytes_vec(),
    };
    Option::Some((profile, FileWrite { path, bytes }, pointer))
}

/// The active profile id, read from the pointer file's content.
pub fn get_active_opencode_profile_id(text: Option<String>) -> (r: Option<String>)
    ensures
        match r {
            Option::None => pointer_of(view_opt(text)) is None,
            Option::Some(id) => pointer_of(view_opt(text)) == Option::Some(id@),
        },
{
    crate::ids::parse_pointer(text)
}

/// Live-file status, with the resolved (variant-aware) paths.
pub fn get_opencode_config_status(
    home: &str,
    config_exists: bool,
    auth_exists: bool,
    config_jsonc: bool,
    auth_jsonc: bool,
) -> (r: OpenCodeConfigStatus)
    ensures
        r.config_exists == config_exists,
        r.auth_exists == auth_exists,
        r.config_path@ == resolved_config_file_v(
            opencode_config_dir_v(home@),
            "opencode"@,
            config_jsonc,
        ),
        r.auth_path@ == resolved_config_file_v(opencode_auth_dir_v(home@), "auth"@, auth_jsonc),
{
    let config_dir = get_opencode_config_dir(home);
    let auth_dir = get_opencode_auth_dir(home);
    OpenCodeConfigStatus {
        config_exists,
        auth_exists,
        config_path: resolve_config_file(config_dir.as_str(), "opencode", config_jsonc),
        auth_path: resolve_config_file(auth_dir.as_str(), "auth", auth_jsonc),
    }
}

/// The built-in provider templates for quick setup.
pub fn get_opencode_provider_templates() -> (r: Vec<ProviderTemplate>)
    ensures
        r@.len() == 1,
        r@[0].id@ == "anthropic"@,
        r@[0].name@ == "Anthropic"@,
        r@[0].default_base_url matches Option::Some(u) && u@ == "https://api.anthropic.com"@,
        r@[0].requires_api_key,
{
    let mut out: Vec<ProviderTemplate> = Vec::new();
    out.push(
        ProviderTemplate {
            id: String::from_str("anthropic"),
            name: String::from_str("Anthropic"),
            default_base_url: Option::Some(String::from_str("https://api.anthropic.com")),
            requires_api_key: true,
        },
    );
    out
}

// ---------------------------------------------------------------------------
// Listing
// ---------------------------------------------------------------------------

/// The sort key of a profile: its case-folded display name, as bytes.
pub open spec fn opencode_key(p: OpenCodeProfileV) -> Seq<u8> {
    encode_utf8(lower_of(p.name))
}

/// Sorted by case-insensitive display name.
pub open spec fn opencode_sorted(s: Seq<OpenCodeProfileV>) -> bool {
    forall|l: int, m: int| 0 <= l < m < s.len() ==> lex_le(opencode_key(s[l]), opencode_key(s[m]))
}

/// The models of a profile vector.
pub open spec fn opencode_vs(s: Seq<OpenCodeProfile>) -> Seq<OpenCodeProfileV> {
    Seq::new(s.len(), |i: int| s[i].v())
}

/// The profiles a directory listing yields.
pub open spec fn opencode_listed(files: Seq<(Seq<char>, Seq<char>)>) -> Seq<OpenCodeProfileV>
    decreases files,
{
    if files.len() == 0 {
        Seq::empty()
    } else {
        opencode_listed(files.drop_last()) + opencode_listed_one(files.last())
    }
}

/// The profiles one directory entry contributes.
pub open spec fn opencode_listed_one(f: (Seq<char>, Seq<char>)) -> Seq<OpenCodeProfileV> {
    if ends_json(f.0) {
        match parse_of(f.1) {
            Option::Some(doc) => match opencode_profile_of(doc) {
                Option::Some(p) => seq![p],
                Option::None => Seq::empty(),
            },
            Option::None => Seq::empty(),
        }
    } else {
        Seq::empty()
    }
}

/// Inserts a profile into a vector sorted by case-folded name.
fn insert_opencode_sorted(v: &mut Vec<OpenCodeProfile>, p: OpenCodeProfile, key: Vec<u8>)
    requires
        opencode_sorted(opencode_vs(old(v)@)),
        key@ == opencode_key(p.v()),
    ensures
        opencode_sorted(opencode_vs(final(v)@)),
        opencode_vs(final(v)@).to_multiset() == opencode_vs(old(v)@).to_multiset().insert(p.v()),
{
    let n = v.len();
    let mut pos: usize = 0;
    while pos < n
        invariant
            0 <= pos <= n,
            n == v@.len(),
            v@ == old(v)@,
            opencode_sorted(opencode_vs(v@)),
            key@ == opencode_key(p.v()),
            forall|l: int| 0 <= l < pos ==> lex_le(opencode_key(opencode_vs(v@)[l]), key@),
        ensures
            0 <= pos <= n,
            v@ == old(v)@,
            forall|l: int| 0 <= l < pos ==> lex_le(opencode_key(opencode_vs(v@)[l]), key@),
            pos < n ==> lex_le(key@, opencode_key(opencode_vs(v@)[pos as int])),
        decreases n - pos,
    {
        let ek = to_lowercase(v[pos].name.as_str());
        let ekb = ek.as_bytes_vec();
        proof {
            assert(ekb@ == opencode_key(opencode_vs(v@)[pos as int]));
        }
        if !bytes_le(&ekb, &key) {
            proof {
                lemma_lex_le_total(opencode_key(opencode_vs(v@)[pos as int]), key@);
            }
            break ;
        }
        pos = pos + 1;
    }
    let ghost old_vs = opencode_vs(v@);
    let ghost posg = pos as int;
    v.insert(pos, p);
    proof {
        assert(opencode_vs(v@) =~= old_vs.insert(posg, p.v()));
        lemma_insert_to_multiset(old_vs, posg, p.v());
        assert forall|l: int, m: int|
            0 <= l < m < opencode_vs(v@).len() implies lex_le(
            opencode_key(opencode_vs(v@)[l]),
            opencode_key(opencode_vs(v@)[m]),
        ) by {
            let s = opencode_vs(v@);
            if m == posg {
                if l < posg {
                    assert(s[l] == old_vs[l]);
                }
            } else if l == posg {
                assert(s[m] == old_vs[m - 1]);
                assert(posg < old_vs.len() + 1);
                assert(lex_le(key@, opencode_key(old_vs[posg])));
                if m - 1 > posg {
                    assert(lex_le(opencode_key(old_vs[posg]), opencode_key(old_vs[m - 1])));
                    lemma_lex_le_trans(
                        key@,
                        opencode_key(old_vs[posg]),
                        opencode_key(old_vs[m - 1]),
                    );
                }
            } else if l < posg && m > posg {
                assert(s[l] == old_vs[l] && s[m] == old_vs[m - 1]);
            } else if m < posg {
                assert(s[l] == old_vs[l] && s[m] == old_vs[m]);
            } else {
                assert(s[l] == old_vs[l - 1] && s[m] == old_vs[m - 1]);
            }
        }
    }
}

/// Lists the profiles out of a directory's files, sorted by
/// case-insensitive display name; files that do not parse are skipped.
#[verifier::loop_isolation(false)]
pub fn list_opencode_profiles(files: Vec<(String, String)>) -> (r: Vec<OpenCodeProfile>)
    ensures
        opencode_sorted(opencode_vs(r@)),
        opencode_vs(r@).to_multiset() == opencode_listed(files_v(files@)).to_multiset(),
{
    broadcast use vstd::seq_lib::group_to_multiset_ensures;

    let n = files.len();
    let mut out: Vec<OpenCodeProfile> = Vec::new();
    let mut i: usize = 0;
    while i < n
        invariant
            0 <= i <= n,
            opencode_sorted(opencode_vs(out@)),
            opencode_vs(out@).to_multiset() == opencode_listed(
                files_v(files@).take(i as int),
            ).to_multiset(),
        decreases n - i,
    {
        let ghost fv = files_v(files@);
        if name_ends_json(files[i].0.as_str()) {
            match parse_json(files[i].1.as_str()) {
                Result::Ok(doc) => {
                    match opencode_profile_from_json(&doc) {
                        Option::Some(p) => {
                            let lk = to_lowercase(p.name.as_str());
                            let key = lk.as_bytes_vec();
                            insert_opencode_sorted(&mut out, p, key);
                        },
                        Option::None => {},
                    }
                },
                Result::Err(_) => {},
            }
        }
        proof {
            assert(fv.take(i + 1).drop_last() =~= fv.take(i as int));
            assert(fv.take(i + 1).last() == fv[i as int]);
            let one = opencode_listed_one(fv[i as int]);
            vstd::seq_lib::lemma_multiset_commutative(opencode_listed(fv.take(i as int)), one);
            if one.len() == 1 {
                assert(one =~= Seq::empty().push(one[0]));
                assert(one.to_multiset() =~= Multiset::empty().insert(one[0]));
            } else {
                assert(one =~= Seq::<OpenCodeProfileV>::empty());
                assert(one.to_multiset() =~= Multiset::<OpenCodeProfileV>::empty());
            }
            assert(opencode_vs(out@).to_multiset() =~= opencode_listed(
                fv.take(i + 1),
            ).to_multiset());
        }
        i = i + 1;
    }
    proof {
        assert(files_v(files@).take(n as int) =~= files_v(files@));
    }
    out
}

/// Law: applying a profile never touches a foreign key of the live
/// configuration document: only the `provider` entry changes.
pub proof fn lemma_opencode_apply_preserves_foreign(doc: JsonV, ps: EntriesV, k: Seq<char>)
    requires
        doc is Obj,
        k != "provider"@,
    ensures
        oc_config_after(doc, ps) is Obj,
        lookup(oc_config_after(doc, ps)->Obj_0, k) == lookup(doc->Obj_0, k),
{
    let es = doc->Obj_0;
    if ps.len() == 0 {
    } else {
        match lookup(es, "provider"@) {
            Option::None => {
                assert(!has_key(es, "provider"@));
                lemma_lookup_push(es, ("provider"@, JsonV::Obj(set_all(Seq::empty(), ps))), k);
                assert(oc_config_after(doc, ps)->Obj_0 == set_one(
                    es,
                    "provider"@,
                    JsonV::Obj(set_all(Seq::empty(), ps)),
                ));
            },
            Option::Some(JsonV::Obj(pes)) => {
                crate::json::lemma_key_index_in_range(es, "provider"@);
                crate::merge::lemma_lookup_update_other(
                    es,
                    key_index(es, "provider"@),
                    ("provider"@, JsonV::Obj(set_all(pes, ps))),
                    k,
                );
            },
            Option::Some(_) => {},
        }
    }
}


/// Saves a profile with a fresh timestamp and, if needed, a fresh id.
pub fn save_opencode_profile(home: &str, profile: OpenCodeProfile, existing_text: Option<String>)
    -> (r: Result<(OpenCodeProfile, FileWrite), StoreError>)
    ensures
        r is Ok <==> (trimmed_of(profile.id@).len() == 0 || valid_id(profile.id@)),
        r is Err ==> r->Err_0 is InvalidIdentifier,
        r is Ok ==> (exists|now: Seq<char>, fid: Seq<char>|
            valid_id(fid) && r->Ok_0.0.v() == #[trigger] saved_opencode_profile(
                profile.v(),
                view_opt(existing_text),
                now,
                fid,
            )),
        r is Ok ==> {
            let p = r->Ok_0.0;
            &&& r->Ok_0.1.path@ == opencode_profile_path_v(home@, p.id@)
            &&& r->Ok_0.1.bytes@ == json_text(opencode_profile_jv(p.v()))
            &&& p.name@ == profile.name@
            &&& p.v().providers == profile.v().providers
            &&& p.v().auth == profile.v().auth
        },
{
    let now = crate::trusted::now_rfc3339();
    let fresh_id = crate::trusted::new_uuid();
    save_opencode_profile_with(home, profile, existing_text, now, fresh_id)
}

/// Duplicates a stored profile under a new name, stamped with the
/// current time and a fresh id.
pub fn duplicate_opencode_profile(home: &str, text: Option<String>, new_name: String) -> (r:
    Result<(OpenCodeProfile, FileWrite), StoreError>)
    ensures
        r is Ok <==> opencode_get_of(view_opt(text)) is Ok,
        r is Ok ==> ({
            let src = opencode_get_of(view_opt(text))->Ok_0;
            exists|now: Seq<char>, fid: Seq<char>|
                valid_id(fid) && r->Ok_0.0.v() == #[trigger] duplicated_opencode_profile(
                    src,
                    new_name@,
                    now,
                    fid,
                )
        }),
        r is Ok ==> {
            let src = opencode_get_of(view_opt(text))->Ok_0;
            let p = r->Ok_0.0;
            &&& p.name@ == new_name@
            &&& p.v().providers == src.providers
            &&& p.v().auth == src.auth
            &&& r->Ok_0.1.path@ == opencode_profile_path_v(home@, p.id@)
            &&& r->Ok_0.1.bytes@ == json_text(opencode_profile_jv(p.v()))
        },
{
    let now = crate::trusted::now_rfc3339();
    let fresh_id = crate::trusted::new_uuid();
    duplicate_opencode_profile_with(home, text, new_name, now, fresh_id)
}


// ---------------------------------------------------------------------------
// Reading the live configuration
// ---------------------------------------------------------------------------

/// Options entries with the alternate `baseURL` spelling folded into
/// `baseUrl`.
pub open spec fn normalized_options(o: EntriesV) -> EntriesV {
    if has_key(o, "baseURL"@) {
        set_one(
            o.remove(key_index(o, "baseURL"@)),
            "baseUrl"@,
            o[key_index(o, "baseURL"@)].1,
        )
    } else {
        o
    }
}

/// One provider value with its options normalized.
pub open spec fn normalized_provider(v: JsonV) -> JsonV {
    if v is Obj {
        let es = v->Obj_0;
        match lookup(es, "options"@) {
            Option::Some(JsonV::Obj(o)) => JsonV::Obj(
                es.update(
                    key_index(es, "options"@),
                    ("options"@, JsonV::Obj(normalized_options(o))),
                ),
            ),
            _ => v,
        }
    } else {
        v
    }
}

/// The whole provider section, normalized per provider.
pub open spec fn normalized_providers(v: JsonV) -> JsonV {
    if v is Obj {
        JsonV::Obj(
            Seq::new(v->Obj_0.len(), |i: int| (v->Obj_0[i].0, normalized_provider(v->Obj_0[i].1))),
        )
    } else {
        v
    }
}

/// Normalizes one provider value.
fn normalize_one(j: &Json) -> (r: Json)
    ensures
        r.jv() == normalized_provider(j.jv()),
{
    let pes = match j {
        Json::Obj(pes) => pes,
        _ => {
            return json_clone(j);
        },
    };
    let oi = match crate::json::obj_find(pes, &String::from_str("options")) {
        Option::Some(oi) => oi,
        Option::None => {
            proof {
                assert(lookup(jv_entries(pes@), "options"@) is None);
            }
            return json_clone(j);
        },
    };
    let oes = match &pes[oi].1 {
        Json::Obj(oes) => oes,
        _ => {
            proof {
                lemma_jv_entries_index(pes@, oi as int);
                assert(lookup(jv_entries(pes@), "options"@) == Option::Some(
                    jv_entries(pes@)[oi as int].1,
                ));
                assert(!(jv_entries(pes@)[oi as int].1 is Obj));
            }
            return json_clone(j);
        },
    };
    proof {
        lemma_jv_entries_index(pes@, oi as int);
        assert(lookup(jv_entries(pes@), "options"@) == Option::Some(
            jv_entries(pes@)[oi as int].1,
        ));
        assert(jv_entries(pes@)[oi as int].1 == JsonV::Obj(jv_entries(oes@)));
    }
    let mut new_oes = entries_clone(oes);
    let ghost oes0 = jv_entries(oes@);
    match crate::json::obj_find(&new_oes, &String::from_str("baseURL")) {
        Option::Some(bi) => {
            let ghost cv = new_oes@;
            let e = new_oes.remove(bi);
            proof {
                lemma_jv_entries_len(new_oes@);
                lemma_jv_entries_len(cv);
                assert forall|l: int| 0 <= l < jv_entries(new_oes@).len() implies jv_entries(
                    new_oes@,
                )[l] == jv_entries(cv).remove(bi as int)[l] by {
                    lemma_jv_entries_index(new_oes@, l);
                    if l < bi {
                        lemma_jv_entries_index(cv, l);
                    } else {
                        lemma_jv_entries_index(cv, l + 1);
                    }
                }
                assert(jv_entries(new_oes@) =~= jv_entries(cv).remove(bi as int));
                lemma_jv_entries_index(cv, bi as int);
                assert(e.1.jv() == oes0[key_index(oes0, "baseURL"@)].1);
            }
            obj_set(&mut new_oes, String::from_str("baseUrl"), e.1);
        },
        Option::None => {},
    }
    let mut new_pes = entries_clone(pes);
    proof {
        lemma_jv_entries_len(pes@);
        lemma_jv_entries_len(new_pes@);
    }
    let ghost cv2 = new_pes@;
    let k = pes[oi].0.clone();
    new_pes.set(oi, (k, Json::Obj(new_oes)));
    proof {
        let es = jv_entries(pes@);
        lemma_jv_entries_len(pes@);
        lemma_jv_entries_len(new_pes@);
        lemma_jv_entries_index(pes@, oi as int);
        assert forall|l: int| 0 <= l < jv_entries(new_pes@).len() implies jv_entries(new_pes@)[l]
            == es.update(
            key_index(es, "options"@),
            ("options"@, JsonV::Obj(normalized_options(oes0))),
        )[l] by {
            lemma_jv_entries_index(new_pes@, l);
            lemma_jv_entries_index(cv2, l);
        }
        assert(jv_entries(new_pes@) =~= es.update(
            key_index(es, "options"@),
            ("options"@, JsonV::Obj(normalized_options(oes0))),
        ));
    }
    Json::Obj(new_pes)
}

/// Normalizes the provider section: each provider's `baseURL` becomes
/// `baseUrl`.
#[verifier::loop_isolation(false)]
pub fn normalize_provider_options(j: &Json) -> (r: Json)
    ensures
        r.jv() == normalized_providers(j.jv()),
{
    let es = match j {
        Json::Obj(es) => es,
        _ => {
            return json_clone(j);
        },
    };
    let n = es.len();
    let mut out: Vec<(String, Json)> = Vec::new();
    let mut i: usize = 0;
    while i < n
        invariant
            0 <= i <= n,
            out@.len() == i,
            jv_entries(out@) == Seq::new(
                jv_entries(es@).len(),
                |l: int| (jv_entries(es@)[l].0, normalized_provider(jv_entries(es@)[l].1)),
            ).take(i as int),
        decreases n - i,
    {
        proof {
            lemma_jv_entries_len(es@);
            lemma_jv_entries_index(es@, i as int);
        }
        let ghost out0 = out@;
        let nv = normalize_one(&es[i].1);
        let k = es[i].0.clone();
        out.push((k, nv));
        proof {
            let target = Seq::new(
                jv_entries(es@).len(),
                |l: int| (jv_entries(es@)[l].0, normalized_provider(jv_entries(es@)[l].1)),
            );
            assert(out@.drop_last() =~= out0);
            assert((out@.last().0@, out@.last().1.jv()) == target[i as int]);
            assert(jv_entries(out@) =~= jv_entries(out0).push(target[i as int]));
            assert(target.take(i + 1) =~= target.take(i as int).push(target[i as int]));
            assert(jv_entries(out@) =~= target.take(i + 1));
        }
        i = i + 1;
    }
    proof {
        lemma_jv_entries_len(es@);
        let target = Seq::new(
            jv_entries(es@).len(),
            |l: int| (jv_entries(es@)[l].0, normalized_provider(jv_entries(es@)[l].1)),
        );
        assert(target.take(n as int) =~= target);
    }
    Json::Obj(out)
}

/// The provider section a live configuration document carries (an empty
/// object when absent or when the document is not an object).
pub open spec fn provider_section_of(config: JsonV) -> JsonV {
    if config is Obj {
        match lookup(config->Obj_0, "provider"@) {
            Option::Some(v) => v,
            Option::None => JsonV::Obj(Seq::empty()),
        }
    } else {
        JsonV::Obj(Seq::empty())
    }
}

/// The providers the live configuration yields: the normalized provider
/// section read strictly; any malformed entry empties the whole result.
pub open spec fn current_providers_of(config: JsonV) -> Seq<(Seq<char>, OpenCodeProviderConfigV)> {
    let norm = normalized_providers(provider_section_of(config));
    if norm is Obj {
        match oc_providers_of_entries(norm->Obj_0) {
            Option::Some(ps) => ps,
            Option::None => Seq::empty(),
        }
    } else {
        Seq::empty()
    }
}

/// The secret a normalized provider value carries under
/// `options.apiKey`, if any.
pub open spec fn provider_api_key(v: JsonV) -> Option<Seq<char>> {
    if v is Obj {
        match lookup(v->Obj_0, "options"@) {
            Option::Some(JsonV::Obj(o)) => as_str_of(lookup(o, "apiKey"@)),
            _ => Option::None,
        }
    } else {
        Option::None
    }
}

/// The synthesized secrets entry for one provider key.
pub open spec fn auth_entry_jv(key: Seq<char>) -> JsonV {
    JsonV::Obj(seq![("type"@, JsonV::Str("api"@)), ("key"@, JsonV::Str(key))])
}

/// One augmentation step: a provider without a secrets entry contributes
/// one drawn from its own options, when it carries a non-empty key.
pub open spec fn aug_step(auth: EntriesV, e: (Seq<char>, JsonV)) -> EntriesV {
    if has_key(auth, e.0) {
        auth
    } else {
        match provider_api_key(e.1) {
            Option::Some(k) => if k.len() > 0 {
                auth.push((e.0, auth_entry_jv(k)))
            } else {
                auth
            },
            Option::None => auth,
        }
    }
}

/// The secrets entries after every provider contributed, in order.
pub open spec fn augmented_auth(auth: EntriesV, provs: EntriesV) -> EntriesV
    decreases provs,
{
    if provs.len() == 0 {
        auth
    } else {
        aug_step(augmented_auth(auth, provs.drop_last()), provs.last())
    }
}


/// Reads a normalized provider section strictly: one malformed entry, or
/// a non-object section, empties the whole result.
#[verifier::loop_isolation(false)]
fn strict_providers(normalized: &Json) -> (r: Vec<(String, OpenCodeProviderConfig)>)
    ensures
        Seq::new(r@.len(), |i: int| (r@[i].0@, r@[i].1.v())) == (if normalized.jv() is Obj {
            match oc_providers_of_entries(normalized.jv()->Obj_0) {
                Option::Some(ps) => ps,
                Option::None => Seq::<(Seq<char>, OpenCodeProviderConfigV)>::empty(),
            }
        } else {
            Seq::<(Seq<char>, OpenCodeProviderConfigV)>::empty()
        }),
{
    let nes = match normalized {
        Json::Obj(nes) => nes,
        _ => {
            let v: Vec<(String, OpenCodeProviderConfig)> = Vec::new();
            proof {
                assert(Seq::new(v@.len(), |i: int| (v@[i].0@, v@[i].1.v()))
                    =~= Seq::<(Seq<char>, OpenCodeProviderConfigV)>::empty());
            }
            return v;
        },
    };
    let n = nes.len();
    let mut out: Vec<(String, OpenCodeProviderConfig)> = Vec::new();
    let mut i: usize = 0;
    while i < n
        invariant
            0 <= i <= n,
            out@.len() == i,
            oc_providers_of_entries(jv_entries(nes@).take(i as int)) == Option::Some(
                Seq::new(i as nat, |l: int| (out@[l].0@, out@[l].1.v())),
            ),
        decreases n - i,
    {
        proof {
            lemma_jv_entries_len(nes@);
            lemma_jv_entries_index(nes@, i as int);
        }
        match oc_provider_from_json(&nes[i].1) {
            Option::Some(pc) => {
                let ghost out0 = out@;
                let k = nes[i].0.clone();
                out.push((k, pc));
                proof {
                    let ov = jv_entries(nes@);
                    assert(ov.take(i + 1).drop_last() =~= ov.take(i as int));
                    assert(ov.take(i + 1).last() == ov[i as int]);
                    assert(Seq::new((i + 1) as nat, |l: int| (out@[l].0@, out@[l].1.v()))
                        =~= Seq::new(i as nat, |l: int| (out0[l].0@, out0[l].1.v())).push(
                        (out@[i as int].0@, out@[i as int].1.v()),
                    ));
                    assert(oc_providers_of_entries(ov.take(i + 1)) == Option::Some(
                        Seq::new((i + 1) as nat, |l: int| (out@[l].0@, out@[l].1.v())),
                    ));
                }
            },
            Option::None => {
                proof {
                    let ov = jv_entries(nes@);
                    assert(ov.take(i + 1).drop_last() =~= ov.take(i as int));
                    assert(ov.take(i + 1).last() == ov[i as int]);
                    assert(oc_providers_of_entries(ov.take(i + 1)) is None);
                    lemma_oc_providers_none_extends(ov, i + 1);
                }
                let v: Vec<(String, OpenCodeProviderConfig)> = Vec::new();
                proof {
                    lemma_jv_entries_len(nes@);
                    assert(Seq::new(v@.len(), |l: int| (v@[l].0@, v@[l].1.v()))
                        =~= Seq::<(Seq<char>, OpenCodeProviderConfigV)>::empty());
                }
                return v;
            },
        }
        i = i + 1;
    }
    proof {
        lemma_jv_entries_len(nes@);
        assert(jv_entries(nes@).take(n as int) =~= jv_entries(nes@));
        assert(Seq::new(out@.len(), |l: int| (out@[l].0@, out@[l].1.v())) =~= Seq::new(
            n as nat,
            |l: int| (out@[l].0@, out@[l].1.v()),
        ));
    }
    out
}

/// Reads the current live configuration: the providers from the
/// configuration document (normalized, read strictly), and the secrets
/// from the secrets document, augmented with any `options.apiKey` a
/// provider carries when its own secrets entry is missing.
#[verifier::loop_isolation(false)]
pub fn read_opencode_current_config(config_text: Option<String>, auth_text: Option<String>) -> (r:
    OpenCodeCurrentConfig)
    ensures
        ({
            let cdoc = live_doc_read(view_opt(config_text));
            let adoc = live_doc_read(view_opt(auth_text));
            &&& Seq::new(r.providers@.len(), |i: int| (r.providers@[i].0@, r.providers@[i].1.v()))
                == current_providers_of(cdoc)
            &&& jv_entries(r.auth@) == augmented_auth(
                (if adoc is Obj {
                    adoc->Obj_0
                } else {
                    Seq::<(Seq<char>, JsonV)>::empty()
                }),
                ({
                    let norm = normalized_providers(provider_section_of(cdoc));
                    if norm is Obj {
                        norm->Obj_0
                    } else {
                        Seq::<(Seq<char>, JsonV)>::empty()
                    }
                }),
            )
        }),
{
    let config_doc = read_json_file(config_text);
    let ghost cdoc = config_doc.jv();
    let section = match &config_doc {
        Json::Obj(es) => match obj_get(es, &String::from_str("provider")) {
            Option::Some(v) => json_clone(v),
            Option::None => Json::Obj(Vec::new()),
        },
        _ => Json::Obj(Vec::new()),
    };
    proof {
        assert(jv_entries(Seq::<(String, Json)>::empty()) =~= Seq::<(Seq<char>, JsonV)>::empty());
        assert(section.jv() == provider_section_of(cdoc));
    }
    let normalized = normalize_provider_options(&section);

    // Read the normalized section strictly; one bad entry empties it.
    let providers = strict_providers(&normalized);

    // Base secrets from the secrets document.
    let auth_doc = read_json_file(auth_text);
    let ghost adoc = auth_doc.jv();
    let mut auth: Vec<(String, Json)> = match auth_doc {
        Json::Obj(aes) => aes,
        _ => Vec::new(),
    };
    proof {
        assert(jv_entries(Seq::<(String, Json)>::empty()) =~= Seq::<(Seq<char>, JsonV)>::empty());
    }

    // Augment with any provider-held key whose secrets entry is missing.
    let ghost auth_base = jv_entries(auth@);
    match &normalized {
        Json::Obj(nes) => {
            let n = nes.len();
            let mut i: usize = 0;
            while i < n
                invariant
                    0 <= i <= n,
                    jv_entries(auth@) == augmented_auth(
                        auth_base,
                        jv_entries(nes@).take(i as int),
                    ),
                decreases n - i,
            {
                proof {
                    lemma_jv_entries_len(nes@);
                    lemma_jv_entries_index(nes@, i as int);
                }
                let ghost cur = jv_entries(auth@);
                let pid = &nes[i].0;
                let absent = match obj_get(&auth, pid) {
                    Option::None => true,
                    Option::Some(_) => false,
                };
                if absent {
                    let keyval = match &nes[i].1 {
                        Json::Obj(pes2) => match obj_get(pes2, &String::from_str("options")) {
                            Option::Some(Json::Obj(oes2)) => match obj_get(
                                oes2,
                                &String::from_str("apiKey"),
                            ) {
                                Option::Some(Json::Str(kk)) => Option::Some(kk.clone()),
                                _ => Option::None,
                            },
                            _ => Option::None,
                        },
                        _ => Option::None,
                    };
                    match keyval {
                        Option::Some(kk) => {
                            let ghost kv = kk@;
                            if !kk.as_str().is_empty() {
                                let mut entry: Vec<(String, Json)> = Vec::new();
                                entry.push(
                                    (String::from_str("type"), Json::Str(String::from_str("api"))),
                                );
                                entry.push((String::from_str("key"), Json::Str(kk)));
                                proof {
                                    lemma_jv_entries_len(entry@);
                                    lemma_jv_entries_index(entry@, 0);
                                    lemma_jv_entries_index(entry@, 1);
                                }
                                let ghost auth0 = auth@;
                                auth.push((pid.clone(), Json::Obj(entry)));
                                proof {
                                    assert(auth@.drop_last() =~= auth0);
                                    assert(jv_entries(entry@) =~= seq![
                                        ("type"@, JsonV::Str("api"@)),
                                        ("key"@, JsonV::Str(kv)),
                                    ]);
                                    assert(provider_api_key(jv_entries(nes@)[i as int].1)
                                        == Option::Some(kv));
                                    let pair = (jv_entries(nes@)[i as int].0, auth_entry_jv(kv));
                                    lemma_jv_entries_len(auth@);
                                    lemma_jv_entries_len(auth0);
                                    assert forall|l: int|
                                        0 <= l < jv_entries(auth@).len() implies jv_entries(
                                        auth@,
                                    )[l] == cur.push(pair)[l] by {
                                        lemma_jv_entries_index(auth@, l);
                                        if l < auth0.len() {
                                            lemma_jv_entries_index(auth0, l);
                                        }
                                    }
                                    assert(jv_entries(auth@) =~= cur.push(pair));
                                }
                            }
                        },
                        Option::None => {},
                    }
                }
                proof {
                    let ov = jv_entries(nes@);
                    assert(ov.take(i + 1).drop_last() =~= ov.take(i as int));
                    assert(ov.take(i + 1).last() == ov[i as int]);
                    assert(jv_entries(auth@) =~= augmented_auth(auth_base, ov.take(i + 1)));
                }
                i = i + 1;
            }
            proof {
                lemma_jv_entries_len(nes@);
                assert(jv_entries(nes@).take(n as int) =~= jv_entries(nes@));
            }
        },
        _ => {},
    }
    proof {
        assert(cdoc == live_doc_read(view_opt(config_text)));
        assert(adoc == live_doc_read(view_opt(auth_text)));
        assert(normalized.jv() == normalized_providers(provider_section_of(cdoc)));
        assert(Seq::new(providers@.len(), |i: int| (providers@[i].0@, providers@[i].1.v()))
            == current_providers_of(cdoc));
    }
    OpenCodeCurrentConfig { providers, auth }
}

} // verus!
