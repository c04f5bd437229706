//! The Codex tool family: profile records, their document form, and the
//! plans that project a profile onto the tool's two live files (a JSON
//! secrets file and a validated TOML settings file) as one atomic group.

use vstd::prelude::*;
use vstd::utf8::encode_utf8;
use vstd::multiset::Multiset;
use crate::err::{StoreError, StoreErrorV};
use crate::ids::{valid_id, validate_profile_id, pointer_of, view_opt};
use crate::json::{Json, JsonV, EntriesV, lookup, jv_entries, obj_get,
    lemma_jv_entries_len, lemma_jv_entries_index, lemma_lookup_at};
use crate::merge::{entries_clone};
use crate::text::{json_text, json_to_bytes};
use crate::trusted::{parse_of, parse_json, toml_wf, check_toml, trimmed_of, str_trim, new_uuid,
    now_rfc3339};
use crate::writer::{FileWrite, WriteGroup, originals_v, DeletePlan};
use crate::order::{lex_le, lemma_lex_le_total, lemma_lex_le_trans, bytes_le,
    lemma_insert_to_multiset, str_eq};
use crate::trusted::{lower_of, to_lowercase};

verus! {

broadcast use vstd::std_specs::vec::group_vec_axioms;

/// A stored Codex profile.
pub struct CodexProfile {
    pub id: String,
    pub name: String,
    pub description: Option<String>,
    pub created_at: String,
    pub updated_at: String,
    /// The secrets document: a JSON object's entries.
    pub auth: Vec<(String, Json)>,
    /// The settings document: TOML text, validated before any write.
    pub config_toml: String,
}

/// The model of a Codex profile.
pub struct CodexProfileV {
    pub id: Seq<char>,
    pub name: Seq<char>,
    pub description: Option<Seq<char>>,
    pub created_at: Seq<char>,
    pub updated_at: Seq<char>,
    pub auth: EntriesV,
    pub config_toml: Seq<char>,
}

impl CodexProfile {
    /// The model of this profile.
    pub open spec fn v(self) -> CodexProfileV {
        CodexProfileV {
            id: self.id@,
            name: self.name@,
            description: match self.description {
                Option::None => Option::None,
                Option::Some(d) => Option::Some(d@),
            },
            created_at: self.created_at@,
            updated_at: self.updated_at@,
            auth: jv_entries(self.auth@),
            config_toml: self.config_toml@,
        }
    }
}

/// Live-file status of the Codex family.
pub struct CodexConfigStatus {
    pub auth_exists: bool,
    pub config_exists: bool,
    pub auth_path: String,
    pub config_path: String,
}

/// What the live Codex files currently hold.
pub struct CodexCurrentConfig {
    pub auth: Vec<(String, Json)>,
    pub config_toml: String,
}

// ---------------------------------------------------------------------------
// Paths
// ---------------------------------------------------------------------------

/// The directory this library keeps Codex profiles under.
pub open spec fn droidgear_codex_dir_v(home: Seq<char>) -> Seq<char> {
    home + "/.droidgear/codex"@
}

pub fn get_droidgear_codex_dir(home: &str) -> (r: String)
    ensures
        r@ == droidgear_codex_dir_v(home@),
{
    let mut s = String::from_str(home);
    s.append("/.droidgear/codex");
    s
}

/// `<home>/.droidgear/codex/profiles`
pub open spec fn codex_profiles_dir_v(home: Seq<char>) -> Seq<char> {
    droidgear_codex_dir_v(home) + "/profiles"@
}

pub fn get_profiles_dir(home: &str) -> (r: String)
    ensures
        r@ == codex_profiles_dir_v(home@),
{
    let mut s = get_droidgear_codex_dir(home);
    s.append("/profiles");
    s
}

/// `<home>/.droidgear/codex/active-profile.txt`
pub open spec fn codex_pointer_path_v(home: Seq<char>) -> Seq<char> {
    droidgear_codex_dir_v(home) + "/active-profile.txt"@
}

pub fn get_active_profile_path(home: &str) -> (r: String)
    ensures
        r@ == codex_pointer_path_v(home@),
{
    let mut s = get_droidgear_codex_dir(home);
    s.append("/active-profile.txt");
    s
}

/// `<home>/.codex`
pub open spec fn codex_config_dir_v(home: Seq<char>) -> Seq<char> {
    home + "/.codex"@
}

pub fn get_codex_config_dir(home: &str) -> (r: String)
    ensures
        r@ == codex_config_dir_v(home@),
{
    let mut s = String::from_str(home);
    s.append("/.codex");
    s
}

/// `<home>/.codex/auth.json`
pub open spec fn codex_auth_path_v(home: Seq<char>) -> Seq<char> {
    codex_config_dir_v(home) + "/auth.json"@
}

pub fn get_codex_auth_path(home: &str) -> (r: String)
    ensures
        r@ == codex_auth_path_v(home@),
{
    let mut s = get_codex_config_dir(home);
    s.append("/auth.json");
    s
}

/// `<home>/.codex/config.toml`
pub open spec fn codex_config_path_v(home: Seq<char>) -> Seq<char> {
    codex_config_dir_v(home) + "/config.toml"@
}

pub fn get_codex_config_path(home: &str) -> (r: String)
    ensures
        r@ == codex_config_path_v(home@),
{
    let mut s = get_codex_config_dir(home);
    s.append("/config.toml");
    s
}

/// The document path of one profile.
pub open spec fn codex_profile_path_v(home: Seq<char>, id: Seq<char>) -> Seq<char> {
    codex_profiles_dir_v(home) + "/"@ + id + ".json"@
}

/// Path of a profile's document; rejects filename-unsafe ids before any
/// path is formed.
pub fn get_profile_path(home: &str, id: &str) -> (r: Result<String, StoreError>)
    ensures
        r is Ok <==> valid_id(id@),
        r is Ok ==> r->Ok_0@ == codex_profile_path_v(home@, id@),
        r is Err ==> r->Err_0 is InvalidIdentifier,
{
    validate_profile_id(id)?;
    let mut s = get_profiles_dir(home);
    s.append("/");
    s.append(id);
    s.append(".json");
    Ok(s)
}


// ---------------------------------------------------------------------------
// Document form
// ---------------------------------------------------------------------------

/// The entries of a profile's document, in the order they are written.
pub open spec fn codex_profile_entries(p: CodexProfileV) -> EntriesV {
    let head = seq![("id"@, JsonV::Str(p.id)), ("name"@, JsonV::Str(p.name))];
    let with_desc = match p.description {
        Option::None => head,
        Option::Some(d) => head.push(("description"@, JsonV::Str(d))),
    };
    with_desc + seq![
        ("createdAt"@, JsonV::Str(p.created_at)),
        ("updatedAt"@, JsonV::Str(p.updated_at)),
        ("auth"@, JsonV::Obj(p.auth)),
        ("configToml"@, JsonV::Str(p.config_toml)),
    ]
}

/// The document a profile is persisted as.
pub open spec fn codex_profile_jv(p: CodexProfileV) -> JsonV {
    JsonV::Obj(codex_profile_entries(p))
}

/// Builds the document of a profile.
pub fn codex_profile_to_json(p: &CodexProfile) -> (r: Json)
    ensures
        r.jv() == codex_profile_jv(p.v()),
{
    let mut es: Vec<(String, Json)> = Vec::new();
    es.push((String::from_str("id"), Json::Str(p.id.clone())));
    es.push((String::from_str("name"), Json::Str(p.name.clone())));
    match &p.description {
        Option::None => {},
        Option::Some(d) => {
            es.push((String::from_str("description"), Json::Str(d.clone())));
        },
    }
    es.push((String::from_str("createdAt"), Json::Str(p.created_at.clone())));
    es.push((String::from_str("updatedAt"), Json::Str(p.updated_at.clone())));
    es.push((String::from_str("auth"), Json::Obj(entries_clone(&p.auth))));
    es.push((String::from_str("configToml"), Json::Str(p.config_toml.clone())));
    proof {
        lemma_jv_entries_len(es@);
        assert forall|l: int| 0 <= l < es@.len() implies jv_entries(es@)[l]
            == codex_profile_entries(p.v())[l] by {
            lemma_jv_entries_index(es@, l);
        }
        assert(jv_entries(es@) =~= codex_profile_entries(p.v()));
    }
    Json::Obj(es)
}

/// A required string field.
pub open spec fn str_field(es: EntriesV, k: Seq<char>) -> Option<Seq<char>> {
    match lookup(es, k) {
        Option::Some(JsonV::Str(s)) => Option::Some(s),
        _ => Option::None,
    }
}

/// An optional string field: absent or null is an accepted absence; a
/// non-string value is a malformed document (outer `None`).
pub open spec fn opt_str_field(es: EntriesV, k: Seq<char>) -> Option<Option<Seq<char>>> {
    match lookup(es, k) {
        Option::None => Option::Some(Option::None),
        Option::Some(JsonV::Null) => Option::Some(Option::None),
        Option::Some(JsonV::Str(s)) => Option::Some(Option::Some(s)),
        _ => Option::None,
    }
}

/// An object field that defaults to empty when absent.
pub open spec fn obj_field_or_empty(es: EntriesV, k: Seq<char>) -> Option<EntriesV> {
    match lookup(es, k) {
        Option::None => Option::Some(Seq::empty()),
        Option::Some(JsonV::Obj(o)) => Option::Some(o),
        _ => Option::None,
    }
}

/// A string field that defaults to empty when absent.
pub open spec fn str_field_or_empty(es: EntriesV, k: Seq<char>) -> Option<Seq<char>> {
    match lookup(es, k) {
        Option::None => Option::Some(Seq::empty()),
        Option::Some(JsonV::Str(s)) => Option::Some(s),
        _ => Option::None,
    }
}

/// What a document means as a profile: `None` when the document does not
/// have the required shape.
pub open spec fn codex_profile_of(v: JsonV) -> Option<CodexProfileV> {
    if !(v is Obj) {
        Option::None
    } else {
        let es = v->Obj_0;
        if str_field(es, "id"@) is Some && str_field(es, "name"@) is Some && opt_str_field(
            es,
            "description"@,
        ) is Some && str_field(es, "createdAt"@) is Some && str_field(es, "updatedAt"@) is Some
            && obj_field_or_empty(es, "auth"@) is Some && str_field_or_empty(
            es,
            "configToml"@,
        ) is Some {
            Option::Some(
                CodexProfileV {
                    id: str_field(es, "id"@)->0,
                    name: str_field(es, "name"@)->0,
                    description: opt_str_field(es, "description"@)->0,
                    created_at: str_field(es, "createdAt"@)->0,
                    updated_at: str_field(es, "updatedAt"@)->0,
                    auth: obj_field_or_empty(es, "auth"@)->0,
                    config_toml: str_field_or_empty(es, "configToml"@)->0,
                },
            )
        } else {
            Option::None
        }
    }
}

/// Reads a profile out of its document.
pub fn codex_profile_from_json(j: &Json) -> (r: Option<CodexProfile>)
    ensures
        match r {
            Option::Some(p) => codex_profile_of(j.jv()) == Option::Some(p.v()),
            Option::None => codex_profile_of(j.jv()) is None,
        },
{
    let es = match j {
        Json::Obj(es) => es,
        _ => {
            return Option::None;
        },
    };
    let id = match obj_get(es, &String::from_str("id")) {
        Option::Some(Json::Str(s)) => s.clone(),
        _ => {
            return Option::None;
        },
    };
    let name = match obj_get(es, &String::from_str("name")) {
        Option::Some(Json::Str(s)) => s.clone(),
        _ => {
            return Option::None;
        },
    };
    let description = match obj_get(es, &String::from_str("description")) {
        Option::None => Option::None,
        Option::Some(Json::Null) => Option::None,
        Option::Some(Json::Str(s)) => Option::Some(s.clone()),
        _ => {
            return Option::None;
        },
    };
    let created_at = match obj_get(es, &String::from_str("createdAt")) {
        Option::Some(Json::Str(s)) => s.clone(),
        _ => {
            return Option::None;
        },
    };
    let updated_at = match obj_get(es, &String::from_str("updatedAt")) {
        Option::Some(Json::Str(s)) => s.clone(),
        _ => {
            return Option::None;
        },
    };
    let auth = match obj_get(es, &String::from_str("auth")) {
        Option::None => Vec::new(),
        Option::Some(Json::Obj(a)) => entries_clone(a),
        _ => {
            return Option::None;
        },
    };
    let config_toml = match obj_get(es, &String::from_str("configToml")) {
        Option::None => String::new(),
        Option::Some(Json::Str(s)) => s.clone(),
        _ => {
            return Option::None;
        },
    };
    Option::Some(
        CodexProfile { id, name, description, created_at, updated_at, auth, config_toml },
    )
}


// ---------------------------------------------------------------------------
// Round trip
// ---------------------------------------------------------------------------

/// A profile's document always reads back as exactly that profile.
pub proof fn lemma_codex_profile_round_trip(p: CodexProfileV)
    ensures
        codex_profile_of(codex_profile_jv(p)) == Option::Some(p),
{
    reveal_strlit("id");
    reveal_strlit("name");
    reveal_strlit("description");
    reveal_strlit("createdAt");
    reveal_strlit("updatedAt");
    reveal_strlit("auth");
    reveal_strlit("configToml");
    assert("id"@.len() == 2);
    assert("name"@.len() == 4);
    assert("description"@.len() == 11);
    assert("createdAt"@.len() == 9);
    assert("updatedAt"@.len() == 9);
    assert("auth"@.len() == 4);
    assert("configToml"@.len() == 10);
    assert("createdAt"@[0] == 'c' && "updatedAt"@[0] == 'u');
    assert("createdAt"@ != "updatedAt"@);
    assert("name"@[0] == 'n' && "auth"@[0] == 'a');
    assert("name"@ != "auth"@);
    let es = codex_profile_entries(p);
    match p.description {
        Option::None => {
            assert(es.len() == 6);
            assert(es[0] == ("id"@, JsonV::Str(p.id)));
            assert(es[1] == ("name"@, JsonV::Str(p.name)));
            assert(es[2] == ("createdAt"@, JsonV::Str(p.created_at)));
            assert(es[3] == ("updatedAt"@, JsonV::Str(p.updated_at)));
            assert(es[4] == ("auth"@, JsonV::Obj(p.auth)));
            assert(es[5] == ("configToml"@, JsonV::Str(p.config_toml)));
            lemma_lookup_at(es, "id"@, 0);
            lemma_lookup_at(es, "name"@, 1);
            lemma_lookup_at(es, "createdAt"@, 2);
            lemma_lookup_at(es, "updatedAt"@, 3);
            lemma_lookup_at(es, "auth"@, 4);
            lemma_lookup_at(es, "configToml"@, 5);
            assert(forall|i: int| 0 <= i < es.len() ==> #[trigger] es[i].0 != "description"@);
            assert(lookup(es, "description"@) is None);
        },
        Option::Some(d) => {
            assert(es.len() == 7);
            assert(es[0] == ("id"@, JsonV::Str(p.id)));
            assert(es[1] == ("name"@, JsonV::Str(p.name)));
            assert(es[2] == ("description"@, JsonV::Str(d)));
            assert(es[3] == ("createdAt"@, JsonV::Str(p.created_at)));
            assert(es[4] == ("updatedAt"@, JsonV::Str(p.updated_at)));
            assert(es[5] == ("auth"@, JsonV::Obj(p.auth)));
            assert(es[6] == ("configToml"@, JsonV::Str(p.config_toml)));
            lemma_lookup_at(es, "id"@, 0);
            lemma_lookup_at(es, "name"@, 1);
            lemma_lookup_at(es, "description"@, 2);
            lemma_lookup_at(es, "createdAt"@, 3);
            lemma_lookup_at(es, "updatedAt"@, 4);
            lemma_lookup_at(es, "auth"@, 5);
            lemma_lookup_at(es, "configToml"@, 6);
        },
    }
}

// ---------------------------------------------------------------------------
// Store operations
// ---------------------------------------------------------------------------

/// What `get` yields from the content of a profile's document file.
pub open spec fn codex_get_of(text: Option<Seq<char>>) -> Result<CodexProfileV, StoreErrorV> {
    match text {
        Option::None => Result::Err(StoreErrorV::NotFound),
        Option::Some(t) => match parse_of(t) {
            Option::None => Result::Err(StoreErrorV::MalformedDocument),
            Option::Some(doc) => match codex_profile_of(doc) {
                Option::None => Result::Err(StoreErrorV::MalformedDocument),
                Option::Some(p) => Result::Ok(p),
            },
        },
    }
}

/// Loads one profile from its document file's content (`None` when the
/// file is absent).  Absence is `NotFound`; an unreadable document is
/// `MalformedDocument`.
pub fn get_codex_profile(text: Option<String>) -> (r: Result<CodexProfile, StoreError>)
    ensures
        match r {
            Result::Ok(p) => codex_get_of(view_opt(text)) == Result::<CodexProfileV,
                StoreErrorV,
            >::Ok(p.v()),
            Result::Err(e) => codex_get_of(view_opt(text)) == Result::<CodexProfileV,
                StoreErrorV,
            >::Err(e.v()),
        },
{
    let t = match text {
        Option::None => {
            return Result::Err(StoreError::NotFound);
        },
        Option::Some(t) => t,
    };
    let doc = match parse_json(t.as_str()) {
        Result::Ok(doc) => doc,
        Result::Err(m) => {
            return Result::Err(StoreError::MalformedDocument(m));
        },
    };
    match codex_profile_from_json(&doc) {
        Option::Some(p) => Result::Ok(p),
        Option::None => Result::Err(
            StoreError::MalformedDocument(String::from_str("invalid profile document")),
        ),
    }
}

/// The `createdAt` a profile keeps when saved.
pub open spec fn saved_codex_created(
    p: CodexProfileV,
    existing: Option<Seq<char>>,
    now: Seq<char>,
) -> Seq<char> {
    if trimmed_of(p.id).len() == 0 {
        now
    } else {
        match existing {
            Option::Some(t) => match parse_of(t) {
                Option::Some(doc) => match codex_profile_of(doc) {
                    Option::Some(old) => old.created_at,
                    Option::None => p.created_at,
                },
                Option::None => p.created_at,
            },
            Option::None => if trimmed_of(p.created_at).len() == 0 {
                now
            } else {
                p.created_at
            },
        }
    }
}

/// The record a save persists: a fresh id and creation time on first
/// persistence, the stored creation time on update, and a refreshed
/// `updatedAt` always.
pub open spec fn saved_codex_profile(
    p: CodexProfileV,
    existing: Option<Seq<char>>,
    now: Seq<char>,
    fresh_id: Seq<char>,
) -> CodexProfileV {
    CodexProfileV {
        id: if trimmed_of(p.id).len() == 0 {
            fresh_id
        } else {
            p.id
        },
        created_at: saved_codex_created(p, existing, now),
        updated_at: now,
        ..p
    }
}

/// Saves a profile (create or update): decides the stored record and the
/// one document write that persists it.  `existing_text` is the current
/// content of the profile's document file, `now` the timestamp to stamp,
/// `fresh_id` the id to assign when the caller's id is blank.
pub fn save_codex_profile_with(
    home: &str,
    profile: CodexProfile,
    existing_text: Option<String>,
    now: String,
    fresh_id: String,
) -> (r: Result<(CodexProfile, FileWrite), StoreError>)
    requires
        valid_id(fresh_id@),
    ensures
        r is Ok <==> (trimmed_of(profile.id@).len() == 0 || valid_id(profile.id@)),
        r is Err ==> r->Err_0 is InvalidIdentifier,
        r is Ok ==> {
            let saved = saved_codex_profile(profile.v(), view_opt(existing_text), now@, fresh_id@);
            &&& r->Ok_0.0.v() == saved
            &&& r->Ok_0.1.path@ == codex_profile_path_v(home@, saved.id)
            &&& r->Ok_0.1.bytes@ == json_text(codex_profile_jv(saved))
        },
{
    let mut profile = profile;
    let id_trim = str_trim(profile.id.as_str());
    if id_trim.as_str().is_empty() {
        profile.id = fresh_id;
        profile.created_at = now.clone();
    } else {
        if let Result::Err(e) = validate_profile_id(profile.id.as_str()) {
            return Result::Err(e);
        }
        match existing_text {
            Option::Some(t) => {
                match parse_json(t.as_str()) {
                    Result::Ok(doc) => match codex_profile_from_json(&doc) {
                        Option::Some(old) => {
                            profile.created_at = old.created_at;
                        },
                        Option::None => {},
                    },
                    Result::Err(_) => {},
                }
            },
            Option::None => {
                let created_trim = str_trim(profile.created_at.as_str());
                if created_trim.as_str().is_empty() {
                    profile.created_at = now.clone();
                }
            },
        }
    }
    profile.updated_at = now;
    let path = match get_profile_path(home, profile.id.as_str()) {
        Result::Ok(p) => p,
        Result::Err(e) => {
            return Result::Err(e);
        },
    };
    let doc = codex_profile_to_json(&profile);
    let bytes = json_to_bytes(&doc);
    Result::Ok((profile, FileWrite { path, bytes }))
}

/// Law: saving and then loading the saved document yields the saved
/// record — equal to the input except that `updatedAt` is refreshed (and
/// `id`/`createdAt` are assigned on first persistence).
pub proof fn lemma_codex_save_then_get(
    p: CodexProfileV,
    existing: Option<Seq<char>>,
    now: Seq<char>,
    fresh_id: Seq<char>,
)
    ensures
        ({
            let saved = saved_codex_profile(p, existing, now, fresh_id);
            &&& codex_profile_of(codex_profile_jv(saved)) == Option::Some(saved)
            &&& saved.updated_at == now
            &&& saved.name == p.name
            &&& saved.description == p.description
            &&& saved.auth == p.auth
            &&& saved.config_toml == p.config_toml
            &&& trimmed_of(p.id).len() > 0 ==> saved.id == p.id
        }),
{
    lemma_codex_profile_round_trip(saved_codex_profile(p, existing, now, fresh_id));
}

/// Deletes a profile: absence is not an error, and when the deleted id is
/// the active pointer the pointer is cleared as part of the same plan.
pub fn delete_codex_profile(
    home: &str,
    id: &str,
    profile_exists: bool,
    pointer_text: Option<String>,
) -> (r: Result<DeletePlan, StoreError>)
    ensures
        r is Ok <==> valid_id(id@),
        r is Err ==> r->Err_0 is InvalidIdentifier,
        r is Ok ==> {
            let plan = r->Ok_0;
            &&& (plan.remove_profile is Some <==> profile_exists)
            &&& plan.remove_profile is Some ==> plan.remove_profile->0@ == codex_profile_path_v(
                home@,
                id@,
            )
            &&& plan.clear_pointer == (pointer_of(view_opt(pointer_text)) == Option::Some(id@))
            &&& plan.pointer_path@ == codex_pointer_path_v(home@)
        },
{
    let path = get_profile_path(home, id)?;
    let active = crate::ids::parse_pointer(pointer_text);
    let clear_pointer = match active {
        Option::Some(a) => crate::order::str_eq(a.as_str(), id),
        Option::None => false,
    };
    Result::Ok(
        DeletePlan {
            remove_profile: if profile_exists {
                Option::Some(path)
            } else {
                Option::None
            },
            clear_pointer,
            pointer_path: get_active_profile_path(home),
        },
    )
}

/// The record a duplicate persists: the source under a fresh id and
/// name, with both timestamps set to `now`.
pub open spec fn duplicated_codex_profile(
    src: CodexProfileV,
    new_name: Seq<char>,
    now: Seq<char>,
    fresh_id: Seq<char>,
) -> CodexProfileV {
    CodexProfileV { id: fresh_id, name: new_name, created_at: now, updated_at: now, ..src }
}

/// Duplicates a loaded profile under a fresh id and name; both timestamps
/// are set to `now`, and the source document is untouched.
pub fn duplicate_codex_profile_with(
    home: &str,
    text: Option<String>,
    new_name: String,
    now: String,
    fresh_id: String,
) -> (r: Result<(CodexProfile, FileWrite), StoreError>)
    requires
        valid_id(fresh_id@),
    ensures
        r is Ok <==> codex_get_of(view_opt(text)) is Ok,
        r is Ok ==> {
            let src = codex_get_of(view_opt(text))->Ok_0;
            let dup = duplicated_codex_profile(src, new_name@, now@, fresh_id@);
            &&& r->Ok_0.0.v() == dup
            &&& r->Ok_0.1.path@ == codex_profile_path_v(home@, fresh_id@)
            &&& r->Ok_0.1.bytes@ == json_text(codex_profile_jv(dup))
        },
{
    let mut profile = get_codex_profile(text)?;
    profile.id = fresh_id;
    profile.name = new_name;
    profile.created_at = now.clone();
    profile.updated_at = now;
    let path = match get_profile_path(home, profile.id.as_str()) {
        Result::Ok(p) => p,
        Result::Err(_) => {
            return Result::Err(StoreError::InvalidIdentifier);
        },
    };
    let doc = codex_profile_to_json(&profile);
    let bytes = json_to_bytes(&doc);
    Result::Ok((profile, FileWrite { path, bytes }))
}


// ---------------------------------------------------------------------------
// Listing
// ---------------------------------------------------------------------------

/// The sort key of a profile: its case-folded display name, as bytes.
pub open spec fn codex_key(p: CodexProfileV) -> Seq<u8> {
    encode_utf8(lower_of(p.name))
}

/// Sorted by case-insensitive display name.
pub open spec fn codex_sorted(s: Seq<CodexProfileV>) -> bool {
    forall|l: int, m: int| 0 <= l < m < s.len() ==> lex_le(codex_key(s[l]), codex_key(s[m]))
}

/// The models of a profile vector.
pub open spec fn codex_vs(s: Seq<CodexProfile>) -> Seq<CodexProfileV> {
    Seq::new(s.len(), |i: int| s[i].v())
}

/// Whether a file name ends in the profile-document extension.
pub open spec fn ends_json(name: Seq<char>) -> bool {
    let b = encode_utf8(name);
    &&& b.len() >= 5
    &&& b[b.len() - 5] == 46u8
    &&& b[b.len() - 4] == 106u8
    &&& b[b.len() - 3] == 115u8
    &&& b[b.len() - 2] == 111u8
    &&& b[b.len() - 1] == 110u8
}

/// The profiles a directory listing yields: every file with the document
/// extension whose content parses as a profile; the rest are skipped.
pub open spec fn codex_listed(files: Seq<(Seq<char>, Seq<char>)>) -> Seq<CodexProfileV>
    decreases files,
{
    if files.len() == 0 {
        Seq::empty()
    } else {
        codex_listed(files.drop_last()) + codex_listed_one(files.last())
    }
}

/// The profiles one directory entry contributes.
pub open spec fn codex_listed_one(f: (Seq<char>, Seq<char>)) -> Seq<CodexProfileV> {
    if ends_json(f.0) {
        match parse_of(f.1) {
            Option::Some(doc) => match codex_profile_of(doc) {
                Option::Some(p) => seq![p],
                Option::None => Seq::empty(),
            },
            Option::None => Seq::empty(),
        }
    } else {
        Seq::empty()
    }
}

/// The view of a listing input.
pub open spec fn files_v(files: Seq<(String, String)>) -> Seq<(Seq<char>, Seq<char>)> {
    Seq::new(files.len(), |i: int| (files[i].0@, files[i].1@))
}

/// Inserts a profile into a vector sorted by case-folded name, keeping it
/// sorted.
fn insert_codex_sorted(v: &mut Vec<CodexProfile>, p: CodexProfile, key: Vec<u8>)
    requires
        codex_sorted(codex_vs(old(v)@)),
        key@ == codex_key(p.v()),
    ensures
        codex_sorted(codex_vs(final(v)@)),
        codex_vs(final(v)@).to_multiset() == codex_vs(old(v)@).to_multiset().insert(p.v()),
{
    let n = v.len();
    let mut pos: usize = 0;
    while pos < n
        invariant
            0 <= pos <= n,
            n == v@.len(),
            v@ == old(v)@,
            forall|l: int| 0 <= l < pos ==> lex_le(codex_key(codex_vs(v@)[l]), key@),
        ensures
            0 <= pos <= n,
            v@ == old(v)@,
            forall|l: int| 0 <= l < pos ==> lex_le(codex_key(codex_vs(v@)[l]), key@),
            pos < n ==> lex_le(key@, codex_key(codex_vs(v@)[pos as int])),
        decreases n - pos,
    {
        let ek = to_lowercase(v[pos].name.as_str());
        let ekb = ek.as_bytes_vec();
        proof {
            assert(ekb@ == codex_key(codex_vs(v@)[pos as int]));
        }
        if !bytes_le(&ekb, &key) {
            proof {
                lemma_lex_le_total(codex_key(codex_vs(v@)[pos as int]), key@);
            }
            break ;
        }
        pos = pos + 1;
    }
    let ghost old_vs = codex_vs(v@);
    let ghost posg = pos as int;
    v.insert(pos, p);
    proof {
        assert(codex_vs(v@) =~= old_vs.insert(posg, p.v()));
        lemma_insert_to_multiset(old_vs, posg, p.v());
        assert forall|l: int, m: int|
            0 <= l < m < codex_vs(v@).len() implies lex_le(
            codex_key(codex_vs(v@)[l]),
            codex_key(codex_vs(v@)[m]),
        ) by {
            let s = codex_vs(v@);
            if m == posg {
                if l < posg {
                    assert(s[l] == old_vs[l]);
                }
            } else if l == posg {
                assert(s[m] == old_vs[m - 1]);
                assert(posg < n);
                assert(lex_le(key@, codex_key(old_vs[posg])));
                if m - 1 > posg {
                    assert(lex_le(codex_key(old_vs[posg]), codex_key(old_vs[m - 1])));
                    lemma_lex_le_trans(key@, codex_key(old_vs[posg]), codex_key(old_vs[m - 1]));
                }
            } else if l < posg && m > posg {
                assert(s[l] == old_vs[l] && s[m] == old_vs[m - 1]);
            } else if m < posg {
                assert(s[l] == old_vs[l] && s[m] == old_vs[m]);
            } else {
                assert(s[l] == old_vs[l - 1] && s[m] == old_vs[m - 1]);
            }
        }
    }
}

/// Whether a file name (as bytes) ends in the document extension.
#[verifier::loop_isolation(false)]
pub fn name_ends_json(name: &str) -> (r: bool)
    ensures
        r == ends_json(name@),
{
    let b = name.as_bytes_vec();
    let n = b.len();
    if n < 5 {
        return false;
    }
    b[n - 5] == 46 && b[n - 4] == 106 && b[n - 3] == 115 && b[n - 2] == 111 && b[n - 1] == 110
}

/// Lists the profiles out of a directory's files, given as (file name,
/// content) pairs: parses every document-extension file, silently skips
/// any that do not parse, and returns the records sorted by
/// case-insensitive display name.
#[verifier::loop_isolation(false)]
pub fn list_codex_profiles(files: Vec<(String, String)>) -> (r: Vec<CodexProfile>)
    ensures
        codex_sorted(codex_vs(r@)),
        codex_vs(r@).to_multiset() == codex_listed(files_v(files@)).to_multiset(),
{
    broadcast use vstd::seq_lib::group_to_multiset_ensures;

    let n = files.len();
    let mut out: Vec<CodexProfile> = Vec::new();
    let mut i: usize = 0;
    while i < n
        invariant
            0 <= i <= n,
            codex_sorted(codex_vs(out@)),
            codex_vs(out@).to_multiset() == codex_listed(files_v(files@).take(i as int)).to_multiset(),
        decreases n - i,
    {
        let ghost fv = files_v(files@);
        let ghost pre = codex_vs(out@).to_multiset();
        if name_ends_json(files[i].0.as_str()) {
            match parse_json(files[i].1.as_str()) {
                Result::Ok(doc) => {
                    match codex_profile_from_json(&doc) {
                        Option::Some(p) => {
                            let lk = to_lowercase(p.name.as_str());
                            let key = lk.as_bytes_vec();
                            insert_codex_sorted(&mut out, p, key);
                        },
                        Option::None => {},
                    }
                },
                Result::Err(_) => {},
            }
        }
        proof {
            assert(fv.take(i + 1).drop_last() =~= fv.take(i as int));
            assert(fv.take(i + 1).last() == fv[i as int]);
            let one = codex_listed_one(fv[i as int]);
            vstd::seq_lib::lemma_multiset_commutative(
                codex_listed(fv.take(i as int)),
                one,
            );
            if one.len() == 1 {
                assert(one =~= Seq::empty().push(one[0]));
                assert(one.to_multiset() =~= Multiset::empty().insert(one[0]));
            } else {
                assert(one =~= Seq::<CodexProfileV>::empty());
                assert(one.to_multiset() =~= Multiset::<CodexProfileV>::empty());
            }
            assert(codex_vs(out@).to_multiset() =~= codex_listed(fv.take(i + 1)).to_multiset());
        }
        i = i + 1;
    }
    proof {
        assert(files_v(files@).take(n as int) =~= files_v(files@));
    }
    out
}


// ---------------------------------------------------------------------------
// Projection
// ---------------------------------------------------------------------------

/// Whether a settings text passes validation: empty or whitespace-only is
/// trivially valid, anything else must be well-formed.
pub open spec fn codex_toml_ok(s: Seq<char>) -> bool {
    trimmed_of(s).len() == 0 || toml_wf(s)
}

/// Validates a settings text before any write is attempted.
pub fn validate_toml(text: &str) -> (r: Result<(), StoreError>)
    ensures
        r is Ok <==> codex_toml_ok(text@),
        r is Err ==> r->Err_0 is ValidationFailed,
{
    let t = str_trim(text);
    if t.as_str().is_empty() {
        return Result::Ok(());
    }
    match check_toml(text) {
        Result::Ok(_) => Result::Ok(()),
        Result::Err(m) => Result::Err(StoreError::ValidationFailed(m)),
    }
}

/// Everything `apply` changes: the two-file atomic group for the live
/// configuration, and the pointer write that must come last, only after
/// the whole group has committed.
pub struct CodexApplyPlan {
    /// The live files, written as one all-or-nothing group.
    pub group: WriteGroup,
    /// The pointer update; performed only on full success of the group.
    pub pointer: FileWrite,
}

/// Plans the projection of a stored profile onto the live Codex files.
/// No plan — and so no side effect at all — unless the profile loads and
/// its settings text validates; the group carries the live files' cached
/// prior contents for rollback.
pub fn apply_codex_profile(
    home: &str,
    id: &str,
    profile_text: Option<String>,
    auth_orig: Option<Vec<u8>>,
    config_orig: Option<Vec<u8>>,
) -> (r: Result<CodexApplyPlan, StoreError>)
    ensures
        ({
            let loaded = codex_get_of(match profile_text {
                Option::None => Option::None,
                Option::Some(t) => Option::Some(t@),
            });
            match r {
                Result::Err(e) => match e {
                    StoreError::InvalidIdentifier => !valid_id(id@),
                    StoreError::NotFound => valid_id(id@) && profile_text is None,
                    StoreError::MalformedDocument(_) => valid_id(id@) && loaded is Err,
                    StoreError::ValidationFailed(_) => valid_id(id@) && loaded is Ok
                        && !codex_toml_ok(loaded->Ok_0.config_toml),
                    _ => false,
                },
                Result::Ok(plan) => {
                    let p = loaded->Ok_0;
                    &&& valid_id(id@)
                    &&& loaded is Ok
                    &&& codex_toml_ok(p.config_toml)
                    &&& plan.group.wf()
                    &&& plan.group.committed == 0
                    &&& plan.group.ops@.len() == 2
                    &&& plan.group.ops@[0].path@ == codex_auth_path_v(home@)
                    &&& plan.group.ops@[0].bytes@ == json_text(JsonV::Obj(p.auth))
                    &&& plan.group.ops@[1].path@ == codex_config_path_v(home@)
                    &&& plan.group.ops@[1].bytes@ == encode_utf8(p.config_toml)
                    &&& originals_v(plan.group.originals@) == seq![
                        (codex_auth_path_v(home@), crate::writer::opt_bytes_v(auth_orig)),
                        (codex_config_path_v(home@), crate::writer::opt_bytes_v(config_orig)),
                    ]
                    &&& plan.pointer.path@ == codex_pointer_path_v(home@)
                    &&& plan.pointer.bytes@ == encode_utf8(id@)
                },
            }
        }),
{
    validate_profile_id(id)?;
    let profile = get_codex_profile(profile_text)?;
    validate_toml(profile.config_toml.as_str())?;

    let auth_path = get_codex_auth_path(home);
    let config_path = get_codex_config_path(home);
    let auth_doc = Json::Obj(profile.auth);
    let auth_bytes = json_to_bytes(&auth_doc);
    let config_bytes = profile.config_toml.as_str().as_bytes_vec();

    let mut ops: Vec<FileWrite> = Vec::new();
    ops.push(FileWrite { path: auth_path.clone(), bytes: auth_bytes });
    ops.push(FileWrite { path: config_path.clone(), bytes: config_bytes });
    let mut originals: Vec<(String, Option<Vec<u8>>)> = Vec::new();
    originals.push((auth_path, auth_orig));
    originals.push((config_path, config_orig));

    proof {
        reveal_strlit("/auth.json");
        reveal_strlit("/config.toml");
        assert(codex_auth_path_v(home@).len() == codex_config_dir_v(home@).len() + 10);
        assert(codex_config_path_v(home@).len() == codex_config_dir_v(home@).len() + 12);
        let ps = Seq::new(ops@.len(), |i: int| ops@[i].path@);
        assert(ps[0] == codex_auth_path_v(home@));
        assert(ps[1] == codex_config_path_v(home@));
        assert(crate::writer::distinct_paths(ps));
    }
    let group = match WriteGroup::new(ops, originals) {
        Option::Some(g) => g,
        Option::None => {
            proof {
                assert(false);
            }
            return Result::Err(StoreError::IoFailure(String::new()));
        },
    };
    proof {
        assert(originals_v(group.originals@) =~= seq![
            (codex_auth_path_v(home@), crate::writer::opt_bytes_v(auth_orig)),
            (codex_config_path_v(home@), crate::writer::opt_bytes_v(config_orig)),
        ]);
    }
    let pointer = FileWrite {
        path: get_active_profile_path(home),
        bytes: id.as_bytes_vec(),
    };
    Result::Ok(CodexApplyPlan { group, pointer })
}

/// What the live secrets file reads as: an empty document when the file
/// is absent or blank, and equally when its content does not parse as an
/// object — a read of the plain adapter never errors, absence and
/// unreadability are valid bootstrap states.
pub open spec fn codex_auth_read_of(text: Option<Seq<char>>) -> EntriesV {
    match text {
        Option::None => Seq::empty(),
        Option::Some(t) => if trimmed_of(t).len() == 0 {
            Seq::empty()
        } else {
            match parse_of(t) {
                Option::None => Seq::empty(),
                Option::Some(doc) => if doc is Obj {
                    doc->Obj_0
                } else {
                    Seq::empty()
                },
            }
        },
    }
}

/// Reads the current live configuration: the secrets object (empty when
/// its file is absent, blank, or not a well-formed object) and the
/// settings text (empty when absent).  Never an error.
pub fn read_codex_current_config(auth_text: Option<String>, config_text: Option<String>) -> (r:
    CodexCurrentConfig)
    ensures
        jv_entries(r.auth@) == codex_auth_read_of(view_opt(auth_text)),
        r.config_toml@ == (match config_text {
            Option::None => Seq::<char>::empty(),
            Option::Some(t) => t@,
        }),
{
    let auth = match auth_text {
        Option::None => Vec::new(),
        Option::Some(t) => {
            let trimmed = str_trim(t.as_str());
            if trimmed.as_str().is_empty() {
                Vec::new()
            } else {
                match parse_json(t.as_str()) {
                    Result::Err(_) => Vec::new(),
                    Result::Ok(doc) => match doc {
                        Json::Obj(es) => es,
                        _ => Vec::new(),
                    },
                }
            }
        },
    };
    proof {
        assert(jv_entries(Seq::<(String, Json)>::empty()) =~= Seq::<(Seq<char>, JsonV)>::empty());
    }
    let config_toml = match config_text {
        Option::None => String::new(),
        Option::Some(t) => t,
    };
    CodexCurrentConfig { auth, config_toml }
}

/// Live-file status: which of the two live files exist, and their paths.
pub fn get_codex_config_status(home: &str, auth_exists: bool, config_exists: bool) -> (r:
    CodexConfigStatus)
    ensures
        r.auth_exists == auth_exists,
        r.config_exists == config_exists,
        r.auth_path@ == codex_auth_path_v(home@),
        r.config_path@ == codex_config_path_v(home@),
{
    CodexConfigStatus {
        auth_exists,
        config_exists,
        auth_path: get_codex_auth_path(home),
        config_path: get_codex_config_path(home),
    }
}

/// The active profile id, read from the pointer file's content.
pub fn get_active_codex_profile_id(text: Option<String>) -> (r: Option<String>)
    ensures
        match r {
            Option::None => pointer_of(view_opt(text)) is None,
            Option::Some(id) => pointer_of(view_opt(text)) == Option::Some(id@),
        },
{
    crate::ids::parse_pointer(text)
}

/// The settings template a fresh default profile starts from.
pub open spec fn codex_template_v() -> Seq<char> {
    "model_provider = \"custom\"\nmodel = \"gpt-5.2\"\nmodel_reasoning_effort = \"high\"\ndisable_response_storage = true\n\n[model_providers.custom]\nname = \"custom\"\nwire_api = \"responses\"\nrequires_openai_auth = true\n"@
}

/// The default settings template.
pub fn default_codex_template_config() -> (r: String)
    ensures
        r@ == codex_template_v(),
{
    String::from_str(
        "model_provider = \"custom\"\nmodel = \"gpt-5.2\"\nmodel_reasoning_effort = \"high\"\ndisable_response_storage = true\n\n[model_providers.custom]\nname = \"custom\"\nwire_api = \"responses\"\nrequires_openai_auth = true\n",
    )
}

/// Creates the default profile: one blank API key in the secrets object
/// and the template settings text, stamped `now` under a fresh id.
pub fn create_default_codex_profile(home: &str, now: String, fresh_id: String) -> (r: Result<
    (CodexProfile, FileWrite),
    StoreError,
>)
    requires
        valid_id(fresh_id@),
    ensures
        r is Ok,
        ({
            let p = r->Ok_0.0.v();
            &&& p.id == fresh_id@
            &&& p.created_at == now@
            &&& p.updated_at == now@
            &&& p.auth == seq![("OPENAI_API_KEY"@, JsonV::Str(Seq::<char>::empty()))]
            &&& p.config_toml == codex_template_v()
            &&& r->Ok_0.1.path@ == codex_profile_path_v(home@, fresh_id@)
            &&& r->Ok_0.1.bytes@ == json_text(codex_profile_jv(p))
        }),
{
    let mut auth: Vec<(String, Json)> = Vec::new();
    auth.push((String::from_str("OPENAI_API_KEY"), Json::Str(String::new())));
    let profile = CodexProfile {
        id: fresh_id,
        name: String::from_str("\u{9ed8}\u{8ba4}"),
        description: Option::Some(
            String::from_str("Codex \u{81ea}\u{5b9a}\u{4e49}\u{6a21}\u{677f}\u{ff08}\u{9700}\u{586b}\u{5199} API Key\u{ff09}"),
        ),
        created_at: now.clone(),
        updated_at: now,
        auth,
        config_toml: default_codex_template_config(),
    };
    let path = match get_profile_path(home, profile.id.as_str()) {
        Result::Ok(p) => p,
        Result::Err(_) => {
            return Result::Err(StoreError::InvalidIdentifier);
        },
    };
    proof {
        let es = profile.auth@;
        assert(es.len() == 1);
        assert(es.drop_last() =~= Seq::<(String, Json)>::empty());
        assert(jv_entries(es.drop_last()) == Seq::<(Seq<char>, JsonV)>::empty());
        assert(es.last().1.jv() == JsonV::Str(Seq::<char>::empty()));
        assert(jv_entries(es) =~= seq![("OPENAI_API_KEY"@, JsonV::Str(Seq::<char>::empty()))]);
    }
    let doc = codex_profile_to_json(&profile);
    let bytes = json_to_bytes(&doc);
    Result::Ok((profile, FileWrite { path, bytes }))
}


/// Saves a profile with a fresh timestamp and, if needed, a fresh id.
pub fn save_codex_profile(home: &str, profile: CodexProfile, existing_text: Option<String>) -> (r:
    Result<(CodexProfile, FileWrite), StoreError>)
    ensures
        r is Ok <==> (trimmed_of(profile.id@).len() == 0 || valid_id(profile.id@)),
        r is Err ==> r->Err_0 is InvalidIdentifier,
        r is Ok ==> (exists|now: Seq<char>, fid: Seq<char>|
            valid_id(fid) && r->Ok_0.0.v() == #[trigger] saved_codex_profile(
                profile.v(),
                view_opt(existing_text),
                now,
                fid,
            )),
        r is Ok ==> {
            let p = r->Ok_0.0;
            &&& r->Ok_0.1.path@ == codex_profile_path_v(home@, p.id@)
            &&& r->Ok_0.1.bytes@ == json_text(codex_profile_jv(p.v()))
            &&& p.name@ == profile.name@
            &&& p.v().auth == profile.v().auth
            &&& p.config_toml@ == profile.config_toml@
        },
{
    let now = now_rfc3339();
    let fresh_id = new_uuid();
    save_codex_profile_with(home, profile, existing_text, now, fresh_id)
}

/// Duplicates a stored profile under a new name, stamped with the
/// current time and a fresh id.
pub fn duplicate_codex_profile(home: &str, text: Option<String>, new_name: String) -> (r: Result<
    (CodexProfile, FileWrite),
    StoreError,
>)
    ensures
        r is Ok <==> codex_get_of(view_opt(text)) is Ok,
        r is Ok ==> ({
            let src = codex_get_of(view_opt(text))->Ok_0;
            exists|now: Seq<char>, fid: Seq<char>|
                valid_id(fid) && r->Ok_0.0.v() == #[trigger] duplicated_codex_profile(
                    src,
                    new_name@,
                    now,
                    fid,
                )
        }),
        r is Ok ==> {
            let src = codex_get_of(view_opt(text))->Ok_0;
            let p = r->Ok_0.0;
            &&& p.name@ == new_name@
            &&& p.v().auth == src.auth
            &&& p.v().config_toml == src.config_toml
            &&& p.v().description == src.description
            &&& r->Ok_0.1.path@ == codex_profile_path_v(home@, p.id@)
            &&& r->Ok_0.1.bytes@ == json_text(codex_profile_jv(p.v()))
        },
{
    let now = now_rfc3339();
    let fresh_id = new_uuid();
    duplicate_codex_profile_with(home, text, new_name, now, fresh_id)
}

} // verus!
