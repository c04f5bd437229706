//! Configuration-path resolution: every tool family's directories have a
//! default under the user's home, and each can be overridden through a
//! settings document kept by this library.

use vstd::prelude::*;
use crate::err::StoreError;
use crate::ids::view_opt;
use crate::json::{Json, JsonV, has_key, key_index, lookup, jv_entries, obj_get, obj_set,
    obj_remove, lemma_jv_entries_len};
use crate::opencode::set_one;
use crate::openclaw::opt_v;
use crate::codex::opt_str_field;
use crate::trusted::{parse_of, parse_json, trimmed_of, str_trim};

verus! {

broadcast use vstd::std_specs::vec::group_vec_axioms;

/// The overridden paths a user has set; `None` means the default applies.
pub struct ConfigPaths {
    pub factory: Option<String>,
    pub opencode: Option<String>,
    pub opencode_auth: Option<String>,
    pub codex: Option<String>,
}

/// One resolved path, and whether it is the default.
pub struct EffectivePath {
    pub key: String,
    pub path: String,
    pub is_default: bool,
}

/// All resolved paths.
pub struct EffectivePaths {
    pub factory: EffectivePath,
    pub opencode: EffectivePath,
    pub opencode_auth: EffectivePath,
    pub codex: EffectivePath,
}

/// `<home>/.droidgear/settings.json`
pub open spec fn settings_path_v(home: Seq<char>) -> Seq<char> {
    home + "/.droidgear/settings.json"@
}

pub fn get_droidgear_settings_path(home: &str) -> (r: String)
    ensures
        r@ == settings_path_v(home@),
{
    let mut s = String::from_str(home);
    s.append("/.droidgear/settings.json");
    s
}

/// `<home>/.factory`
pub open spec fn default_factory_home_v(home: Seq<char>) -> Seq<char> {
    home + "/.factory"@
}

pub fn default_factory_home(home: &str) -> (r: String)
    ensures
        r@ == default_factory_home_v(home@),
{
    let mut s = String::from_str(home);
    s.append("/.factory");
    s
}

/// `<home>/.config/opencode`
pub fn default_opencode_config_dir(home: &str) -> (r: String)
    ensures
        r@ == crate::opencode::opencode_config_dir_v(home@),
{
    crate::opencode::get_opencode_config_dir(home)
}

/// `<home>/.local/share/opencode`
pub fn default_opencode_auth_dir(home: &str) -> (r: String)
    ensures
        r@ == crate::opencode::opencode_auth_dir_v(home@),
{
    crate::opencode::get_opencode_auth_dir(home)
}

/// `<home>/.codex`
pub fn default_codex_home(home: &str) -> (r: String)
    ensures
        r@ == crate::codex::codex_config_dir_v(home@),
{
    crate::codex::get_codex_config_dir(home)
}

/// The model of the overrides.
pub struct ConfigPathsV {
    pub factory: Option<Seq<char>>,
    pub opencode: Option<Seq<char>>,
    pub opencode_auth: Option<Seq<char>>,
    pub codex: Option<Seq<char>>,
}

impl ConfigPaths {
    /// The model of this value.
    pub open spec fn v(self) -> ConfigPathsV {
        ConfigPathsV {
            factory: opt_v(self.factory),
            opencode: opt_v(self.opencode),
            opencode_auth: opt_v(self.opencode_auth),
            codex: opt_v(self.codex),
        }
    }
}

/// No overrides.
pub open spec fn no_overrides() -> ConfigPathsV {
    ConfigPathsV {
        factory: Option::None,
        opencode: Option::None,
        opencode_auth: Option::None,
        codex: Option::None,
    }
}

/// What the settings document means as overrides: the `configPaths`
/// object's four optional string fields; anything malformed means no
/// overrides.
pub open spec fn config_paths_of(doc: JsonV) -> ConfigPathsV {
    if doc is Obj {
        match lookup(doc->Obj_0, "configPaths"@) {
            Option::Some(JsonV::Obj(o)) => if opt_str_field(o, "factory"@) is Some
                && opt_str_field(o, "opencode"@) is Some && opt_str_field(o, "opencodeAuth"@)
                is Some && opt_str_field(o, "codex"@) is Some {
                ConfigPathsV {
                    factory: opt_str_field(o, "factory"@)->0,
                    opencode: opt_str_field(o, "opencode"@)->0,
                    opencode_auth: opt_str_field(o, "opencodeAuth"@)->0,
                    codex: opt_str_field(o, "codex"@)->0,
                }
            } else {
                no_overrides()
            },
            _ => no_overrides(),
        }
    } else {
        no_overrides()
    }
}

/// What the settings file's content means: absent, blank or unparsable
/// content is an empty document.
pub open spec fn settings_doc_of(text: Option<Seq<char>>) -> JsonV {
    match text {
        Option::None => JsonV::Obj(Seq::empty()),
        Option::Some(t) => if trimmed_of(t).len() == 0 {
            JsonV::Obj(Seq::empty())
        } else {
            match parse_of(t) {
                Option::Some(d) => d,
                Option::None => JsonV::Obj(Seq::empty()),
            }
        },
    }
}

/// Reads the override set out of the settings file's content; any
/// malformed layer falls back to "no overrides".
pub fn get_config_paths(settings_text: Option<String>) -> (r: ConfigPaths)
    ensures
        r.v() == config_paths_of(settings_doc_of(view_opt(settings_text))),
{
    let empty = ConfigPaths {
        factory: Option::None,
        opencode: Option::None,
        opencode_auth: Option::None,
        codex: Option::None,
    };
    let t = match settings_text {
        Option::None => {
            proof {
                assert(jv_entries(Seq::<(String, Json)>::empty())
                    =~= Seq::<(Seq<char>, JsonV)>::empty());
            }
            return empty;
        },
        Option::Some(t) => t,
    };
    let trimmed = str_trim(t.as_str());
    if trimmed.as_str().is_empty() {
        return empty;
    }
    let doc = match parse_json(t.as_str()) {
        Result::Ok(d) => d,
        Result::Err(_) => {
            return empty;
        },
    };
    let es = match &doc {
        Json::Obj(es) => es,
        _ => {
            return empty;
        },
    };
    let o = match obj_get(es, &String::from_str("configPaths")) {
        Option::Some(Json::Obj(o)) => o,
        _ => {
            return empty;
        },
    };
    let factory = match obj_get(o, &String::from_str("factory")) {
        Option::None => Option::None,
        Option::Some(Json::Null) => Option::None,
        Option::Some(Json::Str(s)) => Option::Some(s.clone()),
        _ => {
            return empty;
        },
    };
    let opencode = match obj_get(o, &String::from_str("opencode")) {
        Option::None => Option::None,
        Option::Some(Json::Null) => Option::None,
        Option::Some(Json::Str(s)) => Option::Some(s.clone()),
        _ => {
            return empty;
        },
    };
    let opencode_auth = match obj_get(o, &String::from_str("opencodeAuth")) {
        Option::None => Option::None,
        Option::Some(Json::Null) => Option::None,
        Option::Some(Json::Str(s)) => Option::Some(s.clone()),
        _ => {
            return empty;
        },
    };
    let codex = match obj_get(o, &String::from_str("codex")) {
        Option::None => Option::None,
        Option::Some(Json::Null) => Option::None,
        Option::Some(Json::Str(s)) => Option::Some(s.clone()),
        _ => {
            return empty;
        },
    };
    ConfigPaths { factory, opencode, opencode_auth, codex }
}

/// The effective Factory home: the override when set, else the default.
pub fn get_factory_home(paths: &ConfigPaths, home: &str) -> (r: String)
    ensures
        r@ == (match paths.v().factory {
            Option::Some(c) => c,
            Option::None => default_factory_home_v(home@),
        }),
{
    match &paths.factory {
        Option::Some(c) => c.clone(),
        Option::None => default_factory_home(home),
    }
}

/// The effective OpenCode configuration directory.
pub fn get_opencode_config_dir(paths: &ConfigPaths, home: &str) -> (r: String)
    ensures
        r@ == (match paths.v().opencode {
            Option::Some(c) => c,
            Option::None => crate::opencode::opencode_config_dir_v(home@),
        }),
{
    match &paths.opencode {
        Option::Some(c) => c.clone(),
        Option::None => default_opencode_config_dir(home),
    }
}

/// The effective OpenCode secrets directory.
pub fn get_opencode_auth_dir(paths: &ConfigPaths, home: &str) -> (r: String)
    ensures
        r@ == (match paths.v().opencode_auth {
            Option::Some(c) => c,
            Option::None => crate::opencode::opencode_auth_dir_v(home@),
        }),
{
    match &paths.opencode_auth {
        Option::Some(c) => c.clone(),
        Option::None => default_opencode_auth_dir(home),
    }
}

/// The effective Codex home.
pub fn get_codex_home(paths: &ConfigPaths, home: &str) -> (r: String)
    ensures
        r@ == (match paths.v().codex {
            Option::Some(c) => c,
            Option::None => crate::codex::codex_config_dir_v(home@),
        }),
{
    match &paths.codex {
        Option::Some(c) => c.clone(),
        Option::None => default_codex_home(home),
    }
}

/// All effective paths, each flagged when it is the default.
pub fn get_effective_paths(paths: &ConfigPaths, home: &str) -> (r: EffectivePaths)
    ensures
        r.factory.key@ == "factory"@ && r.factory.is_default == (paths.v().factory is None),
        r.opencode.key@ == "opencode"@ && r.opencode.is_default == (paths.v().opencode is None),
        r.opencode_auth.key@ == "opencodeAuth"@ && r.opencode_auth.is_default == (
        paths.v().opencode_auth is None),
        r.codex.key@ == "codex"@ && r.codex.is_default == (paths.v().codex is None),
        r.factory.path@ == (match paths.v().factory {
            Option::Some(c) => c,
            Option::None => default_factory_home_v(home@),
        }),
        r.opencode.path@ == (match paths.v().opencode {
            Option::Some(c) => c,
            Option::None => crate::opencode::opencode_config_dir_v(home@),
        }),
        r.opencode_auth.path@ == (match paths.v().opencode_auth {
            Option::Some(c) => c,
            Option::None => crate::opencode::opencode_auth_dir_v(home@),
        }),
        r.codex.path@ == (match paths.v().codex {
            Option::Some(c) => c,
            Option::None => crate::codex::codex_config_dir_v(home@),
        }),
{
    EffectivePaths {
        factory: EffectivePath {
            key: String::from_str("factory"),
            path: get_factory_home(paths, home),
            is_default: match &paths.factory {
                Option::None => true,
                Option::Some(_) => false,
            },
        },
        opencode: EffectivePath {
            key: String::from_str("opencode"),
            path: get_opencode_config_dir(paths, home),
            is_default: match &paths.opencode {
                Option::None => true,
                Option::Some(_) => false,
            },
        },
        opencode_auth: EffectivePath {
            key: String::from_str("opencodeAuth"),
            path: get_opencode_auth_dir(paths, home),
            is_default: match &paths.opencode_auth {
                Option::None => true,
                Option::Some(_) => false,
            },
        },
        codex: EffectivePath {
            key: String::from_str("codex"),
            path: get_codex_home(paths, home),
            is_default: match &paths.codex {
                Option::None => true,
                Option::Some(_) => false,
            },
        },
    }
}

/// The default paths, for display.
pub fn get_default_paths(home: &str) -> (r: EffectivePaths)
    ensures
        r.factory.path@ == default_factory_home_v(home@) && r.factory.is_default,
        r.opencode.path@ == crate::opencode::opencode_config_dir_v(home@) && r.opencode.is_default,
        r.opencode_auth.path@ == crate::opencode::opencode_auth_dir_v(home@)
            && r.opencode_auth.is_default,
        r.codex.path@ == crate::codex::codex_config_dir_v(home@) && r.codex.is_default,
{
    EffectivePaths {
        factory: EffectivePath {
            key: String::from_str("factory"),
            path: default_factory_home(home),
            is_default: true,
        },
        opencode: EffectivePath {
            key: String::from_str("opencode"),
            path: default_opencode_config_dir(home),
            is_default: true,
        },
        opencode_auth: EffectivePath {
            key: String::from_str("opencodeAuth"),
            path: default_opencode_auth_dir(home),
            is_default: true,
        },
        codex: EffectivePath {
            key: String::from_str("codex"),
            path: default_codex_home(home),
            is_default: true,
        },
    }
}

/// Whether a key names one of the four configurable paths.
pub open spec fn known_path_key(k: Seq<char>) -> bool {
    k == "factory"@ || k == "opencode"@ || k == "opencodeAuth"@ || k == "codex"@
}

/// Checks a path key.
fn check_path_key(key: &str) -> (r: bool)
    ensures
        r == known_path_key(key@),
{
    crate::order::str_eq(key, "factory") || crate::order::str_eq(key, "opencode")
        || crate::order::str_eq(key, "opencodeAuth") || crate::order::str_eq(key, "codex")
}

/// Sets one override in the settings document and returns the document to
/// persist.  The path must not be blank, the key must be known, and the
/// settings document must be an object whose `configPaths` entry, if any,
/// is an object too.
pub fn save_config_path(settings: Json, key: &str, path: &str) -> (r: Result<Json, StoreError>)
    ensures
        r is Ok <==> {
            &&& trimmed_of(path@).len() > 0
            &&& known_path_key(key@)
            &&& settings.jv() is Obj
            &&& (lookup(settings.jv()->Obj_0, "configPaths"@) is None || lookup(
                settings.jv()->Obj_0,
                "configPaths"@,
            ) matches Option::Some(JsonV::Obj(_)))
        },
        !(trimmed_of(path@).len() > 0) ==> (r is Err && r->Err_0 is ValidationFailed),
        r is Err ==> (r->Err_0 is ValidationFailed || r->Err_0 is InvalidIdentifier || r->Err_0
            is MalformedDocument),
        r is Ok ==> ({
            let es0 = settings.jv()->Obj_0;
            let section = (match lookup(es0, "configPaths"@) {
                Option::Some(JsonV::Obj(o)) => o,
                _ => Seq::<(Seq<char>, JsonV)>::empty(),
            });
            &&& trimmed_of(path@).len() > 0
            &&& known_path_key(key@)
            &&& settings.jv() is Obj
            &&& (lookup(es0, "configPaths"@) is None || lookup(es0, "configPaths"@) matches
                Option::Some(JsonV::Obj(_)))
            &&& r->Ok_0.jv() == JsonV::Obj(
                set_one(
                    es0,
                    "configPaths"@,
                    JsonV::Obj(set_one(section, key@, JsonV::Str(path@))),
                ),
            )
        }),
{
    let trimmed = str_trim(path);
    if trimmed.as_str().is_empty() {
        return Result::Err(StoreError::ValidationFailed(String::from_str("path cannot be empty")));
    }
    if !check_path_key(key) {
        return Result::Err(StoreError::InvalidIdentifier);
    }
    let mut es = match settings {
        Json::Obj(es) => es,
        _ => {
            return Result::Err(
                StoreError::MalformedDocument(String::from_str("invalid settings format")),
            );
        },
    };
    let ghost es0 = jv_entries(es@);
    let mut section: Vec<(String, Json)> = match obj_get(&es, &String::from_str("configPaths")) {
        Option::None => {
            let v: Vec<(String, Json)> = Vec::new();
            proof {
                assert(jv_entries(v@) =~= Seq::<(Seq<char>, JsonV)>::empty());
            }
            v
        },
        Option::Some(Json::Obj(o)) => crate::merge::entries_clone(o),
        Option::Some(_) => {
            return Result::Err(
                StoreError::MalformedDocument(String::from_str("invalid configPaths format")),
            );
        },
    };
    obj_set(&mut section, key.to_owned(), Json::Str(path.to_owned()));
    obj_set(&mut es, String::from_str("configPaths"), Json::Obj(section));
    Result::Ok(Json::Obj(es))
}

/// Clears one override and returns the document to persist; an empty
/// `configPaths` object is removed altogether.  Missing layers are
/// quietly tolerated; only a key that reaches the override object and is
/// not a known key is rejected.
pub fn reset_config_path(settings: Json, key: &str) -> (r: Result<Json, StoreError>)
    ensures
        r is Err <==> {
            &&& settings.jv() is Obj
            &&& (lookup(settings.jv()->Obj_0, "configPaths"@) matches Option::Some(JsonV::Obj(_)))
            &&& !known_path_key(key@)
        },
        r is Err ==> r->Err_0 is InvalidIdentifier,
        r is Ok ==> ({
            let doc = settings.jv();
            if doc is Obj && (lookup(doc->Obj_0, "configPaths"@) matches Option::Some(
                JsonV::Obj(_),
            )) {
                let es0 = doc->Obj_0;
                let section = lookup(es0, "configPaths"@)->0->Obj_0;
                let cleared = (if has_key(section, key@) {
                    section.remove(key_index(section, key@))
                } else {
                    section
                });
                &&& known_path_key(key@)
                &&& (cleared.len() == 0 ==> r->Ok_0.jv() == JsonV::Obj(
                    (if has_key(es0, "configPaths"@) {
                        es0.remove(key_index(es0, "configPaths"@))
                    } else {
                        es0
                    }),
                ))
                &&& (cleared.len() > 0 ==> r->Ok_0.jv() == JsonV::Obj(
                    set_one(es0, "configPaths"@, JsonV::Obj(cleared)),
                ))
            } else {
                r->Ok_0.jv() == doc
            }
        }),
{
    let mut es = match settings {
        Json::Obj(es) => es,
        other => {
            return Result::Ok(other);
        },
    };
    let ghost es0 = jv_entries(es@);
    let mut section: Vec<(String, Json)> = match obj_get(&es, &String::from_str("configPaths")) {
        Option::Some(Json::Obj(o)) => crate::merge::entries_clone(o),
        _ => {
            return Result::Ok(Json::Obj(es));
        },
    };
    if !check_path_key(key) {
        return Result::Err(StoreError::InvalidIdentifier);
    }
    obj_remove(&mut section, &key.to_owned());
    if section.len() == 0 {
        proof {
            lemma_jv_entries_len(section@);
        }
        obj_remove(&mut es, &String::from_str("configPaths"));
        Result::Ok(Json::Obj(es))
    } else {
        proof {
            lemma_jv_entries_len(section@);
        }
        obj_set(&mut es, String::from_str("configPaths"), Json::Obj(section));
        Result::Ok(Json::Obj(es))
    }
}

} // verus!
