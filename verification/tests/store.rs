//! Store behaviour: save/get round trips, delete idempotence, pointer
//! consistency, listing order, and identifier validation.

use droidgear::codex::{
    self, CodexProfile, get_codex_profile, get_active_codex_profile_id, list_codex_profiles,
    save_codex_profile_with, delete_codex_profile, duplicate_codex_profile_with,
    create_default_codex_profile, default_codex_template_config,
};
use droidgear::err::StoreError;
use droidgear::ids::{validate_profile_id, parse_pointer};
use droidgear::json::Json;
use droidgear::paths::{
    ConfigPaths, get_config_paths, get_factory_home, get_codex_home, get_effective_paths,
    get_default_paths, save_config_path, reset_config_path, get_droidgear_settings_path,
};
use droidgear::text::json_to_bytes;
use droidgear::json::parse_document;
use droidgear::openclaw::{OpenClawProfile, OpenClawProviderConfig, OpenClawModel,
    save_openclaw_profile_with, get_openclaw_profile, delete_openclaw_profile};
use droidgear::opencode::{OpenCodeProfile, OpenCodeProviderConfig, OpenCodeProviderOptions,
    save_opencode_profile_with, get_opencode_profile, delete_opencode_profile};

fn parse_doc(s: &str) -> droidgear::json::Json {
    parse_document(s).unwrap()
}

fn sample_profile(id: &str, name: &str) -> CodexProfile {
    CodexProfile {
        id: id.to_string(),
        name: name.to_string(),
        description: Some("a sample".to_string()),
        created_at: "2024-01-01T00:00:00+00:00".to_string(),
        updated_at: "2024-01-01T00:00:00+00:00".to_string(),
        auth: vec![("OPENAI_API_KEY".to_string(), Json::Str("SECRET-REDACTED".to_string()))],
        config_toml: "model = \"x\"\n".to_string(),
    }
}

#[test]
fn save_then_get_returns_saved_record() {
    let p = sample_profile("abc-123", "Work");
    let (saved, write) =
        save_codex_profile_with("/home/u", p, None, "2025-02-02T00:00:00+00:00".to_string(),
            "fresh-id-1".to_string())
        .unwrap();
    // The only change is the refreshed updatedAt (id was non-blank, file absent,
    // createdAt non-blank).
    assert_eq!(saved.id, "abc-123");
    assert_eq!(saved.name, "Work");
    assert_eq!(saved.created_at, "2024-01-01T00:00:00+00:00");
    assert_eq!(saved.updated_at, "2025-02-02T00:00:00+00:00");
    // Reading the written document back yields the very same record.
    let text = String::from_utf8(write.bytes).unwrap();
    let got = get_codex_profile(Some(text)).unwrap();
    assert_eq!(got.id, saved.id);
    assert_eq!(got.name, saved.name);
    assert_eq!(got.description, saved.description);
    assert_eq!(got.created_at, saved.created_at);
    assert_eq!(got.updated_at, saved.updated_at);
    assert_eq!(got.config_toml, saved.config_toml);
    match (&got.auth[0].1, &saved.auth[0].1) {
        (Json::Str(a), Json::Str(b)) => assert_eq!(a, b),
        _ => panic!("auth entry shape changed"),
    }
}

#[test]
fn save_blank_id_assigns_fresh_id_and_created_at() {
    let mut p = sample_profile("", "New");
    p.created_at = "".to_string();
    let (saved, _w) =
        save_codex_profile_with("/home/u", p, None, "NOW".to_string(), "fresh-77".to_string())
            .unwrap();
    assert_eq!(saved.id, "fresh-77");
    assert_eq!(saved.created_at, "NOW");
    assert_eq!(saved.updated_at, "NOW");
}

#[test]
fn save_keeps_stored_created_at() {
    let p0 = sample_profile("keep-1", "First");
    let (_, w0) = save_codex_profile_with("/h", p0, None, "T0".to_string(), "f0".to_string())
        .unwrap();
    let stored = String::from_utf8(w0.bytes).unwrap();
    let mut p1 = sample_profile("keep-1", "First renamed");
    p1.created_at = "SOMETHING-ELSE".to_string();
    let (saved, _) = save_codex_profile_with("/h", p1, Some(stored), "T1".to_string(),
        "f1".to_string()).unwrap();
    assert_eq!(saved.created_at, "2024-01-01T00:00:00+00:00");
    assert_eq!(saved.updated_at, "T1");
}

#[test]
fn delete_twice_never_errors() {
    let first = delete_codex_profile("/h", "abc", true, None).unwrap();
    assert!(first.remove_profile.is_some());
    // Second call: the document is gone, and that is not an error.
    let second = delete_codex_profile("/h", "abc", false, None).unwrap();
    assert!(second.remove_profile.is_none());
    assert!(!second.clear_pointer);
}

#[test]
fn delete_active_profile_clears_pointer() {
    let plan = delete_codex_profile("/h", "abc", true, Some("abc\n".to_string())).unwrap();
    assert!(plan.clear_pointer);
    // After the pointer file is removed, the pointer reads as none.
    assert_eq!(get_active_codex_profile_id(None), None);
}

#[test]
fn delete_other_profile_keeps_pointer() {
    let plan = delete_codex_profile("/h", "abc", true, Some("other".to_string())).unwrap();
    assert!(!plan.clear_pointer);
}

#[test]
fn pointer_file_trim_and_empty() {
    assert_eq!(parse_pointer(Some("  id-1 \n".to_string())), Some("id-1".to_string()));
    assert_eq!(parse_pointer(Some("   \n".to_string())), None);
    assert_eq!(parse_pointer(Some(String::new())), None);
    assert_eq!(parse_pointer(None), None);
}

#[test]
fn profile_id_validation() {
    assert!(validate_profile_id("abc-123_X").is_ok());
    assert!(matches!(validate_profile_id(""), Err(StoreError::InvalidIdentifier)));
    assert!(matches!(validate_profile_id("../escape"), Err(StoreError::InvalidIdentifier)));
    assert!(matches!(validate_profile_id("a b"), Err(StoreError::InvalidIdentifier)));
    assert!(matches!(validate_profile_id("caf\u{e9}"), Err(StoreError::InvalidIdentifier)));
}

#[test]
fn get_absent_is_not_found_and_garbage_is_malformed() {
    assert!(matches!(get_codex_profile(None), Err(StoreError::NotFound)));
    assert!(matches!(
        get_codex_profile(Some("{not json".to_string())),
        Err(StoreError::MalformedDocument(_))
    ));
    assert!(matches!(
        get_codex_profile(Some("{\"name\": \"no id\"}".to_string())),
        Err(StoreError::MalformedDocument(_))
    ));
}

#[test]
fn list_sorts_case_insensitively_and_skips_corrupt() {
    let mk = |id: &str, name: &str| {
        let p = sample_profile(id, name);
        let (_, w) = save_codex_profile_with("/h", p, None, "T".to_string(), "f".to_string())
            .unwrap();
        String::from_utf8(w.bytes).unwrap()
    };
    let files = vec![
        ("b.json".to_string(), mk("b1", "banana")),
        ("a.json".to_string(), mk("a1", "Apple")),
        ("corrupt.json".to_string(), "{oops".to_string()),
        ("readme.txt".to_string(), "not a profile".to_string()),
        ("c.json".to_string(), mk("c1", "cherry")),
    ];
    let listed = list_codex_profiles(files);
    let names: Vec<String> = listed.iter().map(|p| p.name.clone()).collect();
    assert_eq!(names, vec!["Apple".to_string(), "banana".to_string(), "cherry".to_string()]);
}

#[test]
fn duplicate_assigns_fresh_identity() {
    let p = sample_profile("src-1", "Origin");
    let (_, w) = save_codex_profile_with("/h", p, None, "T0".to_string(), "f".to_string())
        .unwrap();
    let text = String::from_utf8(w.bytes).unwrap();
    let (dup, write) = duplicate_codex_profile_with(
        "/h",
        Some(text),
        "Copy".to_string(),
        "T9".to_string(),
        "fresh-dup".to_string(),
    )
    .unwrap();
    assert_eq!(dup.id, "fresh-dup");
    assert_eq!(dup.name, "Copy");
    assert_eq!(dup.created_at, "T9");
    assert_eq!(dup.updated_at, "T9");
    assert!(write.path.ends_with("fresh-dup.json"));
}

#[test]
fn default_codex_profile_contents() {
    let (p, w) = create_default_codex_profile("/h", "T".to_string(), "def-1".to_string()).unwrap();
    assert_eq!(p.config_toml, default_codex_template_config());
    assert_eq!(p.auth.len(), 1);
    assert_eq!(p.auth[0].0, "OPENAI_API_KEY");
    let text = String::from_utf8(w.bytes).unwrap();
    let back = get_codex_profile(Some(text)).unwrap();
    assert_eq!(back.id, "def-1");
    assert_eq!(back.config_toml, p.config_toml);
}

#[test]
fn codex_paths_layout() {
    let path = codex::get_profile_path("/home/u", "p-1").unwrap();
    assert_eq!(path, "/home/u/.droidgear/codex/profiles/p-1.json");
    assert_eq!(codex::get_codex_auth_path("/home/u"), "/home/u/.codex/auth.json");
    assert_eq!(codex::get_codex_config_path("/home/u"), "/home/u/.codex/config.toml");
    assert_eq!(
        codex::get_active_profile_path("/home/u"),
        "/home/u/.droidgear/codex/active-profile.txt"
    );
}

#[test]
fn effective_paths_overrides() {
    let none = ConfigPaths { factory: None, opencode: None, opencode_auth: None, codex: None };
    assert_eq!(get_factory_home(&none, "/home/u"), "/home/u/.factory");
    assert_eq!(get_codex_home(&none, "/home/u"), "/home/u/.codex");
    let over = ConfigPaths {
        factory: Some("/custom/factory".to_string()),
        opencode: None,
        opencode_auth: None,
        codex: None,
    };
    assert_eq!(get_factory_home(&over, "/home/u"), "/custom/factory");
    let eff = get_effective_paths(&over, "/home/u");
    assert!(!eff.factory.is_default);
    assert!(eff.opencode.is_default);
    assert_eq!(eff.factory.path, "/custom/factory");
    let defs = get_default_paths("/home/u");
    assert_eq!(defs.opencode.path, "/home/u/.config/opencode");
    assert_eq!(defs.opencode_auth.path, "/home/u/.local/share/opencode");
    assert_eq!(get_droidgear_settings_path("/home/u"), "/home/u/.droidgear/settings.json");
}

#[test]
fn settings_override_round_trip() {
    // Start from an empty settings document, set an override, read it back,
    // then reset it and see the section disappear.
    let settings = parse_doc("{\"other\": 1}");
    let updated = save_config_path(settings, "codex", "/alt/codex").unwrap();
    let text = String::from_utf8(json_to_bytes(&updated)).unwrap();
    let loaded = get_config_paths(Some(text.clone()));
    assert_eq!(loaded.codex, Some("/alt/codex".to_string()));
    assert_eq!(loaded.factory, None);
    // Foreign keys of the settings document survive.
    let v: serde_json::Value = serde_json::from_str(&text).unwrap();
    assert_eq!(v["other"], serde_json::Value::from(1));
    // Reset the only override: the configPaths section is removed.
    let reparsed = parse_doc(&text);
    let cleared = reset_config_path(reparsed, "codex").unwrap();
    let ctext = String::from_utf8(json_to_bytes(&cleared)).unwrap();
    let cv: serde_json::Value = serde_json::from_str(&ctext).unwrap();
    assert!(cv.get("configPaths").is_none());
    assert_eq!(cv["other"], serde_json::Value::from(1));
}

#[test]
fn settings_rejects_bad_inputs() {
    let settings = parse_doc("{}");
    assert!(matches!(
        save_config_path(settings, "codex", "   "),
        Err(StoreError::ValidationFailed(_))
    ));
    let settings = parse_doc("{}");
    assert!(matches!(
        save_config_path(settings, "mystery", "/x"),
        Err(StoreError::InvalidIdentifier)
    ));
    let settings = parse_doc("[1, 2]");
    assert!(matches!(
        save_config_path(settings, "codex", "/x"),
        Err(StoreError::MalformedDocument(_))
    ));
}

#[test]
fn get_config_paths_tolerates_garbage() {
    let loaded = get_config_paths(Some("{nonsense".to_string()));
    assert_eq!(loaded.factory, None);
    let loaded = get_config_paths(Some("   ".to_string()));
    assert_eq!(loaded.codex, None);
    let loaded = get_config_paths(None);
    assert_eq!(loaded.opencode, None);
}

#[test]
fn openclaw_save_then_get_round_trips() {
    let p = OpenClawProfile {
        id: "claw-1".to_string(),
        name: "Claw".to_string(),
        description: None,
        created_at: "C".to_string(),
        updated_at: "U".to_string(),
        default_model: Some("acme/m1".to_string()),
        providers: vec![(
            "acme".to_string(),
            OpenClawProviderConfig {
                base_url: Some("https://x".to_string()),
                api_key: None,
                api: Some("openai".to_string()),
                models: vec![OpenClawModel {
                    id: "m1".to_string(),
                    name: None,
                    reasoning: false,
                    input: vec!["text".to_string(), "image".to_string()],
                    context_window: Some(128000),
                    max_tokens: None,
                }],
            },
        )],
    };
    let (saved, w) =
        save_openclaw_profile_with("/h", p, None, "NOW".to_string(), "f".to_string()).unwrap();
    let text = String::from_utf8(w.bytes).unwrap();
    let got = get_openclaw_profile(Some(text)).unwrap();
    assert_eq!(got.id, saved.id);
    assert_eq!(got.updated_at, "NOW");
    assert_eq!(got.default_model, Some("acme/m1".to_string()));
    assert_eq!(got.providers.len(), 1);
    let (_, prov) = &got.providers[0];
    assert_eq!(prov.api, Some("openai".to_string()));
    assert_eq!(prov.models[0].input, vec!["text".to_string(), "image".to_string()]);
    assert_eq!(prov.models[0].context_window, Some(128000));
    assert_eq!(prov.models[0].max_tokens, None);
}

#[test]
fn opencode_save_then_get_round_trips() {
    let p = OpenCodeProfile {
        id: "oc-1".to_string(),
        name: "OC".to_string(),
        description: Some("with headers".to_string()),
        created_at: "C".to_string(),
        updated_at: "U".to_string(),
        providers: vec![(
            "acme".to_string(),
            OpenCodeProviderConfig {
                npm: Some("@acme/sdk".to_string()),
                name: Some("Acme".to_string()),
                options: Some(OpenCodeProviderOptions {
                    base_url: Some("https://x".to_string()),
                    api_key: Some("k".to_string()),
                    timeout: Some(30),
                    headers: Some(vec![("x-h".to_string(), "v".to_string())]),
                }),
            },
        )],
        auth: vec![("acme".to_string(), Json::Str("tok".to_string()))],
    };
    let (saved, w) =
        save_opencode_profile_with("/h", p, None, "NOW".to_string(), "f".to_string()).unwrap();
    let text = String::from_utf8(w.bytes).unwrap();
    let got = get_opencode_profile(Some(text)).unwrap();
    assert_eq!(got.id, saved.id);
    assert_eq!(got.updated_at, "NOW");
    let (_, prov) = &got.providers[0];
    assert_eq!(prov.npm, Some("@acme/sdk".to_string()));
    let opts = prov.options.as_ref().unwrap();
    assert_eq!(opts.timeout, Some(30));
    assert_eq!(opts.headers, Some(vec![("x-h".to_string(), "v".to_string())]));
}

#[test]
fn opencode_and_openclaw_delete_clear_pointer() {
    let plan = delete_openclaw_profile("/h", "x1", false, Some("x1".to_string())).unwrap();
    assert!(plan.clear_pointer);
    assert!(plan.remove_profile.is_none());
    let plan = delete_opencode_profile("/h", "x1", true, Some("other\n".to_string())).unwrap();
    assert!(!plan.clear_pointer);
    assert!(plan.remove_profile.unwrap().ends_with("x1.json"));
}
