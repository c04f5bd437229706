//! Projection behaviour: deep merge, rollback of a failed group, the
//! comment-tolerant reader, validation, and full apply scenarios.

use std::collections::HashMap;

use droidgear::codex::{apply_codex_profile, validate_toml, save_codex_profile_with,
    read_codex_current_config, CodexProfile};
use droidgear::err::StoreError;
use droidgear::json::Json;
use droidgear::merge::deep_merge_json;
use droidgear::openclaw::{self, OpenClawModel, OpenClawProviderConfig, OpenClawProfile,
    apply_openclaw_profile, save_openclaw_profile_with, read_openclaw_current_config,
    create_default_openclaw_profile, build_openclaw_config};
use droidgear::opencode::{self, OpenCodeProviderOptions, OpenCodeProviderConfig, OpenCodeProfile,
    apply_opencode_profile, save_opencode_profile_with, read_json_file,
    read_opencode_current_config, create_default_profile, get_opencode_provider_templates,
    resolve_config_file};
use droidgear::text::json_to_bytes;
use droidgear::json::parse_document;
use droidgear::writer::{FileWrite, WriteGroup};

fn parse_doc(s: &str) -> Json {
    parse_document(s).unwrap()
}

fn val(s: &str) -> serde_json::Value {
    serde_json::from_str(s).unwrap()
}

fn render(j: &Json) -> String {
    String::from_utf8(json_to_bytes(j)).unwrap()
}

#[test]
fn merge_maps_recursively() {
    let base = parse_doc("{\"a\":1,\"b\":{\"x\":1}}");
    let overlay = parse_doc("{\"b\":{\"y\":2},\"c\":3}");
    let merged = deep_merge_json(base, &overlay);
    assert_eq!(val(&render(&merged)), val("{\"a\":1,\"b\":{\"x\":1,\"y\":2},\"c\":3}"));
}

#[test]
fn merge_replaces_sequences_wholesale() {
    let base = parse_doc("{\"a\":[1,2]}");
    let overlay = parse_doc("{\"a\":[3]}");
    let merged = deep_merge_json(base, &overlay);
    assert_eq!(val(&render(&merged)), val("{\"a\":[3]}"));
}

#[test]
fn merge_scalar_overwrites_and_keeps_foreign() {
    let base = parse_doc("{\"keep\":true,\"n\":1}");
    let overlay = parse_doc("{\"n\":{\"deep\":2}}");
    let merged = deep_merge_json(base, &overlay);
    assert_eq!(val(&render(&merged)), val("{\"keep\":true,\"n\":{\"deep\":2}}"));
}

/// Replays a group against a map standing for the disk, failing the
/// write whose index is `fail_at`, then rolls back, and returns the disk.
fn run_group(
    mut disk: HashMap<String, Vec<u8>>,
    mut group: WriteGroup,
    fail_at: usize,
) -> HashMap<String, Vec<u8>> {
    let mut step = 0;
    loop {
        let (path, bytes) = match group.next_write() {
            Some(w) => (w.path.clone(), w.bytes.clone()),
            None => return disk,
        };
        if step == fail_at {
            // The write failed: replay the cached originals, in order.
            for (p, orig) in group.rollback_plan() {
                match orig {
                    Some(b) => {
                        disk.insert(p, b);
                    }
                    None => {
                        disk.remove(&p);
                    }
                }
            }
            return disk;
        }
        disk.insert(path, bytes);
        group.record_success();
        step += 1;
    }
}

#[test]
fn failed_second_write_restores_first_file_byte_for_byte() {
    let original_one = b"first file original".to_vec();
    let mut disk: HashMap<String, Vec<u8>> = HashMap::new();
    disk.insert("one".to_string(), original_one.clone());
    // File "two" does not exist yet.
    let ops = vec![
        FileWrite { path: "one".to_string(), bytes: b"new one".to_vec() },
        FileWrite { path: "two".to_string(), bytes: b"new two".to_vec() },
    ];
    let originals = vec![
        ("one".to_string(), Some(original_one.clone())),
        ("two".to_string(), None),
    ];
    let group = WriteGroup::new(ops, originals).unwrap();
    let after = run_group(disk.clone(), group, 1);
    assert_eq!(after.get("one"), Some(&original_one));
    assert_eq!(after.get("two"), None);
    assert_eq!(after, disk);
}

#[test]
fn group_success_commits_both_files() {
    let mut disk: HashMap<String, Vec<u8>> = HashMap::new();
    disk.insert("one".to_string(), b"old".to_vec());
    let ops = vec![
        FileWrite { path: "one".to_string(), bytes: b"new one".to_vec() },
        FileWrite { path: "two".to_string(), bytes: b"new two".to_vec() },
    ];
    let originals = vec![
        ("one".to_string(), Some(b"old".to_vec())),
        ("two".to_string(), None),
    ];
    let group = WriteGroup::new(ops, originals).unwrap();
    let after = run_group(disk, group, usize::MAX);
    assert_eq!(after.get("one"), Some(&b"new one".to_vec()));
    assert_eq!(after.get("two"), Some(&b"new two".to_vec()));
}

#[test]
fn comment_tolerant_read_drops_comments_for_good() {
    let doc = read_json_file(Some("{\"a\": 1 /* note */}".to_string()));
    let text = render(&doc);
    assert_eq!(val(&text), val("{\"a\":1}"));
    // Re-serializing never reintroduces the comment.
    assert!(!text.contains("note"));
    assert!(!text.contains("/*"));
    // Line comments are tolerated too.
    let doc = read_json_file(Some("{\n// a comment\n\"b\": 2}".to_string()));
    assert_eq!(val(&render(&doc)), val("{\"b\":2}"));
    // Absent or broken files read as the empty document.
    assert_eq!(render(&read_json_file(None)), "{}");
    assert_eq!(render(&read_json_file(Some("{broken".to_string()))), "{}");
}

#[test]
fn toml_validation_gates_the_codex_apply() {
    assert!(validate_toml("").is_ok());
    assert!(validate_toml("   \n").is_ok());
    assert!(validate_toml("key = \"v\"\n[table]\nx = 1\n").is_ok());
    assert!(matches!(validate_toml("key = = broken"), Err(StoreError::ValidationFailed(_))));

    // An invalid settings text aborts the whole apply before any write.
    let profile = CodexProfile {
        id: "cdx-1".to_string(),
        name: "P".to_string(),
        description: None,
        created_at: "T".to_string(),
        updated_at: "T".to_string(),
        auth: vec![("k".to_string(), Json::Str("v".to_string()))],
        config_toml: "not [valid".to_string(),
    };
    let (_, w) = save_codex_profile_with("/h", profile, None, "T".to_string(), "f".to_string())
        .unwrap();
    let text = String::from_utf8(w.bytes).unwrap();
    let r = apply_codex_profile("/h", "cdx-1", Some(text), None, None);
    assert!(matches!(r, Err(StoreError::ValidationFailed(_))));
}

#[test]
fn codex_current_config_read_never_errors() {
    // Absent files are a valid bootstrap state.
    let c = read_codex_current_config(None, None);
    assert!(c.auth.is_empty());
    assert_eq!(c.config_toml, "");
    // Blank, unparsable and non-object secrets all read as the empty
    // document -- never an error.
    assert!(read_codex_current_config(Some("   \n".to_string()), None).auth.is_empty());
    assert!(read_codex_current_config(Some("{broken".to_string()), None).auth.is_empty());
    assert!(read_codex_current_config(Some("[1,2]".to_string()), None).auth.is_empty());
    // A well-formed object comes through, and the settings text is passed
    // along unchanged.
    let c = read_codex_current_config(
        Some("{\"OPENAI_API_KEY\": \"k\"}".to_string()),
        Some("model = \"m\"\n".to_string()),
    );
    assert_eq!(c.auth.len(), 1);
    assert_eq!(c.auth[0].0, "OPENAI_API_KEY");
    assert_eq!(c.config_toml, "model = \"m\"\n");
}

#[test]
fn codex_apply_plans_group_and_pointer() {
    let profile = CodexProfile {
        id: "cdx-2".to_string(),
        name: "P".to_string(),
        description: None,
        created_at: "T".to_string(),
        updated_at: "T".to_string(),
        auth: vec![("OPENAI_API_KEY".to_string(), Json::Str("SECRET-REDACTED".to_string()))],
        config_toml: "model = \"m\"\n".to_string(),
    };
    let (_, w) = save_codex_profile_with("/h", profile, None, "T".to_string(), "f".to_string())
        .unwrap();
    let text = String::from_utf8(w.bytes).unwrap();
    let old_auth = b"{\"OPENAI_API_KEY\": \"old\"}".to_vec();
    let plan = apply_codex_profile("/h", "cdx-2", Some(text), Some(old_auth.clone()), None)
        .unwrap();
    assert_eq!(plan.group.ops.len(), 2);
    assert_eq!(plan.group.ops[0].path, "/h/.codex/auth.json");
    assert_eq!(plan.group.ops[1].path, "/h/.codex/config.toml");
    assert_eq!(plan.group.ops[1].bytes, b"model = \"m\"\n".to_vec());
    let auth_written: serde_json::Value =
        serde_json::from_slice(&plan.group.ops[0].bytes).unwrap();
    assert_eq!(auth_written, val("{\"OPENAI_API_KEY\":\"SECRET-REDACTED\"}"));
    assert_eq!(plan.group.originals[0].1, Some(old_auth));
    assert_eq!(plan.pointer.path, "/h/.droidgear/codex/active-profile.txt");
    assert_eq!(plan.pointer.bytes, b"cdx-2".to_vec());
    // Absent profile: no side effect, a NotFound error.
    assert!(matches!(
        apply_codex_profile("/h", "cdx-2", None, None, None),
        Err(StoreError::NotFound)
    ));
    assert!(matches!(
        apply_codex_profile("/h", "../evil", Some("{}".to_string()), None, None),
        Err(StoreError::InvalidIdentifier)
    ));
}

fn opencode_profile_one_provider() -> OpenCodeProfile {
    OpenCodeProfile {
        id: "ocp-1".to_string(),
        name: "P1".to_string(),
        description: None,
        created_at: "T".to_string(),
        updated_at: "T".to_string(),
        providers: vec![(
            "acme".to_string(),
            OpenCodeProviderConfig {
                npm: None,
                name: None,
                options: Some(OpenCodeProviderOptions {
                    base_url: Some("https://x".to_string()),
                    api_key: Some("k1".to_string()),
                    timeout: None,
                    headers: None,
                }),
            },
        )],
        auth: vec![],
    }
}

#[test]
fn opencode_apply_to_empty_live_config() {
    let p = opencode_profile_one_provider();
    let (_, w) = save_opencode_profile_with("/h", p, None, "T".to_string(), "f".to_string())
        .unwrap();
    let text = String::from_utf8(w.bytes).unwrap();
    let plan = apply_opencode_profile(
        "/h", "ocp-1", Some(text), None, None, false, false, None, None,
    )
    .unwrap();
    assert_eq!(plan.group.ops[0].path, "/h/.config/opencode/opencode.json");
    assert_eq!(plan.group.ops[1].path, "/h/.local/share/opencode/auth.json");
    let written: serde_json::Value = serde_json::from_slice(&plan.group.ops[0].bytes).unwrap();
    assert_eq!(
        written,
        val("{\"provider\":{\"acme\":{\"options\":{\"baseUrl\":\"https://x\",\"apiKey\":\"k1\"}}}}")
    );
    assert_eq!(plan.pointer.bytes, b"ocp-1".to_vec());
}

#[test]
fn opencode_apply_keeps_foreign_keys() {
    let p = opencode_profile_one_provider();
    let (_, w) = save_opencode_profile_with("/h", p, None, "T".to_string(), "f".to_string())
        .unwrap();
    let text = String::from_utf8(w.bytes).unwrap();
    let live = "{\"theme\":\"dark\",\"provider\":{\"zeta\":{\"npm\":\"z\"}}}".to_string();
    let plan = apply_opencode_profile(
        "/h", "ocp-1", Some(text), Some(live), None, true, false, None, None,
    )
    .unwrap();
    // The comment-tolerant variant existed, so it is the write target.
    assert_eq!(plan.group.ops[0].path, "/h/.config/opencode/opencode.jsonc");
    let written: serde_json::Value = serde_json::from_slice(&plan.group.ops[0].bytes).unwrap();
    assert_eq!(written["theme"], serde_json::Value::from("dark"));
    assert_eq!(written["provider"]["zeta"]["npm"], serde_json::Value::from("z"));
    assert_eq!(written["provider"]["acme"]["options"]["apiKey"], serde_json::Value::from("k1"));
}

#[test]
fn openclaw_apply_deep_merges_and_keeps_foreign_keys() {
    let profile = OpenClawProfile {
        id: "ocl-1".to_string(),
        name: "P".to_string(),
        description: None,
        created_at: "T".to_string(),
        updated_at: "T".to_string(),
        default_model: Some("acme/m1".to_string()),
        providers: vec![(
            "acme".to_string(),
            OpenClawProviderConfig {
                base_url: Some("https://x".to_string()),
                api_key: Some("k1".to_string()),
                api: None,
                models: vec![OpenClawModel {
                    id: "m1".to_string(),
                    name: Some("Model One".to_string()),
                    reasoning: true,
                    input: vec!["text".to_string()],
                    context_window: Some(200000),
                    max_tokens: Some(8192),
                }],
            },
        )],
    };
    let (_, w) = save_openclaw_profile_with("/h", profile, None, "T".to_string(), "f".to_string())
        .unwrap();
    let text = String::from_utf8(w.bytes).unwrap();
    let live = "{\"theme\":\"dark\",\"agents\":{\"defaults\":{\"foreign\":1}}}".to_string();
    let plan = apply_openclaw_profile("/h", "ocl-1", Some(text), Some(live)).unwrap();
    assert_eq!(plan.config.path, "/h/.openclaw/openclaw.json");
    let written: serde_json::Value = serde_json::from_slice(&plan.config.bytes).unwrap();
    // Foreign keys survive at every depth the merge touches.
    assert_eq!(written["theme"], serde_json::Value::from("dark"));
    assert_eq!(written["agents"]["defaults"]["foreign"], serde_json::Value::from(1));
    // The projected sections are present.
    assert_eq!(
        written["agents"]["defaults"]["model"]["primary"],
        serde_json::Value::from("acme/m1")
    );
    assert!(written["agents"]["defaults"]["models"]["acme/m1"].is_object());
    assert_eq!(written["models"]["mode"], serde_json::Value::from("merge"));
    let acme = &written["models"]["providers"]["acme"];
    assert_eq!(acme["baseUrl"], serde_json::Value::from("https://x"));
    assert_eq!(acme["models"][0]["id"], serde_json::Value::from("m1"));
    assert_eq!(acme["models"][0]["contextWindow"], serde_json::Value::from(200000));
    assert_eq!(plan.pointer.bytes, b"ocl-1".to_vec());
}

#[test]
fn openclaw_read_current_and_default_seeding() {
    let live = "{\"agents\":{\"defaults\":{\"model\":{\"primary\":\"acme/m2\"}}},\
                 \"models\":{\"providers\":{\"acme\":{\"baseUrl\":\"https://y\",\
                 \"models\":[{\"id\":\"m2\",\"contextWindow\":1000},17]}}}}";
    let current = read_openclaw_current_config(Some(live.to_string())).unwrap();
    assert_eq!(current.default_model, Some("acme/m2".to_string()));
    assert_eq!(current.providers.len(), 1);
    let (pid, prov) = &current.providers[0];
    assert_eq!(pid, "acme");
    assert_eq!(prov.base_url, Some("https://y".to_string()));
    // The non-object model entry is skipped by the lenient reader.
    assert_eq!(prov.models.len(), 1);
    assert_eq!(prov.models[0].id, "m2");
    assert_eq!(prov.models[0].context_window, Some(1000));
    // A default profile seeded from that same live file carries it over.
    let (p, _) = create_default_openclaw_profile(
        "/h",
        Some(live.to_string()),
        "T".to_string(),
        "d-1".to_string(),
    )
    .unwrap();
    assert_eq!(p.default_model, Some("acme/m2".to_string()));
    assert_eq!(p.providers.len(), 1);
    // Without a live file the stock default applies.
    let (p2, _) =
        create_default_openclaw_profile("/h", None, "T".to_string(), "d-2".to_string()).unwrap();
    assert_eq!(p2.default_model, Some("anthropic/sonnet-4-20250514".to_string()));
    assert!(p2.providers.is_empty());
    // An unreadable live file is an error, not a silent default.
    assert!(matches!(
        read_openclaw_current_config(Some("{broken".to_string())),
        Err(StoreError::MalformedDocument(_))
    ));
}

#[test]
fn openclaw_overlay_shape_for_empty_profile() {
    let profile = OpenClawProfile {
        id: "e".to_string(),
        name: "E".to_string(),
        description: None,
        created_at: "T".to_string(),
        updated_at: "T".to_string(),
        default_model: None,
        providers: vec![],
    };
    let overlay = build_openclaw_config(&profile);
    assert_eq!(render(&overlay), "{}");
}

#[test]
fn opencode_read_current_normalizes_and_extracts_keys() {
    let config = "{\"provider\":{\"acme\":{\"options\":{\"baseURL\":\"https://x\",\
                  \"apiKey\":\"from-options\"}}}}";
    let current = read_opencode_current_config(Some(config.to_string()), None);
    assert_eq!(current.providers.len(), 1);
    let (pid, prov) = &current.providers[0];
    assert_eq!(pid, "acme");
    let opts = prov.options.as_ref().unwrap();
    // The alternate spelling was folded into the canonical one.
    assert_eq!(opts.base_url, Some("https://x".to_string()));
    assert_eq!(opts.api_key, Some("from-options".to_string()));
    // The provider's key was synthesized into the secrets, since the
    // secrets document had no entry for it.
    assert_eq!(current.auth.len(), 1);
    assert_eq!(current.auth[0].0, "acme");
    match &current.auth[0].1 {
        Json::Obj(es) => {
            assert_eq!(es[0].0, "type");
            match &es[1].1 {
                Json::Str(s) => assert_eq!(s, "from-options"),
                _ => panic!("key entry shape"),
            }
        }
        _ => panic!("auth entry shape"),
    }
    // An existing secrets entry wins over the provider-held key.
    let auth = "{\"acme\":{\"type\":\"oauth\"}}";
    let current =
        read_opencode_current_config(Some(config.to_string()), Some(auth.to_string()));
    assert_eq!(current.auth.len(), 1);
    match &current.auth[0].1 {
        Json::Obj(es) => match &es[0].1 {
            Json::Str(s) => assert_eq!(s, "oauth"),
            _ => panic!("kept entry shape"),
        },
        _ => panic!("kept entry shape"),
    }
}

#[test]
fn opencode_misc_surfaces() {
    // Path resolution prefers the comment-tolerant variant.
    assert_eq!(resolve_config_file("/d", "opencode", true), "/d/opencode.jsonc");
    assert_eq!(resolve_config_file("/d", "opencode", false), "/d/opencode.json");
    // Templates.
    let t = get_opencode_provider_templates();
    assert_eq!(t[0].id, "anthropic");
    assert!(t[0].requires_api_key);
    // The default profile is refused once any profile exists.
    assert!(create_default_profile("/h", true, "T".to_string(), "d".to_string()).is_none());
    let (p, doc, pointer) =
        create_default_profile("/h", false, "T".to_string(), "d-3".to_string()).unwrap();
    assert_eq!(p.name, "Default");
    assert!(doc.path.ends_with("d-3.json"));
    assert_eq!(pointer.bytes, b"d-3".to_vec());
    // Status carries the resolved paths.
    let st = opencode::get_opencode_config_status("/h", true, false, false, true);
    assert_eq!(st.config_path, "/h/.config/opencode/opencode.json");
    assert_eq!(st.auth_path, "/h/.local/share/opencode/auth.jsonc");
    // OpenClaw status too.
    let st2 = openclaw::get_openclaw_config_status("/h", true);
    assert_eq!(st2.config_path, "/h/.openclaw/openclaw.json");
}

#[test]
fn number_texts_round_trip_through_documents() {
    let m = OpenClawModel {
        id: "m".to_string(),
        name: None,
        reasoning: false,
        input: vec![],
        context_window: Some(4294967295),
        max_tokens: Some(0),
    };
    let doc = openclaw::model_to_json(&m);
    let back = openclaw::model_from_json(&doc).unwrap();
    assert_eq!(back.context_window, Some(4294967295));
    assert_eq!(back.max_tokens, Some(0));
    // Out-of-range or non-integer numbers are rejected by the strict reader.
    let bad = parse_doc("{\"id\":\"m\",\"contextWindow\":1.5}");
    assert!(openclaw::model_from_json(&bad).is_none());
    let big = parse_doc("{\"id\":\"m\",\"contextWindow\":4294967296}");
    assert!(openclaw::model_from_json(&big).is_none());
}

#[test]
fn serializer_escapes_and_pretty_prints() {
    let doc = parse_doc("{\"s\":\"a\\\"b\\\\c\\nd\",\"t\":\"\\u0001\"}");
    let text = render(&doc);
    // Parse it back with the reference parser: exact content survives.
    assert_eq!(val(&text), val("{\"s\":\"a\\\"b\\\\c\\nd\",\"t\":\"\\u0001\"}"));
    // Pretty two-space layout.
    let simple = parse_doc("{\"a\":{\"b\":1}}");
    assert_eq!(render(&simple), "{\n  \"a\": {\n    \"b\": 1\n  }\n}");
    let arr = parse_doc("{\"a\":[1,2]}");
    assert_eq!(render(&arr), "{\n  \"a\": [\n    1,\n    2\n  ]\n}");
}
