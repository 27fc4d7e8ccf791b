use dragon::codec::{get_dockerwsl_content, parse_dockerwslconf_text, render_dockerwsl_text};
use dragon::errors::DragonError;
use dragon::flows::extract_tag_from_output;
use dragon::store::{DockerWslConf, Registry, WslConf};
use dragon::terminal::{create_windows_terminal_profile, guid_with_braces, strip_json_comments, Json};
use dragon::vm::{clean_container_id, plan_provision, wsl_vm_exists, VmStep};

fn sample_store() -> DockerWslConf {
    DockerWslConf {
        wsls: vec![
            WslConf {
                name: "web".to_string(),
                image: "corp.azurecr.io/nginx:1.25".to_string(),
                latest: Some("1.27".to_string()),
                windows_terminal_profile_id: "11111111-2222-3333-4444-555555555555".to_string(),
                base_install_path: "C:\\wsl\\web".to_string(),
            },
            WslConf {
                name: "blog".to_string(),
                image: "httpd:2".to_string(),
                latest: None,
                windows_terminal_profile_id: "66666666-7777-8888-9999-000000000000".to_string(),
                base_install_path: "C:\\wsl\\blog".to_string(),
            },
        ],
        default_base_wsl_install_path: Some("C:\\wsl".to_string()),
        private_registries: vec![Registry {
            name: "corp.azurecr.io".to_string(),
            username: "svc".to_string(),
            password: "secret".to_string(),
            tenant: None,
        }],
    }
}

fn assert_same_store(a: &DockerWslConf, b: &DockerWslConf) {
    assert_eq!(a.wsls.len(), b.wsls.len());
    for (x, y) in a.wsls.iter().zip(b.wsls.iter()) {
        assert_eq!(x.name, y.name);
        assert_eq!(x.image, y.image);
        assert_eq!(x.latest, y.latest);
        assert_eq!(x.windows_terminal_profile_id, y.windows_terminal_profile_id);
        assert_eq!(x.base_install_path, y.base_install_path);
    }
    assert_eq!(
        a.default_base_wsl_install_path,
        b.default_base_wsl_install_path
    );
    assert_eq!(a.private_registries.len(), b.private_registries.len());
    for (x, y) in a.private_registries.iter().zip(b.private_registries.iter()) {
        assert_eq!(x.name, y.name);
        assert_eq!(x.username, y.username);
        assert_eq!(x.password, y.password);
        assert_eq!(x.tenant, y.tenant);
    }
}

#[test]
fn config_save_then_load_is_identity() {
    let store = sample_store();
    let text = render_dockerwsl_text(&store);
    let loaded = parse_dockerwslconf_text(text.as_str()).expect("rendered text should parse");
    assert_same_store(&store, &loaded);
}

#[test]
fn config_empty_store_roundtrips() {
    let store = DockerWslConf {
        wsls: Vec::new(),
        default_base_wsl_install_path: None,
        private_registries: Vec::new(),
    };
    let text = render_dockerwsl_text(&store);
    let loaded = parse_dockerwslconf_text(text.as_str()).unwrap();
    assert_same_store(&store, &loaded);
}

#[test]
fn config_document_shape_is_stable() {
    let store = DockerWslConf {
        wsls: vec![WslConf {
            name: "web".to_string(),
            image: "nginx:1".to_string(),
            latest: None,
            windows_terminal_profile_id: "id".to_string(),
            base_install_path: "C:\\wsl\\web".to_string(),
        }],
        default_base_wsl_install_path: None,
        private_registries: Vec::new(),
    };
    let text = render_dockerwsl_text(&store);
    let expected = "wsls:\n- name: web\n  image: nginx:1\n  latest: ~\n  windows_terminal_profile_id: id\n  base_install_path: C:\\wsl\\web\ndefault_base_wsl_install_path: ~\nprivate_registries:";
    assert_eq!(text, expected);
}

#[test]
fn config_missing_file_bootstraps_empty() {
    let c = get_dockerwsl_content(None).unwrap();
    assert_eq!(c.wsls.len(), 0);
    assert!(c.default_base_wsl_install_path.is_none());
    assert_eq!(c.private_registries.len(), 0);
}

#[test]
fn config_garbage_is_corrupt() {
    assert_eq!(
        parse_dockerwslconf_text("not a config").unwrap_err(),
        DragonError::ConfigCorrupt
    );
    assert_eq!(
        get_dockerwsl_content(Some("wsls:\n- name: x\ntruncated")).unwrap_err(),
        DragonError::ConfigCorrupt
    );
    assert_eq!(
        parse_dockerwslconf_text("").unwrap_err(),
        DragonError::ConfigCorrupt
    );
}

#[test]
fn vm_list_membership_strips_utf16_padding() {
    // The runtime prints UTF-16 text read back byte-wise: NUL padding
    // around every character, entries separated by CR NUL LF NUL.
    let out = "w\u{0}e\u{0}b\u{0}-\u{0}1\u{0}\r\u{0}\n\u{0}b\u{0}l\u{0}o\u{0}g\u{0}";
    assert!(wsl_vm_exists(out, "web-1"));
    assert!(wsl_vm_exists(out, "blog"));
    assert!(!wsl_vm_exists(out, "web"));
    assert!(!wsl_vm_exists("", "web"));
}

#[test]
fn provisioning_replaces_an_existing_instance_first() {
    let out = "w\u{0}e\u{0}b\u{0}-\u{0}1\u{0}";
    let steps = plan_provision("web-1", out, "C:\\wsl", "C:\\tmp\\img.tar");
    assert_eq!(steps.len(), 3);
    assert!(matches!(&steps[0], VmStep::Unregister { vm_name } if vm_name == "web-1"));
    assert!(matches!(&steps[1], VmStep::CreateDir { path } if path == "C:\\wsl\\web-1"));
    assert!(
        matches!(&steps[2], VmStep::Import { vm_name, install_path, tar_path }
            if vm_name == "web-1" && install_path == "C:\\wsl\\web-1" && tar_path == "C:\\tmp\\img.tar")
    );
}

#[test]
fn provisioning_a_fresh_instance_skips_the_teardown() {
    let steps = plan_provision("web-1", "", "C:\\wsl", "C:\\tmp\\img.tar");
    assert_eq!(steps.len(), 2);
    assert!(matches!(&steps[0], VmStep::CreateDir { .. }));
    assert!(matches!(&steps[1], VmStep::Import { .. }));
}

#[test]
fn container_id_output_is_cleaned() {
    assert_eq!(clean_container_id("  abc123\u{0}\r\n"), "abc123");
    assert_eq!(clean_container_id("\n\t "), "");
}

#[test]
fn resolved_tag_is_the_first_quoted_string() {
    assert_eq!(extract_tag_from_output("\"1.2.3\"\r\n").unwrap(), "1.2.3");
    assert_eq!(
        extract_tag_from_output("no quotes here").unwrap_err(),
        DragonError::TagResolutionFailed
    );
    assert_eq!(
        extract_tag_from_output("\"\"\r\n").unwrap_err(),
        DragonError::TagResolutionFailed
    );
}

fn settings_doc(entries: Vec<Json>) -> Json {
    Json::Obj(vec![
        ("$schema".to_string(), Json::Str("https://example/schema".to_string())),
        (
            "profiles".to_string(),
            Json::Obj(vec![
                ("defaults".to_string(), Json::Obj(vec![])),
                ("list".to_string(), Json::Arr(entries)),
            ]),
        ),
        ("theme".to_string(), Json::Str("dark".to_string())),
    ])
}

fn list_of(doc: &Json) -> &Vec<Json> {
    if let Json::Obj(es) = doc {
        for (k, v) in es {
            if k == "profiles" {
                if let Json::Obj(ps) = v {
                    for (k2, v2) in ps {
                        if k2 == "list" {
                            if let Json::Arr(l) = v2 {
                                return l;
                            }
                        }
                    }
                }
            }
        }
    }
    panic!("document lost its profiles.list");
}

fn guids_of(doc: &Json) -> Vec<String> {
    let mut out = Vec::new();
    for e in list_of(doc) {
        if let Json::Obj(es) = e {
            for (k, v) in es {
                if k == "guid" {
                    if let Json::Str(s) = v {
                        out.push(s.clone());
                    }
                }
            }
        }
    }
    out
}

#[test]
fn profile_upsert_twice_leaves_one_entry() {
    let doc = settings_doc(vec![]);
    let (d1, existed1) = create_windows_terminal_profile(doc, "abc-123", "web").unwrap();
    assert!(!existed1);
    let (d2, existed2) = create_windows_terminal_profile(d1, "abc-123", "web").unwrap();
    assert!(existed2);
    let guids = guids_of(&d2);
    assert_eq!(guids, vec!["{abc-123}".to_string()]);
}

#[test]
fn profile_upsert_prepends_the_full_entry() {
    let doc = settings_doc(vec![Json::Str("keep-me".to_string())]);
    let (d, existed) = create_windows_terminal_profile(doc, "abc-123", "web").unwrap();
    assert!(!existed);
    let list = list_of(&d);
    assert_eq!(list.len(), 2);
    if let Json::Obj(es) = &list[0] {
        assert_eq!(es.len(), 4);
        assert_eq!(es[0].0, "guid");
        assert!(matches!(&es[0].1, Json::Str(s) if s == "{abc-123}"));
        assert_eq!(es[1].0, "hidden");
        assert!(matches!(&es[1].1, Json::Bool(false)));
        assert_eq!(es[2].0, "name");
        assert!(matches!(&es[2].1, Json::Str(s) if s == "web"));
        assert_eq!(es[3].0, "commandline");
        assert!(matches!(&es[3].1, Json::Str(s) if s == "dragon run -w web"));
    } else {
        panic!("new entry is not an object");
    }
    assert!(matches!(&list[1], Json::Str(s) if s == "keep-me"));
}

#[test]
fn profile_upsert_keeps_an_existing_entry_as_is() {
    let existing = Json::Obj(vec![
        ("guid".to_string(), Json::Str("{abc-123}".to_string())),
        ("name".to_string(), Json::Str("old-name".to_string())),
    ]);
    let doc = settings_doc(vec![existing]);
    let (d, existed) = create_windows_terminal_profile(doc, "abc-123", "renamed").unwrap();
    assert!(existed);
    let list = list_of(&d);
    assert_eq!(list.len(), 1);
    if let Json::Obj(es) = &list[0] {
        assert!(matches!(&es[1].1, Json::Str(s) if s == "old-name"));
    } else {
        panic!("entry changed shape");
    }
}

#[test]
fn profile_upsert_rejects_a_document_without_the_list() {
    let r = create_windows_terminal_profile(Json::Null, "abc", "web");
    assert_eq!(r.unwrap_err(), DragonError::ProfileSchemaInvalid);
    let no_list = Json::Obj(vec![("profiles".to_string(), Json::Obj(vec![]))]);
    assert_eq!(
        create_windows_terminal_profile(no_list, "abc", "web").unwrap_err(),
        DragonError::ProfileSchemaInvalid
    );
}

#[test]
fn guid_braces_are_canonical() {
    assert_eq!(guid_with_braces("abc-123"), "{abc-123}");
}

#[test]
fn comment_stripping_blanks_comments_only() {
    let src = "{ // note\n  \"a\": \"x//y\", /* gone */ \"b\": 1\n}";
    let stripped = strip_json_comments(src);
    let expected = format!(
        "{{{}\n  \"a\": \"x//y\", {} \"b\": 1\n}}",
        " ".repeat(8),
        " ".repeat(10)
    );
    assert_eq!(stripped, expected);
    let v: serde_json::Value = serde_json::from_str(stripped.as_str()).expect("stripped text parses");
    assert_eq!(v["a"], serde_json::Value::String("x//y".to_string()));
    assert!(serde_json::from_str::<serde_json::Value>(src).is_err());
}

#[test]
fn comment_stripping_keeps_plain_documents() {
    let src = "{\"a\": [1, 2], \"b/c\": \"/* not a comment */\"}";
    assert_eq!(strip_json_comments(src), src);
}

#[test]
fn export_archive_path_is_fresh_and_alphanumeric() {
    let p = dragon::ids::export_tar_path("C:\\tmp");
    assert_eq!(p.len(), "C:\\tmp".len() + 1 + 30);
    assert!(p.starts_with("C:\\tmp\\"));
    let name = &p["C:\\tmp\\".len()..];
    assert_eq!(name.len(), 30);
    assert!(name.chars().all(|c| c.is_ascii_alphanumeric()));
    let p2 = dragon::ids::export_tar_path("C:\\tmp\\");
    assert_eq!(p2.len(), "C:\\tmp\\".len() + 30);
}
