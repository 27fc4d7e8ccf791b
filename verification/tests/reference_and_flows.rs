use dragon::errors::DragonError;
use dragon::flows::{handle_pull, plan_new, plan_run, plan_update, plan_upgrade, apply_latest_tag};
use dragon::refparse::{extract_generic_image_details, reassemble_ref, update_image_url};
use dragon::store::{
    create_dockerwsl_config_entry, create_private_registry_record, determine_base_install_path,
    determine_login, empty_conf, DockerWslConf, Registry, WslConf,
};
use dragon::vm::get_wsl_wm_name;

fn parts_of(s: &str) -> (Option<String>, String, Option<String>) {
    extract_generic_image_details(s).expect("reference should parse")
}

fn roundtrip_once(s: &str) {
    let (reg, repo, tag) = parts_of(s);
    let rebuilt = reassemble_ref(&reg, repo.as_str(), &tag);
    let (reg2, repo2, tag2) = parts_of(rebuilt.as_str());
    assert_eq!(reg, reg2);
    assert_eq!(repo, repo2);
    assert_eq!(tag, tag2);
    let rebuilt2 = reassemble_ref(&reg2, repo2.as_str(), &tag2);
    assert_eq!(rebuilt, rebuilt2);
}

#[test]
fn reference_roundtrip_bare_repo() {
    roundtrip_once("repo");
}

#[test]
fn reference_roundtrip_repo_tag() {
    roundtrip_once("repo:tag");
}

#[test]
fn reference_roundtrip_registry_repo() {
    roundtrip_once("reg/repo");
}

#[test]
fn reference_roundtrip_registry_repo_tag() {
    roundtrip_once("reg/repo:tag");
}

#[test]
fn reference_roundtrip_dotted_registry() {
    roundtrip_once("reg.sub/repo:tag");
}

#[test]
fn reference_parses_bare_repository() {
    let (reg, repo, tag) = parts_of("nginx");
    assert_eq!(reg, None);
    assert_eq!(repo, "nginx");
    assert_eq!(tag, None);
}

#[test]
fn reference_parses_registry_with_port() {
    let (reg, repo, tag) = parts_of("localhost:5000/nginx");
    assert_eq!(reg, Some("localhost:5000".to_string()));
    assert_eq!(repo, "nginx");
    assert_eq!(tag, None);
}

#[test]
fn reference_registry_is_everything_before_last_slash() {
    let (reg, repo, tag) = parts_of("host.example/team/app:2");
    assert_eq!(reg, Some("host.example/team".to_string()));
    assert_eq!(repo, "app");
    assert_eq!(tag, Some("2".to_string()));
}

#[test]
fn reference_rejects_empty_string() {
    assert_eq!(
        extract_generic_image_details(""),
        Err(DragonError::MalformedReference)
    );
}

#[test]
fn reference_rejects_empty_tag() {
    assert_eq!(
        extract_generic_image_details("repo:"),
        Err(DragonError::MalformedReference)
    );
}

#[test]
fn reference_rejects_empty_repository() {
    assert_eq!(
        extract_generic_image_details("reg/:tag"),
        Err(DragonError::MalformedReference)
    );
}

#[test]
fn reference_rejects_empty_registry() {
    assert_eq!(
        extract_generic_image_details("/repo"),
        Err(DragonError::MalformedReference)
    );
}

#[test]
fn update_image_url_keeps_parts() {
    let u = update_image_url(
        Some("reg.azurecr.io".to_string()),
        &"app".to_string(),
        "2.1",
    )
    .unwrap();
    assert_eq!(u, "reg.azurecr.io/app:2.1");
    let u2 = update_image_url(None, &"app".to_string(), "7").unwrap();
    assert_eq!(u2, "app:7");
}

#[test]
fn vm_identity_is_name_dash_tag() {
    assert_eq!(get_wsl_wm_name("web", "1.25").unwrap(), "web-1.25");
}

fn record(name: &str, image: &str, latest: Option<&str>) -> WslConf {
    WslConf {
        name: name.to_string(),
        image: image.to_string(),
        latest: latest.map(|s| s.to_string()),
        windows_terminal_profile_id: "11111111-2222-3333-4444-555555555555".to_string(),
        base_install_path: "C:\\wsl\\env".to_string(),
    }
}

fn credential(host: &str, user: &str, tenant: Option<&str>) -> Registry {
    Registry {
        name: host.to_string(),
        username: user.to_string(),
        password: "secret".to_string(),
        tenant: tenant.map(|s| s.to_string()),
    }
}

#[test]
fn new_then_run_uses_the_same_identity() {
    let mut conf = empty_conf();
    let plan = plan_new(
        &mut conf,
        "nginx:1.25",
        &Some("web".to_string()),
        &None,
        &None,
        &None,
    )
    .expect("creation should plan");
    assert_eq!(plan.wsl_name, "web");
    assert_eq!(plan.tag, "1.25");
    assert_eq!(plan.wsl_vm_name, "web-1.25");
    assert_eq!(plan.image_url, "nginx:1.25");
    create_dockerwsl_config_entry(
        &mut conf,
        plan.image_url.as_str(),
        plan.wsl_name.as_str(),
        plan.wt_profile_id.as_str(),
        "C:\\wsl\\web",
        plan.tag.as_str(),
    )
    .expect("entry should be created");
    let identity = plan_run(&conf, "web").expect("run should resolve");
    assert_eq!(identity, "web-1.25");
}

#[test]
fn new_without_tag_defaults_to_latest() {
    let mut conf = empty_conf();
    let plan = plan_new(&mut conf, "nginx", &None, &None, &None, &None).unwrap();
    assert_eq!(plan.wsl_name, "nginx");
    assert_eq!(plan.image_url, "nginx:latest");
    assert_eq!(plan.tag, "latest");
    assert_eq!(plan.wsl_vm_name, "nginx-latest");
    assert_eq!(plan.wt_profile_id.len(), 36);
}

#[test]
fn duplicate_creation_fails_and_keeps_first_record() {
    let mut conf = empty_conf();
    let plan = plan_new(
        &mut conf,
        "nginx:1.25",
        &Some("web".to_string()),
        &None,
        &None,
        &None,
    )
    .unwrap();
    create_dockerwsl_config_entry(
        &mut conf,
        plan.image_url.as_str(),
        "web",
        plan.wt_profile_id.as_str(),
        "C:\\wsl\\web",
        plan.tag.as_str(),
    )
    .unwrap();
    let second = plan_new(
        &mut conf,
        "httpd:2",
        &Some("web".to_string()),
        &None,
        &None,
        &None,
    );
    assert_eq!(second.unwrap_err(), DragonError::DuplicateName);
    assert_eq!(conf.wsls.len(), 1);
    assert_eq!(conf.wsls[0].image, "nginx:1.25");
}

#[test]
fn run_of_unknown_name_is_instance_not_found() {
    let conf = empty_conf();
    assert_eq!(plan_run(&conf, "ghost").unwrap_err(), DragonError::InstanceNotFound);
}

#[test]
fn update_on_non_acr_registry_fails_fast() {
    let mut conf = empty_conf();
    conf.wsls.push(record("web", "docker.io/nginx:1.25", None));
    let r = plan_update(&conf, &Some("web".to_string()));
    assert_eq!(r.unwrap_err(), DragonError::UnsupportedRegistry);
}

#[test]
fn update_on_registryless_reference_fails_fast() {
    let mut conf = empty_conf();
    conf.wsls.push(record("web", "nginx:1.25", None));
    let r = plan_update(&conf, &None);
    assert_eq!(r.unwrap_err(), DragonError::UnsupportedRegistry);
}

#[test]
fn update_plans_a_query_with_the_stored_credential() {
    let mut conf = empty_conf();
    conf.wsls.push(record("web", "corp.azurecr.io/nginx:1.25", None));
    conf.private_registries
        .push(credential("corp.azurecr.io", "svc", Some("tenant-a")));
    let queries = plan_update(&conf, &None).unwrap();
    assert_eq!(queries.len(), 1);
    assert_eq!(queries[0].wsl_name, "web");
    assert_eq!(queries[0].registry, "corp.azurecr.io");
    assert_eq!(queries[0].repository, "nginx");
    assert_eq!(queries[0].username, "svc");
    assert_eq!(queries[0].tenant, "tenant-a");
}

#[test]
fn update_without_stored_credential_plans_nothing() {
    let mut conf = empty_conf();
    conf.wsls.push(record("web", "corp.azurecr.io/nginx:1.25", None));
    let queries = plan_update(&conf, &None).unwrap();
    assert_eq!(queries.len(), 0);
}

#[test]
fn update_without_tenant_cannot_authenticate() {
    let mut conf = empty_conf();
    conf.wsls.push(record("web", "corp.azurecr.io/nginx:1.25", None));
    conf.private_registries
        .push(credential("corp.azurecr.io", "svc", None));
    let r = plan_update(&conf, &None);
    assert_eq!(r.unwrap_err(), DragonError::AuthenticationFailed);
}

#[test]
fn update_filter_skips_other_records() {
    let mut conf = empty_conf();
    conf.wsls.push(record("other", "docker.io/nginx:1", None));
    conf.wsls.push(record("web", "corp.azurecr.io/nginx:1", None));
    conf.private_registries
        .push(credential("corp.azurecr.io", "svc", Some("t")));
    let queries = plan_update(&conf, &Some("web".to_string())).unwrap();
    assert_eq!(queries.len(), 1);
    assert_eq!(queries[0].wsl_name, "web");
}

#[test]
fn apply_latest_tag_writes_the_resolved_version() {
    let mut conf = empty_conf();
    conf.wsls.push(record("web", "corp.azurecr.io/nginx:1.25", None));
    assert!(apply_latest_tag(&mut conf, "web", "1.27"));
    assert_eq!(conf.wsls[0].latest.as_deref(), Some("1.27"));
    assert!(!apply_latest_tag(&mut conf, "ghost", "9"));
}

#[test]
fn upgrade_requires_a_resolved_version() {
    let mut conf = empty_conf();
    conf.wsls.push(record("web", "corp.azurecr.io/nginx:1.25", None));
    let r = plan_upgrade(&mut conf, &None);
    assert_eq!(r.unwrap_err(), DragonError::NoResolvedVersion);
    assert_eq!(conf.wsls[0].image, "corp.azurecr.io/nginx:1.25");
}

#[test]
fn upgrade_rewrites_tag_and_replans_identity() {
    let mut conf = empty_conf();
    conf.wsls
        .push(record("web", "corp.azurecr.io/nginx:1.25", Some("1.27")));
    let actions = plan_upgrade(&mut conf, &None).unwrap();
    assert_eq!(actions.len(), 1);
    assert_eq!(actions[0].wsl_name, "web");
    assert_eq!(actions[0].wsl_vm_name, "web-1.27");
    assert_eq!(actions[0].image_url, "corp.azurecr.io/nginx:1.27");
    assert_eq!(actions[0].base_install_path, "C:\\wsl\\env");
    assert_eq!(conf.wsls[0].image, "corp.azurecr.io/nginx:1.27");
    assert_eq!(conf.wsls[0].name, "web");
}

#[test]
fn pull_plans_a_login_only_for_known_registries() {
    let mut conf = empty_conf();
    conf.wsls.push(record("web", "corp.azurecr.io/nginx:1.25", None));
    conf.wsls.push(record("blog", "nginx:1.25", None));
    conf.private_registries
        .push(credential("corp.azurecr.io", "svc", None));
    let actions = handle_pull(&conf, &None).unwrap();
    assert_eq!(actions.len(), 2);
    let login = actions[0].login.as_ref().expect("private pull needs a login");
    assert_eq!(login.registry, "corp.azurecr.io");
    assert_eq!(login.username, "svc");
    assert_eq!(actions[0].image, "corp.azurecr.io/nginx:1.25");
    assert!(actions[1].login.is_none());
    assert_eq!(actions[1].image, "nginx:1.25");
}

#[test]
fn pull_fails_on_malformed_reference() {
    let mut conf = empty_conf();
    conf.wsls.push(record("bad", "reg/:x", None));
    assert_eq!(handle_pull(&conf, &None).unwrap_err(), DragonError::MalformedReference);
}

#[test]
fn credential_creation_is_idempotent() {
    let mut conf = empty_conf();
    assert!(create_private_registry_record(
        &mut conf,
        "corp.azurecr.io",
        "first",
        "pw1",
        None
    ));
    assert!(!create_private_registry_record(
        &mut conf,
        "corp.azurecr.io",
        "second",
        "pw2",
        None
    ));
    assert_eq!(conf.private_registries.len(), 1);
    assert_eq!(conf.private_registries[0].username, "first");
}

#[test]
fn determine_login_picks_the_first_matching_credential() {
    let mut conf = empty_conf();
    conf.private_registries
        .push(credential("corp.azurecr.io", "svc", None));
    let l = determine_login(&Some("corp.azurecr.io".to_string()), &conf).unwrap();
    assert_eq!(l.registry, "corp.azurecr.io");
    assert_eq!(l.username, "svc");
    assert_eq!(l.password, "secret");
    assert!(determine_login(&Some("other.example".to_string()), &conf).is_none());
    assert!(determine_login(&None, &conf).is_none());
}

#[test]
fn install_path_prefers_the_explicit_flag() {
    let conf = empty_conf();
    let p = determine_base_install_path(&Some("D:\\here".to_string()), &conf, "web").unwrap();
    assert_eq!(p, "D:\\here");
}

#[test]
fn install_path_joins_the_store_default() {
    let mut conf = empty_conf();
    conf.default_base_wsl_install_path = Some("C:\\wsl".to_string());
    let p = determine_base_install_path(&None, &conf, "web").unwrap();
    assert_eq!(p, "C:\\wsl\\web");
    conf.default_base_wsl_install_path = Some("C:\\wsl\\".to_string());
    let p2 = determine_base_install_path(&None, &conf, "web").unwrap();
    assert_eq!(p2, "C:\\wsl\\web");
}

#[test]
fn install_path_without_default_is_an_error() {
    let conf = empty_conf();
    assert_eq!(
        determine_base_install_path(&None, &conf, "web").unwrap_err(),
        DragonError::NoInstallPath
    );
}

#[test]
fn new_with_credentials_declares_them_once() {
    let mut conf = DockerWslConf {
        wsls: Vec::new(),
        default_base_wsl_install_path: Some("C:\\wsl".to_string()),
        private_registries: Vec::new(),
    };
    let plan = plan_new(
        &mut conf,
        "corp.azurecr.io/app:3",
        &None,
        &Some("svc".to_string()),
        &Some("pw".to_string()),
        &Some("tenant-a".to_string()),
    )
    .unwrap();
    assert!(plan.credential_added);
    assert_eq!(conf.private_registries.len(), 1);
    assert_eq!(conf.private_registries[0].name, "corp.azurecr.io");
    assert_eq!(conf.private_registries[0].tenant.as_deref(), Some("tenant-a"));
    let login = plan.login.expect("login expected for stored credential");
    assert_eq!(login.username, "svc");
    assert_eq!(plan.wsl_name, "app");
    assert_eq!(plan.wsl_vm_name, "app-3");
}
