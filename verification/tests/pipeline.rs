use souk::add::{execute_add, plan_add};
use souk::config::{load_marketplace_config, MarketplaceConfig};
use souk::errors::SoukError;
use souk::fsm::Fs;
use souk::guard::AtomicGuard;
use souk::remove::remove_plugins;
use souk::update::update_plugins;
use souk::validation::{validate_plugin, validate_marketplace};

fn setup_registry(entries_json: &str) -> (Fs, MarketplaceConfig) {
    let mut fs = Fs::new();
    fs.mkdir("/proj");
    fs.mkdir("/proj/.plugin-meta");
    fs.mkdir("/proj/plugins");
    let mp = format!(
        "{{\"version\":\"0.1.0\",\"pluginRoot\":\"./plugins\",\"plugins\":[{}]}}",
        entries_json
    );
    fs.write_file("/proj/.plugin-meta/marketplace.json", mp);
    let config = load_marketplace_config(&fs, "/proj/.plugin-meta/marketplace.json").unwrap();
    (fs, config)
}

fn create_plugin(fs: &mut Fs, base: &str, name: &str) -> String {
    let dir = format!("{}/{}", base, name);
    fs.mkdir(&dir);
    fs.mkdir(&format!("{}/.plugin-meta", dir));
    fs.write_file(
        &format!("{}/.plugin-meta/plugin.json", dir),
        format!(
            "{{\"name\":\"{}\",\"version\":\"1.0.0\",\"description\":\"A test plugin\",\"keywords\":[\"test\"]}}",
            name
        ),
    );
    dir
}

#[test]
fn guard_restores_exact_content_on_release() {
    let mut fs = Fs::new();
    fs.write_file("/f.json", "original".to_string());
    let guard = AtomicGuard::new(&mut fs, "/f.json", 7);
    fs.write_file("/f.json", "mutated".to_string());
    guard.release(&mut fs);
    assert_eq!(fs.read_file("/f.json").unwrap(), "original");
    assert!(fs.read_file("/f.json.bak.7").is_none());
}

#[test]
fn guard_keeps_mutation_on_commit() {
    let mut fs = Fs::new();
    fs.write_file("/f.json", "original".to_string());
    let guard = AtomicGuard::new(&mut fs, "/f.json", 7);
    fs.write_file("/f.json", "mutated".to_string());
    guard.commit(&mut fs);
    assert_eq!(fs.read_file("/f.json").unwrap(), "mutated");
    assert!(fs.read_file("/f.json.bak.7").is_none());
}

#[test]
fn guard_on_absent_path_is_noop() {
    let mut fs = Fs::new();
    let guard = AtomicGuard::new(&mut fs, "/missing.json", 7);
    assert!(guard.backup_path().is_none());
    guard.release(&mut fs);
    assert!(fs.read_file("/missing.json").is_none());
    let guard = AtomicGuard::new(&mut fs, "/missing.json", 7);
    guard.commit(&mut fs);
    assert!(fs.read_file("/missing.json").is_none());
}

#[test]
fn dry_run_reports_names_and_touches_nothing() {
    let (mut fs, config) = setup_registry("{\"name\":\"existing\",\"source\":\"existing\",\"tags\":[]}");
    create_plugin(&mut fs, "/proj/plugins", "existing");
    let before_mp = fs.read_file("/proj/.plugin-meta/marketplace.json").unwrap();
    let plan = plan_add(
        &fs,
        &vec!["existing".to_string()],
        &config,
        "rename",
        false,
    )
    .unwrap();
    let names = execute_add(&mut fs, &plan, &config, true, 11).unwrap();
    assert_eq!(names, vec!["existing-2".to_string()]);
    assert_eq!(
        fs.read_file("/proj/.plugin-meta/marketplace.json").unwrap(),
        before_mp
    );
}

#[test]
fn abort_conflict_leaves_registry_untouched() {
    let (mut fs, config) = setup_registry("{\"name\":\"x\",\"source\":\"x\",\"tags\":[]}");
    create_plugin(&mut fs, "/proj/plugins", "x");
    let before_mp = fs.read_file("/proj/.plugin-meta/marketplace.json").unwrap();
    let result = plan_add(&fs, &vec!["x".to_string()], &config, "abort", false);
    match result {
        Err(SoukError::PluginAlreadyExists(name)) => assert_eq!(name, "x"),
        other => panic!("expected an already-exists failure, got {:?}", other.is_ok()),
    }
    assert_eq!(
        fs.read_file("/proj/.plugin-meta/marketplace.json").unwrap(),
        before_mp
    );
}

#[test]
fn remove_refuses_external_path_without_override() {
    let (mut fs, _config) = setup_registry("");
    fs.mkdir("/elsewhere");
    create_plugin(&mut fs, "/elsewhere", "ext");
    let mp = "{\"version\":\"0.1.0\",\"pluginRoot\":\"./plugins\",\"plugins\":[{\"name\":\"ext\",\"source\":\"/elsewhere/ext\"}]}";
    fs.write_file("/proj/.plugin-meta/marketplace.json", mp.to_string());
    let config = load_marketplace_config(&fs, "/proj/.plugin-meta/marketplace.json").unwrap();
    let before_mp = fs.read_file("/proj/.plugin-meta/marketplace.json").unwrap();

    let refused = remove_plugins(&mut fs, &vec!["ext".to_string()], true, false, &config, 3);
    match refused {
        Err(SoukError::Other(msg)) => assert!(msg.contains("outside pluginRoot")),
        _ => panic!("expected an unauthorized failure"),
    }
    assert!(fs.has_dir("/elsewhere/ext"));
    assert_eq!(
        fs.read_file("/proj/.plugin-meta/marketplace.json").unwrap(),
        before_mp
    );

    let allowed = remove_plugins(&mut fs, &vec!["ext".to_string()], true, true, &config, 4).unwrap();
    assert_eq!(allowed.removed, vec!["ext".to_string()]);
    assert!(!fs.has_dir("/elsewhere/ext"));
    let after = fs.read_file("/proj/.plugin-meta/marketplace.json").unwrap();
    assert!(!after.contains("\"ext\""));
}

#[test]
fn lifecycle_add_update_remove() {
    // Init an empty registry, add one internal plugin, bump it, remove it.
    let (mut fs, config) = setup_registry("");
    create_plugin(&mut fs, "/proj/plugins", "my-plugin");

    let plan = plan_add(&fs, &vec!["my-plugin".to_string()], &config, "abort", false).unwrap();
    let added = execute_add(&mut fs, &plan, &config, false, 100).unwrap();
    assert_eq!(added, vec!["my-plugin".to_string()]);
    let content = fs.read_file("/proj/.plugin-meta/marketplace.json").unwrap();
    assert!(content.contains("\"version\":\"0.1.1\""));
    assert!(content.contains("\"my-plugin\""));
    assert!(content.contains("\"tags\":[\"test\"]"));

    let config = load_marketplace_config(&fs, "/proj/.plugin-meta/marketplace.json").unwrap();
    let updated = update_plugins(&mut fs, &vec!["my-plugin".to_string()], Some("patch"), &config, 200)
        .unwrap();
    assert_eq!(updated, vec!["my-plugin".to_string()]);
    let pj = fs
        .read_file("/proj/plugins/my-plugin/.plugin-meta/plugin.json")
        .unwrap();
    assert!(pj.contains("1.0.1"), "plugin version should be bumped: {}", pj);
    let content = fs.read_file("/proj/.plugin-meta/marketplace.json").unwrap();
    assert!(content.contains("\"version\":\"0.1.2\""), "registry: {}", content);

    let config = load_marketplace_config(&fs, "/proj/.plugin-meta/marketplace.json").unwrap();
    let removed = remove_plugins(&mut fs, &vec!["my-plugin".to_string()], true, false, &config, 300)
        .unwrap();
    assert_eq!(removed.removed, vec!["my-plugin".to_string()]);
    assert!(!fs.has_dir("/proj/plugins/my-plugin"));
    let content = fs.read_file("/proj/.plugin-meta/marketplace.json").unwrap();
    assert!(content.contains("\"plugins\":[]"), "registry: {}", content);
    assert!(content.contains("\"version\":\"0.1.3\""));
}

#[test]
fn empty_manifest_reports_exactly_three_errors() {
    let mut fs = Fs::new();
    fs.mkdir("/p");
    fs.mkdir("/p/.plugin-meta");
    fs.write_file("/p/.plugin-meta/plugin.json", "{}".to_string());
    let result = validate_plugin(&fs, "/p");
    assert_eq!(result.error_count(), 3);
    for d in &result.diagnostics {
        assert!(!d.message.contains("semver"), "unexpected: {}", d.message);
    }
}

#[test]
fn rename_fills_numeric_gaps() {
    let (mut fs, config) = setup_registry(
        "{\"name\":\"foo\",\"source\":\"foo\",\"tags\":[]},{\"name\":\"foo-3\",\"source\":\"foo-3\",\"tags\":[]}",
    );
    create_plugin(&mut fs, "/proj/plugins", "foo");
    create_plugin(&mut fs, "/proj/plugins", "foo-3");
    let plan = plan_add(&fs, &vec!["foo".to_string()], &config, "rename", false).unwrap();
    match &plan.actions[0].conflict {
        Some(souk::add::ConflictResolution::Rename(n)) => assert_eq!(n, "foo-2"),
        _ => panic!("expected a rename resolution"),
    }
}

#[test]
fn external_plugin_is_copied_under_the_root() {
    let (mut fs, config) = setup_registry("");
    fs.mkdir("/elsewhere");
    create_plugin(&mut fs, "/elsewhere", "ext-plugin");
    let plan = plan_add(&fs, &vec!["/elsewhere/ext-plugin".to_string()], &config, "abort", false)
        .unwrap();
    assert!(plan.actions[0].is_external);
    let added = execute_add(&mut fs, &plan, &config, false, 5).unwrap();
    assert_eq!(added, vec!["ext-plugin".to_string()]);
    assert!(fs.has_dir("/proj/plugins/ext-plugin"));
    assert!(fs
        .read_file("/proj/plugins/ext-plugin/.plugin-meta/plugin.json")
        .is_some());
    let content = fs.read_file("/proj/.plugin-meta/marketplace.json").unwrap();
    assert!(content.contains("\"source\":\"ext-plugin\""));
}

#[test]
fn registry_validation_flags_missing_directories() {
    let (fs, config) = setup_registry("{\"name\":\"ghost\",\"source\":\"ghost\",\"tags\":[]}");
    let result = validate_marketplace(&fs, &config, true);
    assert!(result.has_errors());
    let err = result
        .diagnostics
        .iter()
        .find(|d| d.is_error() && d.message.contains("ghost"))
        .expect("expected an error for the missing plugin");
    assert!(err.message.contains("souk remove"));
}

#[test]
fn remove_nonexistent_name_fails_untouched() {
    let (mut fs, config) = setup_registry("{\"name\":\"a\",\"source\":\"a\",\"tags\":[]}");
    create_plugin(&mut fs, "/proj/plugins", "a");
    let before = fs.read_file("/proj/.plugin-meta/marketplace.json").unwrap();
    match remove_plugins(&mut fs, &vec!["nope".to_string()], false, false, &config, 9) {
        Err(SoukError::PluginNotFound(n)) => assert_eq!(n, "nope"),
        _ => panic!("expected a not-found failure"),
    }
    assert_eq!(
        fs.read_file("/proj/.plugin-meta/marketplace.json").unwrap(),
        before
    );
}
