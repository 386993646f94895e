use souk::config::{load_marketplace_config, load_marketplace_doc, MarketplaceConfig};
use souk::errors::SoukError;
use souk::fsm::Fs;
use souk::init::scaffold_marketplace;
use souk::prune::prune_plugins;

fn setup_registry(entries_json: &str) -> (Fs, MarketplaceConfig) {
    let mut fs = Fs::new();
    fs.mkdir("/proj");
    fs.mkdir("/proj/.plugin-meta");
    fs.mkdir("/proj/plugins");
    let mp = format!(
        "{{\"version\":\"0.1.0\",\"pluginRoot\":\"./plugins\",\"plugins\":[{}]}}",
        entries_json
    );
    fs.write_file("/proj/.plugin-meta/marketplace.json", mp);
    let config = load_marketplace_config(&fs, "/proj/.plugin-meta/marketplace.json").unwrap();
    (fs, config)
}

fn create_plugin(fs: &mut Fs, base: &str, name: &str) {
    let dir = format!("{}/{}", base, name);
    fs.mkdir(&dir);
    fs.mkdir(&format!("{}/.plugin-meta", dir));
    fs.write_file(
        &format!("{}/.plugin-meta/plugin.json", dir),
        format!(
            "{{\"name\":\"{}\",\"version\":\"1.0.0\",\"description\":\"A test plugin\"}}",
            name
        ),
    );
}

#[test]
fn scaffold_creates_marketplace_structure() {
    let mut fs = Fs::new();
    scaffold_marketplace(&mut fs, "/proj/.plugin-meta/marketplace.json", "./plugins").unwrap();
    assert!(fs
        .read_file("/proj/.plugin-meta/marketplace.json")
        .is_some());
    let mp = load_marketplace_doc(&fs, "/proj/.plugin-meta/marketplace.json").unwrap();
    assert_eq!(mp.version, "0.1.0");
    assert_eq!(mp.plugin_root(), "./plugins");
    assert!(mp.plugins.is_empty());
    assert!(fs.has_dir("/proj/plugins"));
}

#[test]
fn scaffold_returns_error_if_marketplace_already_exists() {
    let mut fs = Fs::new();
    scaffold_marketplace(&mut fs, "/proj/.plugin-meta/marketplace.json", "./plugins").unwrap();
    let result = scaffold_marketplace(&mut fs, "/proj/.plugin-meta/marketplace.json", "./plugins");
    assert!(result.is_err());
    match result.unwrap_err() {
        SoukError::MarketplaceAlreadyExists(path) => {
            assert!(path.ends_with(".plugin-meta/marketplace.json"));
        }
        other => panic!("Expected MarketplaceAlreadyExists, got: {:?}", other),
    }
}

#[test]
fn scaffold_respects_custom_plugin_root() {
    let mut fs = Fs::new();
    scaffold_marketplace(&mut fs, "/proj/.plugin-meta/marketplace.json", "./extensions").unwrap();
    let mp = load_marketplace_doc(&fs, "/proj/.plugin-meta/marketplace.json").unwrap();
    assert_eq!(mp.plugin_root(), "./extensions");
    assert!(fs.has_dir("/proj/extensions"));
}

#[test]
fn scaffold_default_plugin_root() {
    let mut fs = Fs::new();
    scaffold_marketplace(&mut fs, "/proj/.plugin-meta/marketplace.json", "./plugins").unwrap();
    let mp = load_marketplace_doc(&fs, "/proj/.plugin-meta/marketplace.json").unwrap();
    assert_eq!(mp.plugin_root(), "./plugins");
    assert!(fs.has_dir("/proj/plugins"));
}

#[test]
fn scaffold_creates_parent_directories_recursively() {
    let mut fs = Fs::new();
    scaffold_marketplace(
        &mut fs,
        "/nested/deep/marketplace/.plugin-meta/marketplace.json",
        "./plugins",
    )
    .unwrap();
    assert!(fs
        .read_file("/nested/deep/marketplace/.plugin-meta/marketplace.json")
        .is_some());
    assert!(fs.has_dir("/nested/deep/marketplace/plugins"));
}

#[test]
fn scaffold_plugin_root_without_dot_slash_prefix() {
    let mut fs = Fs::new();
    scaffold_marketplace(&mut fs, "/proj/.plugin-meta/marketplace.json", "custom-plugins")
        .unwrap();
    let mp = load_marketplace_doc(&fs, "/proj/.plugin-meta/marketplace.json").unwrap();
    assert_eq!(mp.plugin_root(), "custom-plugins");
    assert!(fs.has_dir("/proj/custom-plugins"));
}

#[test]
fn prune_prune_dry_run_lists_orphans() {
    let (mut fs, config) =
        setup_registry("{\"name\":\"kept\",\"source\":\"kept\",\"tags\":[]}");
    create_plugin(&mut fs, "/proj/plugins", "kept");
    create_plugin(&mut fs, "/proj/plugins", "orphan1");
    create_plugin(&mut fs, "/proj/plugins", "orphan2");

    let result = prune_plugins(&mut fs, false, &config).unwrap();

    assert_eq!(result.orphaned.len(), 2);
    assert!(result.deleted.is_empty());
    assert!(fs.has_dir("/proj/plugins/orphan1"));
    assert!(fs.has_dir("/proj/plugins/orphan2"));
}

#[test]
fn prune_prune_apply_deletes_orphans() {
    let (mut fs, config) =
        setup_registry("{\"name\":\"kept\",\"source\":\"kept\",\"tags\":[]}");
    create_plugin(&mut fs, "/proj/plugins", "kept");
    create_plugin(&mut fs, "/proj/plugins", "orphan1");
    create_plugin(&mut fs, "/proj/plugins", "orphan2");

    let result = prune_plugins(&mut fs, true, &config).unwrap();

    assert_eq!(result.orphaned.len(), 2);
    assert_eq!(result.deleted.len(), 2);
    assert!(result.warnings.is_empty());
    assert!(!fs.has_dir("/proj/plugins/orphan1"));
    assert!(!fs.has_dir("/proj/plugins/orphan2"));
    assert!(fs.has_dir("/proj/plugins/kept"));
}

#[test]
fn prune_no_orphans() {
    let (mut fs, config) = setup_registry("{\"name\":\"a\",\"source\":\"a\",\"tags\":[]}");
    create_plugin(&mut fs, "/proj/plugins", "a");

    let result = prune_plugins(&mut fs, false, &config).unwrap();

    assert!(result.orphaned.is_empty());
    assert!(result.deleted.is_empty());
    assert!(result.warnings.is_empty());
}
