use souk::add::{plan_add, ConflictResolution};
use souk::errors::{Severity, ValidationDiagnostic, ValidationResult};
use souk::hooks::HookManager;
use souk::review::{
    build_marketplace_review_prompt, build_plugin_review_prompt, build_skill_review_prompt,
    current_date_string, LlmProvider, MockProvider,
};
use souk::skills::parse_skill_name_from_frontmatter;
use souk::version::generate_unique_name;
use souk::version_constraint::is_valid_version_constraint;
use souk::workflows::CiProvider;

#[test]
fn hook_manager_name_returns_expected_values() {
    assert_eq!(HookManager::Native.name(), "native");
    assert_eq!(HookManager::Lefthook.name(), "lefthook");
    assert_eq!(HookManager::Husky.name(), "husky");
    assert_eq!(HookManager::Overcommit.name(), "overcommit");
    assert_eq!(HookManager::Hk.name(), "hk");
    assert_eq!(HookManager::SimpleGitHooks.name(), "simple-git-hooks");
}

#[test]
fn hook_manager_display() {
    assert_eq!(HookManager::Lefthook.name(), "lefthook");
    assert_eq!(HookManager::Native.name(), "native");
}

#[test]
fn ci_provider_name_returns_expected_values() {
    assert_eq!(CiProvider::GitHub.name(), "github");
    assert_eq!(CiProvider::Blacksmith.name(), "blacksmith");
    assert_eq!(CiProvider::Northflank.name(), "northflank");
    assert_eq!(CiProvider::CircleCi.name(), "circleci");
    assert_eq!(CiProvider::GitLab.name(), "gitlab");
    assert_eq!(CiProvider::Buildkite.name(), "buildkite");
}

#[test]
fn ci_provider_display() {
    assert_eq!(CiProvider::GitHub.name(), "github");
    assert_eq!(CiProvider::CircleCi.name(), "circleci");
}

#[test]
fn validation_result_tracks_errors_and_warnings() {
    let mut result = ValidationResult::new();
    result.push(ValidationDiagnostic::error("bad thing"));
    result.push(ValidationDiagnostic::warning("meh thing"));
    result.push(ValidationDiagnostic::error("another bad"));
    assert!(result.has_errors());
    assert_eq!(result.error_count(), 2);
    assert_eq!(result.warning_count(), 1);
}

#[test]
fn validation_result_merge() {
    let mut a = ValidationResult::new();
    a.push(ValidationDiagnostic::error("a"));
    let mut b = ValidationResult::new();
    b.push(ValidationDiagnostic::warning("b"));
    a.merge(b);
    assert_eq!(a.diagnostics.len(), 2);
}

#[test]
fn diagnostic_builder_pattern() {
    let d = ValidationDiagnostic::error("missing name")
        .with_path("/tmp/plugin")
        .with_field("name");
    assert!(d.is_error());
    assert_eq!(d.path.unwrap(), "/tmp/plugin");
    assert_eq!(d.field.unwrap(), "name");
}

#[test]
fn build_prompt_contains_marketplace_json() {
    let marketplace_json = r#"{"version": "0.1.0", "plugins": []}"#;
    let prompt = build_marketplace_review_prompt(marketplace_json, &Vec::new());
    assert!(prompt.contains(marketplace_json));
    assert!(prompt.contains("experienced maintainer"));
    assert!(prompt.contains("Overall rating (1-10)"));
}

#[test]
fn build_prompt_includes_plugin_summaries() {
    let marketplace_json = r#"{"version": "0.1.0"}"#;
    let summaries = vec![
        "### alpha (source: alpha)\n```json\n{}\n```".to_string(),
        "### beta (source: beta) -- plugin.json not readable".to_string(),
    ];
    let prompt = build_marketplace_review_prompt(marketplace_json, &summaries);
    assert!(prompt.contains("## Plugins"));
    assert!(prompt.contains("### alpha"));
    assert!(prompt.contains("### beta"));
    assert!(prompt.contains("plugin.json not readable"));
}

#[test]
fn build_prompt_contains_plugin_json() {
    let prompt = build_plugin_review_prompt(r#"{"name": "foo"}"#, None, None, &Vec::new());
    assert!(prompt.contains("## plugin.json"));
    assert!(prompt.contains(r#"{"name": "foo"}"#));
}

#[test]
fn build_prompt_includes_extends_when_present() {
    let prompt = build_plugin_review_prompt(
        r#"{"name": "foo"}"#,
        Some(r#"{"dependencies": {}}"#),
        None,
        &Vec::new(),
    );
    assert!(prompt.contains("## extends-plugin.json"));
    assert!(prompt.contains(r#"{"dependencies": {}}"#));
}

#[test]
fn build_prompt_includes_readme_when_present() {
    let prompt = build_plugin_review_prompt(
        r#"{"name": "foo"}"#,
        None,
        Some("# My Plugin\n\nHello world."),
        &Vec::new(),
    );
    assert!(prompt.contains("## README.md"));
    assert!(prompt.contains("Hello world."));
}

#[test]
fn build_prompt_includes_skills_when_present() {
    let skills = vec![
        "- commit-message (dir: git-commit)".to_string(),
        "- code-review (dir: code-review)".to_string(),
    ];
    let prompt = build_plugin_review_prompt(r#"{"name": "foo"}"#, None, None, &skills);
    assert!(prompt.contains("## Skills"));
    assert!(prompt.contains("commit-message"));
    assert!(prompt.contains("code-review"));
}

#[test]
fn build_prompt_omits_optional_sections_when_absent() {
    let prompt = build_plugin_review_prompt(r#"{"name": "foo"}"#, None, None, &Vec::new());
    assert!(!prompt.contains("## extends-plugin.json"));
    assert!(!prompt.contains("## README.md"));
    assert!(!prompt.contains("## Skills"));
}

#[test]
fn build_prompt_requests_all_review_sections() {
    let prompt = build_plugin_review_prompt(r#"{"name": "foo"}"#, None, None, &Vec::new());
    assert!(prompt.contains("Executive Summary"));
    assert!(prompt.contains("Component Analysis"));
    assert!(prompt.contains("Code Quality Assessment"));
    assert!(prompt.contains("Documentation Review"));
    assert!(prompt.contains("Security Considerations"));
    assert!(prompt.contains("Recommendations"));
    assert!(prompt.contains("Overall Rating (1-10)"));
}

#[test]
fn current_date_string_has_correct_format() {
    let date = current_date_string();
    assert_eq!(date.len(), 10);
    assert_eq!(&date[4..5], "-");
    assert_eq!(&date[7..8], "-");
    let year: i32 = date[..4].parse().unwrap();
    assert!(year >= 2020);
}

#[test]
fn mock_provider_returns_expected_response() {
    let provider = MockProvider::new("This is a review.");
    let result = provider.complete("Review this plugin").unwrap();
    assert_eq!(result, "This is a review.");
}

#[test]
fn mock_provider_name_and_model() {
    let provider = MockProvider::new("ignored");
    assert_eq!(provider.name(), "mock");
    assert_eq!(provider.model(), "mock-model");
}

#[test]
fn build_prompt_includes_skill_name_and_content() {
    let prompt = build_skill_review_prompt("my-skill", "# My Skill\nDoes things.");
    assert!(prompt.contains("'my-skill'"));
    assert!(prompt.contains("# My Skill"));
    assert!(prompt.contains("Does things."));
    assert!(prompt.contains("Rating (1-10)"));
}

#[test]
fn parse_frontmatter_name() {
    let content = "---\nname: commit-message\ndescription: test\n---\n# Content";
    assert_eq!(
        parse_skill_name_from_frontmatter(content),
        Some("commit-message".to_string())
    );
}

#[test]
fn parse_frontmatter_quoted_name() {
    let content = "---\nname: \"my skill\"\n---\n";
    assert_eq!(
        parse_skill_name_from_frontmatter(content),
        Some("my skill".to_string())
    );
}

#[test]
fn no_frontmatter() {
    let content = "# Just a heading\nNo frontmatter here.";
    assert_eq!(parse_skill_name_from_frontmatter(content), None);
}

#[test]
fn frontmatter_without_name() {
    let content = "---\ndescription: test\n---\n";
    assert_eq!(parse_skill_name_from_frontmatter(content), None);
}

#[test]
fn empty_name_returns_none() {
    let content = "---\nname: \n---\n";
    assert_eq!(parse_skill_name_from_frontmatter(content), None);
}

#[test]
fn valid_constraints() {
    let valid = [
        "*", "1.0.0", "^1.0.0", "~1.0.0", ">=1.0.0", "<=1.0.0", ">1.0.0", "<1.0.0",
        "^1.0.0-alpha.1", "1.2.3-beta",
    ];
    for v in valid {
        assert!(is_valid_version_constraint(v), "should be valid: {}", v);
    }
}

#[test]
fn invalid_constraints() {
    let invalid = ["", "latest", "1.0", "^1.0", ">>1.0.0", "1.0.0.0"];
    for v in invalid {
        assert!(!is_valid_version_constraint(v), "should be invalid: {}", v);
    }
}

#[test]
fn unique_name_no_conflict() {
    let existing: Vec<String> = Vec::new();
    assert_eq!(generate_unique_name("my-plugin", &existing), "my-plugin");
}

#[test]
fn unique_name_base_conflict() {
    let existing = vec!["my-plugin".to_string()];
    assert_eq!(generate_unique_name("my-plugin", &existing), "my-plugin-2");
}

#[test]
fn unique_name_multiple_conflicts() {
    let existing = vec!["foo".to_string(), "foo-2".to_string(), "foo-3".to_string()];
    assert_eq!(generate_unique_name("foo", &existing), "foo-4");
}

#[test]
fn unique_name_gap_in_numbers() {
    let existing = vec!["foo".to_string(), "foo-3".to_string()];
    assert_eq!(generate_unique_name("foo", &existing), "foo-2");
}

#[test]
fn unique_name_with_existing_suffix() {
    let existing = vec!["plugin-2".to_string()];
    assert_eq!(generate_unique_name("plugin-2", &existing), "plugin-2-2");
}

#[test]
fn unique_name_empty_base() {
    let existing = vec!["".to_string()];
    assert_eq!(generate_unique_name("", &existing), "-2");
}

#[test]
fn version_bumps_follow_increment_rules() {
    assert_eq!(souk::version::bump_major("1.2.3").unwrap(), "2.0.0");
    assert_eq!(souk::version::bump_minor("1.2.3").unwrap(), "1.3.0");
    assert_eq!(souk::version::bump_patch("1.2.3").unwrap(), "1.2.4");
    assert_eq!(souk::version::bump_patch("3.1.4-alpha").unwrap(), "3.1.5");
    assert!(souk::version::bump_patch("not-a-version").is_err());
}

#[test]
fn conflict_resolution_variants_cover_the_policies() {
    let skip = ConflictResolution::Skip;
    match skip {
        ConflictResolution::Skip => {}
        _ => panic!("expected skip"),
    }
    assert!(souk::add::parse_strategy("abort").is_some());
    assert!(souk::add::parse_strategy("rename").is_some());
    assert!(souk::add::parse_strategy("sideways").is_none());
    let _ = plan_add;
}
