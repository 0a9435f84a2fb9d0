use cursor_rules::cache::{CacheMetadata, FileSystemCache};
use cursor_rules::config::{
    resolve_token_priority, Config, ConfigError, KeyringStore, KEYRING_ACCOUNT, KEYRING_SERVICE,
};
use cursor_rules::locator::{is_valid_login, validate_repo_name, RepoLocator};
use cursor_rules::safety::{validate_safe_path, PathSafetyError};
use cursor_rules::ui::{AppAction, Palette, UiColor, Viewport};

#[test]
fn test_config_default() {
    let config = Config::default();
    assert!(config.owner.is_none());
    assert!(config.repo.is_none());
    assert!(config.out_dir.is_none());
    assert!(config.telemetry.is_none());
}

#[test]
fn test_config_default_trait() {
    let config1 = Config::default();
    let config2 = Config {
        owner: None,
        repo: None,
        out_dir: None,
        telemetry: None,
    };

    assert_eq!(config1.owner, config2.owner);
    assert_eq!(config1.repo, config2.repo);
    assert_eq!(config1.out_dir, config2.out_dir);
    assert_eq!(config1.telemetry, config2.telemetry);
}

#[test]
fn test_keyring_store_creation() {
    let _store = KeyringStore;
}

#[test]
fn test_keyring_constants() {
    assert_eq!(KEYRING_SERVICE, "cursor-rules-cli");
    assert_eq!(KEYRING_ACCOUNT, "github-token");
}

#[test]
fn token_priority_prefers_cli_then_env_then_store() {
    assert_eq!(
        resolve_token_priority(
            Some("cli".to_string()),
            Some("env".to_string()),
            Some("stored".to_string())
        ),
        Some("cli".to_string())
    );
    assert_eq!(
        resolve_token_priority(None, Some("env".to_string()), Some("stored".to_string())),
        Some("env".to_string())
    );
    assert_eq!(
        resolve_token_priority(None, Some("   ".to_string()), Some("stored".to_string())),
        Some("stored".to_string())
    );
    assert_eq!(
        resolve_token_priority(None, None, Some("stored".to_string())),
        Some("stored".to_string())
    );
    assert_eq!(resolve_token_priority(None, None, None), None);
}

#[test]
fn config_error_messages() {
    assert_eq!(
        ConfigError::ConfigDirNotFound.message(),
        "Unable to determine config directory"
    );
    assert_eq!(
        ConfigError::ReadError("denied".to_string()).message(),
        "Failed to read config file: denied"
    );
    assert_eq!(
        ConfigError::KeyringError("locked".to_string()).message(),
        "Keyring operation failed: locked"
    );
}

#[test]
fn validate_repo_name_good() {
    assert!(validate_repo_name("cursor-rules").is_ok());
    assert!(validate_repo_name("a-valid_repo-name.123").is_ok());
}

#[test]
fn validate_repo_name_bad() {
    assert!(validate_repo_name("invalid repo").is_err());
    assert!(validate_repo_name("contains?question").is_err());
}

#[test]
fn valid_login_check() {
    assert!(is_valid_login("alice"));
    assert!(is_valid_login("alice-b_c.d9"));
    assert!(!is_valid_login(""));
    assert!(!is_valid_login("John Doe"));
}

#[test]
fn repo_locator_fields_and_equality() {
    let a = RepoLocator {
        owner: "o".to_string(),
        repo: "r".to_string(),
        branch: "main".to_string(),
    };
    let b = a.clone();
    assert_eq!(a, b);
    assert_eq!(a.owner, "o");
    assert_eq!(a.repo, "r");
    assert_eq!(a.branch, "main");
}

#[test]
fn path_safety_rules_fire_in_order() {
    assert_eq!(
        validate_safe_path("../x/passwd.mdc", "passwd.mdc"),
        Err(PathSafetyError::Traversal)
    );
    assert_eq!(
        validate_safe_path("/abs/file.mdc", "file.mdc"),
        Err(PathSafetyError::AbsolutePath)
    );
    assert_eq!(
        validate_safe_path("c:\\drive.mdc", "drive.mdc"),
        Err(PathSafetyError::AbsolutePath)
    );
    assert_eq!(
        validate_safe_path("x/CON.mdc", "CON.mdc"),
        Err(PathSafetyError::ReservedName)
    );
    assert_eq!(
        validate_safe_path("x/com7.mdc", "com7.mdc"),
        Err(PathSafetyError::ReservedName)
    );
    assert_eq!(
        validate_safe_path("x/a\0b.mdc", "a\0b.mdc"),
        Err(PathSafetyError::NullByte)
    );
    assert_eq!(validate_safe_path("x/fine.mdc", "fine.mdc"), Ok(()));
    assert_eq!(validate_safe_path("x/console.mdc", "console.mdc"), Ok(()));
}

#[test]
fn up_down_and_visibility() {
    let mut vp = Viewport::new();
    vp.down(10);
    assert_eq!(vp.selected_index, 1);
    vp.up();
    assert_eq!(vp.selected_index, 0);

    vp.selected_index = 15;
    vp.ensure_visible(5);
    assert!(vp.scroll_offset <= vp.selected_index);
    assert!(vp.selected_index < vp.scroll_offset + 5);
}

#[test]
fn viewport_limits() {
    let mut vp = Viewport::new();
    vp.up();
    assert_eq!(vp.selected_index, 0);
    vp.down(1);
    assert_eq!(vp.selected_index, 0);
    vp.down(0);
    assert_eq!(vp.selected_index, 0);
}

#[test]
fn palette_and_presentation() {
    assert_eq!(Palette::NORMAL, UiColor::White);
    assert_eq!(Palette::SELECTED_FG, UiColor::White);
    assert_eq!(Palette::BREADCRUMB, UiColor::Yellow);
    assert_ne!(Palette::HIDDEN, Palette::NORMAL);

    let hidden = cursor_rules::tree::RepoNode {
        name: ".hidden".to_string(),
        path: ".hidden".to_string(),
        kind: cursor_rules::tree::NodeKind::RuleFile,
        children: None,
        manifest_count: None,
    };
    assert_eq!(cursor_rules::ui::fg_color(&hidden), UiColor::HiddenGrey);
    assert_eq!(cursor_rules::ui::icon_for(&hidden), '\u{1F4C4}');
    assert_eq!(cursor_rules::ui::bubble(&hidden), "");

    let manifest = cursor_rules::tree::RepoNode {
        name: "all.txt".to_string(),
        path: "quick-add/all.txt".to_string(),
        kind: cursor_rules::tree::NodeKind::Manifest,
        children: None,
        manifest_count: Some(12),
    };
    assert_eq!(cursor_rules::ui::bubble(&manifest), "  [12 files]");
    assert_eq!(cursor_rules::ui::fg_color(&manifest), UiColor::White);
}

#[test]
fn app_action_equality() {
    assert_eq!(AppAction::Up, AppAction::Up);
    assert_ne!(AppAction::Up, AppAction::Down);
    assert_ne!(AppAction::Select, AppAction::Quit);
}

#[test]
fn freshness_boundaries() {
    let meta = CacheMetadata {
        fetched_at: 1_000_000,
        etag: None,
        last_modified: None,
        owner: "o".to_string(),
        repo: "r".to_string(),
        branch: "main".to_string(),
    };
    // Fetched right now: fresh.
    assert!(meta.is_fresh(1_000_000));
    // One second before expiry: fresh.
    assert!(meta.is_fresh(1_000_000 + 24 * 3600 - 1));
    // At expiry and beyond (25 hours): stale.
    assert!(!meta.is_fresh(1_000_000 + 24 * 3600));
    assert!(!meta.is_fresh(1_000_000 + 25 * 3600));

    let cache = FileSystemCache::new("root".to_string());
    assert!(!cache.is_cache_fresh(None, 0));
}

#[test]
fn icon_and_color() {
    let file = cursor_rules::tree::RepoNode {
        name: "file.mdc".into(),
        path: "file.mdc".into(),
        kind: cursor_rules::tree::NodeKind::RuleFile,
        children: None,
        manifest_count: None,
    };
    let dir = cursor_rules::tree::RepoNode {
        name: ".hidden".into(),
        path: ".hidden".into(),
        kind: cursor_rules::tree::NodeKind::Dir,
        children: None,
        manifest_count: None,
    };
    assert_eq!(cursor_rules::ui::icon_for(&file), '📄');
    assert_eq!(cursor_rules::ui::icon_for(&dir), '📁');
    assert_eq!(cursor_rules::ui::fg_color(&dir), Palette::HIDDEN);
}

#[test]
fn repo_discovery_error_messages() {
    let e = cursor_rules::locator::RepoDiscoveryError::RepoNotFound {
        owner: "alice".to_string(),
        repo: "rules".to_string(),
    };
    assert_eq!(e.message(), "repository 'alice/rules' not found or is private");

    let n = cursor_rules::locator::RepoDiscoveryError::NetworkError("timed out".to_string());
    assert_eq!(n.message(), "network error: timed out");

    assert!(cursor_rules::locator::RepoDiscoveryError::OwnerNotFound
        .message()
        .contains("GitHub owner"));
    assert!(cursor_rules::locator::RepoDiscoveryError::OwnerPromptCancelled
        .message()
        .contains("cancelled"));
}
