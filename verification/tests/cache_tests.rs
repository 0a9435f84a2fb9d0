use cursor_rules::cache::{
    compute_blob_key, compute_cache_key, evaluate_tree_cache, store_tree_cache_content,
    CacheMetadata, FileSystemCache, TreeCacheOutcome,
};
use cursor_rules::codec::{decode_meta, decode_nodes, emit_meta, emit_nodes};
use cursor_rules::locator::RepoLocator;
use cursor_rules::tree::{NodeKind, RepoNode};

fn locator() -> RepoLocator {
    RepoLocator {
        owner: "test".to_string(),
        repo: "repo".to_string(),
        branch: "main".to_string(),
    }
}

fn node(name: &str, path: &str, kind: NodeKind) -> RepoNode {
    RepoNode {
        name: name.to_string(),
        path: path.to_string(),
        kind,
        children: None,
        manifest_count: None,
    }
}

const HOUR: u64 = 3600;
const NOW: u64 = 1_700_000_000;

#[test]
fn compute_cache_key_sha1() {
    let key = compute_cache_key("owner", "repo");
    assert_eq!(key.len(), 40);
    assert!(key.chars().all(|c| c.is_ascii_hexdigit()));

    let key2 = compute_cache_key("owner", "repo");
    assert_eq!(key, key2);

    let key3 = compute_cache_key("owner", "other");
    assert_ne!(key, key3);
}

#[test]
fn cache_directory_creation() {
    let cache = FileSystemCache::new("root".to_string());
    let repo_dir = cache.get_repo_cache_dir(&locator());
    assert!(repo_dir.contains(&compute_cache_key("test", "repo")));
    assert!(repo_dir.starts_with("root/"));
}

#[test]
fn cache_partition_member_paths() {
    let cache = FileSystemCache::new("root".to_string());
    let l = locator();
    let dir = cache.get_repo_cache_dir(&l);
    assert_eq!(cache.get_metadata_path(&l), format!("{dir}/meta.json"));
    assert_eq!(cache.get_tree_cache_path(&l), format!("{dir}/tree/tree.json"));
    assert_eq!(cache.get_lock_path(&l), format!("{dir}/.lock"));
    assert_eq!(
        cache.blob_path_in(&dir, "abc123"),
        format!("{dir}/blobs/abc123.mdc")
    );
}

#[test]
fn blob_key_is_hex_fingerprint() {
    let key = compute_blob_key("repo", "src/test.mdc");
    assert_eq!(key.len(), 40);
    assert!(key.chars().all(|c| c.is_ascii_hexdigit()));
    assert_eq!(key, compute_blob_key("repo", "src/test.mdc"));
    assert_ne!(key, compute_blob_key("repo", "src/other.mdc"));
}

#[test]
fn cache_expiration_logic() {
    let fresh = CacheMetadata {
        fetched_at: NOW,
        etag: None,
        last_modified: None,
        owner: "test".to_string(),
        repo: "repo".to_string(),
        branch: "main".to_string(),
    };
    assert!(fresh.is_fresh(NOW));
    assert!(fresh.is_fresh(NOW + 23 * HOUR));
    assert!(!fresh.is_fresh(NOW + 24 * HOUR));

    let old = CacheMetadata {
        fetched_at: NOW - 25 * HOUR,
        ..fresh.clone()
    };
    assert!(!old.is_fresh(NOW));

    let cache = FileSystemCache::new("root".to_string());
    assert!(cache.is_cache_fresh(Some(&fresh), NOW));
    assert!(!cache.is_cache_fresh(Some(&old), NOW));
    assert!(!cache.is_cache_fresh(None, NOW));
}

#[test]
fn meta_json_round_trip() {
    let meta = CacheMetadata {
        fetched_at: NOW,
        etag: Some("W/\"test-etag\"".to_string()),
        last_modified: Some("Wed, 21 Oct 2015 07:28:00 GMT".to_string()),
        owner: "test".to_string(),
        repo: "repo".to_string(),
        branch: "main".to_string(),
    };
    let text = emit_meta(&meta);
    let loaded = decode_meta(&text).unwrap();
    assert_eq!(loaded.fetched_at, meta.fetched_at);
    assert_eq!(loaded.etag, meta.etag);
    assert_eq!(loaded.last_modified, meta.last_modified);
    assert_eq!(loaded.owner, meta.owner);
    assert_eq!(loaded.repo, meta.repo);
    assert_eq!(loaded.branch, meta.branch);
}

#[test]
fn nodes_json_round_trip() {
    let nodes = vec![
        node("src", "src", NodeKind::Dir),
        node("Button.mdc", "src/Button.mdc", NodeKind::RuleFile),
        node("manifest.txt", "src/manifest.txt", NodeKind::Manifest),
    ];
    let text = emit_nodes(&nodes);
    let loaded = decode_nodes(&text).unwrap();
    assert_eq!(loaded.len(), 3);
    for (a, b) in nodes.iter().zip(loaded.iter()) {
        assert_eq!(a.name, b.name);
        assert_eq!(a.path, b.path);
        assert_eq!(a.kind, b.kind);
        assert_eq!(a.manifest_count, b.manifest_count);
    }
}

#[test]
fn nodes_json_round_trip_with_special_characters() {
    let nodes = vec![node(
        "we\"ird\\na me\n.mdc",
        "di r/we\"ird\\na me\n.mdc",
        NodeKind::RuleFile,
    )];
    let text = emit_nodes(&nodes);
    let loaded = decode_nodes(&text).unwrap();
    assert_eq!(loaded[0].name, nodes[0].name);
    assert_eq!(loaded[0].path, nodes[0].path);
}

#[test]
fn decode_rejects_arbitrary_content() {
    assert!(decode_nodes("invalid json").is_none());
    assert!(decode_nodes("").is_none());
    assert!(decode_nodes("{\"not\": \"a list\"}").is_none());
    assert!(decode_meta("garbage").is_none());
    assert!(decode_meta("").is_none());
}

#[test]
fn cache_miss_and_storage() {
    let result = evaluate_tree_cache(false, None, NOW, None);
    assert!(matches!(result, TreeCacheOutcome::Miss));

    let nodes = vec![node("test.mdc", "test.mdc", NodeKind::RuleFile)];
    let (tree_text, meta_text) = store_tree_cache_content(
        &locator(),
        &nodes,
        Some("test-etag".to_string()),
        None,
        NOW,
    );

    let meta = decode_meta(&meta_text).unwrap();
    assert_eq!(meta.fetched_at, NOW);
    assert_eq!(meta.etag, Some("test-etag".to_string()));

    let served = evaluate_tree_cache(false, Some(&meta), NOW, Some(&tree_text));
    match served {
        TreeCacheOutcome::Serve(cached) => {
            assert_eq!(cached.len(), 1);
            assert_eq!(cached[0].name, "test.mdc");
        }
        other => panic!(
            "expected a served snapshot, got a different outcome: {}",
            served_kind(&other)
        ),
    }
}

fn served_kind(o: &TreeCacheOutcome) -> &'static str {
    match o {
        TreeCacheOutcome::Serve(_) => "serve",
        TreeCacheOutcome::MissHeal => "miss-heal",
        TreeCacheOutcome::Miss => "miss",
    }
}

#[test]
fn force_refresh_bypasses_cache() {
    let nodes = vec![node("test.mdc", "test.mdc", NodeKind::RuleFile)];
    let (tree_text, meta_text) = store_tree_cache_content(&locator(), &nodes, None, None, NOW);
    let meta = decode_meta(&meta_text).unwrap();

    let normal = evaluate_tree_cache(false, Some(&meta), NOW, Some(&tree_text));
    assert!(matches!(normal, TreeCacheOutcome::Serve(_)));

    let forced = evaluate_tree_cache(true, Some(&meta), NOW, Some(&tree_text));
    assert!(matches!(forced, TreeCacheOutcome::Miss));
}

#[test]
fn stale_metadata_is_a_plain_miss() {
    let nodes = vec![node("test.mdc", "test.mdc", NodeKind::RuleFile)];
    let (tree_text, meta_text) =
        store_tree_cache_content(&locator(), &nodes, None, None, NOW - 25 * HOUR);
    let meta = decode_meta(&meta_text).unwrap();

    let result = evaluate_tree_cache(false, Some(&meta), NOW, Some(&tree_text));
    assert!(matches!(result, TreeCacheOutcome::Miss));
}

#[test]
fn corrupted_cache_auto_recovery() {
    let meta = CacheMetadata {
        fetched_at: NOW,
        etag: None,
        last_modified: None,
        owner: "test".to_string(),
        repo: "repo".to_string(),
        branch: "main".to_string(),
    };

    let result = evaluate_tree_cache(false, Some(&meta), NOW, Some("invalid json"));
    assert!(
        matches!(result, TreeCacheOutcome::MissHeal),
        "corrupted content must heal the partition and miss"
    );
}

#[test]
fn empty_cache_file_recovery() {
    let meta = CacheMetadata {
        fetched_at: NOW,
        etag: None,
        last_modified: None,
        owner: "test".to_string(),
        repo: "repo".to_string(),
        branch: "main".to_string(),
    };

    let result = evaluate_tree_cache(false, Some(&meta), NOW, Some(""));
    assert!(
        matches!(result, TreeCacheOutcome::MissHeal),
        "empty content must heal the partition and miss"
    );
}

#[test]
fn invalid_first_node_is_healed() {
    let nodes = vec![node("", "", NodeKind::RuleFile)];
    let (tree_text, meta_text) = store_tree_cache_content(&locator(), &nodes, None, None, NOW);
    let meta = decode_meta(&meta_text).unwrap();

    let result = evaluate_tree_cache(false, Some(&meta), NOW, Some(&tree_text));
    assert!(matches!(result, TreeCacheOutcome::MissHeal));
}

#[test]
fn metadata_persistence_with_etag() {
    let nodes = vec![node("test.mdc", "test.mdc", NodeKind::RuleFile)];
    let etag = Some("test-etag-123".to_string());
    let last_modified = Some("Wed, 18 Jun 2025 21:00:00 GMT".to_string());

    let (_, meta_text) =
        store_tree_cache_content(&locator(), &nodes, etag.clone(), last_modified.clone(), NOW);

    let metadata = decode_meta(&meta_text).unwrap();
    assert_eq!(metadata.etag, etag);
    assert_eq!(metadata.last_modified, last_modified);
    assert_eq!(metadata.owner, "test");
    assert_eq!(metadata.repo, "repo");
}

#[test]
fn test_node_kind_serialization() {
    let kinds = vec![NodeKind::Dir, NodeKind::RuleFile, NodeKind::Manifest];

    for kind in kinds {
        let serialized = emit_nodes(&vec![node("n", "n", kind)]);
        let deserialized = decode_nodes(&serialized).unwrap();
        assert_eq!(kind, deserialized[0].kind);
    }
}

#[test]
fn test_repo_node_serialization() {
    let n = RepoNode {
        name: "test.mdc".to_string(),
        path: "src/test.mdc".to_string(),
        kind: NodeKind::RuleFile,
        children: None,
        manifest_count: Some(3),
    };

    let serialized = emit_nodes(&vec![n]);
    let deserialized = decode_nodes(&serialized).unwrap();

    assert_eq!(deserialized[0].name, "test.mdc");
    assert_eq!(deserialized[0].path, "src/test.mdc");
    assert_eq!(deserialized[0].kind, NodeKind::RuleFile);
    assert!(deserialized[0].children.is_none());
    assert_eq!(deserialized[0].manifest_count, Some(3));
}

#[test]
fn invalid_later_node_is_healed() {
    // Structural validity covers every node, not just the first.
    let nodes = vec![
        node("good.mdc", "good.mdc", NodeKind::RuleFile),
        node("", "", NodeKind::RuleFile),
    ];
    let (tree_text, meta_text) = store_tree_cache_content(&locator(), &nodes, None, None, NOW);
    let meta = decode_meta(&meta_text).unwrap();

    let result = evaluate_tree_cache(false, Some(&meta), NOW, Some(&tree_text));
    assert!(matches!(result, TreeCacheOutcome::MissHeal));
}
