use cursor_rules::manifests::{
    find_manifests_in_quickadd, get_basename, get_manifest_format, is_manifest_file,
    parse_txt_manifest, resolve_manifest_id, Manifest, ManifestError, ManifestFormat,
    ManifestRef,
};
use cursor_rules::tree::{NodeKind, RepoNode, RepoTree};

#[test]
fn test_parse_txt_manifest_success() {
    let content = "frontend/react.mdc\n# Comment line\n\nbackend/rust.mdc";
    let result = parse_txt_manifest(content).unwrap();
    assert_eq!(result, vec!["frontend/react.mdc", "backend/rust.mdc"]);
}

#[test]
fn test_parse_txt_manifest_ignores_blank_lines() {
    let content = "frontend/react.mdc\n\n\n\nbackend/rust.mdc";
    let result = parse_txt_manifest(content).unwrap();
    assert_eq!(result, vec!["frontend/react.mdc", "backend/rust.mdc"]);
}

#[test]
fn test_parse_txt_manifest_ignores_comments() {
    let content = "frontend/react.mdc\n# This is a comment\n#Another comment\nbackend/rust.mdc";
    let result = parse_txt_manifest(content).unwrap();
    assert_eq!(result, vec!["frontend/react.mdc", "backend/rust.mdc"]);
}

#[test]
fn test_parse_txt_manifest_empty_content() {
    let content = "\n\n# Only comments\n# More comments\n\n";
    let result = parse_txt_manifest(content).unwrap();
    assert!(result.is_empty());
}

#[test]
fn test_parse_txt_manifest_with_whitespace() {
    let content = "  frontend/react.mdc  \n\t# Comment\t\n  backend/rust.mdc\t";
    let result = parse_txt_manifest(content).unwrap();
    assert_eq!(result, vec!["frontend/react.mdc", "backend/rust.mdc"]);
}

#[test]
fn test_get_basename() {
    assert_eq!(get_basename("fullstack.txt"), "fullstack");
    assert_eq!(get_basename("config.yaml"), "config");
    assert_eq!(get_basename("noextension"), "noextension");
    assert_eq!(
        get_basename("complex.name.with.dots.json"),
        "complex.name.with.dots"
    );
    assert_eq!(get_basename(""), "");
}

#[test]
fn test_get_manifest_format() {
    assert_eq!(get_manifest_format("test.txt"), Some(ManifestFormat::Txt));
    assert_eq!(get_manifest_format("test.yaml"), Some(ManifestFormat::Yaml));
    assert_eq!(get_manifest_format("test.yml"), Some(ManifestFormat::Yaml));
    assert_eq!(get_manifest_format("test.json"), Some(ManifestFormat::Json));
    assert_eq!(get_manifest_format("test.mdc"), None);
    assert_eq!(get_manifest_format("noextension"), None);
    assert_eq!(get_manifest_format(""), None);
}

#[test]
fn test_manifest_format_from_extension() {
    assert_eq!(
        ManifestFormat::from_extension("txt"),
        Some(ManifestFormat::Txt)
    );
    assert_eq!(
        ManifestFormat::from_extension("TXT"),
        Some(ManifestFormat::Txt)
    );
    assert_eq!(
        ManifestFormat::from_extension("yaml"),
        Some(ManifestFormat::Yaml)
    );
    assert_eq!(
        ManifestFormat::from_extension("YAML"),
        Some(ManifestFormat::Yaml)
    );
    assert_eq!(
        ManifestFormat::from_extension("yml"),
        Some(ManifestFormat::Yaml)
    );
    assert_eq!(
        ManifestFormat::from_extension("YML"),
        Some(ManifestFormat::Yaml)
    );
    assert_eq!(
        ManifestFormat::from_extension("json"),
        Some(ManifestFormat::Json)
    );
    assert_eq!(
        ManifestFormat::from_extension("JSON"),
        Some(ManifestFormat::Json)
    );
    assert_eq!(ManifestFormat::from_extension("mdc"), None);
    assert_eq!(ManifestFormat::from_extension(""), None);
}

#[test]
fn test_manifest_format_priority() {
    assert!(ManifestFormat::Txt.priority() < ManifestFormat::Yaml.priority());
    assert!(ManifestFormat::Yaml.priority() < ManifestFormat::Json.priority());
    assert_eq!(ManifestFormat::Txt.priority(), 1);
    assert_eq!(ManifestFormat::Yaml.priority(), 2);
    assert_eq!(ManifestFormat::Json.priority(), 3);
}

#[test]
fn test_file_priority_resolution_yaml_over_json() {
    assert!(ManifestFormat::Yaml.priority() < ManifestFormat::Json.priority());

    let yaml_priority = ManifestFormat::Yaml.priority();
    let json_priority = ManifestFormat::Json.priority();
    assert!(yaml_priority < json_priority);
}

#[test]
fn test_manifest_error_display() {
    let error1 = ManifestError::InvalidFormat("test".to_string());
    assert_eq!(error1.message(), "Invalid file format: test");

    let error2 = ManifestError::ParseError("parse failed".to_string());
    assert_eq!(error2.message(), "Parse error: parse failed");

    let error3 = ManifestError::ValidationError("validation failed".to_string());
    assert_eq!(error3.message(), "Validation error: validation failed");

    let error4 = ManifestError::FileNotFound("missing.mdc".to_string());
    assert_eq!(error4.message(), "File not found: missing.mdc");
}

#[test]
fn test_manifest_error_variants() {
    let invalid_format_err = ManifestError::InvalidFormat("unsupported format".to_string());
    assert!(invalid_format_err.message().contains("Invalid file format"));
    assert!(invalid_format_err.message().contains("unsupported format"));

    let file_not_found_err = ManifestError::FileNotFound("missing/file.mdc".to_string());
    assert!(file_not_found_err.message().contains("File not found"));
    assert!(file_not_found_err.message().contains("missing/file.mdc"));

    let parse_err = ManifestError::ParseError("invalid syntax".to_string());
    assert!(format!("{:?}", parse_err).contains("ParseError"));

    let validation_err = ManifestError::ValidationError("validation issue".to_string());
    assert!(format!("{:?}", validation_err).contains("ValidationError"));
}

#[test]
fn test_manifest_format_edge_cases() {
    let formats = vec![
        ManifestFormat::Txt,
        ManifestFormat::Yaml,
        ManifestFormat::Json,
    ];

    for (i, format1) in formats.iter().enumerate() {
        for (j, format2) in formats.iter().enumerate() {
            if i < j {
                assert!(
                    format1.priority() < format2.priority(),
                    "Priority ordering failed for {:?} vs {:?}",
                    format1,
                    format2
                );
            }
        }
    }
}

#[test]
fn test_get_manifest_format_edge_cases() {
    assert_eq!(
        get_manifest_format("config.backup.yaml"),
        Some(ManifestFormat::Yaml)
    );
    assert_eq!(
        get_manifest_format("data.old.json"),
        Some(ManifestFormat::Json)
    );
    assert_eq!(
        get_manifest_format("rules.legacy.txt"),
        Some(ManifestFormat::Txt)
    );

    assert_eq!(get_manifest_format("filename."), None);

    assert_eq!(get_manifest_format("..."), None);
    assert_eq!(get_manifest_format(".hidden"), None);
}

#[test]
fn test_get_basename_edge_cases() {
    assert_eq!(get_basename("config.backup.yaml"), "config.backup");
    assert_eq!(get_basename("data.old.json"), "data.old");

    assert_eq!(get_basename(".hidden.txt"), ".hidden");
    assert_eq!(get_basename("..double.yaml"), "..double");

    let long_name = "very_long_filename_that_exceeds_normal_length.txt";
    assert_eq!(
        get_basename(long_name),
        "very_long_filename_that_exceeds_normal_length"
    );

    assert_eq!(get_basename(".txt"), "");
}

#[test]
fn test_manifest_format_cloning_and_equality() {
    let format1 = ManifestFormat::Txt;
    let format2 = format1.clone();
    assert_eq!(format1, format2);

    let format3 = ManifestFormat::Yaml;
    let format4 = format3.clone();
    assert_eq!(format3, format4);

    assert_ne!(format1, format3);
}

#[test]
fn test_manifest_creation_and_cloning() {
    let manifest = Manifest {
        name: "Test Manifest".to_string(),
        description: Some("Description".to_string()),
        entries: vec!["entry1.mdc".to_string()],
        errors: vec!["Error 1".to_string()],
        warnings: vec!["Warning 1".to_string()],
    };

    let cloned = manifest.clone();
    assert_eq!(manifest.name, cloned.name);
    assert_eq!(manifest.description, cloned.description);
    assert_eq!(manifest.entries, cloned.entries);
    assert_eq!(manifest.errors, cloned.errors);
    assert_eq!(manifest.warnings, cloned.warnings);

    let debug_str = format!("{:?}", manifest);
    assert!(debug_str.contains("Test Manifest"));
    assert!(debug_str.contains("entry1.mdc"));
}

#[test]
fn test_parse_txt_manifest_extreme_whitespace() {
    let content = "\r\n\t   \n\r\t frontend/react.mdc \t\r\n\n\t\r   backend/rust.mdc\t\t\r\n\r\n";
    let result = parse_txt_manifest(content).unwrap();
    assert_eq!(result, vec!["frontend/react.mdc", "backend/rust.mdc"]);
}

#[test]
fn test_parse_txt_manifest_mixed_comment_styles() {
    let content = "# Comment 1\nfrontend/react.mdc\n#Comment2\n # Comment 3\n   # Comment 4   \nbackend/rust.mdc\n#Final comment";
    let result = parse_txt_manifest(content).unwrap();
    assert_eq!(result, vec!["frontend/react.mdc", "backend/rust.mdc"]);
}

#[test]
fn test_parse_txt_manifest_only_whitespace_and_comments() {
    let content = "\n\t\r\n#comment\n   \t  \n# another comment\n\r\n\t";
    let result = parse_txt_manifest(content).unwrap();
    assert!(result.is_empty());
}

#[test]
fn test_get_manifest_format_no_split_possible() {
    assert_eq!(get_manifest_format("manifest"), None);

    assert_eq!(get_manifest_format(""), None);

    assert_eq!(get_manifest_format("a"), None);
    assert_eq!(get_manifest_format("a.txt"), Some(ManifestFormat::Txt));
}

#[test]
fn test_get_basename_no_dots() {
    assert_eq!(get_basename("manifest"), "manifest");
    assert_eq!(get_basename("MANIFEST"), "MANIFEST");
    assert_eq!(get_basename("123"), "123");
    assert_eq!(
        get_basename("file_with_underscores"),
        "file_with_underscores"
    );
}

#[test]
fn test_manifest_format_debug_and_clone() {
    let txt_format = ManifestFormat::Txt;
    let debug_str = format!("{:?}", txt_format);
    assert!(debug_str.contains("Txt"));

    let yaml_format = ManifestFormat::Yaml;
    let debug_str = format!("{:?}", yaml_format);
    assert!(debug_str.contains("Yaml"));

    let json_format = ManifestFormat::Json;
    let debug_str = format!("{:?}", json_format);
    assert!(debug_str.contains("Json"));

    let format1 = ManifestFormat::Txt;
    let format2 = format1.clone();
    assert_eq!(format1, format2);
}

#[test]
fn is_manifest_file_matches_extensions() {
    assert!(is_manifest_file("a.txt"));
    assert!(is_manifest_file("a.yaml"));
    assert!(is_manifest_file("a.yml"));
    assert!(is_manifest_file("a.json"));
    assert!(!is_manifest_file("a.mdc"));
    assert!(!is_manifest_file("a"));
    assert!(!is_manifest_file("file.txt.backup"));
}

fn quickadd_tree(names: &[&str]) -> RepoTree {
    let mut tree = RepoTree::new();
    let nodes: Vec<RepoNode> = names
        .iter()
        .map(|n| RepoNode {
            name: n.to_string(),
            path: format!("quick-add/{n}"),
            kind: NodeKind::Manifest,
            children: None,
            manifest_count: None,
        })
        .collect();
    tree.populate_from_nodes(&nodes);
    tree
}

#[test]
fn quickadd_discovery_resolves_priority() {
    let tree = quickadd_tree(&["full.json", "full.yaml", "full.txt", "other.json", "notes.md"]);
    let found = find_manifests_in_quickadd(&tree);
    assert_eq!(found.len(), 2);
    assert_eq!(found[0].id, "full");
    assert_eq!(found[0].format, ManifestFormat::Txt);
    assert_eq!(found[0].path, "quick-add/full.txt");
    assert_eq!(found[1].id, "other");
    assert_eq!(found[1].format, ManifestFormat::Json);
}

#[test]
fn resolve_manifest_id_by_name_and_suffix() {
    let available = vec![
        ManifestRef {
            id: "full".to_string(),
            format: ManifestFormat::Txt,
            path: "quick-add/full.txt".to_string(),
        },
        ManifestRef {
            id: "other".to_string(),
            format: ManifestFormat::Json,
            path: "quick-add/other.json".to_string(),
        },
    ];

    let (f, p) = resolve_manifest_id("full", &available).unwrap();
    assert_eq!(f, ManifestFormat::Txt);
    assert_eq!(p, "quick-add/full.txt");

    let (f2, p2) = resolve_manifest_id("other.json", &available).unwrap();
    assert_eq!(f2, ManifestFormat::Json);
    assert_eq!(p2, "quick-add/other.json");

    assert!(resolve_manifest_id("missing", &available).is_none());
}

#[test]
fn validate_entries_against_tree() {
    let mut tree = RepoTree::new();
    let nodes = vec![
        RepoNode {
            name: "react.mdc".to_string(),
            path: "frontend/react.mdc".to_string(),
            kind: NodeKind::RuleFile,
            children: None,
            manifest_count: None,
        },
        RepoNode {
            name: "readme.md".to_string(),
            path: "readme.md".to_string(),
            kind: NodeKind::RuleFile,
            children: None,
            manifest_count: None,
        },
    ];
    tree.populate_from_nodes(&nodes);

    let entries = vec![
        " frontend/react.mdc ".to_string(),
        "".to_string(),
        "readme.md".to_string(),
        "frontend/missing.mdc".to_string(),
    ];
    let (valid, errors, warnings) =
        cursor_rules::manifests::validate_manifest_entries(&entries, &tree);

    assert_eq!(valid, vec!["frontend/react.mdc"]);
    assert_eq!(errors, vec!["File not found in repository: frontend/missing.mdc"]);
    assert_eq!(warnings, vec!["Non-.mdc file ignored: readme.md"]);
}
