use cursor_rules::planner::{
    create_copy_plan, render_copy_plan_table, CopyAction, CopyConfig, CopyPlan, OverwriteMode,
};

fn cfg(dir: &str, mode: OverwriteMode) -> CopyConfig {
    CopyConfig {
        output_dir: dir.to_string(),
        overwrite_mode: mode,
        max_concurrency: 4,
    }
}

#[test]
fn test_copy_plan_creation_success() {
    let config = cfg("out", OverwriteMode::Prompt);
    let entries = vec![
        "frontend/react.mdc".to_string(),
        "backend/rust.mdc".to_string(),
    ];
    let existing: Vec<String> = vec![];
    let plans = create_copy_plan(&entries, &config, &existing, 0).unwrap();

    assert_eq!(plans.len(), 2);
    assert_eq!(plans[0].source_path, "frontend/react.mdc");
    assert_eq!(plans[0].destination_path, "out/react.mdc");
    assert!(!plans[0].would_overwrite);
    assert_eq!(plans[0].action, CopyAction::Copy);
}

#[test]
fn test_copy_plan_creation_empty_entries() {
    let config = cfg("out", OverwriteMode::Prompt);
    let entries: Vec<String> = vec![];
    let existing: Vec<String> = vec![];
    let plans = create_copy_plan(&entries, &config, &existing, 0).unwrap();

    assert!(plans.is_empty());
}

#[test]
fn test_copy_plan_creation_nested_paths() {
    let config = cfg("out", OverwriteMode::Prompt);
    let entries = vec![
        "very/deep/nested/path/file.mdc".to_string(),
        "single.mdc".to_string(),
    ];
    let existing: Vec<String> = vec![];
    let plans = create_copy_plan(&entries, &config, &existing, 0).unwrap();

    assert_eq!(plans.len(), 2);
    assert_eq!(plans[0].destination_path, "out/file.mdc");
    assert_eq!(plans[1].destination_path, "out/single.mdc");
    assert_eq!(plans[0].action, CopyAction::Copy);
    assert_eq!(plans[1].action, CopyAction::Copy);
}

#[test]
fn test_copy_plan_handles_conflicts() {
    let config = cfg("out", OverwriteMode::Prompt);
    let entries = vec!["frontend/react.mdc".to_string()];
    let existing = vec!["react.mdc".to_string()];
    let plans = create_copy_plan(&entries, &config, &existing, 0).unwrap();

    assert_eq!(plans.len(), 1);
    assert!(plans[0].would_overwrite);
    assert_eq!(plans[0].action, CopyAction::Overwrite);
}

#[test]
fn test_copy_plan_multiple_conflicts() {
    let config = cfg("out", OverwriteMode::Prompt);
    let entries = vec![
        "frontend/react.mdc".to_string(),
        "frontend/vue.mdc".to_string(),
        "backend/rust.mdc".to_string(),
    ];
    let existing = vec!["react.mdc".to_string(), "vue.mdc".to_string()];
    let plans = create_copy_plan(&entries, &config, &existing, 0).unwrap();

    assert_eq!(plans.len(), 3);
    assert!(plans[0].would_overwrite);
    assert!(plans[1].would_overwrite);
    assert!(!plans[2].would_overwrite);
    assert_eq!(plans[0].action, CopyAction::Overwrite);
    assert_eq!(plans[1].action, CopyAction::Overwrite);
    assert_eq!(plans[2].action, CopyAction::Copy);
}

#[test]
fn test_dry_run_table_rendering() {
    let plans = vec![
        CopyPlan {
            source_path: "frontend/react.mdc".to_string(),
            destination_path: "out/react.mdc".to_string(),
            would_overwrite: false,
            action: CopyAction::Copy,
        },
        CopyPlan {
            source_path: "backend/rust.mdc".to_string(),
            destination_path: "out/rust.mdc".to_string(),
            would_overwrite: true,
            action: CopyAction::Overwrite,
        },
    ];

    let table = render_copy_plan_table(&plans);

    assert!(table.contains("Source"));
    assert!(table.contains("Destination"));
    assert!(table.contains("Overwrite?"));
    assert!(table.contains("Action"));
    assert!(table.contains("frontend/react.mdc"));
    assert!(table.contains("backend/rust.mdc"));
    assert!(table.contains("Total files: 2"));
    assert!(table.contains("Yes"));
    assert!(table.contains("No"));
    assert!(table.contains("Copy"));
    assert!(table.contains("Overwrite"));
}

#[test]
fn test_dry_run_table_rendering_empty() {
    let plans: Vec<CopyPlan> = vec![];
    let table = render_copy_plan_table(&plans);

    assert_eq!(table, "No files to copy.");
}

#[test]
fn test_dry_run_table_rendering_long_paths() {
    let long_path = "very/very/very/very/very/very/long/path/to/a/file.mdc";
    let plans = vec![CopyPlan {
        source_path: long_path.to_string(),
        destination_path: "out/file.mdc".to_string(),
        would_overwrite: false,
        action: CopyAction::Copy,
    }];

    let table = render_copy_plan_table(&plans);

    assert!(table.contains("..."));
    assert!(table.contains("file.mdc"));
    assert!(table.contains("Copy"));
}

#[test]
fn test_copy_operation_error_handling() {
    let copy_config = cfg("/invalid/path/that/does/not/exist", OverwriteMode::Prompt);
    let entries = vec!["valid/file.mdc".to_string()];
    let existing: Vec<String> = vec![];
    let result = create_copy_plan(&entries, &copy_config, &existing, 0);

    assert!(result.is_ok());
    let plan = result.unwrap();
    assert_eq!(plan.len(), 1);
}

#[test]
fn test_force_overwrite_behavior() {
    let existing = vec!["test.mdc".to_string()];
    let entries = vec!["test.mdc".to_string()];

    let plan_prompt =
        create_copy_plan(&entries, &cfg("out", OverwriteMode::Prompt), &existing, 0).unwrap();
    let plan_force =
        create_copy_plan(&entries, &cfg("out", OverwriteMode::Force), &existing, 0).unwrap();

    assert_eq!(plan_prompt.len(), 1);
    assert_eq!(plan_force.len(), 1);
    assert!(plan_prompt[0].would_overwrite);
    assert!(plan_force[0].would_overwrite);
    assert_eq!(plan_prompt[0].action, CopyAction::Overwrite);
    assert_eq!(plan_force[0].action, CopyAction::Overwrite);
}

#[test]
fn test_copy_config_default() {
    let config = CopyConfig::default();

    assert_eq!(config.output_dir, "./.cursor/rules");
    assert_eq!(config.overwrite_mode, OverwriteMode::Prompt);
    assert_eq!(config.max_concurrency, 4);
}

#[test]
fn test_copy_config_custom() {
    let custom_dir = "/custom/path".to_string();
    let config = CopyConfig {
        output_dir: custom_dir.clone(),
        overwrite_mode: OverwriteMode::Force,
        max_concurrency: 8,
    };

    assert_eq!(config.output_dir, custom_dir);
    assert_eq!(config.overwrite_mode, OverwriteMode::Force);
    assert_eq!(config.max_concurrency, 8);
}

#[test]
fn test_copy_plan_debug() {
    let plan = CopyPlan {
        source_path: "test.mdc".to_string(),
        destination_path: "out/test.mdc".to_string(),
        would_overwrite: false,
        action: CopyAction::Copy,
    };

    let debug_str = format!("{plan:?}");
    assert!(debug_str.contains("test.mdc"));
    assert!(debug_str.contains("would_overwrite: false"));
}

#[test]
fn test_overwrite_mode_default() {
    let mode = OverwriteMode::default();
    assert_eq!(mode, OverwriteMode::Prompt);
}

#[test]
fn test_copy_config_builder_methods() {
    let config = CopyConfig::default().with_force_overwrite();
    assert_eq!(config.overwrite_mode, OverwriteMode::Force);

    let config = CopyConfig::default().with_skip_overwrite();
    assert_eq!(config.overwrite_mode, OverwriteMode::Skip);

    let config = CopyConfig::default().with_rename_overwrite();
    assert_eq!(config.overwrite_mode, OverwriteMode::Rename);
}

#[test]
fn test_copy_action_display() {
    assert_eq!(CopyAction::Copy.display(), "Copy");
    assert_eq!(CopyAction::Overwrite.display(), "Overwrite");
    assert_eq!(CopyAction::Skip.display(), "Skip");
    assert_eq!(
        CopyAction::Rename("test(1).mdc".to_string()).display(),
        "Rename → test(1).mdc"
    );
}

#[test]
fn test_rename_strategy() {
    let existing = vec!["test.mdc".to_string(), "test(1).mdc".to_string()];
    let entries = vec!["frontend/test.mdc".to_string()];
    let plans =
        create_copy_plan(&entries, &cfg("out", OverwriteMode::Rename), &existing, 0).unwrap();

    assert_eq!(plans.len(), 1);
    assert!(plans[0].would_overwrite);

    if let CopyAction::Rename(name) = &plans[0].action {
        assert_eq!(name, "test(2).mdc");
        assert_eq!(plans[0].destination_path, "out/test(2).mdc");
    } else {
        panic!("Expected Rename action, got {:?}", plans[0].action);
    }
}

#[test]
fn test_path_traversal_protection() {
    let config = cfg("out", OverwriteMode::Prompt);
    let existing: Vec<String> = vec![];

    let malicious_entries = vec![
        "../../../etc/passwd".to_string(),
        "..\\..\\windows\\system32\\config\\sam".to_string(),
    ];

    for entry in malicious_entries {
        let result = create_copy_plan(&[entry.clone()].to_vec(), &config, &existing, 0);

        assert!(
            result.is_err(),
            "Path traversal should be blocked for: {entry}"
        );

        let error_msg = result.unwrap_err().message().to_lowercase();
        assert!(
            error_msg.contains("path traversal")
                || error_msg.contains("invalid")
                || error_msg.contains("outside"),
            "Error should mention path traversal for: {entry} (got: {error_msg})"
        );
    }
}

#[test]
fn test_windows_reserved_names() {
    let config = cfg("out", OverwriteMode::Prompt);
    let existing: Vec<String> = vec![];

    let reserved_names = vec![
        "CON.mdc".to_string(),
        "PRN.mdc".to_string(),
        "AUX.mdc".to_string(),
        "NUL.mdc".to_string(),
        "COM1.mdc".to_string(),
        "LPT1.mdc".to_string(),
    ];

    for name in reserved_names {
        let result = create_copy_plan(&[name.clone()].to_vec(), &config, &existing, 0);

        assert!(
            result.is_err(),
            "Windows reserved name should be blocked: {name}"
        );

        let error_msg = result.unwrap_err().message().to_lowercase();
        assert!(
            error_msg.contains("reserved")
                || error_msg.contains("windows")
                || error_msg.contains("invalid destination"),
            "Error should mention reserved name for: {name} (got: {error_msg})"
        );
    }
}

#[test]
fn test_null_byte_protection() {
    let config = cfg("out", OverwriteMode::Prompt);
    let existing: Vec<String> = vec![];

    let malicious_name = "test\0.mdc".to_string();
    let result = create_copy_plan(&[malicious_name].to_vec(), &config, &existing, 0);

    assert!(result.is_err(), "Null byte should be blocked");

    let error_msg = result.unwrap_err().message().to_lowercase();
    assert!(
        error_msg.contains("null") || error_msg.contains("invalid destination"),
        "Error should mention null byte (got: {error_msg})"
    );
}

#[test]
fn test_safe_paths_allowed() {
    let config = cfg("out", OverwriteMode::Prompt);
    let existing: Vec<String> = vec![];

    let safe_entries = vec![
        "frontend/react.mdc".to_string(),
        "backend/rust.mdc".to_string(),
        "deeply/nested/path/file.mdc".to_string(),
        "file-with-dashes.mdc".to_string(),
        "file_with_underscores.mdc".to_string(),
        "file123.mdc".to_string(),
    ];

    for entry in safe_entries {
        let result = create_copy_plan(&[entry.clone()].to_vec(), &config, &existing, 0);
        assert!(result.is_ok(), "Safe path should be allowed: {entry}");

        let plans = result.unwrap();
        assert_eq!(plans.len(), 1);
    }
}

#[test]
fn test_copy_config_builder_methods_comprehensive() {
    let base_config = CopyConfig::default();

    let force_config = base_config.clone().with_force_overwrite();
    assert_eq!(force_config.overwrite_mode, OverwriteMode::Force);

    let skip_config = base_config.clone().with_skip_overwrite();
    assert_eq!(skip_config.overwrite_mode, OverwriteMode::Skip);

    let rename_config = base_config.with_rename_overwrite();
    assert_eq!(rename_config.overwrite_mode, OverwriteMode::Rename);
}

#[test]
fn test_dry_run_table_with_rename_actions() {
    let existing = vec!["react.mdc".to_string(), "rust.mdc".to_string()];
    let entries = vec![
        "frontend/react.mdc".to_string(),
        "backend/rust.mdc".to_string(),
    ];

    let plans =
        create_copy_plan(&entries, &cfg("out", OverwriteMode::Rename), &existing, 0).unwrap();
    let table = render_copy_plan_table(&plans);

    assert!(table.contains("→"));
    assert!(table.contains("Rename"));
    assert!(table.contains("react(1).mdc"));
    assert!(table.contains("rust(1).mdc"));
}

#[test]
fn test_overwrite_mode_variants() {
    let modes = [
        OverwriteMode::Prompt,
        OverwriteMode::Force,
        OverwriteMode::Skip,
        OverwriteMode::Rename,
        OverwriteMode::PromptOnce,
    ];

    for mode in &modes {
        assert_eq!(*mode, *mode);
    }

    assert_ne!(OverwriteMode::Prompt, OverwriteMode::Force);
    assert_ne!(OverwriteMode::Force, OverwriteMode::Skip);
    assert_ne!(OverwriteMode::Skip, OverwriteMode::Rename);
    assert_ne!(OverwriteMode::Rename, OverwriteMode::PromptOnce);
}

#[test]
fn plan_creation_is_idempotent() {
    let existing = vec!["a.mdc".to_string(), "b.mdc".to_string()];
    let entries = vec![
        "x/a.mdc".to_string(),
        "y/b.mdc".to_string(),
        "z/c.mdc".to_string(),
    ];
    let config = cfg("out", OverwriteMode::Rename);

    let p1 = create_copy_plan(&entries, &config, &existing, 7).unwrap();
    let p2 = create_copy_plan(&entries, &config, &existing, 7).unwrap();

    assert_eq!(p1.len(), p2.len());
    for (a, b) in p1.iter().zip(p2.iter()) {
        assert_eq!(a.source_path, b.source_path);
        assert_eq!(a.destination_path, b.destination_path);
        assert_eq!(a.would_overwrite, b.would_overwrite);
        assert_eq!(a.action, b.action);
    }
}

#[test]
fn conflict_matrix_for_existing_file() {
    let existing = vec!["foo.mdc".to_string()];
    let entries = vec!["src/foo.mdc".to_string()];

    let force = create_copy_plan(&entries, &cfg("out", OverwriteMode::Force), &existing, 0)
        .unwrap();
    assert_eq!(force[0].action, CopyAction::Overwrite);

    let skip = create_copy_plan(&entries, &cfg("out", OverwriteMode::Skip), &existing, 0)
        .unwrap();
    assert_eq!(skip[0].action, CopyAction::Skip);

    let rename = create_copy_plan(&entries, &cfg("out", OverwriteMode::Rename), &existing, 0)
        .unwrap();
    assert_eq!(rename[0].action, CopyAction::Rename("foo(1).mdc".to_string()));

    let once = create_copy_plan(&entries, &cfg("out", OverwriteMode::PromptOnce), &existing, 0)
        .unwrap();
    assert_eq!(once[0].action, CopyAction::Overwrite);
}

#[test]
fn entries_without_usable_filename_are_rejected() {
    let config = cfg("out", OverwriteMode::Prompt);
    let existing: Vec<String> = vec![];

    let result = create_copy_plan(&vec!["".to_string()], &config, &existing, 0);
    assert!(result.is_err());
    assert!(result
        .unwrap_err()
        .message()
        .contains("invalid file path in manifest"));

    let result2 = create_copy_plan(&vec!["dir/".to_string()], &config, &existing, 0);
    assert!(result2.is_err());
}
