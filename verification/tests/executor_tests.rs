use cursor_rules::executor::{
    commit_staged, decode_github_content, perform_copy, stage_write, summarize,
    write_file_atomic, BatchConflictState, ConcurrencyGate, CopyResult, CopyStats,
};
use cursor_rules::planner::{CopyAction, CopyPlan};
use cursor_rules::prompts::ConflictChoice;

fn read_file(path: &str) -> Vec<u8> {
    let rt = tokio::runtime::Builder::new_current_thread()
        .enable_all()
        .build()
        .unwrap();
    rt.block_on(async { tokio::fs::read(path).await.unwrap() })
}

fn list_dir(path: &str) -> Vec<String> {
    let rt = tokio::runtime::Builder::new_current_thread()
        .enable_all()
        .build()
        .unwrap();
    rt.block_on(async {
        let mut names = Vec::new();
        let mut rd = tokio::fs::read_dir(path).await.unwrap();
        while let Some(entry) = rd.next_entry().await.unwrap() {
            names.push(entry.file_name().into_string().unwrap());
        }
        names.sort();
        names
    })
}

#[test]
fn test_copy_stats_default() {
    let stats = CopyStats::default();

    assert_eq!(stats.files_copied, 0);
    assert_eq!(stats.files_skipped, 0);
    assert_eq!(stats.files_failed, 0);
    assert_eq!(stats.files_renamed, 0);
}

#[test]
fn test_copy_stats_fields() {
    let mut stats = CopyStats::default();
    assert_eq!(stats.files_copied, 0);
    assert_eq!(stats.files_skipped, 0);
    assert_eq!(stats.files_failed, 0);
    assert_eq!(stats.files_renamed, 0);

    stats.files_copied = 5;
    stats.files_skipped = 2;
    stats.files_failed = 1;
    stats.files_renamed = 3;

    assert_eq!(stats.files_copied, 5);
    assert_eq!(stats.files_skipped, 2);
    assert_eq!(stats.files_failed, 1);
    assert_eq!(stats.files_renamed, 3);
}

#[test]
fn test_copy_result_variants() {
    let copied = CopyResult::Copied;
    let skipped = CopyResult::Skipped;
    let renamed = CopyResult::Renamed("test(1).mdc".to_string());

    assert_eq!(copied, CopyResult::Copied);
    assert_eq!(skipped, CopyResult::Skipped);
    assert_eq!(renamed, CopyResult::Renamed("test(1).mdc".to_string()));

    assert_ne!(copied, skipped);
    assert_ne!(skipped, renamed);
    assert_ne!(copied, renamed);
}

#[test]
fn test_batch_conflict_state() {
    let mut state = BatchConflictState::new();

    assert_eq!(state.get_global_choice(), None);

    state.set_global_choice(ConflictChoice::OverwriteAll);
    assert_eq!(
        state.get_global_choice(),
        Some(ConflictChoice::OverwriteAll)
    );

    state.set_global_choice(ConflictChoice::SkipAll);
    assert_eq!(state.get_global_choice(), Some(ConflictChoice::SkipAll));
}

#[test]
fn summarize_counts_each_outcome() {
    let outcomes: Vec<Result<CopyResult, String>> = vec![
        Ok(CopyResult::Copied),
        Ok(CopyResult::Skipped),
        Ok(CopyResult::Renamed("a(1).mdc".to_string())),
        Err("network failure".to_string()),
        Ok(CopyResult::Copied),
    ];
    let stats = summarize(&outcomes);
    assert_eq!(stats.files_copied, 3);
    assert_eq!(stats.files_skipped, 1);
    assert_eq!(stats.files_failed, 1);
    assert_eq!(stats.files_renamed, 1);
}

#[test]
fn concurrency_gate_never_exceeds_width() {
    let mut gate = ConcurrencyGate::new(4);
    let mut held: usize = 0;

    for _ in 0..10 {
        if gate.try_acquire() {
            held += 1;
        }
        assert!(gate.in_flight <= gate.width);
    }
    assert_eq!(held, 4);
    assert!(!gate.try_acquire());

    gate.release();
    assert!(gate.try_acquire());
    assert_eq!(gate.in_flight, 4);
}

#[test]
fn copy_single_file_skip_on_conflict() {
    let dir = tempfile::TempDir::new().unwrap();
    let dir_path = dir.path().to_str().unwrap().to_string();
    let dest = format!("{dir_path}/test.mdc");
    write_file_atomic(&dest, &b"existing content".to_vec()).unwrap();

    let plan = CopyPlan {
        source_path: "test.mdc".to_string(),
        destination_path: dest.clone(),
        would_overwrite: true,
        action: CopyAction::Skip,
    };

    let result = perform_copy(&plan, &b"new content".to_vec()).unwrap();
    assert_eq!(result, CopyResult::Skipped);

    assert_eq!(read_file(&dest), b"existing content".to_vec());
}

#[test]
fn perform_copy_writes_and_renames() {
    let dir = tempfile::TempDir::new().unwrap();
    let dir_path = dir.path().to_str().unwrap().to_string();

    let plan = CopyPlan {
        source_path: "a.mdc".to_string(),
        destination_path: format!("{dir_path}/a.mdc"),
        would_overwrite: false,
        action: CopyAction::Copy,
    };
    assert_eq!(
        perform_copy(&plan, &b"alpha".to_vec()).unwrap(),
        CopyResult::Copied
    );
    assert_eq!(read_file(&plan.destination_path), b"alpha".to_vec());

    let rename_plan = CopyPlan {
        source_path: "a.mdc".to_string(),
        destination_path: format!("{dir_path}/a(1).mdc"),
        would_overwrite: true,
        action: CopyAction::Rename("a(1).mdc".to_string()),
    };
    assert_eq!(
        perform_copy(&rename_plan, &b"beta".to_vec()).unwrap(),
        CopyResult::Renamed("a(1).mdc".to_string())
    );
    assert_eq!(read_file(&rename_plan.destination_path), b"beta".to_vec());
}

#[test]
fn atomic_write_overwrites_in_place() {
    let dir = tempfile::TempDir::new().unwrap();
    let dir_path = dir.path().to_str().unwrap().to_string();
    let dest = format!("{dir_path}/target.mdc");

    write_file_atomic(&dest, &b"first".to_vec()).unwrap();
    write_file_atomic(&dest, &b"second".to_vec()).unwrap();

    assert_eq!(read_file(&dest), b"second".to_vec());
    assert_eq!(list_dir(&dir_path), vec!["target.mdc".to_string()]);
}

#[test]
fn interrupted_stage_leaves_destination_untouched() {
    let dir = tempfile::TempDir::new().unwrap();
    let dir_path = dir.path().to_str().unwrap().to_string();
    let dest = format!("{dir_path}/target.mdc");
    write_file_atomic(&dest, &b"original".to_vec()).unwrap();

    // Simulated interruption between the temp-file write and the rename:
    // the staged handle is dropped without being committed.
    let staged = stage_write(&dir_path, &b"newdata".to_vec()).unwrap();
    drop(staged);

    assert_eq!(list_dir(&dir_path), vec!["target.mdc".to_string()]);
    assert_eq!(read_file(&dest), b"original".to_vec());
}

#[test]
fn committed_stage_replaces_destination() {
    let dir = tempfile::TempDir::new().unwrap();
    let dir_path = dir.path().to_str().unwrap().to_string();
    let dest = format!("{dir_path}/target.mdc");
    write_file_atomic(&dest, &b"original".to_vec()).unwrap();

    let staged = stage_write(&dir_path, &b"newdata".to_vec()).unwrap();
    commit_staged(staged, &dest).unwrap();

    assert_eq!(list_dir(&dir_path), vec!["target.mdc".to_string()]);
    assert_eq!(read_file(&dest), b"newdata".to_vec());
}

#[test]
fn decode_github_content_strips_wrapping() {
    // "hello world" in base64, wrapped the way the remote delivers it.
    let encoded = "aGVsbG8g\nd29ybGQ=\n";
    let decoded = decode_github_content(encoded).unwrap();
    assert_eq!(decoded, b"hello world".to_vec());

    let spaced = "aGVsbG8g d29ybGQ=";
    assert_eq!(decode_github_content(spaced).unwrap(), b"hello world".to_vec());

    assert!(decode_github_content("!!!not base64!!!").is_err());
}
