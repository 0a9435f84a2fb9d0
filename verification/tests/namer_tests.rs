use cursor_rules::namer::generate_unique_filename;

#[test]
fn test_generate_unique_filename() {
    let existing = vec!["test.mdc".to_string()];
    let unique = generate_unique_filename("test.mdc", &existing, 0);
    assert_eq!(unique, "test(1).mdc");

    let existing2 = vec!["test.mdc".to_string(), "test(1).mdc".to_string()];
    let unique2 = generate_unique_filename("test.mdc", &existing2, 0);
    assert_eq!(unique2, "test(2).mdc");
}

#[test]
fn test_generate_unique_filename_no_extension() {
    let existing = vec!["test".to_string()];
    let unique = generate_unique_filename("test", &existing, 0);
    assert_eq!(unique, "test(1)");
}

#[test]
fn unique_filename_preserves_multi_dot_extension() {
    let existing = vec!["archive.tar.gz".to_string()];
    let unique = generate_unique_filename("archive.tar.gz", &existing, 0);
    assert_eq!(unique, "archive.tar(1).gz");
}

#[test]
fn unique_filename_skips_to_first_free_slot() {
    let existing = vec![
        "a.mdc".to_string(),
        "a(1).mdc".to_string(),
        "a(2).mdc".to_string(),
        "a(4).mdc".to_string(),
    ];
    let unique = generate_unique_filename("a.mdc", &existing, 0);
    assert_eq!(unique, "a(3).mdc");
}

#[test]
fn unique_filename_falls_back_to_tag_after_budget() {
    let mut existing = vec!["f.mdc".to_string()];
    for i in 1..=1000 {
        existing.push(format!("f({i}).mdc"));
    }
    let unique = generate_unique_filename("f.mdc", &existing, 1234567890);
    assert_eq!(unique, "f-1234567890.mdc");
}
