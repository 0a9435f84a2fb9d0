use cursor_rules::prompts::{
    ConflictChoice, InteractivePromptService, NonInteractivePromptService, PromptService,
};

/// Mock prompt service for testing.
pub struct MockPromptService {
    responses: Vec<ConflictChoice>,
    call_count: std::sync::RwLock<usize>,
}

impl MockPromptService {
    pub fn new(responses: Vec<ConflictChoice>) -> Self {
        Self {
            responses,
            call_count: std::sync::RwLock::new(0),
        }
    }

    pub fn call_count(&self) -> usize {
        *self.call_count.read().unwrap()
    }
}

impl PromptService for MockPromptService {
    fn prompt_conflict(
        &self,
        _filename: &str,
        _source_path: &str,
        _dest_path: &str,
    ) -> Result<ConflictChoice, String> {
        let mut count = self.call_count.write().unwrap();
        let response = self
            .responses
            .get(*count)
            .copied()
            .unwrap_or(ConflictChoice::Cancel);
        *count += 1;
        Ok(response)
    }

    fn can_prompt(&self) -> bool {
        true
    }
}

#[test]
fn test_conflict_choice_variants() {
    let choices = [
        ConflictChoice::Overwrite,
        ConflictChoice::Skip,
        ConflictChoice::Rename,
        ConflictChoice::OverwriteAll,
        ConflictChoice::SkipAll,
        ConflictChoice::RenameAll,
        ConflictChoice::Cancel,
    ];

    for choice in &choices {
        assert_eq!(*choice, *choice);
    }
}

#[test]
fn test_non_interactive_prompt_service() {
    let service = NonInteractivePromptService::skip_all();
    assert!(!service.can_prompt());

    let choice = service
        .prompt_conflict("test.mdc", "src/test.mdc", "dest/test.mdc")
        .unwrap();
    assert_eq!(choice, ConflictChoice::SkipAll);
}

#[test]
fn test_non_interactive_prompt_service_overwrite() {
    let service = NonInteractivePromptService::overwrite_all();
    let choice = service
        .prompt_conflict("test.mdc", "src/test.mdc", "dest/test.mdc")
        .unwrap();
    assert_eq!(choice, ConflictChoice::OverwriteAll);
}

#[test]
fn test_non_interactive_prompt_service_rename() {
    let service = NonInteractivePromptService::rename_all();
    let choice = service
        .prompt_conflict("test.mdc", "src/test.mdc", "dest/test.mdc")
        .unwrap();
    assert_eq!(choice, ConflictChoice::RenameAll);
}

#[test]
fn test_interactive_prompt_service_creation() {
    let service = InteractivePromptService::new();
    let default_service = InteractivePromptService;

    assert_eq!(service.can_prompt(), default_service.can_prompt());
}

#[test]
fn test_mock_prompt_service() {
    let responses = vec![
        ConflictChoice::Overwrite,
        ConflictChoice::Skip,
        ConflictChoice::RenameAll,
    ];
    let service = MockPromptService::new(responses);

    assert!(service.can_prompt());
    assert_eq!(service.call_count(), 0);

    let choice1 = service
        .prompt_conflict("file1.mdc", "src1", "dest1")
        .unwrap();
    assert_eq!(choice1, ConflictChoice::Overwrite);
    assert_eq!(service.call_count(), 1);

    let choice2 = service
        .prompt_conflict("file2.mdc", "src2", "dest2")
        .unwrap();
    assert_eq!(choice2, ConflictChoice::Skip);
    assert_eq!(service.call_count(), 2);

    let choice3 = service
        .prompt_conflict("file3.mdc", "src3", "dest3")
        .unwrap();
    assert_eq!(choice3, ConflictChoice::RenameAll);
    assert_eq!(service.call_count(), 3);

    let choice4 = service
        .prompt_conflict("file4.mdc", "src4", "dest4")
        .unwrap();
    assert_eq!(choice4, ConflictChoice::Cancel);
    assert_eq!(service.call_count(), 4);
}

#[test]
fn test_conflict_choice_equality() {
    assert_eq!(ConflictChoice::Overwrite, ConflictChoice::Overwrite);
    assert_eq!(ConflictChoice::Skip, ConflictChoice::Skip);
    assert_eq!(ConflictChoice::Rename, ConflictChoice::Rename);
    assert_eq!(ConflictChoice::OverwriteAll, ConflictChoice::OverwriteAll);
    assert_eq!(ConflictChoice::SkipAll, ConflictChoice::SkipAll);
    assert_eq!(ConflictChoice::RenameAll, ConflictChoice::RenameAll);
    assert_eq!(ConflictChoice::Cancel, ConflictChoice::Cancel);

    assert_ne!(ConflictChoice::Overwrite, ConflictChoice::Skip);
    assert_ne!(ConflictChoice::Skip, ConflictChoice::Rename);
    assert_ne!(ConflictChoice::OverwriteAll, ConflictChoice::SkipAll);
}

#[test]
fn test_non_interactive_prompt_service_constructors() {
    let skip_service = NonInteractivePromptService::skip_all();
    let overwrite_service = NonInteractivePromptService::overwrite_all();
    let rename_service = NonInteractivePromptService::rename_all();

    assert_eq!(
        skip_service
            .prompt_conflict("test.mdc", "src", "dest")
            .unwrap(),
        ConflictChoice::SkipAll
    );
    assert_eq!(
        overwrite_service
            .prompt_conflict("test.mdc", "src", "dest")
            .unwrap(),
        ConflictChoice::OverwriteAll
    );
    assert_eq!(
        rename_service
            .prompt_conflict("test.mdc", "src", "dest")
            .unwrap(),
        ConflictChoice::RenameAll
    );

    assert!(!skip_service.can_prompt());
    assert!(!overwrite_service.can_prompt());
    assert!(!rename_service.can_prompt());
}

#[test]
fn test_non_interactive_service_with_custom_choice() {
    let service = NonInteractivePromptService::new(ConflictChoice::Rename);

    assert_eq!(
        service.prompt_conflict("test.mdc", "src", "dest").unwrap(),
        ConflictChoice::Rename
    );
    assert!(!service.can_prompt());
}

#[test]
fn test_mock_prompt_service_empty_responses() {
    let service = MockPromptService::new(vec![]);

    let choice = service.prompt_conflict("test.mdc", "src", "dest").unwrap();
    assert_eq!(choice, ConflictChoice::Cancel);
    assert_eq!(service.call_count(), 1);
}

#[test]
fn test_mock_prompt_service_single_response() {
    let service = MockPromptService::new(vec![ConflictChoice::Overwrite]);

    let choice1 = service
        .prompt_conflict("test1.mdc", "src1", "dest1")
        .unwrap();
    assert_eq!(choice1, ConflictChoice::Overwrite);
    assert_eq!(service.call_count(), 1);

    let choice2 = service
        .prompt_conflict("test2.mdc", "src2", "dest2")
        .unwrap();
    assert_eq!(choice2, ConflictChoice::Cancel);
    assert_eq!(service.call_count(), 2);
}
