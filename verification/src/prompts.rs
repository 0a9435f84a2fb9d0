//! Conflict-resolution prompting.
//!
//! A `PromptService` decides what to do with a file conflict. The
//! interactive implementation asks on the terminal; the non-interactive one
//! answers with a fixed choice. The trait exists so that callers can
//! inject a scripted implementation.

use vstd::prelude::*;
use is_terminal::IsTerminal;

verus! {

/// The user's choice for handling a file conflict.
#[derive(Debug, Clone, Copy, PartialEq, Eq, Structural)]
pub enum ConflictChoice {
    /// Overwrite the existing file.
    Overwrite,
    /// Skip this file.
    Skip,
    /// Rename the new file to avoid the conflict.
    Rename,
    /// Apply overwrite to all remaining conflicts.
    OverwriteAll,
    /// Skip all remaining conflicts.
    SkipAll,
    /// Rename all remaining conflicts.
    RenameAll,
    /// Cancel the entire operation.
    Cancel,
}

/// How conflicts are resolved during execution. Implementations may ask a
/// user, so nothing is promised about the returned choice.
pub trait PromptService {
    /// Ask how to handle a conflict on `filename` (copied from
    /// `source_path` to `dest_path`).
    fn prompt_conflict(&self, filename: &str, source_path: &str, dest_path: &str) -> Result<
        ConflictChoice,
        String,
    >;

    /// Whether prompting is available (e.g. the terminal is interactive).
    fn can_prompt(&self) -> bool;
}

/// The choice denoted by a selection index in the interactive menu, whose
/// options are: overwrite, skip, rename, overwrite all, skip all, rename
/// all, cancel.
pub open spec fn choice_of_index(i: int) -> ConflictChoice {
    if i == 0 {
        ConflictChoice::Overwrite
    } else if i == 1 {
        ConflictChoice::Skip
    } else if i == 2 {
        ConflictChoice::Rename
    } else if i == 3 {
        ConflictChoice::OverwriteAll
    } else if i == 4 {
        ConflictChoice::SkipAll
    } else if i == 5 {
        ConflictChoice::RenameAll
    } else {
        ConflictChoice::Cancel
    }
}

fn choice_from_index(i: usize) -> (r: ConflictChoice)
    ensures
        r == choice_of_index(i as int),
{
    if i == 0 {
        ConflictChoice::Overwrite
    } else if i == 1 {
        ConflictChoice::Skip
    } else if i == 2 {
        ConflictChoice::Rename
    } else if i == 3 {
        ConflictChoice::OverwriteAll
    } else if i == 4 {
        ConflictChoice::SkipAll
    } else if i == 5 {
        ConflictChoice::RenameAll
    } else {
        ConflictChoice::Cancel
    }
}

/// Relies on inquire's `Select::raw_prompt`: shows the given options and
/// returns the index of the one the user picked, which is an index into
/// the offered list.
#[verifier::external_body]
fn select_index(message: &str, help: &str, options: Vec<String>) -> (r: Result<usize, String>)
    ensures
        r matches Ok(i) ==> i < options@.len(),
{
    match inquire::Select::new(message, options).with_help_message(help).raw_prompt() {
        Ok(opt) => Ok(opt.index),
        Err(e) => Err(e.to_string()),
    }
}

/// Ask which of the seven conflict choices to apply to `filename`.
fn select_conflict_index(filename: &str, source_path: &str) -> (r: Result<usize, String>)
    ensures
        r matches Ok(i) ==> i < 7,
{
    let mut message = String::from_str("File '");
    message.append(filename);
    message.append("' already exists. What would you like to do?");
    let mut help = String::from_str("Source: ");
    help.append(source_path);
    help.append("\nChoose how to handle this conflict:");
    let mut options: Vec<String> = Vec::new();
    options.push(String::from_str("Overwrite"));
    options.push(String::from_str("Skip"));
    options.push(String::from_str("Rename"));
    options.push(String::from_str("Overwrite All"));
    options.push(String::from_str("Skip All"));
    options.push(String::from_str("Rename All"));
    options.push(String::from_str("Cancel"));
    select_index(message.as_str(), help.as_str(), options)
}

/// Relies on the `is-terminal` crate: reports whether standard input is
/// attached to a terminal. The answer depends on the environment, so
/// nothing is promised about it.
#[verifier::external_body]
fn stdin_is_terminal() -> bool {
    std::io::stdin().is_terminal()
}

/// The interactive service's answer, as a function of the terminal probe
/// and the menu selection: without a terminal the conflict is skipped;
/// otherwise the selected index denotes the choice and a failed selection
/// is surfaced unchanged.
pub fn resolve_prompt_outcome(tty: bool, selection: Result<usize, String>) -> (r: Result<
    ConflictChoice,
    String,
>)
    ensures
        !tty ==> (r matches Ok(c) && c == ConflictChoice::Skip),
        tty ==> match selection {
            Ok(i) => r matches Ok(c) && c == choice_of_index(i as int),
            Err(e) => r matches Err(m) && m == e,
        },
{
    if !tty {
        return Ok(ConflictChoice::Skip);
    }
    match selection {
        Ok(i) => Ok(choice_from_index(i)),
        Err(e) => Err(e),
    }
}

/// Interactive prompt service backed by the terminal.
pub struct InteractivePromptService;

impl InteractivePromptService {
    /// Create a new interactive prompt service.
    pub fn new() -> Self {
        InteractivePromptService
    }
}

impl Default for InteractivePromptService {
    fn default() -> (r: Self)
        ensures
            r == InteractivePromptService,
    {
        InteractivePromptService::new()
    }
}

impl PromptService for InteractivePromptService {
    fn prompt_conflict(&self, filename: &str, source_path: &str, _dest_path: &str) -> Result<
        ConflictChoice,
        String,
    > {
        let tty = stdin_is_terminal();
        let selection: Result<usize, String> = if tty {
            select_conflict_index(filename, source_path)
        } else {
            Ok(0)
        };
        resolve_prompt_outcome(tty, selection)
    }

    fn can_prompt(&self) -> bool {
        stdin_is_terminal()
    }
}

/// Prompt service that always answers with a fixed choice.
pub struct NonInteractivePromptService {
    /// The fixed answer.
    pub default_choice: ConflictChoice,
}

impl NonInteractivePromptService {
    /// A service answering with the given choice.
    pub fn new(default_choice: ConflictChoice) -> (r: Self)
        ensures
            r.default_choice == default_choice,
    {
        NonInteractivePromptService { default_choice }
    }

    /// A service that skips every conflict.
    pub fn skip_all() -> (r: Self)
        ensures
            r.default_choice == ConflictChoice::SkipAll,
    {
        NonInteractivePromptService::new(ConflictChoice::SkipAll)
    }

    /// A service that overwrites on every conflict.
    pub fn overwrite_all() -> (r: Self)
        ensures
            r.default_choice == ConflictChoice::OverwriteAll,
    {
        NonInteractivePromptService::new(ConflictChoice::OverwriteAll)
    }

    /// A service that renames on every conflict.
    pub fn rename_all() -> (r: Self)
        ensures
            r.default_choice == ConflictChoice::RenameAll,
    {
        NonInteractivePromptService::new(ConflictChoice::RenameAll)
    }
}

impl PromptService for NonInteractivePromptService {
    /// Always answers with the stored default choice, without any prompt.
    fn prompt_conflict(&self, _filename: &str, _source_path: &str, _dest_path: &str) -> (r:
        Result<ConflictChoice, String>)
        ensures
            r matches Ok(c) && c == self.default_choice,
    {
        Ok(self.default_choice)
    }

    fn can_prompt(&self) -> (r: bool)
        ensures
            !r,
    {
        false
    }
}

} // verus!
