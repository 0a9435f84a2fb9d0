//! Execution of a copy plan: per-file decisions, bounded-concurrency
//! admission, atomic writes and outcome aggregation.
//!
//! The network fetch and the task spawning live with the caller; this
//! module decides what each task does (skip, write where, record what) and
//! writes files atomically through a staged temporary file, so that an
//! interruption never leaves a partially written destination.

use vstd::prelude::*;
use base64::Engine;
use crate::planner::{CopyAction, CopyPlan};
use crate::strutil::{chars_to_string, dir_key_chars, str_to_chars};
use crate::prompts::ConflictChoice;

verus! {

/// Result of one copy operation.
#[derive(Debug, Clone, PartialEq, Eq)]
pub enum CopyResult {
    /// The file was copied.
    Copied,
    /// The file was skipped.
    Skipped,
    /// The file was renamed and copied (with the new filename).
    Renamed(String),
}

/// Statistics aggregated over one execution.
#[derive(Debug, Clone, PartialEq, Eq, Structural)]
pub struct CopyStats {
    pub files_copied: usize,
    pub files_skipped: usize,
    pub files_failed: usize,
    pub files_renamed: usize,
}

impl Default for CopyStats {
    /// All counters at zero.
    fn default() -> (r: Self)
        ensures
            r.files_copied == 0,
            r.files_skipped == 0,
            r.files_failed == 0,
            r.files_renamed == 0,
    {
        CopyStats { files_copied: 0, files_skipped: 0, files_failed: 0, files_renamed: 0 }
    }
}

/// A successful copy counts as copied; a rename counts as copied and
/// renamed; a skip as skipped; a failure as failed.
pub open spec fn stats_after(s: CopyStats, outcome: Result<CopyResult, String>) -> CopyStats {
    match outcome {
        Ok(CopyResult::Copied) => CopyStats {
            files_copied: (s.files_copied + 1) as usize,
            ..s
        },
        Ok(CopyResult::Skipped) => CopyStats {
            files_skipped: (s.files_skipped + 1) as usize,
            ..s
        },
        Ok(CopyResult::Renamed(_)) => CopyStats {
            files_copied: (s.files_copied + 1) as usize,
            files_renamed: (s.files_renamed + 1) as usize,
            ..s
        },
        Err(_) => CopyStats { files_failed: (s.files_failed + 1) as usize, ..s },
    }
}

impl CopyStats {
    /// Record one per-file outcome.
    pub fn record(&mut self, outcome: Result<&CopyResult, &String>)
        requires
            old(self).files_copied < usize::MAX,
            old(self).files_skipped < usize::MAX,
            old(self).files_failed < usize::MAX,
            old(self).files_renamed < usize::MAX,
        ensures
            *final(self) == stats_after(
                *old(self),
                match outcome {
                    Ok(r) => Ok(*r),
                    Err(e) => Err(*e),
                },
            ),
    {
        match outcome {
            Ok(r) => match r {
                CopyResult::Copied => {
                    self.files_copied = self.files_copied + 1;
                },
                CopyResult::Skipped => {
                    self.files_skipped = self.files_skipped + 1;
                },
                CopyResult::Renamed(_) => {
                    self.files_copied = self.files_copied + 1;
                    self.files_renamed = self.files_renamed + 1;
                },
            },
            Err(_) => {
                self.files_failed = self.files_failed + 1;
            },
        }
    }
}

/// The aggregate statistics of a list of outcomes.
pub open spec fn summary_of(outcomes: Seq<Result<CopyResult, String>>, i: int) -> CopyStats
    decreases i,
{
    if i <= 0 {
        CopyStats { files_copied: 0, files_skipped: 0, files_failed: 0, files_renamed: 0 }
    } else {
        stats_after(summary_of(outcomes, i - 1), outcomes[i - 1])
    }
}

/// Each counter stays below the number of outcomes seen.
proof fn lemma_summary_bounded(outcomes: Seq<Result<CopyResult, String>>, i: int)
    requires
        0 <= i <= outcomes.len(),
    ensures
        summary_of(outcomes, i).files_copied <= i,
        summary_of(outcomes, i).files_skipped <= i,
        summary_of(outcomes, i).files_failed <= i,
        summary_of(outcomes, i).files_renamed <= i,
    decreases i,
{
    if i > 0 {
        lemma_summary_bounded(outcomes, i - 1);
    }
}

/// Aggregate per-file outcomes into summary statistics.
pub fn summarize(outcomes: &Vec<Result<CopyResult, String>>) -> (r: CopyStats)
    ensures
        r == summary_of(outcomes@, outcomes@.len() as int),
{
    let mut stats = CopyStats::default();
    let mut i: usize = 0;
    while i < outcomes.len()
        invariant
            i <= outcomes@.len(),
            stats == summary_of(outcomes@, i as int),
        decreases outcomes@.len() - i,
    {
        proof {
            lemma_summary_bounded(outcomes@, i as int);
        }
        match &outcomes[i] {
            Ok(r) => stats.record(Ok(r)),
            Err(e) => stats.record(Err(e)),
        }
        i = i + 1;
    }
    stats
}

/// Admission control for the execution tasks: at most `width` operations
/// hold a permit at any moment.
pub struct ConcurrencyGate {
    /// The permit budget.
    pub width: usize,
    /// Permits currently held.
    pub in_flight: usize,
}

impl ConcurrencyGate {
    /// Admission invariant: never more permits out than the budget.
    pub open spec fn wf(&self) -> bool {
        self.in_flight <= self.width && self.width >= 1
    }

    /// A gate with the given budget and no permits out.
    pub fn new(width: usize) -> (r: Self)
        requires
            width >= 1,
        ensures
            r.wf(),
            r.width == width,
            r.in_flight == 0,
    {
        ConcurrencyGate { width, in_flight: 0 }
    }

    /// Try to take a permit; succeeds exactly when one is free.
    pub fn try_acquire(&mut self) -> (r: bool)
        requires
            old(self).wf(),
        ensures
            final(self).wf(),
            final(self).width == old(self).width,
            r == (old(self).in_flight < old(self).width),
            r ==> final(self).in_flight == old(self).in_flight + 1,
            !r ==> final(self).in_flight == old(self).in_flight,
    {
        if self.in_flight < self.width {
            self.in_flight = self.in_flight + 1;
            true
        } else {
            false
        }
    }

    /// Return a permit.
    pub fn release(&mut self)
        requires
            old(self).wf(),
            old(self).in_flight > 0,
        ensures
            final(self).wf(),
            final(self).width == old(self).width,
            final(self).in_flight == old(self).in_flight - 1,
    {
        self.in_flight = self.in_flight - 1;
    }
}

/// The concurrency bound: however a well-formed gate was driven, the
/// number of operations holding a permit never exceeds the configured
/// width.
pub proof fn lemma_concurrency_bound(g: ConcurrencyGate)
    requires
        g.wf(),
    ensures
        g.in_flight <= g.width,
{
}

/// Batch conflict state: remembers a choice applied to all subsequent
/// conflicts once one was made.
#[derive(Debug, Clone, Copy, PartialEq, Eq, Structural)]
pub struct BatchConflictState {
    /// The remembered choice, once set.
    pub global_choice: Option<ConflictChoice>,
}

impl BatchConflictState {
    /// A fresh state with no remembered choice.
    pub fn new() -> (r: Self)
        ensures
            r.global_choice is None,
    {
        BatchConflictState { global_choice: None }
    }

    /// The remembered choice, if one was set.
    pub fn get_global_choice(&self) -> (r: Option<ConflictChoice>)
        ensures
            r == self.global_choice,
    {
        self.global_choice
    }

    /// Remember a choice for all subsequent conflicts.
    pub fn set_global_choice(&mut self, choice: ConflictChoice)
        ensures
            final(self).global_choice == Some(choice),
    {
        self.global_choice = Some(choice);
    }
}

/// A named opaque handle for a staged (not yet committed) file.
#[verifier::external_type_specification]
#[verifier::external_body]
pub struct ExTempPath(tempfile::TempPath);

/// Relies on tempfile's `NamedTempFile::new_in`, `write_all` and
/// `into_temp_path`: creates a temporary file inside `dir` holding the
/// given bytes and returns its handle. Dropping the handle without
/// committing deletes the temporary file, so an interruption leaves the
/// destination untouched and no temporary behind.
#[verifier::external_body]
pub fn stage_write(dir: &str, bytes: &Vec<u8>) -> (r: Result<tempfile::TempPath, String>) {
    let mut f = tempfile::NamedTempFile::new_in(dir).map_err(|e| e.to_string())?;
    std::io::Write::write_all(&mut f, bytes.as_slice()).map_err(|e| e.to_string())?;
    std::io::Write::flush(&mut f).map_err(|e| e.to_string())?;
    Ok(f.into_temp_path())
}

/// Relies on tempfile's `TempPath::persist`: atomically renames the staged
/// file into place, so a reader observes either the old destination or the
/// fully written new one, never a partial write.
#[verifier::external_body]
pub fn commit_staged(staged: tempfile::TempPath, dest: &str) -> (r: Result<(), String>) {
    staged.persist(dest).map_err(|e| e.to_string())
}

/// Write `bytes` to `dest` atomically: stage a temporary file in the
/// destination's directory, then rename it into place.
pub fn write_file_atomic(dest: &str, bytes: &Vec<u8>) -> (r: Result<(), String>) {
    let dest_chars = str_to_chars(dest);
    let dir_chars = dir_key_chars(&dest_chars);
    let dir = if dir_chars.len() == 0 {
        String::from_str(".")
    } else {
        chars_to_string(&dir_chars)
    };
    let staged = match stage_write(dir.as_str(), bytes) {
        Ok(t) => t,
        Err(e) => {
            return Err(e);
        },
    };
    commit_staged(staged, dest)
}

/// Perform the local half of one planned copy, given the file content:
/// skip plans are skipped without touching the filesystem; all others
/// write atomically to the plan's destination. The result mirrors the
/// plan's action exactly.
pub fn perform_copy(plan: &CopyPlan, bytes: &Vec<u8>) -> (r: Result<CopyResult, String>)
    ensures
        plan.action is Skip ==> (r matches Ok(x) && x is Skipped),
        (plan.action is Copy || plan.action is Overwrite) ==> (r matches Ok(x) ==> x is Copied),
        plan.action matches CopyAction::Rename(n) ==> match r {
            Ok(x) => x matches CopyResult::Renamed(m) && m@ == n@,
            Err(_) => true,
        },
{
    match &plan.action {
        CopyAction::Skip => Ok(CopyResult::Skipped),
        CopyAction::Copy | CopyAction::Overwrite => {
            match write_file_atomic(plan.destination_path.as_str(), bytes) {
                Ok(()) => Ok(CopyResult::Copied),
                Err(e) => Err(e),
            }
        },
        CopyAction::Rename(n) => {
            match write_file_atomic(plan.destination_path.as_str(), bytes) {
                Ok(()) => Ok(CopyResult::Renamed(String::from_str(n.as_str()))),
                Err(e) => Err(e),
            }
        },
    }
}

/// What a run of base64 text decodes to: the result is a function of the
/// characters alone.
pub uninterp spec fn base64_decode_of(s: Seq<char>) -> Option<Seq<u8>>;

/// Relies on base64's `STANDARD` engine `decode`: deterministic in the
/// input characters, succeeding exactly when the text is valid base64.
#[verifier::external_body]
fn base64_decode(s: &str) -> (r: Option<Vec<u8>>)
    ensures
        match r {
            Some(v) => base64_decode_of(s@) == Some(v@),
            None => base64_decode_of(s@) is None,
        },
{
    match base64::engine::general_purpose::STANDARD.decode(s) {
        Ok(v) => Some(v),
        Err(_) => None,
    }
}

/// Base64 text as delivered by the remote, with the newlines and spaces
/// it interleaves removed.
pub open spec fn cleaned_b64(s: Seq<char>) -> Seq<char> {
    s.filter(|c: char| c != '\n' && c != ' ')
}

/// Decode base64 file content as delivered by the remote: newlines and
/// spaces are stripped, then the text is decoded; invalid base64 is an
/// error.
pub fn decode_github_content(encoded: &str) -> (r: Result<Vec<u8>, String>)
    ensures
        match r {
            Ok(v) => base64_decode_of(cleaned_b64(encoded@)) == Some(v@),
            Err(_) => base64_decode_of(cleaned_b64(encoded@)) is None,
        },
{
    let chars = str_to_chars(encoded);
    let mut kept: Vec<char> = Vec::new();
    let mut i: usize = 0;
    proof {
        assert(chars@.subrange(0, 0) =~= Seq::<char>::empty());
        assert(cleaned_b64(Seq::<char>::empty()) =~= Seq::<char>::empty()) by {
            reveal(Seq::filter);
        }
        assert(kept@ =~= Seq::<char>::empty());
    }
    while i < chars.len()
        invariant
            i <= chars@.len(),
            chars@ == encoded@,
            kept@ == cleaned_b64(chars@.subrange(0, i as int)),
        decreases chars@.len() - i,
    {
        let c: char = chars[i];
        if c != '\n' && c != ' ' {
            kept.push(c);
        }
        i = i + 1;
        proof {
            broadcast use Seq::lemma_filter_push;

            assert(chars@.subrange(0, i as int) =~= chars@.subrange(0, i - 1).push(c));
        }
    }
    proof {
        assert(chars@.subrange(0, chars@.len() as int) =~= chars@);
    }
    let cleaned = chars_to_string(&kept);
    match base64_decode(cleaned.as_str()) {
        Some(v) => Ok(v),
        None => Err(String::from_str("Failed to decode base64 content")),
    }
}

} // verus!
