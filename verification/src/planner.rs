//! Turning a list of requested remote paths into a copy plan.
//!
//! Plan creation derives a destination filename for every entry, runs the
//! path-safety checks, consults a listing of the destination directory to
//! detect conflicts, and resolves each conflict according to the configured
//! overwrite mode. It performs no writes, and its result is a function of
//! its inputs alone.

use vstd::prelude::*;
use crate::namer::{generate_unique_filename, in_listing, listing_contains, unique_name_spec};
use crate::safety::{
    has_null_byte, has_reserved_name, has_traversal, is_absolute_entry, path_is_safe,
    validate_safe_path, PathSafetyError,
};
use crate::strutil::{
    basename_chars, basename_of, chars_to_string, dec_digits, str_to_chars, u64_to_dec_chars,
};

verus! {

/// Strategy for handling file overwrite conflicts.
#[derive(Debug, Clone, Copy, PartialEq, Eq, Structural)]
pub enum OverwriteMode {
    /// Ask for each conflict (resolved at execution time).
    Prompt,
    /// Overwrite every existing file.
    Force,
    /// Skip every existing file.
    Skip,
    /// Rename conflicting files with numbered suffixes.
    Rename,
    /// Ask once, then apply the same choice to all subsequent conflicts.
    PromptOnce,
}

impl Default for OverwriteMode {
    /// The default strategy is to prompt.
    fn default() -> (r: Self)
        ensures
            r == OverwriteMode::Prompt,
    {
        OverwriteMode::Prompt
    }
}

/// Configuration for copy operations.
#[derive(Debug, Clone)]
pub struct CopyConfig {
    /// Output directory for copied files.
    pub output_dir: String,
    /// Strategy for handling overwrite conflicts.
    pub overwrite_mode: OverwriteMode,
    /// Maximum number of concurrent downloads.
    pub max_concurrency: usize,
}

impl Default for CopyConfig {
    /// Default configuration: `./.cursor/rules`, prompting, width 4.
    fn default() -> (r: Self)
        ensures
            r.output_dir@ == "./.cursor/rules"@,
            r.overwrite_mode == OverwriteMode::Prompt,
            r.max_concurrency == 4,
    {
        CopyConfig {
            output_dir: String::from_str("./.cursor/rules"),
            overwrite_mode: OverwriteMode::Prompt,
            max_concurrency: 4,
        }
    }
}

impl CopyConfig {
    /// The same configuration with the force-overwrite strategy.
    pub fn with_force_overwrite(self) -> (r: Self)
        ensures
            r.overwrite_mode == OverwriteMode::Force,
            r.output_dir == self.output_dir,
            r.max_concurrency == self.max_concurrency,
    {
        CopyConfig {
            output_dir: self.output_dir,
            overwrite_mode: OverwriteMode::Force,
            max_concurrency: self.max_concurrency,
        }
    }

    /// The same configuration with the skip strategy.
    pub fn with_skip_overwrite(self) -> (r: Self)
        ensures
            r.overwrite_mode == OverwriteMode::Skip,
            r.output_dir == self.output_dir,
            r.max_concurrency == self.max_concurrency,
    {
        CopyConfig {
            output_dir: self.output_dir,
            overwrite_mode: OverwriteMode::Skip,
            max_concurrency: self.max_concurrency,
        }
    }

    /// The same configuration with the rename strategy.
    pub fn with_rename_overwrite(self) -> (r: Self)
        ensures
            r.overwrite_mode == OverwriteMode::Rename,
            r.output_dir == self.output_dir,
            r.max_concurrency == self.max_concurrency,
    {
        CopyConfig {
            output_dir: self.output_dir,
            overwrite_mode: OverwriteMode::Rename,
            max_concurrency: self.max_concurrency,
        }
    }
}

/// The action that will be taken for a file during copy.
#[derive(Debug, Clone, PartialEq, Eq)]
pub enum CopyAction {
    /// Copy the file (no conflict).
    Copy,
    /// Overwrite the existing file.
    Overwrite,
    /// Skip the existing file.
    Skip,
    /// Rename to avoid the conflict (with the new name).
    Rename(String),
}

/// Mathematical view of a `CopyAction`.
pub ghost enum ActionView {
    Copy,
    Overwrite,
    Skip,
    Rename(Seq<char>),
}

impl View for CopyAction {
    type V = ActionView;

    open spec fn view(&self) -> ActionView {
        match self {
            CopyAction::Copy => ActionView::Copy,
            CopyAction::Overwrite => ActionView::Overwrite,
            CopyAction::Skip => ActionView::Skip,
            CopyAction::Rename(n) => ActionView::Rename(n@),
        }
    }
}

/// One planned copy operation.
#[derive(Debug, Clone)]
pub struct CopyPlan {
    /// Source file path in the repository.
    pub source_path: String,
    /// Destination file path on the local filesystem.
    pub destination_path: String,
    /// Whether this operation would overwrite an existing file.
    pub would_overwrite: bool,
    /// Action to take for this file.
    pub action: CopyAction,
}

/// Mathematical view of a `CopyPlan`.
pub ghost struct PlanView {
    pub source: Seq<char>,
    pub dest: Seq<char>,
    pub would_overwrite: bool,
    pub action: ActionView,
}

impl View for CopyPlan {
    type V = PlanView;

    open spec fn view(&self) -> PlanView {
        PlanView {
            source: self.source_path@,
            dest: self.destination_path@,
            would_overwrite: self.would_overwrite,
            action: self.action@,
        }
    }
}

/// Why plan creation failed for an entry.
#[derive(Debug, Clone, PartialEq, Eq)]
pub enum PlanError {
    /// The entry has no usable filename (empty basename or `..`).
    InvalidEntry(String),
    /// The entry or its filename violates a path-safety rule.
    UnsafePath(String, PathSafetyError),
}

/// Mathematical view of a `PlanError`.
pub ghost enum PlanErrorView {
    InvalidEntry(Seq<char>),
    UnsafePath(Seq<char>, PathSafetyError),
}

impl View for PlanError {
    type V = PlanErrorView;

    open spec fn view(&self) -> PlanErrorView {
        match self {
            PlanError::InvalidEntry(e) => PlanErrorView::InvalidEntry(e@),
            PlanError::UnsafePath(e, v) => PlanErrorView::UnsafePath(e@, *v),
        }
    }
}

/// The description text of each plan-creation failure.
pub open spec fn plan_error_message(e: PlanErrorView) -> Seq<char> {
    match e {
        PlanErrorView::InvalidEntry(en) => "invalid file path in manifest: "@ + en,
        PlanErrorView::UnsafePath(en, v) => "invalid destination path for "@ + en + ": "@
            + crate::safety::safety_message(v),
    }
}

impl PlanError {
    /// A human-readable description of the failure.
    pub fn message(&self) -> (r: String)
        ensures
            r@ == plan_error_message(self@),
    {
        match self {
            PlanError::InvalidEntry(e) => {
                let mut s = String::from_str("invalid file path in manifest: ");
                s.append(e.as_str());
                s
            },
            PlanError::UnsafePath(e, v) => {
                let mut s = String::from_str("invalid destination path for ");
                s.append(e.as_str());
                s.append(": ");
                let m = v.message();
                s.append(m.as_str());
                proof {
                    assert(s@ =~= plan_error_message(self@));
                }
                s
            },
        }
    }
}

/// The entry yields a usable destination filename.
pub open spec fn valid_basename(entry: Seq<char>) -> bool {
    basename_of(entry).len() > 0 && basename_of(entry) != seq!['.', '.']
}

/// The entry passes filename derivation and every path-safety rule.
pub open spec fn entry_ok(entry: Seq<char>) -> bool {
    valid_basename(entry) && path_is_safe(entry, basename_of(entry))
}

/// The first safety rule an (otherwise well-formed) entry violates.
pub open spec fn violation_of(entry: Seq<char>) -> PathSafetyError {
    if has_traversal(entry) {
        PathSafetyError::Traversal
    } else if is_absolute_entry(entry) {
        PathSafetyError::AbsolutePath
    } else if has_reserved_name(basename_of(entry)) {
        PathSafetyError::ReservedName
    } else {
        PathSafetyError::NullByte
    }
}

/// The error reported for a rejected entry.
pub open spec fn err_of(entry: Seq<char>) -> PlanErrorView {
    if !valid_basename(entry) {
        PlanErrorView::InvalidEntry(entry)
    } else {
        PlanErrorView::UnsafePath(entry, violation_of(entry))
    }
}

/// The plan produced for one accepted entry.
pub open spec fn plan_one(
    entry: Seq<char>,
    mode: OverwriteMode,
    outdir: Seq<char>,
    existing: Seq<String>,
    tag: nat,
) -> PlanView {
    let name = basename_of(entry);
    let wo = in_listing(existing, name);
    let dest = outdir + seq!['/'] + name;
    if !wo {
        PlanView { source: entry, dest, would_overwrite: false, action: ActionView::Copy }
    } else {
        match mode {
            OverwriteMode::Force => PlanView {
                source: entry,
                dest,
                would_overwrite: true,
                action: ActionView::Overwrite,
            },
            OverwriteMode::Skip => PlanView {
                source: entry,
                dest,
                would_overwrite: true,
                action: ActionView::Skip,
            },
            OverwriteMode::Rename => {
                let newname = unique_name_spec(name, existing, tag);
                PlanView {
                    source: entry,
                    dest: outdir + seq!['/'] + newname,
                    would_overwrite: true,
                    action: ActionView::Rename(newname),
                }
            },
            _ => PlanView {
                source: entry,
                dest,
                would_overwrite: true,
                action: ActionView::Overwrite,
            },
        }
    }
}

/// `plans` is exactly the plan sequence for `entries` under the given
/// configuration, directory listing and fallback tag.
pub open spec fn plans_match(
    plans: Seq<PlanView>,
    entries: Seq<String>,
    mode: OverwriteMode,
    outdir: Seq<char>,
    existing: Seq<String>,
    tag: nat,
) -> bool {
    &&& plans.len() == entries.len()
    &&& forall|k: int|
        0 <= k < entries.len() ==> plans[k] == plan_one(#[trigger] entries[k]@, mode, outdir, existing, tag)
}

/// Plan creation is idempotent: two plan sequences computed from identical
/// entries, configuration, directory listing and fallback tag are equal.
pub proof fn lemma_plan_creation_idempotent(
    p1: Seq<PlanView>,
    p2: Seq<PlanView>,
    entries: Seq<String>,
    mode: OverwriteMode,
    outdir: Seq<char>,
    existing: Seq<String>,
    tag: nat,
)
    requires
        plans_match(p1, entries, mode, outdir, existing, tag),
        plans_match(p2, entries, mode, outdir, existing, tag),
    ensures
        p1 == p2,
{
    assert forall|k: int| 0 <= k < p1.len() implies p1[k] == p2[k] by {
        assert(p1[k] == plan_one(entries[k]@, mode, outdir, existing, tag));
    }
    assert(p1 =~= p2);
}

/// A run of `n` spaces (empty when `n` is not positive).
pub open spec fn spaces(n: int) -> Seq<char> {
    Seq::new(if n > 0 { n as nat } else { 0 }, |i: int| ' ')
}

/// `s` padded with spaces on the right to width `w` (unchanged when longer).
pub open spec fn pad_spec(s: Seq<char>, w: int) -> Seq<char> {
    s + spaces(w - s.len())
}

/// Long sources are shown as `...` plus their last 35 characters.
pub open spec fn trunc_source_spec(s: Seq<char>) -> Seq<char> {
    if s.len() > 38 {
        seq!['.', '.', '.'] + s.subrange(s.len() - 35, s.len() as int)
    } else {
        s
    }
}

/// The text shown for an action.
pub open spec fn action_text(a: ActionView) -> Seq<char> {
    match a {
        ActionView::Copy => "Copy"@,
        ActionView::Overwrite => "Overwrite"@,
        ActionView::Skip => "Skip"@,
        ActionView::Rename(n) => "Rename → "@ + n,
    }
}

/// The text shown for the overwrite flag.
pub open spec fn yes_no(b: bool) -> Seq<char> {
    if b {
        "Yes"@
    } else {
        "No"@
    }
}

/// One table row for a plan.
pub open spec fn row_spec(p: PlanView) -> Seq<char> {
    pad_spec(trunc_source_spec(p.source), 40) + seq![' '] + pad_spec(basename_of(p.dest), 30)
        + seq![' '] + pad_spec(yes_no(p.would_overwrite), 10) + seq![' '] + pad_spec(
        action_text(p.action),
        20,
    ) + seq!['\n']
}

/// The header row of the table.
pub open spec fn header_spec() -> Seq<char> {
    pad_spec("Source"@, 40) + seq![' '] + pad_spec("Destination"@, 30) + seq![' '] + pad_spec(
        "Overwrite?"@,
        10,
    ) + seq![' '] + pad_spec("Action"@, 20) + seq!['\n']
}

/// The separator row: 102 dashes.
pub open spec fn separator_spec() -> Seq<char> {
    Seq::new(102, |i: int| '-') + seq!['\n']
}

/// The first `i` rows, concatenated.
pub open spec fn rows_upto(plans: Seq<PlanView>, i: int) -> Seq<char>
    decreases i,
{
    if i <= 0 {
        Seq::<char>::empty()
    } else {
        rows_upto(plans, i - 1) + row_spec(plans[i - 1])
    }
}

/// The footer with the file count.
pub open spec fn footer_spec(n: nat) -> Seq<char> {
    seq!['\n'] + "Total files: "@ + dec_digits(n) + seq!['\n']
}

/// The whole rendered table.
pub open spec fn table_spec(plans: Seq<PlanView>) -> Seq<char> {
    if plans.len() == 0 {
        "No files to copy."@
    } else {
        header_spec() + separator_spec() + rows_upto(plans, plans.len() as int) + footer_spec(
            plans.len(),
        )
    }
}

fn push_padded(out: &mut Vec<char>, field: &Vec<char>, w: usize)
    ensures
        final(out)@ == old(out)@ + pad_spec(field@, w as int),
{
    out.extend_from_slice(field.as_slice());
    let mut k: usize = field.len();
    while k < w
        invariant
            field@.len() <= k,
            k <= w || k == field@.len(),
            out@ =~= old(out)@ + field@ + spaces(k - field@.len()),
        decreases w - k,
    {
        out.push(' ');
        k = k + 1;
        proof {
            assert(out@ =~= old(out)@ + field@ + spaces(k - field@.len()));
        }
    }
    proof {
        assert(out@ =~= old(out)@ + pad_spec(field@, w as int));
    }
}

fn push_action_text(out: &mut Vec<char>, a: &CopyAction) -> (w: Ghost<Seq<char>>)
    ensures
        w@ == action_text(a@),
        final(out)@ == old(out)@ + action_text(a@),
{
    match a {
        CopyAction::Copy => {
            let t = str_to_chars("Copy");
            out.extend_from_slice(t.as_slice());
            Ghost(t@)
        },
        CopyAction::Overwrite => {
            let t = str_to_chars("Overwrite");
            out.extend_from_slice(t.as_slice());
            Ghost(t@)
        },
        CopyAction::Skip => {
            let t = str_to_chars("Skip");
            out.extend_from_slice(t.as_slice());
            Ghost(t@)
        },
        CopyAction::Rename(n) => {
            let t = str_to_chars("Rename → ");
            out.extend_from_slice(t.as_slice());
            let nc = str_to_chars(n.as_str());
            out.extend_from_slice(nc.as_slice());
            proof {
                assert(out@ =~= old(out)@ + action_text(a@));
            }
            Ghost(t@ + nc@)
        },
    }
}

impl CopyAction {
    /// The display text of this action (`Copy`, `Overwrite`, `Skip`,
    /// `Rename → name`).
    pub fn display(&self) -> (r: String)
        ensures
            r@ == action_text(self@),
    {
        let mut out: Vec<char> = Vec::new();
        push_action_text(&mut out, self);
        chars_to_string(&out)
    }
}

fn push_row(out: &mut Vec<char>, plan: &CopyPlan)
    ensures
        final(out)@ == old(out)@ + row_spec(plan@),
{
    let src = str_to_chars(plan.source_path.as_str());
    let shown_src: Vec<char> = if src.len() > 38 {
        let tail = crate::strutil::chars_slice(&src, src.len() - 35, src.len());
        let mut s = str_to_chars("...");
        s.extend_from_slice(tail.as_slice());
        proof {
            reveal_strlit("...");
            assert("..."@ =~= seq!['.', '.', '.']);
            assert(s@ =~= trunc_source_spec(plan.source_path@));
        }
        s
    } else {
        src
    };
    push_padded(out, &shown_src, 40);
    out.push(' ');
    let dest_chars = str_to_chars(plan.destination_path.as_str());
    let dest_name = basename_chars(&dest_chars);
    push_padded(out, &dest_name, 30);
    out.push(' ');
    let ow = if plan.would_overwrite {
        str_to_chars("Yes")
    } else {
        str_to_chars("No")
    };
    push_padded(out, &ow, 10);
    out.push(' ');
    let mut action_buf: Vec<char> = Vec::new();
    push_action_text(&mut action_buf, &plan.action);
    push_padded(out, &action_buf, 20);
    out.push('\n');
    proof {
        assert(out@ =~= old(out)@ + row_spec(plan@));
    }
}

/// Render the plan as a table with source, destination, overwrite flag and
/// action columns, followed by a file count.
pub fn render_copy_plan_table(plans: &Vec<CopyPlan>) -> (r: String)
    ensures
        r@ == table_spec(plans@.map_values(|p: CopyPlan| p@)),
{
    let ghost pv = plans@.map_values(|p: CopyPlan| p@);
    if plans.len() == 0 {
        return String::from_str("No files to copy.");
    }
    let mut out: Vec<char> = Vec::new();
    push_padded(&mut out, &str_to_chars("Source"), 40);
    out.push(' ');
    push_padded(&mut out, &str_to_chars("Destination"), 30);
    out.push(' ');
    push_padded(&mut out, &str_to_chars("Overwrite?"), 10);
    out.push(' ');
    push_padded(&mut out, &str_to_chars("Action"), 20);
    out.push('\n');
    let mut k: usize = 0;
    while k < 102
        invariant
            k <= 102,
            out@ =~= header_spec() + Seq::new(k as nat, |i: int| '-'),
        decreases 102 - k,
    {
        out.push('-');
        k = k + 1;
        proof {
            assert(out@ =~= header_spec() + Seq::new(k as nat, |i: int| '-'));
        }
    }
    out.push('\n');
    proof {
        assert(out@ =~= header_spec() + separator_spec());
    }
    let mut i: usize = 0;
    while i < plans.len()
        invariant
            i <= plans@.len(),
            pv == plans@.map_values(|p: CopyPlan| p@),
            out@ == header_spec() + separator_spec() + rows_upto(pv, i as int),
        decreases plans@.len() - i,
    {
        push_row(&mut out, &plans[i]);
        i = i + 1;
    }
    out.push('\n');
    let total = str_to_chars("Total files: ");
    out.extend_from_slice(total.as_slice());
    let count = u64_to_dec_chars(plans.len() as u64);
    out.extend_from_slice(count.as_slice());
    out.push('\n');
    proof {
        assert(out@ =~= table_spec(pv));
    }
    chars_to_string(&out)
}

/// Create a copy plan for the given manifest entries.
///
/// `existing` is the listing of filenames currently present in the output
/// directory; `fallback_tag` seeds the rename fallback (callers typically
/// pass a timestamp). Performs no writes; the result is a function of the
/// arguments alone. Fails on the first entry without a usable filename or
/// violating a path-safety rule, and only then.
pub fn create_copy_plan(
    entries: &Vec<String>,
    config: &CopyConfig,
    existing: &Vec<String>,
    fallback_tag: u64,
) -> (r: Result<Vec<CopyPlan>, PlanError>)
    ensures
        match r {
            Ok(plans) => {
                &&& forall|k: int| 0 <= k < entries@.len() ==> entry_ok(#[trigger] entries@[k]@)
                &&& plans_match(
                    plans@.map_values(|p: CopyPlan| p@),
                    entries@,
                    config.overwrite_mode,
                    config.output_dir@,
                    existing@,
                    fallback_tag as nat,
                )
            },
            Err(e) => exists|k: int|
                {
                    &&& 0 <= k < entries@.len()
                    &&& !entry_ok(#[trigger] entries@[k]@)
                    &&& forall|j: int| 0 <= j < k ==> entry_ok(#[trigger] entries@[j]@)
                    &&& e@ == err_of(entries@[k]@)
                },
        },
{
    let mut plans: Vec<CopyPlan> = Vec::new();
    let mut i: usize = 0;
    while i < entries.len()
        invariant
            i <= entries@.len(),
            plans@.len() == i,
            forall|k: int| 0 <= k < i ==> entry_ok(#[trigger] entries@[k]@),
            forall|k: int|
                0 <= k < i ==> (#[trigger] plans@[k])@ == plan_one(
                    entries@[k]@,
                    config.overwrite_mode,
                    config.output_dir@,
                    existing@,
                    fallback_tag as nat,
                ),
        decreases entries@.len() - i,
    {
        let entry: &String = &entries[i];
        let entry_chars = str_to_chars(entry.as_str());
        let name_chars = basename_chars(&entry_chars);
        let dotdot: Vec<char> = vec!['.', '.'];
        proof {
            assert(dotdot@ =~= seq!['.', '.']);
        }
        let mut name_is_dotdot: bool = false;
        if name_chars.len() == 2 {
            if name_chars[0] == '.' && name_chars[1] == '.' {
                name_is_dotdot = true;
                proof {
                    assert(name_chars@ =~= seq!['.', '.']);
                }
            }
        }
        if name_chars.len() == 0 || name_is_dotdot {
            return Err(PlanError::InvalidEntry(entry.clone()));
        }
        let filename = chars_to_string(&name_chars);
        match validate_safe_path(entry.as_str(), filename.as_str()) {
            Ok(()) => {},
            Err(v) => {
                return Err(PlanError::UnsafePath(entry.clone(), v));
            },
        }
        let would_overwrite = listing_contains(existing, &filename);
        let mut destination = String::from_str(config.output_dir.as_str());
        destination.append("/");
        proof {
            reveal_strlit("/");
            assert("/"@ =~= seq!['/']);
        }
        let plan: CopyPlan = if !would_overwrite {
            destination.append(filename.as_str());
            CopyPlan {
                source_path: entry.clone(),
                destination_path: destination,
                would_overwrite: false,
                action: CopyAction::Copy,
            }
        } else {
            match config.overwrite_mode {
                OverwriteMode::Force => {
                    destination.append(filename.as_str());
                    CopyPlan {
                        source_path: entry.clone(),
                        destination_path: destination,
                        would_overwrite: true,
                        action: CopyAction::Overwrite,
                    }
                },
                OverwriteMode::Skip => {
                    destination.append(filename.as_str());
                    CopyPlan {
                        source_path: entry.clone(),
                        destination_path: destination,
                        would_overwrite: true,
                        action: CopyAction::Skip,
                    }
                },
                OverwriteMode::Rename => {
                    let newname = generate_unique_filename(
                        filename.as_str(),
                        existing,
                        fallback_tag,
                    );
                    destination.append(newname.as_str());
                    CopyPlan {
                        source_path: entry.clone(),
                        destination_path: destination,
                        would_overwrite: true,
                        action: CopyAction::Rename(newname),
                    }
                },
                _ => {
                    destination.append(filename.as_str());
                    CopyPlan {
                        source_path: entry.clone(),
                        destination_path: destination,
                        would_overwrite: true,
                        action: CopyAction::Overwrite,
                    }
                },
            }
        };
        plans.push(plan);
        i = i + 1;
    }
    Ok(plans)
}

} // verus!
