//! Manifest handling for the quick-add flow: format detection, the plain
//! text list format, and validation of entries against a repository tree.
//!
//! A manifest is a file listing remote rule paths to copy as a batch. The
//! structured formats (YAML/JSON) are parsed by the caller into a
//! `ManifestSchema`; the plain text format and everything downstream of
//! parsing — priority resolution, entry validation against the tree, and
//! assembling the final `Manifest` — is handled here.

use vstd::prelude::*;
use vstd::pervasive::VecAdditionalExecFns;
use crate::strutil::{
    chars_eq_str, chars_slice, chars_to_string, chars_ends_with, dir_key_of, ffind_char,
    last_index_of, lemma_last_index_of_bounds, lower_seq, rfind_char, seq_ends_with, str_to_chars,
    to_lower_chars, trim_chars, trim_spec,
};
use crate::namer::stem_of;
use crate::tree::{belongs_to, lookup_groups, views_of, NodeView, RepoNode, RepoTree};

verus! {

/// Errors from manifest parsing and validation.
#[derive(Debug, Clone, PartialEq, Eq)]
pub enum ManifestError {
    /// The file format is not supported.
    InvalidFormat(String),
    /// The content could not be parsed.
    ParseError(String),
    /// Validation against the repository failed.
    ValidationError(String),
    /// The named manifest was not found.
    FileNotFound(String),
}

/// The description text of each manifest failure.
pub open spec fn manifest_error_message(e: &ManifestError) -> Seq<char> {
    match e {
        ManifestError::InvalidFormat(s) => "Invalid file format: "@ + s@,
        ManifestError::ParseError(s) => "Parse error: "@ + s@,
        ManifestError::ValidationError(s) => "Validation error: "@ + s@,
        ManifestError::FileNotFound(s) => "File not found: "@ + s@,
    }
}

impl ManifestError {
    /// A human-readable description of the failure.
    pub fn message(&self) -> (r: String)
        ensures
            r@ == manifest_error_message(self),
    {
        match self {
            ManifestError::InvalidFormat(s) => {
                let mut m = String::from_str("Invalid file format: ");
                m.append(s.as_str());
                m
            },
            ManifestError::ParseError(s) => {
                let mut m = String::from_str("Parse error: ");
                m.append(s.as_str());
                m
            },
            ManifestError::ValidationError(s) => {
                let mut m = String::from_str("Validation error: ");
                m.append(s.as_str());
                m
            },
            ManifestError::FileNotFound(s) => {
                let mut m = String::from_str("File not found: ");
                m.append(s.as_str());
                m
            },
        }
    }
}

/// Supported manifest file formats.
#[derive(Debug, Clone, Copy, PartialEq, Eq, Structural)]
pub enum ManifestFormat {
    Txt,
    Yaml,
    Json,
}

/// The priority of a format; lower wins when one basename exists in
/// several formats.
pub open spec fn priority_spec(f: ManifestFormat) -> u8 {
    match f {
        ManifestFormat::Txt => 1,
        ManifestFormat::Yaml => 2,
        ManifestFormat::Json => 3,
    }
}

/// The format recognised for a (case-insensitive) extension.
pub open spec fn format_of_ext(ext: Seq<char>) -> Option<ManifestFormat> {
    let l = lower_seq(ext);
    if l == "txt"@ {
        Some(ManifestFormat::Txt)
    } else if l == "yaml"@ || l == "yml"@ {
        Some(ManifestFormat::Yaml)
    } else if l == "json"@ {
        Some(ManifestFormat::Json)
    } else {
        None
    }
}

impl ManifestFormat {
    /// The priority of this format (lower is higher priority).
    pub fn priority(&self) -> (r: u8)
        ensures
            r == priority_spec(*self),
    {
        match self {
            ManifestFormat::Txt => 1,
            ManifestFormat::Yaml => 2,
            ManifestFormat::Json => 3,
        }
    }

    /// Determine the format from a file extension, case-insensitively.
    pub fn from_extension(ext: &str) -> (r: Option<Self>)
        ensures
            r == format_of_ext(ext@),
    {
        let chars = str_to_chars(ext);
        let lower = to_lower_chars(&chars);
        if chars_eq_str(&lower, "txt") {
            Some(ManifestFormat::Txt)
        } else if chars_eq_str(&lower, "yaml") || chars_eq_str(&lower, "yml") {
            Some(ManifestFormat::Yaml)
        } else if chars_eq_str(&lower, "json") {
            Some(ManifestFormat::Json)
        } else {
            None
        }
    }
}

/// Schema shared by the structured manifest formats.
#[derive(Debug, Clone)]
pub struct ManifestSchema {
    pub name: String,
    pub description: Option<String>,
    pub rules: Vec<String>,
}

/// A parsed and validated manifest.
#[derive(Debug, Clone)]
pub struct Manifest {
    /// Friendly name of the manifest.
    pub name: String,
    /// Optional description.
    pub description: Option<String>,
    /// List of valid rule file paths.
    pub entries: Vec<String>,
    /// Validation errors encountered.
    pub errors: Vec<String>,
    /// Validation warnings encountered.
    pub warnings: Vec<String>,
}

/// The views of a string sequence.
pub open spec fn str_views(ss: Seq<String>) -> Seq<Seq<char>> {
    ss.map_values(|s: String| s@)
}

/// Index of the first newline at or after `i` (the length when none).
pub open spec fn next_nl(s: Seq<char>, i: int) -> int
    decreases s.len() - i,
{
    if i < 0 {
        0
    } else if i >= s.len() {
        s.len() as int
    } else if s[i] == '\n' {
        i
    } else {
        next_nl(s, i + 1)
    }
}

/// The first newline position lies between `i` and the end.
pub proof fn lemma_next_nl_bounds(s: Seq<char>, i: int)
    requires
        0 <= i <= s.len(),
    ensures
        i <= next_nl(s, i) <= s.len(),
    decreases s.len() - i,
{
    if i < s.len() && s[i] != '\n' {
        lemma_next_nl_bounds(s, i + 1);
    }
}

/// The manifest entries in the text from position `i` on: each line is
/// trimmed, and blank lines and `#` comments are dropped.
pub open spec fn txt_entries_from(s: Seq<char>, i: int) -> Seq<Seq<char>>
    decreases s.len() + 1 - i,
    via txt_entries_from_decreases
{
    if i < 0 || i >= s.len() {
        Seq::<Seq<char>>::empty()
    } else {
        let j = next_nl(s, i);
        let line = trim_spec(s.subrange(i, j));
        let rest = txt_entries_from(s, j + 1);
        if line.len() > 0 && line[0] != '#' {
            seq![line] + rest
        } else {
            rest
        }
    }
}

#[via_fn]
proof fn txt_entries_from_decreases(s: Seq<char>, i: int) {
    if 0 <= i && i < s.len() {
        lemma_next_nl_bounds(s, i);
    }
}

/// The entries of a plain text manifest.
pub open spec fn txt_entries(s: Seq<char>) -> Seq<Seq<char>> {
    txt_entries_from(s, 0)
}

fn find_nl(v: &Vec<char>, i: usize) -> (j: usize)
    requires
        i <= v@.len(),
    ensures
        i <= j <= v@.len(),
        j == next_nl(v@, i as int),
{
    let mut j: usize = i;
    while j < v.len() && v[j] != '\n'
        invariant
            i <= j <= v@.len(),
            next_nl(v@, i as int) == next_nl(v@, j as int),
        decreases v@.len() - j,
    {
        j = j + 1;
    }
    j
}

fn collect_txt_entries(v: &Vec<char>, start: usize, out: &mut Vec<String>)
    requires
        start <= v@.len(),
    ensures
        str_views(final(out)@) == str_views(old(out)@) + txt_entries_from(v@, start as int),
    decreases v@.len() - start,
{
    if start >= v.len() {
        proof {
            assert(str_views(out@) =~= str_views(out@) + txt_entries_from(v@, start as int));
        }
        return ;
    }
    let j = find_nl(v, start);
    let line_raw = chars_slice(v, start, j);
    let line = trim_chars(&line_raw);
    let keep: bool = line.len() > 0 && line[0] != '#';
    if keep {
        let s = chars_to_string(&line);
        out.push(s);
    }
    let ghost mid = out@;
    if j >= v.len() {
        proof {
            assert(txt_entries_from(v@, j + 1) =~= Seq::<Seq<char>>::empty());
            if keep {
                assert(str_views(out@) =~= str_views(old(out)@) + txt_entries_from(
                    v@,
                    start as int,
                ));
            } else {
                assert(str_views(out@) =~= str_views(old(out)@) + txt_entries_from(
                    v@,
                    start as int,
                ));
            }
        }
        return ;
    }
    collect_txt_entries(v, j + 1, out);
    proof {
        assert(str_views(out@) == str_views(mid) + txt_entries_from(v@, j + 1));
        if keep {
            assert(str_views(mid) =~= str_views(old(out)@).push(line@));
        } else {
            assert(str_views(mid) =~= str_views(old(out)@));
        }
        assert(str_views(out@) =~= str_views(old(out)@) + txt_entries_from(v@, start as int));
    }
}

/// Parse a plain text manifest: one rule path per line, with blank lines
/// and `#` comment lines ignored and every entry trimmed.
pub fn parse_txt_manifest(content: &str) -> (r: Result<Vec<String>, ManifestError>)
    ensures
        r matches Ok(entries) && str_views(entries@) == txt_entries(content@),
{
    let v = str_to_chars(content);
    let mut out: Vec<String> = Vec::new();
    proof {
        assert(str_views(Seq::<String>::empty()) =~= Seq::<Seq<char>>::empty());
    }
    collect_txt_entries(&v, 0, &mut out);
    Ok(out)
}

/// The extension part after the last dot (the whole name when it has no
/// dot; matches splitting on `.` and taking the last piece).
pub open spec fn ext_after_dot(s: Seq<char>) -> Seq<char> {
    s.subrange(last_index_of(s, '.') + 1, s.len() as int)
}

/// The manifest format recognised for a filename, by its extension.
pub fn get_manifest_format(filename: &str) -> (r: Option<ManifestFormat>)
    ensures
        r == format_of_ext(ext_after_dot(filename@)),
{
    let chars = str_to_chars(filename);
    proof {
        lemma_last_index_of_bounds(chars@, '.');
    }
    let n: usize = chars.len();
    let ext = match rfind_char(&chars, '.') {
        Some(i) => chars_slice(&chars, i + 1, n),
        None => chars_slice(&chars, 0, n),
    };
    let s = chars_to_string(&ext);
    ManifestFormat::from_extension(s.as_str())
}

/// The basename before the last dot (the whole name when it has no dot).
pub fn get_basename(filename: &str) -> (r: String)
    ensures
        r@ == stem_of(filename@),
{
    let chars = str_to_chars(filename);
    proof {
        lemma_last_index_of_bounds(chars@, '.');
    }
    let n: usize = chars.len();
    let base = match rfind_char(&chars, '.') {
        Some(i) => chars_slice(&chars, 0, i),
        None => chars_slice(&chars, 0, n),
    };
    proof {
        if last_index_of(filename@, '.') < 0 {
            assert(base@ =~= filename@);
        }
    }
    chars_to_string(&base)
}

/// The file extension conventionally used for a manifest format.
pub fn format_extension(format: &ManifestFormat) -> (r: &'static str)
    ensures
        match format {
            ManifestFormat::Txt => r@ == "txt"@,
            ManifestFormat::Yaml => r@ == "yaml"@,
            ManifestFormat::Json => r@ == "json"@,
        },
{
    match format {
        ManifestFormat::Txt => "txt",
        ManifestFormat::Yaml => "yaml",
        ManifestFormat::Json => "json",
    }
}

/// A filename is a manifest when it ends with `.txt`, `.yaml`, `.yml` or
/// `.json`.
pub open spec fn is_manifest_name(s: Seq<char>) -> bool {
    seq_ends_with(s, ".txt"@) || seq_ends_with(s, ".yaml"@) || seq_ends_with(s, ".yml"@)
        || seq_ends_with(s, ".json"@)
}

/// Whether a file is a manifest, by its extension.
pub fn is_manifest_file(filename: &str) -> (r: bool)
    ensures
        r == is_manifest_name(filename@),
{
    let chars = str_to_chars(filename);
    chars_ends_with(&chars, &str_to_chars(".txt")) || chars_ends_with(
        &chars,
        &str_to_chars(".yaml"),
    ) || chars_ends_with(&chars, &str_to_chars(".yml")) || chars_ends_with(
        &chars,
        &str_to_chars(".json"),
    )
}

/// One discovered manifest: its identifier (basename), the format chosen
/// for it, and the remote path of the chosen file.
#[derive(Debug, Clone)]
pub struct ManifestRef {
    /// The basename without extension, used as the manifest identifier.
    pub id: String,
    /// The winning format for this identifier.
    pub format: ManifestFormat,
    /// The remote path of the winning file.
    pub path: String,
}

/// Mathematical view of a `ManifestRef`.
pub ghost struct ManifestRefView {
    pub id: Seq<char>,
    pub format: ManifestFormat,
    pub path: Seq<char>,
}

impl View for ManifestRef {
    type V = ManifestRefView;

    open spec fn view(&self) -> ManifestRefView {
        ManifestRefView { id: self.id@, format: self.format, path: self.path@ }
    }
}

/// The views of a reference sequence.
pub open spec fn ref_views(rs: Seq<ManifestRef>) -> Seq<ManifestRefView> {
    rs.map_values(|r: ManifestRef| r@)
}

/// Index of the first reference carrying `id`, or -1 when absent.
pub open spec fn find_ref(rs: Seq<ManifestRefView>, id: Seq<char>) -> int
    decreases rs.len(),
{
    if rs.len() == 0 {
        -1
    } else if rs[0].id == id {
        0
    } else if find_ref(rs.drop_first(), id) == -1 {
        -1
    } else {
        find_ref(rs.drop_first(), id) + 1
    }
}

/// One step of quick-add manifest discovery: a child that is a manifest
/// file either claims a new identifier or displaces a lower-priority
/// format for the same identifier.
pub open spec fn discover_step(acc: Seq<ManifestRefView>, child: NodeView) -> Seq<
    ManifestRefView,
> {
    match format_of_ext(ext_after_dot(child.name)) {
        None => acc,
        Some(f) => {
            let id = stem_of(child.name);
            let k = find_ref(acc, id);
            if k == -1 {
                acc.push(ManifestRefView { id, format: f, path: child.path })
            } else if priority_spec(f) < priority_spec(acc[k].format) {
                acc.update(k, ManifestRefView { id, format: f, path: child.path })
            } else {
                acc
            }
        },
    }
}

/// Quick-add discovery folded over the first `i` children.
pub open spec fn discover_upto(cs: Seq<NodeView>, i: int) -> Seq<ManifestRefView>
    decreases i,
{
    if i <= 0 {
        Seq::<ManifestRefView>::empty()
    } else {
        discover_step(discover_upto(cs, i - 1), cs[i - 1])
    }
}

fn find_ref_exec(rs: &Vec<ManifestRef>, id: &Vec<char>) -> (r: Option<usize>)
    ensures
        match r {
            Some(k) => k < rs@.len() && k as int == find_ref(ref_views(rs@), id@),
            None => find_ref(ref_views(rs@), id@) == -1,
        },
{
    let mut k: usize = 0;
    while k < rs.len()
        invariant
            k <= rs@.len(),
            ref_views(rs@).len() == rs@.len(),
            forall|j: int| 0 <= j < k ==> (#[trigger] ref_views(rs@)[j]).id != id@,
        decreases rs@.len() - k,
    {
        if chars_eq_str(id, rs[k].id.as_str()) {
            proof {
                lemma_find_ref_found(ref_views(rs@), id@, k as int);
            }
            return Some(k);
        }
        k = k + 1;
    }
    proof {
        lemma_find_ref_absent(ref_views(rs@), id@);
    }
    None
}

proof fn lemma_find_ref_found(rs: Seq<ManifestRefView>, id: Seq<char>, k: int)
    requires
        0 <= k < rs.len(),
        rs[k].id == id,
        forall|j: int| 0 <= j < k ==> (#[trigger] rs[j]).id != id,
    ensures
        find_ref(rs, id) == k,
    decreases k,
{
    if k > 0 {
        lemma_find_ref_found(rs.drop_first(), id, k - 1);
    }
}

proof fn lemma_find_ref_absent(rs: Seq<ManifestRefView>, id: Seq<char>)
    requires
        forall|j: int| 0 <= j < rs.len() ==> (#[trigger] rs[j]).id != id,
    ensures
        find_ref(rs, id) == -1,
    decreases rs.len(),
{
    if rs.len() > 0 {
        lemma_find_ref_absent(rs.drop_first(), id);
    }
}

/// Discover the manifests offered in the `quick-add` directory of a
/// populated tree, resolving identifier clashes by format priority
/// (`.txt` over `.yaml` over `.json`).
pub fn find_manifests_in_quickadd(tree: &RepoTree) -> (r: Vec<ManifestRef>)
    requires
        tree.wf(),
    ensures
        ref_views(r@) == discover_upto(
            tree.children_views("quick-add"@),
            tree.children_views("quick-add"@).len() as int,
        ),
{
    let children = tree.children("quick-add");
    let ghost cs = tree.children_views("quick-add"@);
    let mut acc: Vec<ManifestRef> = Vec::new();
    let mut i: usize = 0;
    proof {
        assert(ref_views(acc@) =~= discover_upto(cs, 0));
    }
    while i < children.len()
        invariant
            tree.wf(),
            children@ == lookup_groups(tree.groups@, "quick-add"@),
            cs == tree.children_views("quick-add"@),
            cs.len() == children@.len(),
            i <= children@.len(),
            ref_views(acc@) == discover_upto(cs, i as int),
        decreases children@.len() - i,
    {
        let child = &children[i];
        proof {
            assert(cs[i as int] == (children@[i as int])@);
        }
        match get_manifest_format(child.name.as_str()) {
            None => {},
            Some(f) => {
                let id = get_basename(child.name.as_str());
                let id_chars = str_to_chars(id.as_str());
                let path = String::from_str(child.path.as_str());
                let item = ManifestRef { id, format: f, path };
                match find_ref_exec(&acc, &id_chars) {
                    None => {
                        acc.push(item);
                        proof {
                            assert(ref_views(acc@) =~= discover_step(
                                discover_upto(cs, i as int),
                                cs[i as int],
                            ));
                        }
                    },
                    Some(k) => {
                        let old_p = acc[k].format.priority();
                        let new_p = item.format.priority();
                        if new_p < old_p {
                            acc.set(k, item);
                            proof {
                                assert(ref_views(acc@) =~= discover_step(
                                    discover_upto(cs, i as int),
                                    cs[i as int],
                                ));
                            }
                        } else {
                            proof {
                                assert(ref_views(acc@) =~= discover_step(
                                    discover_upto(cs, i as int),
                                    cs[i as int],
                                ));
                            }
                        }
                    },
                }
            },
        }
        i = i + 1;
        proof {
            assert(ref_views(acc@) == discover_upto(cs, i as int));
        }
    }
    proof {
        assert(cs.len() == children@.len());
    }
    acc
}

/// Resolve a manifest identifier to its format and path: first by exact
/// identifier, then — when the identifier carries an extension — by path
/// suffix.
pub fn resolve_manifest_id(manifest_id: &str, available: &Vec<ManifestRef>) -> (r: Option<
    (ManifestFormat, String),
>)
    ensures
        match r {
            Some((f, p)) => exists|k: int|
                {
                    &&& 0 <= k < available@.len()
                    &&& f == (#[trigger] available@[k]).format
                    &&& p@ == available@[k].path@
                    &&& (available@[k].id@ == manifest_id@ || seq_ends_with(
                        available@[k].path@,
                        manifest_id@,
                    ))
                },
            None => (forall|k: int|
                0 <= k < available@.len() ==> (#[trigger] available@[k]).id@ != manifest_id@),
        },
{
    let id_chars = str_to_chars(manifest_id);
    let mut k: usize = 0;
    while k < available.len()
        invariant
            k <= available@.len(),
            id_chars@ == manifest_id@,
            forall|j: int| 0 <= j < k ==> (#[trigger] available@[j]).id@ != manifest_id@,
        decreases available@.len() - k,
    {
        if chars_eq_str(&id_chars, available[k].id.as_str()) {
            let f = available[k].format;
            let p = String::from_str(available[k].path.as_str());
            return Some((f, p));
        }
        k = k + 1;
    }
    if contains_dot(&id_chars) {
        let mut j: usize = 0;
        while j < available.len()
            invariant
                j <= available@.len(),
                id_chars@ == manifest_id@,
                forall|q: int| 0 <= q < available@.len() ==> (#[trigger] available@[q]).id@
                    != manifest_id@,
            decreases available@.len() - j,
        {
            let path_chars = str_to_chars(available[j].path.as_str());
            if chars_ends_with(&path_chars, &id_chars) {
                let f = available[j].format;
                let p = String::from_str(available[j].path.as_str());
                return Some((f, p));
            }
            j = j + 1;
        }
    }
    None
}

fn contains_dot(v: &Vec<char>) -> (r: bool) {
    match ffind_char(v, '.') {
        Some(_) => true,
        None => false,
    }
}

/// The outcome of validating one manifest entry against the tree.
pub ghost enum EntryOutcome {
    /// Blank after trimming: silently dropped.
    Blank,
    /// Not a `.mdc` file: a warning.
    Warned(Seq<char>),
    /// A `.mdc` file present in the tree: valid.
    Valid(Seq<char>),
    /// A `.mdc` file missing from the tree: an error.
    Missing(Seq<char>),
}

/// A path exists in the tree: its parent directory's children contain a
/// node with exactly that path.
pub open spec fn file_in_tree(tree: &RepoTree, path: Seq<char>) -> bool {
    exists|k: int|
        0 <= k < tree.children_views(dir_key_of(path)).len() && (#[trigger] tree.children_views(
            dir_key_of(path),
        )[k]).path == path
}

/// How one entry is classified: trimmed first; blank entries are dropped,
/// non-`.mdc` entries draw a warning, `.mdc` entries are valid when the
/// tree holds them and an error otherwise.
pub open spec fn classify_entry_spec(tree: &RepoTree, raw: Seq<char>) -> EntryOutcome {
    let e = trim_spec(raw);
    if e.len() == 0 {
        EntryOutcome::Blank
    } else if !seq_ends_with(e, ".mdc"@) {
        EntryOutcome::Warned("Non-.mdc file ignored: "@ + e)
    } else if file_in_tree(tree, e) {
        EntryOutcome::Valid(e)
    } else {
        EntryOutcome::Missing("File not found in repository: "@ + e)
    }
}

fn file_exists_in_repo(path: &Vec<char>, tree: &RepoTree) -> (r: bool)
    requires
        tree.wf(),
    ensures
        r == file_in_tree(tree, path@),
{
    let dir = chars_to_string(&crate::strutil::dir_key_chars(path));
    let children = tree.children(dir.as_str());
    let ghost cs = tree.children_views(dir_key_of(path@));
    let mut k: usize = 0;
    while k < children.len()
        invariant
            cs == tree.children_views(dir_key_of(path@)),
            children@ == lookup_groups(tree.groups@, dir_key_of(path@)),
            cs.len() == children@.len(),
            k <= children@.len(),
            forall|j: int| 0 <= j < k ==> (#[trigger] cs[j]).path != path@,
        decreases children@.len() - k,
    {
        proof {
            assert(cs[k as int] == (children@[k as int])@);
        }
        if chars_eq_str(path, children[k].path.as_str()) {
            return true;
        }
        k = k + 1;
    }
    false
}

/// The three result lists of entry validation, in order.
pub ghost struct ValidationView {
    pub valid: Seq<Seq<char>>,
    pub errors: Seq<Seq<char>>,
    pub warnings: Seq<Seq<char>>,
}

/// One validation step: the entry's classification appends to exactly one
/// of the three lists (blank entries touch none).
pub open spec fn validation_step(
    acc: ValidationView,
    tree: &RepoTree,
    raw: Seq<char>,
) -> ValidationView {
    match classify_entry_spec(tree, raw) {
        EntryOutcome::Blank => acc,
        EntryOutcome::Warned(w) => ValidationView { warnings: acc.warnings.push(w), ..acc },
        EntryOutcome::Valid(e) => ValidationView { valid: acc.valid.push(e), ..acc },
        EntryOutcome::Missing(m) => ValidationView { errors: acc.errors.push(m), ..acc },
    }
}

/// Validation folded over the first `i` entries.
pub open spec fn validation_upto(tree: &RepoTree, entries: Seq<String>, i: int) -> ValidationView
    decreases i,
{
    if i <= 0 {
        ValidationView {
            valid: Seq::<Seq<char>>::empty(),
            errors: Seq::<Seq<char>>::empty(),
            warnings: Seq::<Seq<char>>::empty(),
        }
    } else {
        validation_step(validation_upto(tree, entries, i - 1), tree, entries[i - 1]@)
    }
}

/// The full validation result for a list of entries.
pub open spec fn validation_of(tree: &RepoTree, entries: Seq<String>) -> ValidationView {
    validation_upto(tree, entries, entries.len() as int)
}

/// Validate manifest entries against a populated repository tree.
///
/// Returns `(valid, errors, warnings)`, exactly the fold of the per-entry
/// classification in input order: every entry is trimmed; blank entries
/// are dropped; entries that are not `.mdc` files append a warning; `.mdc`
/// entries append to the valid list when the tree holds them, and an error
/// otherwise. Nothing else enters any of the three lists.
pub fn validate_manifest_entries(entries: &Vec<String>, tree: &RepoTree) -> (r: (
    Vec<String>,
    Vec<String>,
    Vec<String>,
))
    requires
        tree.wf(),
    ensures
        str_views(r.0@) == validation_of(tree, entries@).valid,
        str_views(r.1@) == validation_of(tree, entries@).errors,
        str_views(r.2@) == validation_of(tree, entries@).warnings,
{
    let mut valid: Vec<String> = Vec::new();
    let mut errors: Vec<String> = Vec::new();
    let mut warnings: Vec<String> = Vec::new();
    let mut i: usize = 0;
    proof {
        assert(str_views(Seq::<String>::empty()) =~= Seq::<Seq<char>>::empty());
    }
    while i < entries.len()
        invariant
            tree.wf(),
            i <= entries@.len(),
            str_views(valid@) == validation_upto(tree, entries@, i as int).valid,
            str_views(errors@) == validation_upto(tree, entries@, i as int).errors,
            str_views(warnings@) == validation_upto(tree, entries@, i as int).warnings,
        decreases entries@.len() - i,
    {
        let raw = str_to_chars(entries[i].as_str());
        let e = trim_chars(&raw);
        let ghost valid0 = str_views(valid@);
        let ghost errors0 = str_views(errors@);
        let ghost warnings0 = str_views(warnings@);
        let ghost cls = classify_entry_spec(tree, entries@[i as int]@);
        if e.len() == 0 {
            proof {
                assert(cls is Blank);
            }
        } else if !chars_ends_with(&e, &str_to_chars(".mdc")) {
            let mut w = String::from_str("Non-.mdc file ignored: ");
            let es = chars_to_string(&e);
            w.append(es.as_str());
            warnings.push(w);
            proof {
                assert(str_views(warnings@) =~= warnings0.push("Non-.mdc file ignored: "@ + e@));
                assert(cls == EntryOutcome::Warned("Non-.mdc file ignored: "@ + e@));
            }
        } else if file_exists_in_repo(&e, tree) {
            let es = chars_to_string(&e);
            valid.push(es);
            proof {
                assert(str_views(valid@) =~= valid0.push(e@));
                assert(cls == EntryOutcome::Valid(e@));
            }
        } else {
            let mut m = String::from_str("File not found in repository: ");
            let es = chars_to_string(&e);
            m.append(es.as_str());
            errors.push(m);
            proof {
                assert(str_views(errors@) =~= errors0.push("File not found in repository: "@
                    + e@));
                assert(cls == EntryOutcome::Missing("File not found in repository: "@ + e@));
            }
        }
        i = i + 1;
        proof {
            assert(str_views(valid@) == validation_upto(tree, entries@, i as int).valid);
            assert(str_views(errors@) == validation_upto(tree, entries@, i as int).errors);
            assert(str_views(warnings@) == validation_upto(tree, entries@, i as int).warnings);
        }
    }
    (valid, errors, warnings)
}

/// Assemble a manifest from a parsed schema's pieces, validating the rule
/// entries against the tree.
pub fn manifest_from_parts(
    name: String,
    description: Option<String>,
    entries: &Vec<String>,
    tree: &RepoTree,
) -> (r: Manifest)
    requires
        tree.wf(),
    ensures
        r.name == name,
        r.description == description,
        str_views(r.entries@) == validation_of(tree, entries@).valid,
        str_views(r.errors@) == validation_of(tree, entries@).errors,
        str_views(r.warnings@) == validation_of(tree, entries@).warnings,
{
    let (valid, errors, warnings) = validate_manifest_entries(entries, tree);
    Manifest { name, description, entries: valid, errors, warnings }
}

} // verus!
