//! Validation of remote entry names before they are mapped to local paths.
//!
//! Remote paths come from arbitrary repository content, so every entry is
//! checked before any filesystem work: traversal segments, absolute paths,
//! reserved device names and null bytes are all rejected with a distinct
//! error rather than silently sanitised.

use vstd::prelude::*;
use crate::strutil::{
    basename_of, chars_contain_char, chars_contains, chars_eq_str, chars_slice, contains_char,
    ffind_char, first_index_of, lower_seq, seq_contains, str_to_chars, to_lower_chars,
};

verus! {

/// The reason an entry was rejected.
#[derive(Debug, Clone, Copy, PartialEq, Eq, Structural)]
pub enum PathSafetyError {
    /// The source entry contains a `..` traversal segment.
    Traversal,
    /// The source entry is an absolute path (leading `/` or a drive pattern).
    AbsolutePath,
    /// The destination filename is a reserved device name.
    ReservedName,
    /// The destination filename contains a null byte.
    NullByte,
}

/// The description text of each violation.
pub open spec fn safety_message(v: PathSafetyError) -> Seq<char> {
    match v {
        PathSafetyError::Traversal => "path traversal attempt detected: source contains '..'"@,
        PathSafetyError::AbsolutePath => "path traversal attempt detected: absolute path in source"@,
        PathSafetyError::ReservedName => "filename contains windows reserved name"@,
        PathSafetyError::NullByte => "filename contains null byte"@,
    }
}

impl PathSafetyError {
    /// A human-readable description of the violation.
    pub fn message(&self) -> (r: String)
        ensures
            r@ == safety_message(*self),
    {
        match self {
            PathSafetyError::Traversal => String::from_str(
                "path traversal attempt detected: source contains '..'",
            ),
            PathSafetyError::AbsolutePath => String::from_str(
                "path traversal attempt detected: absolute path in source",
            ),
            PathSafetyError::ReservedName => String::from_str(
                "filename contains windows reserved name",
            ),
            PathSafetyError::NullByte => String::from_str("filename contains null byte"),
        }
    }
}

/// The entry contains a `..` segment anywhere.
pub open spec fn has_traversal(entry: Seq<char>) -> bool {
    seq_contains(entry, seq!['.', '.'])
}

/// The entry is an absolute path: leading `/` or a `:\` drive pattern.
pub open spec fn is_absolute_entry(entry: Seq<char>) -> bool {
    (entry.len() > 0 && entry[0] == '/') || seq_contains(entry, seq![':', '\\'])
}

/// The part of a filename before its first `.` (the whole name when it has
/// no dot).
pub open spec fn name_before_dot(name: Seq<char>) -> Seq<char> {
    if first_index_of(name, '.') < 0 {
        name
    } else {
        name.subrange(0, first_index_of(name, '.'))
    }
}

/// `n` is one of the reserved device names, given in lower case:
/// `con`, `prn`, `aux`, `nul`, `com1`-`com9`, `lpt1`-`lpt9`.
pub open spec fn is_reserved_base(n: Seq<char>) -> bool {
    ||| n == seq!['c', 'o', 'n']
    ||| n == seq!['p', 'r', 'n']
    ||| n == seq!['a', 'u', 'x']
    ||| n == seq!['n', 'u', 'l']
    ||| (n.len() == 4 && (n.subrange(0, 3) == seq!['c', 'o', 'm'] || n.subrange(0, 3)
        == seq!['l', 'p', 't']) && '1' <= n[3] && n[3] <= '9')
}

/// The filename, lower-cased and cut at its first dot, is reserved.
pub open spec fn has_reserved_name(filename: Seq<char>) -> bool {
    is_reserved_base(name_before_dot(lower_seq(filename)))
}

/// The filename contains a null byte.
pub open spec fn has_null_byte(filename: Seq<char>) -> bool {
    contains_char(filename, '\0')
}

/// The entry/filename pair passes every safety rule.
pub open spec fn path_is_safe(entry: Seq<char>, filename: Seq<char>) -> bool {
    &&& !has_traversal(entry)
    &&& !is_absolute_entry(entry)
    &&& !has_reserved_name(filename)
    &&& !has_null_byte(filename)
}

fn reserved_base_check(n: &Vec<char>) -> (r: bool)
    ensures
        r == is_reserved_base(n@),
{
    if chars_eq_str(n, "con") || chars_eq_str(n, "prn") || chars_eq_str(n, "aux")
        || chars_eq_str(n, "nul") {
        proof {
            reveal_strlit("con");
            reveal_strlit("prn");
            reveal_strlit("aux");
            reveal_strlit("nul");
            assert("con"@ =~= seq!['c', 'o', 'n']);
            assert("prn"@ =~= seq!['p', 'r', 'n']);
            assert("aux"@ =~= seq!['a', 'u', 'x']);
            assert("nul"@ =~= seq!['n', 'u', 'l']);
        }
        return true;
    }
    proof {
        reveal_strlit("con");
        reveal_strlit("prn");
        reveal_strlit("aux");
        reveal_strlit("nul");
        assert("con"@ =~= seq!['c', 'o', 'n']);
        assert("prn"@ =~= seq!['p', 'r', 'n']);
        assert("aux"@ =~= seq!['a', 'u', 'x']);
        assert("nul"@ =~= seq!['n', 'u', 'l']);
    }
    if n.len() == 4 {
        let head = chars_slice(n, 0, 3);
        let is_com = chars_eq_str(&head, "com");
        let is_lpt = chars_eq_str(&head, "lpt");
        proof {
            reveal_strlit("com");
            reveal_strlit("lpt");
            assert("com"@ =~= seq!['c', 'o', 'm']);
            assert("lpt"@ =~= seq!['l', 'p', 't']);
        }
        if (is_com || is_lpt) && '1' <= n[3] && n[3] <= '9' {
            return true;
        }
        return false;
    }
    false
}

/// Validate a remote entry and the local filename derived from it.
///
/// Returns `Ok(())` exactly when every rule passes; otherwise the first
/// violated rule, checked in the order: traversal, absolute path, reserved
/// name, null byte.
pub fn validate_safe_path(source_entry: &str, filename: &str) -> (r: Result<
    (),
    PathSafetyError,
>)
    ensures
        match r {
            Ok(()) => path_is_safe(source_entry@, filename@),
            Err(e) => match e {
                PathSafetyError::Traversal => has_traversal(source_entry@),
                PathSafetyError::AbsolutePath => !has_traversal(source_entry@)
                    && is_absolute_entry(source_entry@),
                PathSafetyError::ReservedName => !has_traversal(source_entry@)
                    && !is_absolute_entry(source_entry@) && has_reserved_name(filename@),
                PathSafetyError::NullByte => !has_traversal(source_entry@) && !is_absolute_entry(
                    source_entry@,
                ) && !has_reserved_name(filename@) && has_null_byte(filename@),
            },
        },
{
    let entry = str_to_chars(source_entry);
    let dots: Vec<char> = vec!['.', '.'];
    proof {
        assert(dots@ =~= seq!['.', '.']);
    }
    if chars_contains(&entry, &dots) {
        return Err(PathSafetyError::Traversal);
    }
    let drive: Vec<char> = vec![':', '\\'];
    proof {
        assert(drive@ =~= seq![':', '\\']);
    }
    if (entry.len() > 0 && entry[0] == '/') || chars_contains(&entry, &drive) {
        return Err(PathSafetyError::AbsolutePath);
    }
    let name = str_to_chars(filename);
    let lower = to_lower_chars(&name);
    let base = match ffind_char(&lower, '.') {
        Some(i) => chars_slice(&lower, 0, i),
        None => lower,
    };
    if reserved_base_check(&base) {
        return Err(PathSafetyError::ReservedName);
    }
    if chars_contain_char(&name, '\0') {
        return Err(PathSafetyError::NullByte);
    }
    Ok(())
}

} // verus!
