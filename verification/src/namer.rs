//! Derivation of a non-colliding local filename for the rename strategy.
//!
//! Candidates `name(1).ext`, `name(2).ext`, ... are tried in order against a
//! listing of the names already present in the destination directory; after
//! 1000 attempts a tag-suffixed fallback `name-tag.ext` is used. The original
//! extension (including a missing one) is preserved exactly.

use vstd::prelude::*;
use crate::strutil::{
    chars_slice, chars_to_string, dec_digits, last_index_of, lemma_last_index_of_bounds, rfind_char,
    str_to_chars, u64_to_dec_chars,
};

verus! {

/// The part of a filename before its last `.` (the whole name when it has
/// no dot).
pub open spec fn stem_of(name: Seq<char>) -> Seq<char> {
    if last_index_of(name, '.') < 0 {
        name
    } else {
        name.subrange(0, last_index_of(name, '.'))
    }
}

/// The part of a filename from its last `.` on (empty when it has no dot).
pub open spec fn ext_of(name: Seq<char>) -> Seq<char> {
    if last_index_of(name, '.') < 0 {
        Seq::<char>::empty()
    } else {
        name.subrange(last_index_of(name, '.'), name.len() as int)
    }
}

/// The `i`-th numbered candidate: `stem(i)ext`.
pub open spec fn candidate_of(name: Seq<char>, i: nat) -> Seq<char> {
    stem_of(name) + seq!['('] + dec_digits(i) + seq![')'] + ext_of(name)
}

/// The tag-suffixed fallback name: `stem-tag.ext`.
pub open spec fn fallback_of(name: Seq<char>, tag: nat) -> Seq<char> {
    stem_of(name) + seq!['-'] + dec_digits(tag) + ext_of(name)
}

/// `cand` occurs in the directory listing.
pub open spec fn in_listing(existing: Seq<String>, cand: Seq<char>) -> bool {
    exists|j: int| 0 <= j < existing.len() && existing[j]@ == cand
}

/// The first numbered candidate at or after `i` that is not in the listing,
/// or the fallback once the numbering budget (1000) is exhausted.
pub open spec fn first_free_from(
    name: Seq<char>,
    existing: Seq<String>,
    tag: nat,
    i: nat,
) -> Seq<char>
    decreases 1001 - i,
{
    if i > 1000 {
        fallback_of(name, tag)
    } else if !in_listing(existing, candidate_of(name, i)) {
        candidate_of(name, i)
    } else {
        first_free_from(name, existing, tag, i + 1)
    }
}

/// The name chosen for a conflicting `name`, given the directory listing and
/// the fallback tag.
pub open spec fn unique_name_spec(name: Seq<char>, existing: Seq<String>, tag: nat) -> Seq<char> {
    first_free_from(name, existing, tag, 1)
}

/// Membership test against the listing.
pub fn listing_contains(existing: &Vec<String>, cand: &String) -> (r: bool)
    ensures
        r == in_listing(existing@, cand@),
{
    let mut j: usize = 0;
    while j < existing.len()
        invariant
            j <= existing@.len(),
            forall|k: int| 0 <= k < j ==> existing@[k]@ != cand@,
        decreases existing@.len() - j,
    {
        if existing[j].eq(cand) {
            return true;
        }
        j = j + 1;
    }
    false
}

fn split_stem_ext(name: &Vec<char>) -> (r: (Vec<char>, Vec<char>))
    ensures
        r.0@ == stem_of(name@),
        r.1@ == ext_of(name@),
{
    proof {
        lemma_last_index_of_bounds(name@, '.');
    }
    let n: usize = name.len();
    match rfind_char(name, '.') {
        Some(i) => (chars_slice(name, 0, i), chars_slice(name, i, n)),
        None => {
            let whole = chars_slice(name, 0, n);
            proof {
                assert(whole@ =~= name@);
            }
            (whole, Vec::new())
        },
    }
}

fn build_candidate(stem: &Vec<char>, ext: &Vec<char>, i: u64) -> (r: Vec<char>)
    ensures
        r@ == stem@ + seq!['('] + dec_digits(i as nat) + seq![')'] + ext@,
{
    let mut out: Vec<char> = Vec::new();
    out.extend_from_slice(stem.as_slice());
    out.push('(');
    let digits = u64_to_dec_chars(i);
    out.extend_from_slice(digits.as_slice());
    out.push(')');
    out.extend_from_slice(ext.as_slice());
    proof {
        assert(out@ =~= stem@ + seq!['('] + dec_digits(i as nat) + seq![')'] + ext@);
    }
    out
}

/// Choose a filename that does not collide with the directory listing.
///
/// `fallback_tag` is only used once all 1000 numbered candidates collide
/// (callers typically pass a timestamp).
pub fn generate_unique_filename(base_name: &str, existing: &Vec<String>, fallback_tag: u64) -> (r:
    String)
    ensures
        r@ == unique_name_spec(base_name@, existing@, fallback_tag as nat),
{
    let name = str_to_chars(base_name);
    let (stem, ext) = split_stem_ext(&name);
    let mut i: u64 = 1;
    while i <= 1000
        invariant
            1 <= i <= 1001,
            stem@ == stem_of(name@),
            ext@ == ext_of(name@),
            name@ == base_name@,
            unique_name_spec(base_name@, existing@, fallback_tag as nat) == first_free_from(
                base_name@,
                existing@,
                fallback_tag as nat,
                i as nat,
            ),
        decreases 1001 - i,
    {
        let cand_chars = build_candidate(&stem, &ext, i);
        let cand = chars_to_string(&cand_chars);
        proof {
            assert(cand@ == candidate_of(base_name@, i as nat));
        }
        if !listing_contains(existing, &cand) {
            return cand;
        }
        i = i + 1;
    }
    let mut fb: Vec<char> = Vec::new();
    fb.extend_from_slice(stem.as_slice());
    fb.push('-');
    let digits = u64_to_dec_chars(fallback_tag);
    fb.extend_from_slice(digits.as_slice());
    fb.extend_from_slice(ext.as_slice());
    proof {
        assert(fb@ =~= fallback_of(base_name@, fallback_tag as nat));
    }
    chars_to_string(&fb)
}

} // verus!
