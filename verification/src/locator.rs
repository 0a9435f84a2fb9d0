//! Identity of a remote repository and its validation rules.

use vstd::prelude::*;

verus! {

/// Uniquely identifies a repository and branch; used as the unit of cache
/// partitioning and freshness tracking.
#[derive(Debug, Clone, PartialEq, Eq)]
pub struct RepoLocator {
    pub owner: String,
    pub repo: String,
    pub branch: String,
}

/// Mathematical view of a `RepoLocator`.
pub ghost struct LocatorView {
    pub owner: Seq<char>,
    pub repo: Seq<char>,
    pub branch: Seq<char>,
}

impl View for RepoLocator {
    type V = LocatorView;

    open spec fn view(&self) -> LocatorView {
        LocatorView { owner: self.owner@, repo: self.repo@, branch: self.branch@ }
    }
}

/// Errors that can occur while resolving a repository.
#[derive(Debug)]
pub enum RepoDiscoveryError {
    /// Automatic owner inference failed in non-interactive mode.
    OwnerNotFound,
    /// The interactive owner prompt was cancelled.
    OwnerPromptCancelled,
    /// The repository does not exist or is not accessible.
    RepoNotFound { owner: String, repo: String },
    /// Any other network-related failure, with its text.
    NetworkError(String),
}

/// The description text of each discovery failure.
pub open spec fn discovery_error_message(e: &RepoDiscoveryError) -> Seq<char> {
    match e {
        RepoDiscoveryError::OwnerNotFound => "unable to determine GitHub owner automatically; set one with `git config --global user.username <login>`"@,
        RepoDiscoveryError::OwnerPromptCancelled => "owner prompt was cancelled by the user"@,
        RepoDiscoveryError::RepoNotFound { owner, repo } => "repository '"@ + owner@ + "/"@
            + repo@ + "' not found or is private"@,
        RepoDiscoveryError::NetworkError(s) => "network error: "@ + s@,
    }
}

impl RepoDiscoveryError {
    /// A human-readable description of the failure.
    pub fn message(&self) -> (r: String)
        ensures
            r@ == discovery_error_message(self),
    {
        match self {
            RepoDiscoveryError::OwnerNotFound => String::from_str(
                "unable to determine GitHub owner automatically; set one with `git config --global user.username <login>`",
            ),
            RepoDiscoveryError::OwnerPromptCancelled => String::from_str(
                "owner prompt was cancelled by the user",
            ),
            RepoDiscoveryError::RepoNotFound { owner, repo } => {
                let mut s = String::from_str("repository '");
                s.append(owner.as_str());
                s.append("/");
                s.append(repo.as_str());
                s.append("' not found or is private");
                proof {
                    assert(s@ =~= discovery_error_message(self));
                }
                s
            },
            RepoDiscoveryError::NetworkError(e) => {
                let mut s = String::from_str("network error: ");
                s.append(e.as_str());
                s
            },
        }
    }
}

/// A character allowed in repository and login names.
pub open spec fn is_name_char(c: char) -> bool {
    ('A' <= c && c <= 'Z') || ('a' <= c && c <= 'z') || ('0' <= c && c <= '9') || c == '.' || c
        == '_' || c == '-'
}

/// A valid name: non-empty and made of allowed characters only.
pub open spec fn is_valid_name(s: Seq<char>) -> bool {
    s.len() > 0 && forall|i: int| 0 <= i < s.len() ==> is_name_char(#[trigger] s[i])
}

fn name_char_check(c: char) -> (r: bool)
    ensures
        r == is_name_char(c),
{
    ('A' <= c && c <= 'Z') || ('a' <= c && c <= 'z') || ('0' <= c && c <= '9') || c == '.' || c
        == '_' || c == '-'
}

/// Whether `name` satisfies the naming constraints for repositories and
/// owner logins (letters, digits, `.`, `_`, `-`; non-empty).
pub fn is_valid_login(name: &str) -> (r: bool)
    ensures
        r == is_valid_name(name@),
{
    let n: usize = name.unicode_len();
    if n == 0 {
        return false;
    }
    let mut i: usize = 0;
    while i < n
        invariant
            n == name@.len(),
            i <= n,
            forall|j: int| 0 <= j < i ==> is_name_char(#[trigger] name@[j]),
        decreases n - i,
    {
        if !name_char_check(name.get_char(i)) {
            return false;
        }
        i = i + 1;
    }
    true
}

/// Check a repository name against the naming constraints, reporting a
/// descriptive error when it is violated.
pub fn validate_repo_name(name: &str) -> (r: Result<(), String>)
    ensures
        r is Ok <==> is_valid_name(name@),
{
    if is_valid_login(name) {
        Ok(())
    } else {
        let mut s = String::from_str("repository name '");
        s.append(name);
        s.append("' violates GitHub naming constraints");
        Err(s)
    }
}

} // verus!
