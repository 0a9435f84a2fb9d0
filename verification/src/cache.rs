//! Layout, keying and freshness rules of the persistent repository cache.
//!
//! The cache root holds one partition per repository, keyed by a SHA-1
//! fingerprint of `owner/repo`. A partition holds `meta.json` (metadata with
//! the fetch time and validators), `tree/tree.json` (the serialized node
//! list), a `blobs/` directory of content files and a `.lock` marker for
//! advisory locking. This module computes the paths and keys and decides
//! freshness and corruption handling; reading and writing the files is the
//! caller's part.

use vstd::prelude::*;
use sha1::{Digest, Sha1};
use crate::locator::RepoLocator;
use crate::strutil::chars_to_string;
use crate::tree::{views_of, NodeView, RepoNode};

verus! {

/// The SHA-1 digest (20 bytes) of a string's UTF-8 encoding.
pub uninterp spec fn sha1_of(s: Seq<char>) -> Seq<u8>;

/// Relies on the `sha1` crate (`Sha1::new`/`update`/`finalize`): the digest
/// is a function of the input bytes alone and is 20 bytes long.
#[verifier::external_body]
fn sha1_digest(s: &str) -> (r: Vec<u8>)
    ensures
        r@ == sha1_of(s@),
        r@.len() == 20,
{
    let mut hasher = Sha1::new();
    hasher.update(s.as_bytes());
    hasher.finalize().to_vec()
}

/// The lower-case hex digit for a value below sixteen.
pub open spec fn hex_digit(d: nat) -> char
    recommends
        d < 16,
{
    if d == 0 { '0' }
    else if d == 1 { '1' }
    else if d == 2 { '2' }
    else if d == 3 { '3' }
    else if d == 4 { '4' }
    else if d == 5 { '5' }
    else if d == 6 { '6' }
    else if d == 7 { '7' }
    else if d == 8 { '8' }
    else if d == 9 { '9' }
    else if d == 10 { 'a' }
    else if d == 11 { 'b' }
    else if d == 12 { 'c' }
    else if d == 13 { 'd' }
    else if d == 14 { 'e' }
    else { 'f' }
}

fn hex_digit_of(d: u8) -> (r: char)
    requires
        d < 16,
    ensures
        r == hex_digit(d as nat),
{
    if d == 0 { '0' }
    else if d == 1 { '1' }
    else if d == 2 { '2' }
    else if d == 3 { '3' }
    else if d == 4 { '4' }
    else if d == 5 { '5' }
    else if d == 6 { '6' }
    else if d == 7 { '7' }
    else if d == 8 { '8' }
    else if d == 9 { '9' }
    else if d == 10 { 'a' }
    else if d == 11 { 'b' }
    else if d == 12 { 'c' }
    else if d == 13 { 'd' }
    else if d == 14 { 'e' }
    else { 'f' }
}

/// Two lower-case hex digits per byte, in order.
pub open spec fn hex_of_bytes(bs: Seq<u8>) -> Seq<char>
    decreases bs.len(),
{
    if bs.len() == 0 {
        Seq::<char>::empty()
    } else {
        hex_of_bytes(bs.drop_last()) + seq![
            hex_digit((bs.last() / 16) as nat),
            hex_digit((bs.last() % 16) as nat),
        ]
    }
}

/// Render bytes as lower-case hex.
pub fn bytes_to_hex(bs: &Vec<u8>) -> (r: Vec<char>)
    ensures
        r@ == hex_of_bytes(bs@),
        r@.len() == 2 * bs@.len(),
{
    let mut out: Vec<char> = Vec::new();
    let mut i: usize = 0;
    while i < bs.len()
        invariant
            i <= bs@.len(),
            out@ == hex_of_bytes(bs@.subrange(0, i as int)),
            out@.len() == 2 * i,
        decreases bs@.len() - i,
    {
        let b: u8 = bs[i];
        out.push(hex_digit_of(b / 16));
        out.push(hex_digit_of(b % 16));
        i = i + 1;
        proof {
            let pre = bs@.subrange(0, i as int);
            assert(pre.drop_last() =~= bs@.subrange(0, i - 1));
            assert(pre.last() == b);
            assert(out@ =~= hex_of_bytes(pre));
        }
    }
    proof {
        assert(bs@.subrange(0, bs@.len() as int) =~= bs@);
    }
    out
}

/// The fingerprint of `owner/repo`: hex of its SHA-1 digest.
pub open spec fn cache_key_of(owner: Seq<char>, repo: Seq<char>) -> Seq<char> {
    hex_of_bytes(sha1_of(owner + seq!['/'] + repo))
}

/// Compute the 40-character fingerprint that names a repository's cache
/// partition.
pub fn compute_cache_key(owner: &str, repo: &str) -> (r: String)
    ensures
        r@ == cache_key_of(owner@, repo@),
        r@.len() == 40,
{
    let mut joined = String::from_str(owner);
    joined.append("/");
    joined.append(repo);
    proof {
        reveal_strlit("/");
        assert("/"@ =~= seq!['/']);
        assert(joined@ =~= owner@ + seq!['/'] + repo@);
    }
    let digest = sha1_digest(joined.as_str());
    let hex = bytes_to_hex(&digest);
    chars_to_string(&hex)
}

/// The fingerprint used to key a blob: hex SHA-1 of `repo/path`.
pub open spec fn blob_key_of(repo: Seq<char>, path: Seq<char>) -> Seq<char> {
    hex_of_bytes(sha1_of(repo + seq!['/'] + path))
}

/// Compute the fingerprint that keys the cached content of one remote file.
pub fn compute_blob_key(repo: &str, path: &str) -> (r: String)
    ensures
        r@ == blob_key_of(repo@, path@),
        r@.len() == 40,
{
    let mut joined = String::from_str(repo);
    joined.append("/");
    joined.append(path);
    proof {
        reveal_strlit("/");
        assert("/"@ =~= seq!['/']);
        assert(joined@ =~= repo@ + seq!['/'] + path@);
    }
    let digest = sha1_digest(joined.as_str());
    let hex = bytes_to_hex(&digest);
    chars_to_string(&hex)
}

/// Cache expiry: snapshots older than this many seconds are stale.
pub const CACHE_TTL_SECS: u64 = 24 * 3600;

/// Metadata stored beside a cached tree snapshot.
#[derive(Debug, Clone, PartialEq)]
pub struct CacheMetadata {
    /// When the snapshot was fetched, in seconds since the Unix epoch.
    pub fetched_at: u64,
    /// Entity tag from the remote response, for conditional refresh.
    pub etag: Option<String>,
    /// Last-Modified header from the remote response.
    pub last_modified: Option<String>,
    pub owner: String,
    pub repo: String,
    pub branch: String,
}

/// Mathematical view of `CacheMetadata`.
pub ghost struct MetaView {
    pub fetched_at: u64,
    pub etag: Option<Seq<char>>,
    pub last_modified: Option<Seq<char>>,
    pub owner: Seq<char>,
    pub repo: Seq<char>,
    pub branch: Seq<char>,
}

impl View for CacheMetadata {
    type V = MetaView;

    open spec fn view(&self) -> MetaView {
        MetaView {
            fetched_at: self.fetched_at,
            etag: match self.etag {
                Some(ref e) => Some(e@),
                None => None,
            },
            last_modified: match self.last_modified {
                Some(ref l) => Some(l@),
                None => None,
            },
            owner: self.owner@,
            repo: self.repo@,
            branch: self.branch@,
        }
    }
}

/// Strict freshness: `now < fetched_at + TTL`.
pub open spec fn fresh_at(fetched_at: u64, now: u64) -> bool {
    (now as int) < fetched_at as int + CACHE_TTL_SECS as int
}

impl CacheMetadata {
    /// Whether this metadata is fresh at time `now` (seconds since epoch).
    pub fn is_fresh(&self, now: u64) -> (r: bool)
        ensures
            r == fresh_at(self.fetched_at, now),
    {
        if now < self.fetched_at {
            true
        } else {
            now - self.fetched_at < CACHE_TTL_SECS
        }
    }
}

/// Metadata freshness for all metadata and clock values: metadata fetched
/// right now is fresh, and metadata fetched 25 hours ago (or longer) is
/// stale under the 24-hour TTL.
pub proof fn lemma_freshness(fetched_at: u64, now: u64)
    ensures
        fresh_at(now, now),
        now >= 25 * 3600 && fetched_at <= now - 25 * 3600 ==> !fresh_at(fetched_at, now),
{
}

/// Layout of the persistent cache on disk: partition directories under a
/// root, with fixed member names.
pub struct FileSystemCache {
    /// The cache root directory.
    pub cache_root: String,
}

impl View for FileSystemCache {
    type V = Seq<char>;

    open spec fn view(&self) -> Seq<char> {
        self.cache_root@
    }
}

impl FileSystemCache {
    /// A cache handle rooted at the given directory (the caller resolves
    /// the platform cache directory and creates it).
    pub fn new(cache_root: String) -> (r: Self)
        ensures
            r@ == cache_root@,
    {
        FileSystemCache { cache_root }
    }

    /// The partition directory for a repository.
    pub fn get_repo_cache_dir(&self, locator: &RepoLocator) -> (r: String)
        ensures
            r@ == self@ + seq!['/'] + cache_key_of(locator.owner@, locator.repo@),
    {
        let key = compute_cache_key(locator.owner.as_str(), locator.repo.as_str());
        let mut dir = String::from_str(self.cache_root.as_str());
        dir.append("/");
        dir.append(key.as_str());
        proof {
            reveal_strlit("/");
            assert("/"@ =~= seq!['/']);
            assert(dir@ =~= self@ + seq!['/'] + cache_key_of(locator.owner@, locator.repo@));
        }
        dir
    }

    /// The metadata file of a partition.
    pub fn get_metadata_path(&self, locator: &RepoLocator) -> (r: String)
        ensures
            r@ == self@ + seq!['/'] + cache_key_of(locator.owner@, locator.repo@)
                + "/meta.json"@,
    {
        let mut p = self.get_repo_cache_dir(locator);
        p.append("/meta.json");
        p
    }

    /// The serialized tree snapshot of a partition.
    pub fn get_tree_cache_path(&self, locator: &RepoLocator) -> (r: String)
        ensures
            r@ == self@ + seq!['/'] + cache_key_of(locator.owner@, locator.repo@)
                + "/tree/tree.json"@,
    {
        let mut p = self.get_repo_cache_dir(locator);
        p.append("/tree/tree.json");
        p
    }

    /// The advisory lock marker of a partition (never read as data).
    pub fn get_lock_path(&self, locator: &RepoLocator) -> (r: String)
        ensures
            r@ == self@ + seq!['/'] + cache_key_of(locator.owner@, locator.repo@) + "/.lock"@,
    {
        let mut p = self.get_repo_cache_dir(locator);
        p.append("/.lock");
        p
    }

    /// The blob file, inside some partition directory, that stores content
    /// under the given fingerprint.
    pub fn blob_path_in(&self, partition_dir: &str, blob_key: &str) -> (r: String)
        ensures
            r@ == partition_dir@ + "/blobs/"@ + blob_key@ + ".mdc"@,
    {
        let mut p = String::from_str(partition_dir);
        p.append("/blobs/");
        p.append(blob_key);
        p.append(".mdc");
        p
    }

    /// Whether cached metadata counts as fresh at time `now`: absent
    /// metadata is never fresh.
    pub fn is_cache_fresh(&self, metadata: Option<&CacheMetadata>, now: u64) -> (r: bool)
        ensures
            r == match metadata {
                Some(m) => fresh_at(m.fetched_at, now),
                None => false,
            },
    {
        match metadata {
            Some(m) => m.is_fresh(now),
            None => false,
        }
    }
}

/// What a tree-cache read must do.
pub enum TreeCacheOutcome {
    /// Serve the decoded snapshot.
    Serve(Vec<RepoNode>),
    /// The stored snapshot is corrupt or invalid: delete the whole
    /// partition, then report a miss.
    MissHeal,
    /// Plain miss (forced refresh, missing or stale metadata, or no stored
    /// snapshot); nothing is deleted.
    Miss,
}

/// The cached snapshot may not be served at all: refresh was forced, or
/// the metadata is missing or stale.
pub open spec fn cache_unusable(force_refresh: bool, meta: Option<MetaView>, now: u64) -> bool {
    force_refresh || match meta {
        Some(m) => !fresh_at(m.fetched_at, now),
        None => true,
    }
}

/// Structural validity of a snapshot: every node carries a non-empty name
/// and a non-empty path.
pub open spec fn snapshot_valid(nv: Seq<NodeView>) -> bool {
    forall|k: int|
        0 <= k < nv.len() ==> (#[trigger] nv[k]).name.len() > 0 && nv[k].path.len() > 0
}

/// Check snapshot validity.
pub fn validate_snapshot(nodes: &Vec<RepoNode>) -> (r: bool)
    ensures
        r == snapshot_valid(views_of(nodes@)),
{
    let ghost nv = views_of(nodes@);
    let mut k: usize = 0;
    while k < nodes.len()
        invariant
            nv == views_of(nodes@),
            nv.len() == nodes@.len(),
            k <= nodes@.len(),
            forall|j: int|
                0 <= j < k ==> (#[trigger] nv[j]).name.len() > 0 && nv[j].path.len() > 0,
        decreases nodes@.len() - k,
    {
        proof {
            assert(nv[k as int] == (nodes@[k as int])@);
        }
        let n = &nodes[k];
        if n.name.as_str().is_empty() || n.path.as_str().is_empty() {
            return false;
        }
        k = k + 1;
    }
    true
}

/// Decide a tree-cache read, given the stored metadata, the clock, and the
/// stored snapshot text (when a snapshot file exists).
///
/// A snapshot is served exactly when refresh was not forced, the metadata
/// is present and fresh, and the text is the canonical encoding of a
/// structurally valid node list — the encoded list itself. Fresh but
/// corrupt or invalid content heals (the caller deletes the whole
/// partition before reporting a miss, so no trace of it survives); in
/// every other case the read is a plain miss.
pub fn evaluate_tree_cache(
    force_refresh: bool,
    metadata: Option<&CacheMetadata>,
    now: u64,
    tree_content: Option<&str>,
) -> (r: TreeCacheOutcome)
    ensures
        match r {
            TreeCacheOutcome::Serve(nodes) => {
                &&& !cache_unusable(
                    force_refresh,
                    match metadata {
                        Some(m) => Some(m@),
                        None => None,
                    },
                    now,
                )
                &&& tree_content matches Some(s) && s@ == crate::codec::nodes_json(
                    views_of(nodes@),
                )
                &&& snapshot_valid(views_of(nodes@))
            },
            TreeCacheOutcome::MissHeal => {
                &&& !cache_unusable(
                    force_refresh,
                    match metadata {
                        Some(m) => Some(m@),
                        None => None,
                    },
                    now,
                )
                &&& tree_content matches Some(s) && !(exists|nv: Seq<NodeView>|
                    s@ == crate::codec::nodes_json(nv) && snapshot_valid(nv))
            },
            TreeCacheOutcome::Miss => cache_unusable(
                force_refresh,
                match metadata {
                    Some(m) => Some(m@),
                    None => None,
                },
                now,
            ) || tree_content is None,
        },
{
    if force_refresh {
        return TreeCacheOutcome::Miss;
    }
    let fresh = match metadata {
        Some(m) => m.is_fresh(now),
        None => false,
    };
    if !fresh {
        return TreeCacheOutcome::Miss;
    }
    let content = match tree_content {
        Some(s) => s,
        None => {
            return TreeCacheOutcome::Miss;
        },
    };
    match crate::codec::decode_nodes(content) {
        Some(nodes) => {
            if validate_snapshot(&nodes) {
                TreeCacheOutcome::Serve(nodes)
            } else {
                proof {
                    assert(!(exists|nv: Seq<NodeView>|
                        content@ == crate::codec::nodes_json(nv) && snapshot_valid(nv))) by {
                        if exists|nv: Seq<NodeView>|
                            content@ == crate::codec::nodes_json(nv) && snapshot_valid(nv) {
                            let nv = choose|nv: Seq<NodeView>|
                                content@ == crate::codec::nodes_json(nv) && snapshot_valid(nv);
                            assert(views_of(nodes@) == nv);
                        }
                    }
                }
                TreeCacheOutcome::MissHeal
            }
        },
        None => {
            proof {
                assert(!(exists|nv: Seq<NodeView>|
                    content@ == crate::codec::nodes_json(nv) && snapshot_valid(nv))) by {
                    if exists|nv: Seq<NodeView>|
                        content@ == crate::codec::nodes_json(nv) && snapshot_valid(nv) {
                        let nv = choose|nv: Seq<NodeView>|
                            content@ == crate::codec::nodes_json(nv) && snapshot_valid(nv);
                    }
                }
            }
            TreeCacheOutcome::MissHeal
        },
    }
}

/// Build the two file contents that persist a fetched snapshot: the tree
/// text and the metadata text (fetched now, with the given validators).
/// The caller writes the tree file first, then the metadata file, under
/// the partition's advisory lock; on lock contention it skips the write.
pub fn store_tree_cache_content(
    locator: &RepoLocator,
    nodes: &Vec<RepoNode>,
    etag: Option<String>,
    last_modified: Option<String>,
    now: u64,
) -> (r: (String, String))
    ensures
        r.0@ == crate::codec::nodes_json(views_of(nodes@)),
        r.1@ == crate::codec::meta_json(
            MetaView {
                fetched_at: now,
                etag: match etag {
                    Some(e) => Some(e@),
                    None => None,
                },
                last_modified: match last_modified {
                    Some(l) => Some(l@),
                    None => None,
                },
                owner: locator.owner@,
                repo: locator.repo@,
                branch: locator.branch@,
            },
        ),
{
    let tree_text = crate::codec::emit_nodes(nodes);
    let meta = CacheMetadata {
        fetched_at: now,
        etag,
        last_modified,
        owner: String::from_str(locator.owner.as_str()),
        repo: String::from_str(locator.repo.as_str()),
        branch: String::from_str(locator.branch.as_str()),
    };
    let meta_text = crate::codec::emit_meta(&meta);
    (tree_text, meta_text)
}

} // verus!
