//! The in-memory view of a remote repository tree.
//!
//! A flat listing of remote entries is classified (directory, rule file or
//! manifest) and indexed by parent-directory key, so that the children of
//! any directory can be looked up without further fetching. The network
//! fetch itself, and the decision when to retry it, are kept apart: the
//! retry policy is a pure function here, and the caller performs the fetch
//! and sleeps.

use vstd::prelude::*;
use crate::cache::FileSystemCache;
use crate::strutil::{
    basename_chars, basename_of, chars_contains, chars_ends_with, chars_eq_str, chars_to_string,
    dir_key_chars, dir_key_of, lower_seq, seq_contains, seq_ends_with, str_to_chars,
    to_lower_chars,
};

verus! {

/// The kind of a tree entry.
#[derive(Debug, Clone, Copy, PartialEq, Eq, Structural)]
pub enum NodeKind {
    /// A directory.
    Dir,
    /// A rule file (`.mdc`, and the fallback for unknown extensions).
    RuleFile,
    /// A manifest file (`.txt`, `.yaml`, `.yml`, `.json`).
    Manifest,
}

/// One entry of the remote tree.
pub struct RepoNode {
    /// The last path segment.
    pub name: String,
    /// The full remote path.
    pub path: String,
    /// The classification of this entry.
    pub kind: NodeKind,
    /// Nested children (unused; kept for the serialized shape).
    pub children: Option<Vec<RepoNode>>,
    /// Number of entries, for manifest files shown in a listing.
    pub manifest_count: Option<usize>,
}

/// Mathematical view of a `RepoNode` (the unused nesting field is not part
/// of the model).
pub ghost struct NodeView {
    pub name: Seq<char>,
    pub path: Seq<char>,
    pub kind: NodeKind,
    pub manifest_count: Option<usize>,
}

impl View for RepoNode {
    type V = NodeView;

    open spec fn view(&self) -> NodeView {
        NodeView {
            name: self.name@,
            path: self.path@,
            kind: self.kind,
            manifest_count: self.manifest_count,
        }
    }
}

impl RepoNode {
    /// Whether this entry is a directory.
    pub fn is_dir(&self) -> (r: bool)
        ensures
            r == (self.kind == NodeKind::Dir),
    {
        matches!(self.kind, NodeKind::Dir)
    }
}

/// One raw entry of a fetched tree listing: its path and whether the remote
/// reported it as a subtree.
#[derive(Debug, Clone)]
pub struct TreeEntry {
    /// The full remote path.
    pub path: String,
    /// True when the remote lists the entry as a subtree (directory).
    pub is_tree: bool,
}

/// The deterministic classification rule: subtrees are directories, `.mdc`
/// files are rule files, `.txt`/`.yaml`/`.yml`/`.json` files are manifests,
/// and everything else (including extensionless files) is a rule file.
pub open spec fn classify_spec(path: Seq<char>, is_tree: bool) -> NodeKind {
    if is_tree {
        NodeKind::Dir
    } else if seq_ends_with(path, ".mdc"@) {
        NodeKind::RuleFile
    } else if seq_ends_with(path, ".txt"@) || seq_ends_with(path, ".yaml"@) || seq_ends_with(
        path,
        ".yml"@,
    ) || seq_ends_with(path, ".json"@) {
        NodeKind::Manifest
    } else {
        NodeKind::RuleFile
    }
}

/// Classify one entry by its type and extension.
pub fn classify_entry(path: &str, is_tree: bool) -> (r: NodeKind)
    ensures
        r == classify_spec(path@, is_tree),
{
    if is_tree {
        return NodeKind::Dir;
    }
    let chars = str_to_chars(path);
    if chars_ends_with(&chars, &str_to_chars(".mdc")) {
        return NodeKind::RuleFile;
    }
    if chars_ends_with(&chars, &str_to_chars(".txt")) || chars_ends_with(
        &chars,
        &str_to_chars(".yaml"),
    ) || chars_ends_with(&chars, &str_to_chars(".yml")) || chars_ends_with(
        &chars,
        &str_to_chars(".json"),
    ) {
        return NodeKind::Manifest;
    }
    NodeKind::RuleFile
}

/// The node built for a raw entry.
pub open spec fn node_view_of(path: Seq<char>, is_tree: bool) -> NodeView {
    NodeView {
        name: basename_of(path),
        path: path,
        kind: classify_spec(path, is_tree),
        manifest_count: None,
    }
}

/// Build the `RepoNode` for one raw entry.
pub fn make_node(path: &str, is_tree: bool) -> (r: RepoNode)
    ensures
        r@ == node_view_of(path@, is_tree),
        r.children is None,
{
    let chars = str_to_chars(path);
    let name = chars_to_string(&basename_chars(&chars));
    RepoNode {
        name,
        path: String::from_str(path),
        kind: classify_entry(path, is_tree),
        children: None,
        manifest_count: None,
    }
}

/// Copy a node field by field (the unused nesting field is dropped; it is
/// not part of the model).
pub fn copy_node(v: &Vec<RepoNode>, i: usize) -> (r: RepoNode)
    requires
        i < v@.len(),
    ensures
        r@ == v@[i as int]@,
        r.children is None,
{
    let n: &RepoNode = &v[i];
    RepoNode {
        name: String::from_str(n.name.as_str()),
        path: String::from_str(n.path.as_str()),
        kind: n.kind,
        children: None,
        manifest_count: match n.manifest_count {
            Some(c) => Some(c),
            None => None,
        },
    }
}

/// One directory of the index.
pub struct DirGroup {
    /// The parent-directory key ("" for top-level entries).
    pub key: String,
    /// The nodes whose parent directory is `key`, in insertion order.
    pub nodes: Vec<RepoNode>,
}

/// The nodes stored under the first group whose key is `d` (empty when no
/// group carries that key).
pub open spec fn lookup_groups(groups: Seq<DirGroup>, d: Seq<char>) -> Seq<RepoNode>
    decreases groups.len(),
{
    if groups.len() == 0 {
        Seq::<RepoNode>::empty()
    } else if groups[0].key@ == d {
        groups[0].nodes@
    } else {
        lookup_groups(groups.drop_first(), d)
    }
}

/// Whether a node (by view) lies directly under directory key `d`.
pub open spec fn belongs_to(d: Seq<char>) -> spec_fn(NodeView) -> bool {
    |n: NodeView| dir_key_of(n.path) == d
}

/// The views of a node sequence.
pub open spec fn views_of(nodes: Seq<RepoNode>) -> Seq<NodeView> {
    nodes.map_values(|n: RepoNode| n@)
}

/// Repository tree index with an optional persistent cache handle.
pub struct RepoTree {
    /// Directory index: nodes grouped by parent-directory key.
    pub groups: Vec<DirGroup>,
    /// Cache handle used by callers to locate persisted snapshots.
    pub persistent_cache: Option<FileSystemCache>,
    /// Spare empty vector returned for unknown directories; stays empty.
    pub empty_nodes: Vec<RepoNode>,
}

impl RepoTree {
    /// Internal consistency: the spare vector stays empty.
    pub open spec fn wf(&self) -> bool {
        self.empty_nodes@.len() == 0
    }

    /// The views of the children recorded for directory key `d`.
    pub open spec fn children_views(&self, d: Seq<char>) -> Seq<NodeView> {
        views_of(lookup_groups(self.groups@, d))
    }

    /// The tree is not yet populated.
    pub open spec fn is_empty_index(&self) -> bool {
        self.groups@.len() == 0
    }

    /// A fresh, unpopulated tree without a persistent cache handle.
    pub fn new() -> (r: Self)
        ensures
            r.wf(),
            r.is_empty_index(),
            r.persistent_cache is None,
    {
        RepoTree { groups: Vec::new(), persistent_cache: None, empty_nodes: Vec::new() }
    }

    /// Whether a persistent cache handle was attached.
    pub fn has_persistent_cache(&self) -> (r: bool)
        ensures
            r == (self.persistent_cache is Some),
    {
        matches!(self.persistent_cache, Some(_))
    }

    /// A fresh, unpopulated tree that remembers a persistent cache handle.
    pub fn with_persistent_cache(cache: FileSystemCache) -> (r: Self)
        ensures
            r.wf(),
            r.is_empty_index(),
            r.persistent_cache is Some,
    {
        RepoTree { groups: Vec::new(), persistent_cache: Some(cache), empty_nodes: Vec::new() }
    }

    /// Whether the in-memory index has been populated.
    pub fn is_populated(&self) -> (r: bool)
        ensures
            r == !self.is_empty_index(),
    {
        self.groups.len() > 0
    }

    /// The children of `dir_path` (empty for unknown directories, which is
    /// not an error).
    pub fn children<'a>(&'a self, dir_path: &str) -> (r: &'a Vec<RepoNode>)
        requires
            self.wf(),
        ensures
            r@ == lookup_groups(self.groups@, dir_path@),
            views_of(r@) == self.children_views(dir_path@),
    {
        let dc = str_to_chars(dir_path);
        let mut i: usize = 0;
        proof {
            assert(self.groups@.subrange(0, self.groups@.len() as int) =~= self.groups@);
        }
        while i < self.groups.len()
            invariant
                i <= self.groups@.len(),
                dc@ == dir_path@,
                lookup_groups(self.groups@, dir_path@) == lookup_groups(
                    self.groups@.subrange(i as int, self.groups@.len() as int),
                    dir_path@,
                ),
            decreases self.groups@.len() - i,
        {
            proof {
                let tail = self.groups@.subrange(i as int, self.groups@.len() as int);
                assert(tail[0] == self.groups@[i as int]);
                assert(tail.drop_first() =~= self.groups@.subrange(
                    i + 1,
                    self.groups@.len() as int,
                ));
            }
            if chars_eq_str(&dc, self.groups[i].key.as_str()) {
                return &self.groups[i].nodes;
            }
            i = i + 1;
        }
        proof {
            assert(self.groups@.subrange(
                self.groups@.len() as int,
                self.groups@.len() as int,
            ) =~= Seq::<DirGroup>::empty());
        }
        &self.empty_nodes
    }

    /// Populate the index by grouping the given nodes under their
    /// parent-directory keys, preserving order. Afterwards the children of
    /// every directory `d` are exactly the given nodes whose path lies
    /// directly under `d`, in order.
    pub fn populate_from_nodes(&mut self, nodes: &Vec<RepoNode>)
        requires
            old(self).wf(),
        ensures
            final(self).wf(),
            final(self).persistent_cache == old(self).persistent_cache,
            !final(self).is_empty_index(),
            forall|d: Seq<char>|
                #[trigger] final(self).children_views(d) == views_of(nodes@).filter(
                    belongs_to(d),
                ),
    {
        let ghost vs = views_of(nodes@);
        self.groups.clear();
        let mut i: usize = 0;
        proof {
            assert forall|d: Seq<char>| #[trigger]
                views_of(lookup_groups(self.groups@, d)) == vs.subrange(0, 0).filter(
                    belongs_to(d),
                ) by {
                reveal(Seq::filter);
                assert(vs.subrange(0, 0) =~= Seq::<NodeView>::empty());
                assert(views_of(Seq::<RepoNode>::empty()) =~= Seq::<NodeView>::empty());
            }
        }
        while i < nodes.len()
            invariant
                self.empty_nodes@.len() == 0,
                self.persistent_cache == old(self).persistent_cache,
                vs == views_of(nodes@),
                vs.len() == nodes@.len(),
                i <= nodes@.len(),
                i > 0 ==> self.groups@.len() > 0,
                forall|d: Seq<char>| #[trigger]
                    views_of(lookup_groups(self.groups@, d)) == vs.subrange(0, i as int).filter(
                        belongs_to(d),
                    ),
            decreases nodes@.len() - i,
        {
            let c = copy_node(nodes, i);
            let ghost cv = c@;
            proof {
                assert(cv == vs[i as int]);
            }
            let node_path = str_to_chars(c.path.as_str());
            let key_chars = dir_key_chars(&node_path);
            let ghost kd = dir_key_of(cv.path);
            let mut gi: usize = 0;
            let mut found: bool = false;
            while gi < self.groups.len() && !found
                invariant
                    gi <= self.groups@.len(),
                    key_chars@ == kd,
                    forall|j: int| 0 <= j < gi ==> (#[trigger] self.groups@[j]).key@ != kd,
                    found ==> gi < self.groups@.len() && self.groups@[gi as int].key@ == kd,
                decreases self.groups@.len() - gi + (if found { 0int } else { 1int }),
            {
                if chars_eq_str(&key_chars, self.groups[gi].key.as_str()) {
                    found = true;
                } else {
                    gi = gi + 1;
                }
            }
            let ghost groups0 = self.groups@;
            if found {
                let mut g = self.groups.remove(gi);
                g.nodes.push(c);
                let ghost gafter = g;
                self.groups.insert(gi, g);
                proof {
                    assert(self.groups@.len() == groups0.len());
                    assert forall|j: int|
                        0 <= j < groups0.len() && j != gi implies self.groups@[j] == groups0[j]
                    by {
                        if j < gi {
                            assert(groups0.remove(gi as int)[j] == groups0[j]);
                        } else {
                            assert(groups0.remove(gi as int)[j - 1] == groups0[j]);
                        }
                    }
                    assert(self.groups@[gi as int] == gafter);
                    assert(gafter.nodes@.last()@ == cv);
                    lemma_lookup_after_update(
                        groups0,
                        self.groups@,
                        gi as int,
                        gafter.nodes@.last(),
                        kd,
                        cv,
                    );
                }
            } else {
                let key_string = chars_to_string(&key_chars);
                let mut nv: Vec<RepoNode> = Vec::new();
                nv.push(c);
                self.groups.push(DirGroup { key: key_string, nodes: nv });
                proof {
                    assert(views_of(
                        self.groups@[groups0.len() as int].nodes@,
                    ) =~= Seq::<NodeView>::empty().push(cv));
                    assert forall|j: int|
                        0 <= j < groups0.len() implies (#[trigger] groups0[j]).key@ != kd by {
                        assert(self.groups@[j] == groups0[j]);
                    }
                    lemma_lookup_after_append(groups0, self.groups@, kd, cv);
                }
            }
            proof {
                broadcast use Seq::lemma_filter_push;

                assert(vs.subrange(0, i + 1) =~= vs.subrange(0, i as int).push(cv));
                assert forall|d: Seq<char>| #[trigger]
                    views_of(lookup_groups(self.groups@, d)) == vs.subrange(0, i + 1).filter(
                        belongs_to(d),
                    ) by {
                    assert(vs.subrange(0, i as int).push(cv).filter(belongs_to(d))
                        == if belongs_to(d)(cv) {
                        vs.subrange(0, i as int).filter(belongs_to(d)).push(cv)
                    } else {
                        vs.subrange(0, i as int).filter(belongs_to(d))
                    });
                    assert(views_of(lookup_groups(self.groups@, d)) == if d == kd {
                        views_of(lookup_groups(groups0, d)).push(cv)
                    } else {
                        views_of(lookup_groups(groups0, d))
                    });
                    assert(belongs_to(d)(cv) == (d == kd));
                }
            }
            i = i + 1;
        }
        if self.groups.len() == 0 {
            self.groups.push(DirGroup { key: String::new(), nodes: Vec::new() });
            proof {
                assert(nodes@.len() == 0);
                assert forall|d: Seq<char>| #[trigger]
                    views_of(lookup_groups(self.groups@, d)) == vs.subrange(
                        0,
                        nodes@.len() as int,
                    ).filter(belongs_to(d)) by {
                    reveal_with_fuel(lookup_groups, 3);
                    if self.groups@[0].key@ == d {
                        assert(lookup_groups(self.groups@, d) == self.groups@[0].nodes@);
                        assert(views_of(self.groups@[0].nodes@) =~= Seq::<NodeView>::empty());
                    } else {
                        assert(self.groups@.drop_first() =~= Seq::<DirGroup>::empty());
                        assert(lookup_groups(self.groups@, d) == lookup_groups(
                            Seq::<DirGroup>::empty(),
                            d,
                        ));
                        assert(lookup_groups(Seq::<DirGroup>::empty(), d)
                            =~= Seq::<RepoNode>::empty());
                        assert(views_of(Seq::<RepoNode>::empty()) =~= Seq::<NodeView>::empty());
                    }
                    assert(vs.subrange(0, nodes@.len() as int) =~= Seq::<NodeView>::empty());
                    assert(Seq::<NodeView>::empty().filter(belongs_to(d))
                        == Seq::<NodeView>::empty()) by {
                        reveal(Seq::filter);
                    }
                }
            }
        }
        proof {
            assert(vs.subrange(0, nodes@.len() as int) =~= vs);
        }
    }

    /// Classify and index a raw tree listing, returning the flat node list
    /// (for persistence) alongside populating the in-memory index.
    pub fn populate_from_entries(&mut self, entries: &Vec<TreeEntry>) -> (all_nodes: Vec<
        RepoNode,
    >)
        requires
            old(self).wf(),
        ensures
            final(self).wf(),
            final(self).persistent_cache == old(self).persistent_cache,
            all_nodes@.len() == entries@.len(),
            forall|k: int|
                0 <= k < entries@.len() ==> (#[trigger] all_nodes@[k])@ == node_view_of(
                    entries@[k].path@,
                    entries@[k].is_tree,
                ),
            forall|d: Seq<char>|
                #[trigger] final(self).children_views(d) == views_of(all_nodes@).filter(
                    belongs_to(d),
                ),
    {
        let mut all_nodes: Vec<RepoNode> = Vec::new();
        let mut i: usize = 0;
        while i < entries.len()
            invariant
                i <= entries@.len(),
                all_nodes@.len() == i,
                forall|k: int|
                    0 <= k < i ==> (#[trigger] all_nodes@[k])@ == node_view_of(
                        entries@[k].path@,
                        entries@[k].is_tree,
                    ),
            decreases entries@.len() - i,
        {
            let node = make_node(entries[i].path.as_str(), entries[i].is_tree);
            all_nodes.push(node);
            i = i + 1;
        }
        self.populate_from_nodes(&all_nodes);
        all_nodes
    }
}

proof fn lemma_views_push(s: Seq<RepoNode>, x: RepoNode)
    ensures
        views_of(s.push(x)) == views_of(s).push(x@),
{
    assert(views_of(s.push(x)) =~= views_of(s).push(x@));
}

proof fn lemma_lookup_after_update(
    g0: Seq<DirGroup>,
    g1: Seq<DirGroup>,
    idx: int,
    node: RepoNode,
    key: Seq<char>,
    nodeview: NodeView,
)
    requires
        0 <= idx < g0.len(),
        g1.len() == g0.len(),
        forall|j: int| 0 <= j < g0.len() && j != idx ==> g1[j] == g0[j],
        g1[idx].key@ == g0[idx].key@,
        g0[idx].key@ == key,
        g1[idx].nodes@ == g0[idx].nodes@.push(node),
        node@ == nodeview,
        forall|j: int| 0 <= j < idx ==> (#[trigger] g0[j]).key@ != key,
    ensures
        forall|d: Seq<char>|
            #[trigger] views_of(lookup_groups(g1, d)) == if d == key {
                views_of(lookup_groups(g0, d)).push(nodeview)
            } else {
                views_of(lookup_groups(g0, d))
            },
    decreases g0.len(),
{
    assert forall|d: Seq<char>| #[trigger]
        views_of(lookup_groups(g1, d)) == if d == key {
            views_of(lookup_groups(g0, d)).push(nodeview)
        } else {
            views_of(lookup_groups(g0, d))
        } by {
        lemma_lookup_after_update_one(g0, g1, idx, node, key, nodeview, d);
    }
}

proof fn lemma_lookup_after_update_one(
    g0: Seq<DirGroup>,
    g1: Seq<DirGroup>,
    idx: int,
    node: RepoNode,
    key: Seq<char>,
    nodeview: NodeView,
    d: Seq<char>,
)
    requires
        0 <= idx < g0.len(),
        g1.len() == g0.len(),
        forall|j: int| 0 <= j < g0.len() && j != idx ==> g1[j] == g0[j],
        g1[idx].key@ == g0[idx].key@,
        g0[idx].key@ == key,
        g1[idx].nodes@ == g0[idx].nodes@.push(node),
        node@ == nodeview,
        forall|j: int| 0 <= j < idx ==> (#[trigger] g0[j]).key@ != key,
    ensures
        d == key ==> views_of(lookup_groups(g1, d)) == views_of(lookup_groups(g0, d)).push(
            nodeview,
        ),
        d != key ==> views_of(lookup_groups(g1, d)) == views_of(lookup_groups(g0, d)),
    decreases g0.len(),
{
    if idx == 0 {
        if d == key {
            lemma_views_push(g0[0].nodes@, node);
        } else if g0[0].key@ == d {
            assert(g1[0] == g0[0]) by {
                assert(g1[0].key@ == g0[0].key@);
                assert(g0[0].key@ != key || d == key);
            }
        } else {
            assert(g1.drop_first() =~= g0.drop_first());
        }
    } else {
        lemma_lookup_after_update_one(
            g0.drop_first(),
            g1.drop_first(),
            idx - 1,
            node,
            key,
            nodeview,
            d,
        );
        assert(g1[0] == g0[0]);
        assert(g0.drop_first()[idx - 1] == g0[idx]);
        assert(g1.drop_first()[idx - 1] == g1[idx]);
        assert(forall|j: int|
            0 <= j < g0.len() - 1 && j != idx - 1 ==> g1.drop_first()[j] == g0.drop_first()[j]);
        assert(forall|j: int|
            0 <= j < idx - 1 ==> (#[trigger] g0.drop_first()[j]).key@ != key);
    }
}

proof fn lemma_lookup_after_append(g0: Seq<DirGroup>, g1: Seq<DirGroup>, key: Seq<char>, nodeview: NodeView)
    requires
        g1.len() == g0.len() + 1,
        forall|j: int| 0 <= j < g0.len() ==> g1[j] == g0[j],
        g1[g0.len() as int].key@ == key,
        views_of(g1[g0.len() as int].nodes@) =~= Seq::<NodeView>::empty().push(nodeview),
        forall|j: int| 0 <= j < g0.len() ==> (#[trigger] g0[j]).key@ != key,
    ensures
        forall|d: Seq<char>|
            #[trigger] views_of(lookup_groups(g1, d)) == if d == key {
                views_of(lookup_groups(g0, d)).push(nodeview)
            } else {
                views_of(lookup_groups(g0, d))
            },
    decreases g0.len(),
{
    assert forall|d: Seq<char>| #[trigger]
        views_of(lookup_groups(g1, d)) == if d == key {
            views_of(lookup_groups(g0, d)).push(nodeview)
        } else {
            views_of(lookup_groups(g0, d))
        } by {
        lemma_lookup_after_append_one(g0, g1, key, nodeview, d);
    }
}

proof fn lemma_lookup_after_append_one(
    g0: Seq<DirGroup>,
    g1: Seq<DirGroup>,
    key: Seq<char>,
    nodeview: NodeView,
    d: Seq<char>,
)
    requires
        g1.len() == g0.len() + 1,
        forall|j: int| 0 <= j < g0.len() ==> g1[j] == g0[j],
        g1[g0.len() as int].key@ == key,
        views_of(g1[g0.len() as int].nodes@) =~= Seq::<NodeView>::empty().push(nodeview),
        forall|j: int| 0 <= j < g0.len() ==> (#[trigger] g0[j]).key@ != key,
    ensures
        d == key ==> views_of(lookup_groups(g1, d)) == views_of(lookup_groups(g0, d)).push(
            nodeview,
        ),
        d != key ==> views_of(lookup_groups(g1, d)) == views_of(lookup_groups(g0, d)),
    decreases g0.len(),
{
    if g0.len() == 0 {
        reveal_with_fuel(lookup_groups, 3);
        assert(g0 =~= Seq::<DirGroup>::empty());
        if d == key {
            assert(lookup_groups(g0, d) =~= Seq::<RepoNode>::empty());
            assert(views_of(Seq::<RepoNode>::empty()) =~= Seq::<NodeView>::empty());
            assert(views_of(g1[0].nodes@) =~= views_of(lookup_groups(g0, d)).push(nodeview));
        } else {
            assert(g1.drop_first() =~= Seq::<DirGroup>::empty());
            assert(lookup_groups(g1, d) == lookup_groups(Seq::<DirGroup>::empty(), d));
            assert(lookup_groups(Seq::<DirGroup>::empty(), d) =~= Seq::<RepoNode>::empty());
            assert(lookup_groups(g0, d) =~= Seq::<RepoNode>::empty());
            assert(views_of(Seq::<RepoNode>::empty()) =~= Seq::<NodeView>::empty());
        }
    } else {
        lemma_lookup_after_append_one(g0.drop_first(), g1.drop_first(), key, nodeview, d);
        assert(g1[0] == g0[0]);
        assert(g1.drop_first()[g0.len() - 1] == g1[g0.len() as int]);
        assert(forall|j: int|
            0 <= j < g0.len() - 1 ==> g1.drop_first()[j] == g0.drop_first()[j]);
        assert(forall|j: int|
            0 <= j < g0.len() - 1 ==> (#[trigger] g0.drop_first()[j]).key@ != key);
    }
}

impl Default for RepoTree {
    /// Same as `new`: unpopulated, without a persistent cache handle.
    fn default() -> (r: Self)
        ensures
            r.wf(),
            r.is_empty_index(),
            r.persistent_cache is None,
    {
        RepoTree::new()
    }
}

/// The error text, lower-cased, matches one of the rate-limit markers.
pub open spec fn is_rate_limit_spec(msg: Seq<char>) -> bool {
    ||| seq_contains(lower_seq(msg), "rate limit"@)
    ||| seq_contains(lower_seq(msg), "403"@)
    ||| seq_contains(lower_seq(msg), "api rate limit exceeded"@)
    ||| seq_contains(lower_seq(msg), "x-ratelimit"@)
}

/// Recognise a rate-limit failure from an error's text.
pub fn is_rate_limit_error(msg: &str) -> (r: bool)
    ensures
        r == is_rate_limit_spec(msg@),
{
    let chars = str_to_chars(msg);
    let lower = to_lower_chars(&chars);
    chars_contains(&lower, &str_to_chars("rate limit")) || chars_contains(
        &lower,
        &str_to_chars("403"),
    ) || chars_contains(&lower, &str_to_chars("api rate limit exceeded")) || chars_contains(
        &lower,
        &str_to_chars("x-ratelimit"),
    )
}

/// Total number of fetch attempts allowed when rate-limited.
pub const MAX_FETCH_ATTEMPTS: u64 = 3;

/// Cap, in seconds, on the exponential backoff delay.
pub const MAX_BACKOFF_SECS: u64 = 60;

/// What the fetch loop must do after a failed attempt.
#[derive(Debug, Clone, Copy, PartialEq, Eq, Structural)]
pub enum RetryAction {
    /// Not a rate limit: surface the error unchanged, unretried.
    Propagate,
    /// Rate limited and the attempt budget is exhausted: surface a distinct
    /// rate-limit error (authentication may be suggested as a remedy).
    GiveUpRateLimited,
    /// Rate limited with budget left: sleep for the given delay, then retry
    /// with the doubled (capped) delay.
    SleepAndRetry(u64),
}

/// Decide what a fetch loop does after attempt number `attempts` (1-based)
/// failed: non-rate-limit errors propagate immediately; rate limits retry
/// with exponential backoff doubled up to 60s until 3 attempts are spent.
pub fn retry_decision(attempts: u64, delay_secs: u64, rate_limited: bool) -> (r: RetryAction)
    ensures
        !rate_limited ==> r == RetryAction::Propagate,
        rate_limited && attempts >= MAX_FETCH_ATTEMPTS ==> r == RetryAction::GiveUpRateLimited,
        rate_limited && attempts < MAX_FETCH_ATTEMPTS ==> r == RetryAction::SleepAndRetry(
            if 2 * delay_secs <= MAX_BACKOFF_SECS {
                (2 * delay_secs) as u64
            } else {
                MAX_BACKOFF_SECS
            },
        ),
{
    if !rate_limited {
        RetryAction::Propagate
    } else if attempts >= MAX_FETCH_ATTEMPTS {
        RetryAction::GiveUpRateLimited
    } else if delay_secs <= 30 {
        RetryAction::SleepAndRetry(2 * delay_secs)
    } else {
        RetryAction::SleepAndRetry(MAX_BACKOFF_SECS)
    }
}

} // verus!
