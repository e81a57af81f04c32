//! A lazy breadth-first walker over a filesystem subtree.
//!
//! The walker holds two FIFO queues: folders waiting to be listed, and entries
//! ready to be yielded. It performs no I/O itself: the caller pops a pending
//! folder, lists it, and feeds the children back. Every child, directory or
//! file, joins the ready queue; child directories join the folder queue only
//! when the walk is recursive. A folder whose listing fails is simply not fed
//! back, which skips that subtree and nothing else.
//!
//! An in-memory tree ([`DirTree`]) stands in for the filesystem where the
//! traversal itself is exercised and reasoned about: [`walk_tree`] drives the
//! walker over such a tree and is proved to visit exactly the breadth-first
//! sequence of the tree's nodes, each node at most once.

use vstd::prelude::*;

verus! {

/// A filesystem entry discovered by the walker: its full path and whether it
/// is a directory.
pub struct Entry {
    pub path: String,
    pub is_dir: bool,
}

/// The mathematical value of an [`Entry`].
pub ghost struct EntryView {
    pub path: Seq<char>,
    pub is_dir: bool,
}

impl View for Entry {
    type V = EntryView;

    open spec fn view(&self) -> EntryView {
        EntryView { path: self.path@, is_dir: self.is_dir }
    }
}

/// The views of a sequence of entries.
pub open spec fn entry_views(s: Seq<Entry>) -> Seq<EntryView> {
    s.map_values(|e: Entry| e@)
}

/// The views of a sequence of paths.
pub open spec fn path_views(s: Seq<String>) -> Seq<Seq<char>> {
    s.map_values(|x: String| x@)
}

/// The paths of the directories among `s`, in order.
pub open spec fn dir_paths(s: Seq<EntryView>) -> Seq<Seq<char>>
    decreases s.len(),
{
    if s.len() == 0 {
        Seq::empty()
    } else if s.last().is_dir {
        dir_paths(s.drop_last()).push(s.last().path)
    } else {
        dir_paths(s.drop_last())
    }
}

/// The mathematical state of a [`FileExplorer`]: both queues and the
/// recursion flag.
pub ghost struct ExplorerView {
    pub folders: Seq<Seq<char>>,
    pub files: Seq<EntryView>,
    pub recursive: bool,
}

/// The breadth-first walker state: folders pending a listing, entries ready to
/// be yielded, and whether child directories are descended into.
pub struct FileExplorer {
    m_folders: Vec<String>,
    m_files: Vec<Entry>,
    m_recursive: bool,
}

impl View for FileExplorer {
    type V = ExplorerView;

    closed spec fn view(&self) -> ExplorerView {
        ExplorerView {
            folders: path_views(self.m_folders@),
            files: entry_views(self.m_files@),
            recursive: self.m_recursive,
        }
    }
}

impl FileExplorer {
    /// Seeds a walk at `root`. A directory root joins the folder queue and is
    /// itself never yielded; a file root is yielded as the only entry.
    pub fn create(root: Entry, recursive: bool) -> (r: FileExplorer)
        ensures
            r@.recursive == recursive,
            root@.is_dir ==> r@.folders =~= seq![root@.path] && r@.files =~= Seq::<
                EntryView,
            >::empty(),
            !root@.is_dir ==> r@.folders =~= Seq::<Seq<char>>::empty() && r@.files =~= seq![root@],
    {
        let mut r = FileExplorer { m_folders: Vec::new(), m_files: Vec::new(), m_recursive: recursive };
        if root.is_dir {
            r.m_folders.push(root.path);
        } else {
            r.m_files.push(root);
        }
        r
    }

    /// Whether the walk is over: nothing ready and nothing left to list.
    pub fn eof(&self) -> (r: bool)
        ensures
            r == (self@.folders.len() == 0 && self@.files.len() == 0),
    {
        self.m_folders.is_empty() && self.m_files.is_empty()
    }

    /// Whether an entry is ready to be yielded.
    pub fn has_file(&self) -> (r: bool)
        ensures
            r == (self@.files.len() > 0),
    {
        !self.m_files.is_empty()
    }

    /// Yields the oldest ready entry.
    pub fn next(&mut self) -> (r: Entry)
        requires
            old(self)@.files.len() > 0,
        ensures
            r@ == old(self)@.files[0],
            final(self)@.files =~= old(self)@.files.drop_first(),
            final(self)@.folders == old(self)@.folders,
            final(self)@.recursive == old(self)@.recursive,
    {
        let r = self.m_files.remove(0);
        proof {
            assert(self@.files =~= old(self)@.files.drop_first());
        }
        r
    }

    /// Pops the oldest folder still waiting for a listing.
    pub fn next_folder(&mut self) -> (r: String)
        requires
            old(self)@.folders.len() > 0,
        ensures
            r@ == old(self)@.folders[0],
            final(self)@.folders =~= old(self)@.folders.drop_first(),
            final(self)@.files == old(self)@.files,
            final(self)@.recursive == old(self)@.recursive,
    {
        let r = self.m_folders.remove(0);
        proof {
            assert(self@.folders =~= old(self)@.folders.drop_first());
        }
        r
    }

    /// Feeds back the listing of a popped folder: every child joins the ready
    /// queue in listing order, and child directories join the folder queue
    /// exactly when the walk is recursive.
    pub fn push_listing(&mut self, children: Vec<Entry>)
        ensures
            final(self)@.files =~= old(self)@.files + entry_views(children@),
            old(self)@.recursive ==> final(self)@.folders =~= old(self)@.folders + dir_paths(
                entry_views(children@),
            ),
            !old(self)@.recursive ==> final(self)@.folders == old(self)@.folders,
            final(self)@.recursive == old(self)@.recursive,
    {
        let ghost orig = children@;
        let mut children = children;
        while children.len() > 0
            invariant
                children@.len() <= orig.len(),
                children@ =~= orig.skip(orig.len() - children@.len()),
                self@.files =~= old(self)@.files + entry_views(
                    orig.take(orig.len() - children@.len()),
                ),
                old(self)@.recursive ==> self@.folders =~= old(self)@.folders + dir_paths(
                    entry_views(orig.take(orig.len() - children@.len())),
                ),
                !old(self)@.recursive ==> self@.folders == old(self)@.folders,
                self@.recursive == old(self)@.recursive,
            decreases children@.len(),
        {
            let ghost j = orig.len() - children@.len();
            proof {
                assert(0 <= j < orig.len());
                assert(children@[0] == orig.skip(j)[0]);
            }
            let c = children.remove(0);
            let ghost taken = entry_views(orig.take(j + 1));
            proof {
                assert(c == orig[j]);
                assert(children@ =~= orig.skip(j + 1));
                assert(taken =~= entry_views(orig.take(j)).push(orig[j]@));
                assert(taken.drop_last() =~= entry_views(orig.take(j)));
                assert(taken.last() == orig[j]@);
            }
            let ghost prev_folders = self.m_folders@;
            if self.m_recursive && c.is_dir {
                self.m_folders.push(c.path.clone());
            }
            proof {
                if self.m_recursive {
                    assert(dir_paths(taken) == if orig[j]@.is_dir {
                        dir_paths(taken.drop_last()).push(orig[j]@.path)
                    } else {
                        dir_paths(taken.drop_last())
                    });
                    if orig[j]@.is_dir {
                        assert(path_views(self.m_folders@) =~= path_views(prev_folders).push(
                            orig[j]@.path,
                        ));
                    }
                    assert(path_views(self.m_folders@) =~= old(self)@.folders + dir_paths(taken));
                }
            }
            let ghost prev_files = self.m_files@;
            self.m_files.push(c);
            proof {
                assert(entry_views(self.m_files@) =~= entry_views(prev_files).push(orig[j]@));
                assert(entry_views(self.m_files@) =~= old(self)@.files + taken);
            }
        }
        proof {
            assert(orig.take(orig.len() as int) =~= orig);
        }
    }
}

/// One node of an in-memory directory tree: the index of its parent, its full
/// path, its kind, and, for files, its byte content.
pub struct TreeNode {
    pub parent: usize,
    pub path: String,
    pub is_dir: bool,
    pub content: Vec<u8>,
}

/// The mathematical value of a [`TreeNode`].
pub ghost struct NodeView {
    pub parent: int,
    pub path: Seq<char>,
    pub is_dir: bool,
    pub content: Seq<u8>,
}

impl View for TreeNode {
    type V = NodeView;

    open spec fn view(&self) -> NodeView {
        NodeView {
            parent: self.parent as int,
            path: self.path@,
            is_dir: self.is_dir,
            content: self.content@,
        }
    }
}

/// The views of a sequence of tree nodes.
pub open spec fn node_views(s: Seq<TreeNode>) -> Seq<NodeView> {
    s.map_values(|n: TreeNode| n@)
}

/// An in-memory directory tree, as a flat arena: the node at position 0 is the
/// root, and every other node names its parent by a smaller position.
pub struct DirTree {
    pub nodes: Vec<TreeNode>,
}

impl View for DirTree {
    type V = Seq<NodeView>;

    open spec fn view(&self) -> Seq<NodeView> {
        node_views(self.nodes@)
    }
}

/// A well-formed tree: non-empty, rooted at position 0, every non-root node's
/// parent is an earlier directory node, and no two nodes share a path.
pub open spec fn tree_wf(t: Seq<NodeView>) -> bool {
    &&& t.len() >= 1
    &&& t[0].parent == 0
    &&& forall|i: int|
        1 <= i < t.len() ==> 0 <= #[trigger] t[i].parent < i && t[t[i].parent].is_dir
    &&& forall|i: int, j: int| 0 <= i < j < t.len() ==> t[i].path != t[j].path
}

impl DirTree {
    /// Whether this tree is well-formed.
    pub open spec fn well_formed(&self) -> bool {
        tree_wf(self@)
    }
}

/// The children of node `d` among the first `k` nodes, in position order. The
/// root is nobody's child.
pub open spec fn children_upto(t: Seq<NodeView>, d: int, k: int) -> Seq<int>
    decreases k,
{
    if k <= 0 {
        Seq::empty()
    } else if t[k - 1].parent == d && k - 1 != 0 {
        children_upto(t, d, k - 1).push(k - 1)
    } else {
        children_upto(t, d, k - 1)
    }
}

/// The children of node `d`, in position order: exactly the listing the
/// filesystem walker is fed for `d`.
pub open spec fn children(t: Seq<NodeView>, d: int) -> Seq<int> {
    children_upto(t, d, t.len() as int)
}

/// The directories among the nodes `s`, in order.
pub open spec fn dir_children(t: Seq<NodeView>, s: Seq<int>) -> Seq<int>
    decreases s.len(),
{
    if s.len() == 0 {
        Seq::empty()
    } else if t[s.last()].is_dir {
        dir_children(t, s.drop_last()).push(s.last())
    } else {
        dir_children(t, s.drop_last())
    }
}

/// The children of `d` among the first `k` nodes are exactly the non-root
/// positions below `k` whose parent is `d`, listed in strictly increasing
/// order.
proof fn lemma_children_upto(t: Seq<NodeView>, d: int, k: int)
    requires
        k >= 0,
    ensures
        forall|m: int|
            0 <= m < children_upto(t, d, k).len() ==> 0 < #[trigger] children_upto(t, d, k)[m] < k
                && t[children_upto(t, d, k)[m]].parent == d,
        forall|m1: int, m2: int|
            0 <= m1 < m2 < children_upto(t, d, k).len() ==> children_upto(t, d, k)[m1]
                < children_upto(t, d, k)[m2],
        forall|x: int| 0 < x < k && t[x].parent == d ==> children_upto(t, d, k).contains(x),
        children_upto(t, d, k).no_duplicates(),
    decreases k,
{
    if k > 0 {
        lemma_children_upto(t, d, k - 1);
        let prev = children_upto(t, d, k - 1);
        let cur = children_upto(t, d, k);
        assert forall|x: int| 0 < x < k && t[x].parent == d implies cur.contains(x) by {
            if x < k - 1 || (x == k - 1 && !(t[k - 1].parent == d && k - 1 != 0)) {
                assert(prev.contains(x));
                let m = choose|m: int| 0 <= m < prev.len() && prev[m] == x;
                assert(cur[m] == x);
            } else {
                assert(cur[cur.len() - 1] == x);
            }
        }
    }
}

/// The directories among `s` are exactly the members of `s` that are
/// directories, kept in order and without new duplicates.
proof fn lemma_dir_children(t: Seq<NodeView>, s: Seq<int>)
    ensures
        forall|m: int|
            0 <= m < dir_children(t, s).len() ==> s.contains(#[trigger] dir_children(t, s)[m])
                && t[dir_children(t, s)[m]].is_dir,
        forall|x: int| s.contains(x) && t[x].is_dir ==> dir_children(t, s).contains(x),
        s.no_duplicates() ==> dir_children(t, s).no_duplicates(),
    decreases s.len(),
{
    if s.len() > 0 {
        lemma_dir_children(t, s.drop_last());
        let prev = dir_children(t, s.drop_last());
        let cur = dir_children(t, s);
        assert forall|m: int|
            0 <= m < cur.len() implies s.contains(#[trigger] cur[m]) && t[cur[m]].is_dir by {
            if m < prev.len() {
                assert(s.drop_last().contains(prev[m]));
                let i = choose|i: int| 0 <= i < s.drop_last().len() && s.drop_last()[i] == prev[m];
                assert(s[i] == prev[m]);
            } else {
                assert(cur[m] == s.last());
                assert(s[s.len() - 1] == s.last());
            }
        }
        assert forall|x: int| s.contains(x) && t[x].is_dir implies cur.contains(x) by {
            let i = choose|i: int| 0 <= i < s.len() && s[i] == x;
            if i < s.len() - 1 {
                assert(s.drop_last()[i] == x);
                assert(s.drop_last().contains(x));
                assert(prev.contains(x));
                let m = choose|m: int| 0 <= m < prev.len() && prev[m] == x;
                assert(cur[m] == x);
            } else {
                assert(x == s.last());
                assert(t[s.last()].is_dir);
                assert(cur[cur.len() - 1] == x);
            }
        }
        if s.no_duplicates() {
            assert(s.drop_last().no_duplicates());
            assert forall|m1: int, m2: int|
                0 <= m1 < m2 < cur.len() implies cur[m1] != cur[m2] by {
                if m2 < prev.len() {
                } else if t[s.last()].is_dir {
                    assert(cur[m2] == s.last());
                    assert(s.drop_last().contains(cur[m1]));
                    let i = choose|i: int|
                        0 <= i < s.drop_last().len() && s.drop_last()[i] == cur[m1];
                    assert(s[i] == cur[m1]);
                    assert(s[s.len() - 1] == s.last());
                }
            }
        }
    }
}

/// The nodes a breadth-first walk yields from a queue of pending directories,
/// fuelled by the number of directories still allowed to be listed. The head
/// directory's children are yielded, its child directories join the queue when
/// the walk is recursive, and the walk goes on.
pub open spec fn walk_from(t: Seq<NodeView>, dirs: Seq<int>, recursive: bool, fuel: nat) -> Seq<
    int,
>
    decreases fuel,
{
    if dirs.len() == 0 || fuel == 0 {
        Seq::empty()
    } else {
        let d = dirs[0];
        let ch = children(t, d);
        let rest = if recursive {
            dirs.drop_first() + dir_children(t, ch)
        } else {
            dirs.drop_first()
        };
        ch + walk_from(t, rest, recursive, (fuel - 1) as nat)
    }
}

/// The full traversal of a tree: the breadth-first sequence of the nodes a
/// walk seeded at the root yields. A directory root is listed and never
/// yielded; a file root is the single yield.
pub open spec fn walk_indices(t: Seq<NodeView>, recursive: bool) -> Seq<int> {
    if t.len() == 0 {
        Seq::empty()
    } else if t[0].is_dir {
        walk_from(t, seq![0int], recursive, t.len() as nat)
    } else {
        seq![0int]
    }
}

/// What holds of a walk's pending-directory queue and its set of
/// already-listed directories throughout a traversal: every listed node is a
/// directory reached from the root through listed directories; the queue holds
/// distinct, unlisted directories, each the root or a child of a listed one.
pub open spec fn bfs_inv(t: Seq<NodeView>, dirs: Seq<int>, listed: Set<int>) -> bool {
    &&& listed.finite()
    &&& forall|l: int|
        #[trigger] listed.contains(l) ==> 0 <= l < t.len() && t[l].is_dir && (l == 0
            || listed.contains(t[l].parent))
    &&& dirs.no_duplicates()
    &&& forall|m: int|
        0 <= m < dirs.len() ==> 0 <= #[trigger] dirs[m] < t.len() && t[dirs[m]].is_dir
            && !listed.contains(dirs[m]) && (dirs[m] == 0 || listed.contains(t[dirs[m]].parent))
}

/// Listing the head of the pending queue preserves the walk's invariant and
/// spends exactly one unit of fuel.
proof fn lemma_bfs_step(t: Seq<NodeView>, dirs: Seq<int>, listed: Set<int>, recursive: bool)
    requires
        tree_wf(t),
        bfs_inv(t, dirs, listed),
        dirs.len() > 0,
    ensures
        bfs_inv(
            t,
            if recursive {
                dirs.drop_first() + dir_children(t, children(t, dirs[0]))
            } else {
                dirs.drop_first()
            },
            listed.insert(dirs[0]),
        ),
        !listed.contains(dirs[0]),
        listed.insert(dirs[0]).len() == listed.len() + 1,
        listed.len() < t.len(),
{
    let d = dirs[0];
    let n = t.len() as int;
    let listed1 = listed.insert(d);
    let ch = children(t, d);
    let chd = dir_children(t, ch);
    lemma_children_upto(t, d, n);
    lemma_dir_children(t, ch);

    assert(listed.subset_of(vstd::set_lib::set_int_range(0, n)));
    assert(listed1.subset_of(vstd::set_lib::set_int_range(0, n)));
    vstd::set_lib::lemma_int_range(0, n);
    vstd::set_lib::lemma_len_subset(listed1, vstd::set_lib::set_int_range(0, n));
    assert(listed1.len() <= n);
    assert(listed.len() < n);

    // The listed set stays closed under parents.
    assert forall|l: int| #[trigger] listed1.contains(l) implies 0 <= l < t.len() && t[l].is_dir
        && (l == 0 || listed1.contains(t[l].parent)) by {
        if l == d {
            assert(d == 0 || listed.contains(t[d].parent));
        }
    }

    let a = dirs.drop_first();
    assert(a.no_duplicates());
    assert forall|m: int|
        0 <= m < a.len() implies 0 <= #[trigger] a[m] < t.len() && t[a[m]].is_dir
        && !listed1.contains(a[m]) && (a[m] == 0 || listed1.contains(t[a[m]].parent)) by {
        assert(a[m] == dirs[m + 1]);
        assert(dirs[m + 1] != d);
    }

    // A child directory of the freshly listed node is new everywhere: it is
    // greater than its parent, so never the parent itself, and a listed node's
    // parent is listed while this child's parent was not.
    assert forall|m: int|
        0 <= m < chd.len() implies 0 < #[trigger] chd[m] < t.len() && t[chd[m]].is_dir
        && !listed1.contains(chd[m]) && listed1.contains(t[chd[m]].parent) by {
        let c = chd[m];
        assert(ch.contains(c));
        let i = choose|i: int| 0 <= i < ch.len() && ch[i] == c;
        assert(0 < c < n && t[c].parent == d);
        assert(d < c);
        if listed.contains(c) {
            assert(listed.contains(t[c].parent));
            assert(false);
        }
    }

    if recursive {
        let b = chd;
        assert(b.no_duplicates());
        assert forall|x: int| a.contains(x) implies !b.contains(x) by {
            if b.contains(x) {
                let m = choose|m: int| 0 <= m < b.len() && b[m] == x;
                let i = choose|i: int| 0 <= i < a.len() && a[i] == x;
                assert(ch.contains(x));
                let ci = choose|ci: int| 0 <= ci < ch.len() && ch[ci] == x;
                assert(t[x].parent == d);
                assert(a[i] == dirs[i + 1]);
                assert(x != 0);
                assert(listed.contains(t[x].parent));
            }
        }
        lemma_concat_no_dup(a, b);
        let rest = a + b;
        assert forall|m: int|
            0 <= m < rest.len() implies 0 <= #[trigger] rest[m] < t.len() && t[rest[m]].is_dir
            && !listed1.contains(rest[m]) && (rest[m] == 0 || listed1.contains(
            t[rest[m]].parent,
        )) by {
            if m < a.len() {
                assert(rest[m] == a[m]);
            } else {
                assert(rest[m] == b[m - a.len()]);
            }
        }
    }
}

/// A breadth-first walk that respects the invariant yields each node at most
/// once, and only non-root nodes whose parent was not yet listed when the walk
/// state was taken.
proof fn lemma_walk_from_props(
    t: Seq<NodeView>,
    dirs: Seq<int>,
    listed: Set<int>,
    recursive: bool,
    fuel: nat,
)
    requires
        tree_wf(t),
        bfs_inv(t, dirs, listed),
        fuel == t.len() - listed.len(),
    ensures
        walk_from(t, dirs, recursive, fuel).no_duplicates(),
        forall|m: int|
            0 <= m < walk_from(t, dirs, recursive, fuel).len() ==> 0 < #[trigger] walk_from(
                t,
                dirs,
                recursive,
                fuel,
            )[m] < t.len() && !listed.contains(t[walk_from(t, dirs, recursive, fuel)[m]].parent),
    decreases fuel,
{
    if dirs.len() == 0 || fuel == 0 {
    } else {
        let d = dirs[0];
        let ch = children(t, d);
        let rest = if recursive {
            dirs.drop_first() + dir_children(t, ch)
        } else {
            dirs.drop_first()
        };
        let listed1 = listed.insert(d);
        lemma_bfs_step(t, dirs, listed, recursive);
        lemma_children_upto(t, d, t.len() as int);
        lemma_walk_from_props(t, rest, listed1, recursive, (fuel - 1) as nat);
        let tail = walk_from(t, rest, recursive, (fuel - 1) as nat);
        let whole = walk_from(t, dirs, recursive, fuel);
        assert(whole == ch + tail);

        assert forall|x: int| ch.contains(x) implies !tail.contains(x) by {
            if tail.contains(x) {
                let m = choose|m: int| 0 <= m < tail.len() && tail[m] == x;
                let i = choose|i: int| 0 <= i < ch.len() && ch[i] == x;
                assert(t[x].parent == d);
                assert(listed1.contains(d));
            }
        }
        lemma_concat_no_dup(ch, tail);

        assert forall|m: int|
            0 <= m < whole.len() implies 0 < #[trigger] whole[m] < t.len() && !listed.contains(
            t[whole[m]].parent,
        ) by {
            if m < ch.len() {
                assert(whole[m] == ch[m]);
                assert(t[ch[m]].parent == d);
            } else {
                assert(whole[m] == tail[m - ch.len()]);
            }
        }
    }
}

/// Concatenating duplicate-free sequences with no common member yields a
/// duplicate-free sequence.
proof fn lemma_concat_no_dup(a: Seq<int>, b: Seq<int>)
    requires
        a.no_duplicates(),
        b.no_duplicates(),
        forall|x: int| a.contains(x) ==> !b.contains(x),
    ensures
        (a + b).no_duplicates(),
{
    let c = a + b;
    assert forall|i: int, j: int| 0 <= i < j < c.len() implies c[i] != c[j] by {
        if i < a.len() && j >= a.len() {
            assert(a.contains(c[i]));
            assert(b.contains(c[j]));
        }
    }
}

/// Walker determinism: a full traversal of a fixed, unchanging tree is one
/// sequence, determined by the tree and the recursion flag alone. Two
/// traversals yield the same nodes in the same order, and in particular the
/// same multiset of paths.
pub proof fn lemma_walk_deterministic(
    t: Seq<NodeView>,
    recursive: bool,
    r1: Seq<int>,
    r2: Seq<int>,
)
    requires
        r1 == walk_indices(t, recursive),
        r2 == walk_indices(t, recursive),
    ensures
        r1 == r2,
        paths_of(t, r1).to_multiset() == paths_of(t, r2).to_multiset(),
{
}

/// A walk of a well-formed tree never yields a node twice, yields at most as
/// many entries as the tree holds, and, the tree's paths being distinct, never
/// yields a path twice.
pub proof fn lemma_walk_no_duplicates(t: Seq<NodeView>, recursive: bool)
    requires
        tree_wf(t),
    ensures
        walk_indices(t, recursive).no_duplicates(),
        forall|m: int|
            0 <= m < walk_indices(t, recursive).len() ==> 0 <= #[trigger] walk_indices(
                t,
                recursive,
            )[m] < t.len(),
        walk_indices(t, recursive).len() <= t.len(),
        forall|m1: int, m2: int|
            0 <= m1 < m2 < walk_indices(t, recursive).len() ==> paths_of(
                t,
                walk_indices(t, recursive),
            )[m1] != paths_of(t, walk_indices(t, recursive))[m2],
{
    let w = walk_indices(t, recursive);
    let n = t.len() as int;
    if t[0].is_dir {
        assert(Set::<int>::empty().finite());
        assert(seq![0int].no_duplicates());
        assert(bfs_inv(t, seq![0int], Set::empty()));
        lemma_walk_from_props(t, seq![0int], Set::empty(), recursive, t.len() as nat);
    } else {
        assert(w =~= seq![0int]);
        assert(w.no_duplicates());
    }
    w.unique_seq_to_set();
    assert(w.to_set().subset_of(vstd::set_lib::set_int_range(0, n))) by {
        assert forall|x: int|
            w.to_set().contains(x) implies vstd::set_lib::set_int_range(0, n).contains(x) by {
            assert(w.contains(x));
            let m = choose|m: int| 0 <= m < w.len() && w[m] == x;
            assert(0 <= w[m] < n);
        }
    }
    vstd::set_lib::lemma_int_range(0, n);
    vstd::set_lib::lemma_len_subset(w.to_set(), vstd::set_lib::set_int_range(0, n));

    assert forall|m1: int, m2: int|
        0 <= m1 < m2 < w.len() implies paths_of(t, w)[m1] != paths_of(t, w)[m2] by {
        assert(w[m1] != w[m2]);
        assert(0 <= w[m1] < n && 0 <= w[m2] < n);
        if w[m1] < w[m2] {
            assert(t[w[m1]].path != t[w[m2]].path);
        } else {
            assert(t[w[m2]].path != t[w[m1]].path);
        }
    }
}

/// A non-recursive walk of a directory root yields exactly the immediate
/// children of the root, in position order, and nothing deeper.
pub proof fn lemma_walk_nonrecursive(t: Seq<NodeView>)
    requires
        tree_wf(t),
        t[0].is_dir,
    ensures
        walk_indices(t, false) == children(t, 0),
        forall|m: int|
            0 <= m < children(t, 0).len() ==> t[#[trigger] children(t, 0)[m]].parent == 0,
{
    let dirs = seq![0int];
    let fuel = t.len() as nat;
    assert(fuel > 0);
    assert(dirs.drop_first() =~= Seq::<int>::empty());
    assert(walk_from(t, dirs, false, fuel) == children(t, 0) + walk_from(
        t,
        Seq::<int>::empty(),
        false,
        (fuel - 1) as nat,
    ));
    assert(children(t, 0) + Seq::<int>::empty() =~= children(t, 0));
    lemma_children_upto(t, 0, t.len() as int);
}

/// The positions `s`, as mathematical integers.
pub open spec fn usize_ints(s: Seq<usize>) -> Seq<int> {
    s.map_values(|u: usize| u as int)
}

/// The walker entry for node `i` of a tree.
pub open spec fn entry_of(t: Seq<NodeView>, i: int) -> EntryView {
    EntryView { path: t[i].path, is_dir: t[i].is_dir }
}

/// The walker entries for the nodes `s` of a tree.
pub open spec fn entries_of(t: Seq<NodeView>, s: Seq<int>) -> Seq<EntryView> {
    s.map_values(|i: int| entry_of(t, i))
}

/// The paths of the nodes `s` of a tree.
pub open spec fn paths_of(t: Seq<NodeView>, s: Seq<int>) -> Seq<Seq<char>> {
    s.map_values(|i: int| t[i].path)
}

/// Taking the directories' paths of a node sequence commutes with taking the
/// entries of those nodes.
proof fn lemma_dir_paths_align(t: Seq<NodeView>, s: Seq<int>)
    ensures
        dir_paths(entries_of(t, s)) == paths_of(t, dir_children(t, s)),
    decreases s.len(),
{
    if s.len() == 0 {
        assert(entries_of(t, s) =~= Seq::<EntryView>::empty());
        assert(paths_of(t, dir_children(t, s)) =~= Seq::<Seq<char>>::empty());
    } else {
        lemma_dir_paths_align(t, s.drop_last());
        let es = entries_of(t, s);
        assert(es.drop_last() =~= entries_of(t, s.drop_last()));
        assert(es.last() == entry_of(t, s.last()));
        if t[s.last()].is_dir {
            assert(paths_of(t, dir_children(t, s.drop_last()).push(s.last())) =~= paths_of(
                t,
                dir_children(t, s.drop_last()),
            ).push(t[s.last()].path));
        }
        assert(dir_paths(es) =~= paths_of(t, dir_children(t, s)));
    }
}

/// The children of node `d` of a tree, as positions in ascending order.
pub fn children_of(tree: &DirTree, d: usize) -> (r: Vec<usize>)
    ensures
        usize_ints(r@) == children(tree@, d as int),
        forall|m: int| 0 <= m < r@.len() ==> #[trigger] r@[m] < tree@.len(),
{
    let n = tree.nodes.len();
    proof {
        assert(tree@.len() == n);
    }
    let mut r: Vec<usize> = Vec::new();
    let mut k: usize = 0;
    while k < n
        invariant
            k <= n,
            n == tree.nodes@.len(),
            n == tree@.len(),
            usize_ints(r@) == children_upto(tree@, d as int, k as int),
            forall|m: int| 0 <= m < r@.len() ==> #[trigger] r@[m] < k,
        decreases n - k,
    {
        let ghost prev = r@;
        proof {
            assert(tree@[k as int] == tree.nodes@[k as int]@);
        }
        if k != 0 && tree.nodes[k].parent == d {
            r.push(k);
            proof {
                assert(usize_ints(r@) =~= usize_ints(prev).push(k as int));
            }
        }
        k = k + 1;
    }
    r
}

/// Walks a well-formed in-memory tree with a [`FileExplorer`], feeding it each
/// listed directory's children, and returns the positions of the yielded
/// nodes, in yield order: exactly the breadth-first traversal of the tree.
pub fn walk_tree(tree: &DirTree, recursive: bool) -> (r: Vec<usize>)
    requires
        tree.well_formed(),
    ensures
        usize_ints(r@) == walk_indices(tree@, recursive),
        forall|m: int| 0 <= m < r@.len() ==> #[trigger] r@[m] < tree@.len(),
{
    let n = tree.nodes.len();
    proof {
        assert(tree@.len() == n);
    }
    let root_is_dir = tree.nodes[0].is_dir;
    let root_entry = Entry { path: tree.nodes[0].path.clone(), is_dir: root_is_dir };
    proof {
        assert(root_entry@ == entry_of(tree@, 0));
        assert(tree@[0].is_dir == root_is_dir);
    }
    let mut explorer = FileExplorer::create(root_entry, recursive);
    let mut dirs_idx: Vec<usize> = Vec::new();
    let mut files_idx: Vec<usize> = Vec::new();
    if root_is_dir {
        dirs_idx.push(0);
    } else {
        files_idx.push(0);
    }
    let ghost mut listed: Set<int> = Set::empty();
    let mut out: Vec<usize> = Vec::new();
    proof {
        if root_is_dir {
            assert(entries_of(tree@, usize_ints(files_idx@)) =~= Seq::<EntryView>::empty());
            assert(paths_of(tree@, usize_ints(dirs_idx@)) =~= seq![tree@[0].path]);
            assert(usize_ints(dirs_idx@) =~= seq![0int]);
        } else {
            assert(entries_of(tree@, usize_ints(files_idx@)) =~= seq![entry_of(tree@, 0)]);
            assert(paths_of(tree@, usize_ints(dirs_idx@)) =~= Seq::<Seq<char>>::empty());
            assert(usize_ints(dirs_idx@) =~= Seq::<int>::empty());
            assert(usize_ints(files_idx@) =~= seq![0int]);
        }
        assert(usize_ints(out@) =~= Seq::<int>::empty());
        assert(usize_ints(out@) + usize_ints(files_idx@) + walk_from(
            tree@,
            usize_ints(dirs_idx@),
            recursive,
            (n - listed.len()) as nat,
        ) =~= walk_indices(tree@, recursive));
    }
    while !explorer.eof()
        invariant
            tree.well_formed(),
            n == tree@.len(),
            n == tree.nodes@.len(),
            explorer@.recursive == recursive,
            explorer@.files == entries_of(tree@, usize_ints(files_idx@)),
            explorer@.folders == paths_of(tree@, usize_ints(dirs_idx@)),
            bfs_inv(tree@, usize_ints(dirs_idx@), listed),
            listed.len() <= n,
            forall|m: int| 0 <= m < files_idx@.len() ==> #[trigger] files_idx@[m] < n,
            forall|m: int| 0 <= m < out@.len() ==> #[trigger] out@[m] < n,
            usize_ints(out@) + usize_ints(files_idx@) + walk_from(
                tree@,
                usize_ints(dirs_idx@),
                recursive,
                (n - listed.len()) as nat,
            ) == walk_indices(tree@, recursive),
        decreases n - listed.len(), files_idx@.len(),
    {
        if explorer.has_file() {
            proof {
                assert(files_idx@.len() > 0);
            }
            let _e = explorer.next();
            let ghost files0 = usize_ints(files_idx@);
            let i = files_idx.remove(0);
            let ghost out0 = usize_ints(out@);
            out.push(i);
            proof {
                assert(usize_ints(out@) =~= out0.push(i as int));
                assert(usize_ints(files_idx@) =~= files0.drop_first());
                assert(entries_of(tree@, usize_ints(files_idx@)) =~= entries_of(
                    tree@,
                    files0,
                ).drop_first());
                assert(usize_ints(out@) + usize_ints(files_idx@) =~= out0 + files0);
                assert(usize_ints(out@) + usize_ints(files_idx@) + walk_from(
                    tree@,
                    usize_ints(dirs_idx@),
                    recursive,
                    (n - listed.len()) as nat,
                ) =~= out0 + files0 + walk_from(
                    tree@,
                    usize_ints(dirs_idx@),
                    recursive,
                    (n - listed.len()) as nat,
                ));
            }
        } else {
            proof {
                assert(explorer@.folders.len() > 0);
                assert(usize_ints(dirs_idx@).len() > 0);
                assert(files_idx@.len() == 0);
                assert(usize_ints(files_idx@) =~= Seq::<int>::empty());
            }
            let ghost dirs0 = usize_ints(dirs_idx@);
            let ghost fuel0 = (n - listed.len()) as nat;
            let _p = explorer.next_folder();
            let d = dirs_idx.remove(0);
            proof {
                assert(d as int == dirs0[0]);
                lemma_bfs_step(tree@, dirs0, listed, recursive);
                lemma_children_upto(tree@, d as int, tree@.len() as int);
            }
            let ch = children_of(tree, d);
            let ghost chi = usize_ints(ch@);
            let mut kids: Vec<Entry> = Vec::new();
            let mut k: usize = 0;
            while k < ch.len()
                invariant
                    k <= ch@.len(),
                    n == tree.nodes@.len(),
                    n == tree@.len(),
                    chi == usize_ints(ch@),
                    forall|m: int| 0 <= m < ch@.len() ==> #[trigger] ch@[m] < n,
                    entry_views(kids@) == entries_of(tree@, chi.take(k as int)),
                decreases ch@.len() - k,
            {
                let ghost kids0 = kids@;
                let idx = ch[k];
                kids.push(Entry { path: tree.nodes[idx].path.clone(), is_dir: tree.nodes[idx].is_dir });
                proof {
                    assert(tree@[idx as int] == tree.nodes@[idx as int]@);
                    assert(entry_views(kids@) =~= entry_views(kids0).push(entry_of(tree@, chi[k as int])));
                    assert(entries_of(tree@, chi.take(k as int + 1)) =~= entries_of(
                        tree@,
                        chi.take(k as int),
                    ).push(entry_of(tree@, chi[k as int])));
                }
                k = k + 1;
            }
            proof {
                assert(chi.take(chi.len() as int) =~= chi);
            }
            let ghost kids_views = entry_views(kids@);
            explorer.push_listing(kids);
            let mut k2: usize = 0;
            let ghost dirs1 = usize_ints(dirs_idx@);
            while k2 < ch.len()
                invariant
                    k2 <= ch@.len(),
                    n == tree.nodes@.len(),
                    n == tree@.len(),
                    chi == usize_ints(ch@),
                    forall|m: int| 0 <= m < ch@.len() ==> #[trigger] ch@[m] < n,
                    usize_ints(files_idx@) == chi.take(k2 as int),
                    recursive ==> usize_ints(dirs_idx@) == dirs1 + dir_children(
                        tree@,
                        chi.take(k2 as int),
                    ),
                    !recursive ==> usize_ints(dirs_idx@) == dirs1,
                decreases ch@.len() - k2,
            {
                let ghost files1 = usize_ints(files_idx@);
                let ghost dirs2 = usize_ints(dirs_idx@);
                let idx = ch[k2];
                files_idx.push(idx);
                proof {
                    assert(usize_ints(files_idx@) =~= files1.push(chi[k2 as int]));
                    assert(chi.take(k2 as int + 1) =~= chi.take(k2 as int).push(chi[k2 as int]));
                    assert(chi.take(k2 as int + 1).drop_last() =~= chi.take(k2 as int));
                    assert(tree@[idx as int] == tree.nodes@[idx as int]@);
                }
                if recursive && tree.nodes[idx].is_dir {
                    dirs_idx.push(idx);
                    proof {
                        assert(usize_ints(dirs_idx@) =~= dirs2.push(chi[k2 as int]));
                    }
                }
                k2 = k2 + 1;
            }
            proof {
                assert(chi.take(chi.len() as int) =~= chi);
                listed = listed.insert(d as int);

                // The explorer's queues and the position mirrors agree again.
                assert(explorer@.files =~= entries_of(tree@, chi)) by {
                    assert(explorer@.files =~= Seq::<EntryView>::empty() + kids_views);
                }
                assert(usize_ints(files_idx@) == chi);
                assert forall|m: int| 0 <= m < files_idx@.len() implies #[trigger] files_idx@[m]
                    < n by {
                    assert(usize_ints(files_idx@)[m] == files_idx@[m] as int);
                    assert(chi[m] == ch@[m] as int);
                }
                let rest = if recursive {
                    dirs0.drop_first() + dir_children(tree@, children(tree@, dirs0[0]))
                } else {
                    dirs0.drop_first()
                };
                assert(paths_of(tree@, dirs0).drop_first() =~= paths_of(tree@, dirs0.drop_first()));
                assert(dirs1 =~= dirs0.drop_first());
                if recursive {
                    lemma_dir_paths_align(tree@, chi);
                    assert(dir_paths(kids_views) == paths_of(tree@, dir_children(tree@, chi)));
                    assert(usize_ints(dirs_idx@) =~= rest);
                    assert(paths_of(tree@, dirs0.drop_first()) + paths_of(
                        tree@,
                        dir_children(tree@, chi),
                    ) =~= paths_of(tree@, rest));
                } else {
                    assert(usize_ints(dirs_idx@) =~= rest);
                }
                assert(explorer@.folders =~= paths_of(tree@, usize_ints(dirs_idx@)));

                // One listing step of the walk: the head directory's children
                // are yielded next, and one unit of fuel is spent.
                assert(fuel0 > 0);
                assert(walk_from(tree@, dirs0, recursive, fuel0) == children(tree@, dirs0[0])
                    + walk_from(tree@, rest, recursive, (fuel0 - 1) as nat));
                assert((n - listed.len()) as nat == (fuel0 - 1) as nat);
                assert(usize_ints(out@) + usize_ints(files_idx@) + walk_from(
                    tree@,
                    usize_ints(dirs_idx@),
                    recursive,
                    (n - listed.len()) as nat,
                ) =~= usize_ints(out@) + (Seq::<int>::empty() + chi) + walk_from(
                    tree@,
                    rest,
                    recursive,
                    (fuel0 - 1) as nat,
                ));
                assert(usize_ints(out@) + (Seq::<int>::empty() + chi) + walk_from(
                    tree@,
                    rest,
                    recursive,
                    (fuel0 - 1) as nat,
                ) =~= usize_ints(out@) + Seq::<int>::empty() + walk_from(
                    tree@,
                    dirs0,
                    recursive,
                    fuel0,
                ));
            }
        }
    }
    proof {
        assert(files_idx@.len() == 0);
        assert(usize_ints(dirs_idx@).len() == 0);
        assert(usize_ints(files_idx@) =~= Seq::<int>::empty());
        assert(usize_ints(out@) + usize_ints(files_idx@) + walk_from(
            tree@,
            usize_ints(dirs_idx@),
            recursive,
            (n - listed.len()) as nat,
        ) =~= usize_ints(out@));
    }
    out
}

} // verus!
