use vstd::prelude::*;
use crate::error::SyncError;
use crate::item::{ItemModel, Link};

verus! {

/// The name of the "current directory" path segment.
pub open spec fn cur_dir() -> Seq<char> {
    seq!['.']
}

/// The names held by a path, segment by segment.
pub open spec fn segments(path: Seq<String>) -> Seq<Seq<char>> {
    path.map_values(|segment: String| segment@)
}

/// Mathematical value of a local tree: an arena of items, the child handles of
/// each item, and the handles of the top-level items. A handle is a position
/// in the arena and stays valid for the life of the tree.
pub struct TreeModel {
    pub items: Seq<ItemModel>,
    pub children: Seq<Seq<usize>>,
    pub roots: Seq<usize>,
}

impl TreeModel {
    /// The tree without items.
    pub open spec fn empty() -> TreeModel {
        TreeModel { items: Seq::empty(), children: Seq::empty(), roots: Seq::empty() }
    }

    /// `h` is the handle of an item of this tree.
    pub open spec fn has(self, h: usize) -> bool {
        h < self.items.len()
    }

    /// The name of item `h`.
    pub open spec fn name_at(self, h: usize) -> Seq<char> {
        self.items[h as int].name
    }

    /// Every handle of `among` is the handle of an item.
    pub open spec fn all_in_range(self, among: Seq<usize>) -> bool {
        forall|k: int| 0 <= k < among.len() ==> (#[trigger] among[k]) < self.items.len()
    }

    /// The links of item `n` agree with the child lists, its children come after
    /// it in the arena, bear pairwise different names, and a file has none.
    pub open spec fn node_wf(self, n: int) -> bool {
        &&& match self.items[n].parent {
            Link::Root => self.roots.contains(n as usize),
            Link::Child(p) => p < n && self.children[p as int].contains(n as usize),
            Link::Detached => true,
        }
        &&& forall|j: int|
            0 <= j < self.children[n].len() ==> {
                let c = #[trigger] self.children[n][j];
                &&& n < c < self.items.len()
                &&& self.items[c as int].parent == Link::Child(n as usize)
            }
        &&& forall|i: int, j: int|
            0 <= i < j < self.children[n].len() ==> self.name_at(#[trigger] self.children[n][i])
                != self.name_at(#[trigger] self.children[n][j])
        &&& self.items[n].is_regular_file ==> self.children[n].len() == 0
    }

    /// The tree invariant: no orphan among the linked items, no item with two
    /// parents, no cycle (a parent always precedes its children in the arena).
    pub open spec fn wf(self) -> bool {
        &&& self.items.len() <= usize::MAX
        &&& self.children.len() == self.items.len()
        &&& forall|i: int|
            0 <= i < self.roots.len() ==> {
                let r = #[trigger] self.roots[i];
                &&& r < self.items.len()
                &&& self.items[r as int].parent == Link::Root
            }
        &&& forall|i: int, j: int|
            0 <= i < j < self.roots.len() ==> #[trigger] self.roots[i] != #[trigger] self.roots[j]
        &&& forall|n: int| 0 <= n < self.items.len() ==> #[trigger] self.node_wf(n)
    }

    /// Position `k` of `among` is the first that holds an item named `name`.
    pub open spec fn is_first_named(self, among: Seq<usize>, name: Seq<char>, k: int) -> bool {
        &&& 0 <= k < among.len()
        &&& self.name_at(among[k]) == name
        &&& forall|j: int| 0 <= j < k ==> self.name_at(#[trigger] among[j]) != name
    }

    /// The first item of `among` that is named `name`.
    pub open spec fn first_named(self, among: Seq<usize>, name: Seq<char>) -> Option<usize> {
        if exists|k: int| self.is_first_named(among, name, k) {
            Some(among[choose|k: int| self.is_first_named(among, name, k)])
        } else {
            None
        }
    }

    /// The names from the top level down to item `h`: found by following the
    /// parent links upwards. Fails where a link on the way is broken.
    pub open spec fn path_of(self, h: usize) -> Result<Seq<Seq<char>>, SyncError>
        decreases h,
    {
        if h >= self.items.len() {
            Err(SyncError::NotFound)
        } else {
            match self.items[h as int].parent {
                Link::Root => Ok(seq![self.name_at(h)]),
                Link::Detached => Err(SyncError::MissingParent),
                Link::Child(p) => if p < h {
                    match self.path_of(p) {
                        Ok(above) => Ok(above.push(self.name_at(h))),
                        Err(e) => Err(e),
                    }
                } else {
                    Err(SyncError::MissingParent)
                },
            }
        }
    }

    /// Descent along `path`, starting among the items `among`: current-directory
    /// segments are skipped, every other segment selects the first item of that
    /// name, and the descent goes on among its children.
    pub open spec fn lookup(self, among: Seq<usize>, path: Seq<Seq<char>>) -> Result<
        Option<usize>,
        SyncError,
    >
        decreases path.len(),
    {
        if path.len() == 0 {
            Err(SyncError::InvalidPath)
        } else if path[0] == cur_dir() {
            self.lookup(among, path.drop_first())
        } else {
            match self.first_named(among, path[0]) {
                None => Ok(None),
                Some(h) => if path.len() == 1 {
                    Ok(Some(h))
                } else {
                    self.lookup(self.children[h as int], path.drop_first())
                },
            }
        }
    }

    /// What `find_from_path` answers.
    pub open spec fn find(self, path: Seq<Seq<char>>) -> Result<Option<usize>, SyncError> {
        self.lookup(self.roots, path)
    }

    /// The tree with `item` added as a new top-level item.
    pub open spec fn push_root(self, item: ItemModel) -> TreeModel {
        TreeModel {
            items: self.items.push(ItemModel { parent: Link::Root, ..item }),
            children: self.children.push(Seq::empty()),
            roots: self.roots.push(self.items.len() as usize),
        }
    }

    /// The tree with `item` added as the last child of `p`.
    pub open spec fn push_child(self, p: usize, item: ItemModel) -> TreeModel {
        TreeModel {
            items: self.items.push(ItemModel { parent: Link::Child(p), ..item }),
            children: self.children.update(
                p as int,
                self.children[p as int].push(self.items.len() as usize),
            ).push(Seq::empty()),
            roots: self.roots,
        }
    }

    /// Adding a child to directory `p`: refused where `p` is no item, is a file,
    /// or already has a child of that name.
    pub open spec fn add_child(self, p: usize, item: ItemModel) -> Result<TreeModel, SyncError> {
        if p >= self.items.len() {
            Err(SyncError::MissingParent)
        } else if self.items[p as int].is_regular_file {
            Err(SyncError::NotADirectory)
        } else if self.first_named(self.children[p as int], item.name) is Some {
            Err(SyncError::DuplicateName)
        } else {
            Ok(self.push_child(p, item))
        }
    }

    /// Attaching an item where it declares to belong.
    pub open spec fn attach(self, item: ItemModel) -> Result<TreeModel, SyncError> {
        match item.parent {
            Link::Root => Ok(self.push_root(item)),
            Link::Child(p) => self.add_child(p, item),
            Link::Detached => Err(SyncError::MissingParent),
        }
    }

    /// The tree with item `h` marked as `link`.
    pub open spec fn relink(self, h: usize, link: Link) -> TreeModel {
        TreeModel {
            items: self.items.update(h as int, ItemModel { parent: link, ..self.items[h as int] }),
            ..self
        }
    }

    /// Unlinking item `h` (with all that hangs below it) from its parent or from
    /// the top level. The item keeps its handle and becomes detached.
    pub open spec fn detach(self, h: usize) -> Result<TreeModel, SyncError> {
        if h >= self.items.len() {
            Err(SyncError::NotFound)
        } else {
            match self.items[h as int].parent {
                Link::Detached => Err(SyncError::MissingParent),
                Link::Root => Ok(
                    TreeModel {
                        roots: self.roots.remove(self.roots.index_of(h)),
                        ..self.relink(h, Link::Detached)
                    },
                ),
                Link::Child(p) => Ok(
                    TreeModel {
                        children: self.children.update(
                            p as int,
                            self.children[p as int].remove(self.children[p as int].index_of(h)),
                        ),
                        ..self.relink(h, Link::Detached)
                    },
                ),
            }
        }
    }

    /// Removing the child of `p` that is named `name`.
    pub open spec fn remove_child(self, p: usize, name: Seq<char>) -> Result<
        (TreeModel, usize),
        SyncError,
    > {
        if p >= self.items.len() {
            Err(SyncError::NotFound)
        } else {
            match self.first_named(self.children[p as int], name) {
                None => Err(SyncError::NotFound),
                Some(c) => match self.detach(c) {
                    Ok(t) => Ok((t, c)),
                    Err(e) => Err(e),
                },
            }
        }
    }

    /// The tree with the modification time of item `h` set to `timestamp`.
    pub open spec fn touch(self, h: usize, timestamp: u64) -> TreeModel {
        TreeModel {
            items: self.items.update(h as int, ItemModel { timestamp, ..self.items[h as int] }),
            ..self
        }
    }

    /// Item `h` can be told apart by its path: it is linked to the top level,
    /// neither it nor an ancestor bears the current-directory name, and its
    /// top-level ancestor is the first top-level item of its name.
    pub open spec fn findable(self, h: usize) -> bool
        decreases h,
    {
        &&& h < self.items.len()
        &&& self.name_at(h) != cur_dir()
        &&& match self.items[h as int].parent {
            Link::Root => self.first_named(self.roots, self.name_at(h)) == Some(h),
            Link::Child(p) => p < h && self.findable(p),
            Link::Detached => false,
        }
    }

    /// The handle in position `j` of the child list of item `n`.
    pub open spec fn child_at(self, n: int, j: int) -> usize {
        self.children[n][j]
    }

    /// `j` is a position of the child list of item `n`.
    pub open spec fn is_slot(self, n: int, j: int) -> bool {
        0 <= n < self.children.len() && 0 <= j < self.children[n].len()
    }

    /// `other` holds the same items, child lists and top-level list; only the
    /// parent links of its items may differ.
    pub open spec fn same_entries(self, other: TreeModel) -> bool {
        &&& other.items.len() == self.items.len()
        &&& other.children == self.children
        &&& other.roots == self.roots
        &&& forall|h: int|
            0 <= h < self.items.len() ==> (#[trigger] other.items[h]) == (ItemModel {
                parent: other.items[h].parent,
                ..self.items[h]
            })
    }

    /// The child lists and the top-level list describe a forest, whatever the
    /// parent links say: every listed handle names an item, children come after
    /// their parent, no item is listed twice, siblings bear different names and
    /// files have no children.
    pub open spec fn links_ok(self) -> bool {
        &&& self.items.len() <= usize::MAX
        &&& self.children.len() == self.items.len()
        &&& forall|i: int|
            0 <= i < self.roots.len() ==> (#[trigger] self.roots[i]) < self.items.len()
        &&& forall|i: int, j: int|
            0 <= i < j < self.roots.len() ==> #[trigger] self.roots[i] != #[trigger] self.roots[j]
        &&& forall|n: int, j: int|
            self.is_slot(n, j) ==> n < (#[trigger] self.child_at(n, j)) < self.items.len()
        &&& forall|n: int, j: int, m: int, k: int|
            self.is_slot(n, j) && self.is_slot(m, k) && (n != m || j != k)
                ==> #[trigger] self.child_at(n, j) != #[trigger] self.child_at(m, k)
        &&& forall|i: int, n: int, j: int|
            0 <= i < self.roots.len() && self.is_slot(n, j) ==> #[trigger] self.roots[i]
                != #[trigger] self.child_at(n, j)
        &&& forall|n: int, i: int, j: int|
            self.is_slot(n, i) && self.is_slot(n, j) && i < j ==> self.name_at(
                #[trigger] self.child_at(n, i),
            ) != self.name_at(#[trigger] self.child_at(n, j))
        &&& forall|n: int|
            0 <= n < self.items.len() && (#[trigger] self.items[n]).is_regular_file
                ==> self.children[n].len() == 0
    }

    /// Position `k` of item `q` comes before position `j` of item `p`.
    pub open spec fn done(p: int, j: int, q: int, k: int) -> bool {
        q < p || (q == p && k < j)
    }

    /// The parent link of item `m` is backed by a child-list position before
    /// position `j` of item `p`, or by the top-level list.
    pub open spec fn link_ok(self, m: int, p: int, j: int) -> bool {
        match self.items[m].parent {
            Link::Root => self.roots.contains(m as usize),
            Link::Child(q) => exists|k: int|
                self.is_slot(q as int, k) && Self::done(p, j, q as int, k) && #[trigger] self.child_at(
                    q as int,
                    k,
                ) == m,
            Link::Detached => true,
        }
    }

    /// The state of a relinking pass that has reached position `j` of item `p`:
    /// the top-level items are marked, and exactly the children listed before
    /// that position are linked to their parents.
    pub open spec fn partly_linked(self, p: int, j: int) -> bool {
        &&& self.items.len() <= usize::MAX
        &&& self.children.len() == self.items.len()
        &&& 0 <= p <= self.items.len()
        &&& forall|i: int|
            0 <= i < self.roots.len() ==> {
                let r = #[trigger] self.roots[i];
                &&& r < self.items.len()
                &&& self.items[r as int].parent == Link::Root
            }
        &&& forall|i: int, j: int|
            0 <= i < j < self.roots.len() ==> #[trigger] self.roots[i] != #[trigger] self.roots[j]
        &&& forall|m: int| 0 <= m < self.items.len() ==> #[trigger] self.link_ok(m, p, j)
        &&& forall|q: int, k: int|
            self.is_slot(q, k) && Self::done(p, j, q, k) ==> {
                let c = #[trigger] self.child_at(q, k);
                &&& q < c < self.items.len()
                &&& self.items[c as int].parent == Link::Child(q as usize)
            }
        &&& forall|q: int, a: int, b: int|
            self.is_slot(q, a) && self.is_slot(q, b) && a < b && Self::done(p, j, q, b)
                ==> self.name_at(#[trigger] self.child_at(q, a)) != self.name_at(
                #[trigger] self.child_at(q, b),
            )
        &&& forall|q: int|
            0 <= q < p && (#[trigger] self.items[q]).is_regular_file ==> self.children[q].len()
                == 0
    }

    /// Making the tree hold an item at `path` that bears the time `timestamp`:
    /// the item that the path leads to gets that time; where it leads to none,
    /// an item named as the last segment is added under the item that the rest
    /// of the path leads to, or at the top level for a path of one segment.
    pub open spec fn track(
        self,
        path: Seq<Seq<char>>,
        id: u64,
        timestamp: u64,
        is_regular_file: bool,
    ) -> Result<(TreeModel, usize), SyncError> {
        match self.find(path) {
            Err(e) => Err(e),
            Ok(Some(h)) => Ok((self.touch(h, timestamp), h)),
            Ok(None) => {
                let item = ItemModel {
                    id,
                    name: path.last(),
                    timestamp,
                    is_regular_file,
                    parent: Link::Root,
                };
                let handle = self.items.len() as usize;
                if path.len() == 1 {
                    Ok((self.push_root(item), handle))
                } else {
                    match self.find(path.drop_last()) {
                        Err(e) => Err(e),
                        Ok(None) => Err(SyncError::MissingParent),
                        Ok(Some(p)) => match self.add_child(p, item) {
                            Ok(t) => Ok((t, handle)),
                            Err(e) => Err(e),
                        },
                    }
                }
            },
        }
    }

    /// Unlinking the item that `path` leads to.
    pub open spec fn forget(self, path: Seq<Seq<char>>) -> Result<(TreeModel, usize), SyncError> {
        match self.find(path) {
            Err(e) => Err(e),
            Ok(None) => Err(SyncError::NotFound),
            Ok(Some(h)) => match self.detach(h) {
                Ok(t) => Ok((t, h)),
                Err(e) => Err(e),
            },
        }
    }

    /// `longer` begins with the handles of `list`.
    pub open spec fn begins(list: Seq<usize>, longer: Seq<usize>) -> bool {
        &&& list.len() <= longer.len()
        &&& forall|k: int| 0 <= k < list.len() ==> #[trigger] longer[k] == list[k]
    }

    /// `other` holds every item of this tree under the same handle and the same
    /// name, and every list of `other` begins with the list of this tree.
    pub open spec fn grown_to(self, other: TreeModel) -> bool {
        &&& self.items.len() <= other.items.len()
        &&& self.children.len() <= other.children.len()
        &&& forall|h: int|
            0 <= h < self.items.len() ==> (#[trigger] other.items[h]).name == self.items[h].name
        &&& forall|h: int|
            0 <= h < self.children.len() ==> Self::begins(
                self.children[h],
                #[trigger] other.children[h],
            )
    }

    /// Item `h` is linked, through its ancestors, to the top level.
    pub open spec fn attached(self, h: usize) -> bool {
        self.path_of(h) is Ok
    }
}

/// A position that holds the name and has no earlier match is the one that
/// `first_named` selects.
pub proof fn lemma_first_named_at(t: TreeModel, among: Seq<usize>, name: Seq<char>, k: int)
    requires
        t.is_first_named(among, name, k),
    ensures
        t.first_named(among, name) == Some(among[k]),
{
    let c = choose|c: int| t.is_first_named(among, name, c);
    assert(t.is_first_named(among, name, c));
    if c < k {
        assert(t.name_at(among[c]) != name);
    }
    if k < c {
        assert(t.name_at(among[k]) != name);
    }
}

/// Where no position holds the name, `first_named` selects nothing.
pub proof fn lemma_first_named_none(t: TreeModel, among: Seq<usize>, name: Seq<char>)
    requires
        forall|j: int| 0 <= j < among.len() ==> t.name_at(#[trigger] among[j]) != name,
    ensures
        t.first_named(among, name) is None,
{
    if exists|k: int| t.is_first_named(among, name, k) {
        let c = choose|c: int| t.is_first_named(among, name, c);
        assert(t.name_at(among[c]) != name);
    }
}

/// What `first_named` selects is an element of the list, bears the name, and is
/// the first to do so.
pub proof fn lemma_first_named_some(t: TreeModel, among: Seq<usize>, name: Seq<char>)
    requires
        t.first_named(among, name) is Some,
    ensures
        exists|k: int|
            t.is_first_named(among, name, k) && among[k] == t.first_named(among, name)->Some_0,
{
    let c = choose|c: int| t.is_first_named(among, name, c);
    assert(t.is_first_named(among, name, c));
}

/// Adding a top-level item keeps the tree invariant.
pub proof fn lemma_push_root_wf(t: TreeModel, item: ItemModel)
    requires
        t.wf(),
        t.items.len() < usize::MAX,
    ensures
        t.push_root(item).wf(),
{
    let u = t.push_root(item);
    let n0 = t.items.len() as int;
    assert forall|i: int| 0 <= i < u.roots.len() implies {
        let r = #[trigger] u.roots[i];
        &&& r < u.items.len()
        &&& u.items[r as int].parent == Link::Root
    } by {
        if i < t.roots.len() {
            assert(u.roots[i] == t.roots[i]);
        }
    }
    assert forall|i: int, j: int| 0 <= i < j < u.roots.len() implies #[trigger] u.roots[i]
        != #[trigger] u.roots[j] by {
        assert(u.roots[i] == t.roots[i]);
        if j < t.roots.len() {
            assert(u.roots[j] == t.roots[j]);
        }
    }
    assert forall|n: int| 0 <= n < u.items.len() implies #[trigger] u.node_wf(n) by {
        if n < n0 {
            assert(t.node_wf(n));
            assert(u.items[n] == t.items[n]);
            assert(u.children[n] == t.children[n]);
            match t.items[n].parent {
                Link::Root => {
                    let k = choose|k: int| 0 <= k < t.roots.len() && t.roots[k] == n as usize;
                    assert(u.roots[k] == n as usize);
                },
                Link::Child(p) => {
                    assert(u.children[p as int] == t.children[p as int]);
                },
                Link::Detached => {},
            }
            assert forall|j: int| 0 <= j < u.children[n].len() implies {
                let c = #[trigger] u.children[n][j];
                &&& n < c < u.items.len()
                &&& u.items[c as int].parent == Link::Child(n as usize)
            } by {
                let c = t.children[n][j];
                assert(u.items[c as int] == t.items[c as int]);
            }
            assert forall|i: int, j: int| 0 <= i < j < u.children[n].len() implies u.name_at(
                #[trigger] u.children[n][i],
            ) != u.name_at(#[trigger] u.children[n][j]) by {
                let a = t.children[n][i];
                let b = t.children[n][j];
                assert(u.items[a as int] == t.items[a as int]);
                assert(u.items[b as int] == t.items[b as int]);
            }
        } else {
            assert(u.roots[t.roots.len() as int] == n0 as usize);
            assert(u.children[n] =~= Seq::<usize>::empty());
        }
    }
}

/// Adding a child under a directory that has no child of that name keeps the
/// tree invariant.
pub proof fn lemma_push_child_wf(t: TreeModel, p: usize, item: ItemModel)
    requires
        t.wf(),
        t.items.len() < usize::MAX,
        t.add_child(p, item) is Ok,
    ensures
        t.push_child(p, item).wf(),
{
    let u = t.push_child(p, item);
    let n0 = t.items.len() as int;
    let h = n0 as usize;
    assert(t.node_wf(p as int));
    assert(t.first_named(t.children[p as int], item.name) is None);
    assert forall|j: int| 0 <= j < t.children[p as int].len() implies t.name_at(
        #[trigger] t.children[p as int][j],
    ) != item.name by {
        if t.name_at(t.children[p as int][j]) == item.name {
            lemma_has_first(t, t.children[p as int], item.name, j);
        }
    }
    assert forall|i: int| 0 <= i < u.roots.len() implies {
        let r = #[trigger] u.roots[i];
        &&& r < u.items.len()
        &&& u.items[r as int].parent == Link::Root
    } by {
        assert(u.roots[i] == t.roots[i]);
    }
    assert forall|n: int| 0 <= n < u.items.len() implies #[trigger] u.node_wf(n) by {
        if n < n0 {
            assert(t.node_wf(n));
            assert(u.items[n] == t.items[n]);
            match t.items[n].parent {
                Link::Root => {},
                Link::Child(q) => {
                    let k = choose|k: int|
                        0 <= k < t.children[q as int].len() && t.children[q as int][k]
                            == n as usize;
                    assert(u.children[q as int][k] == n as usize);
                },
                Link::Detached => {},
            }
            assert forall|j: int| 0 <= j < u.children[n].len() implies {
                let c = #[trigger] u.children[n][j];
                &&& n < c < u.items.len()
                &&& u.items[c as int].parent == Link::Child(n as usize)
            } by {
                if j < t.children[n].len() {
                    let c = t.children[n][j];
                    assert(u.children[n][j] == c);
                    assert(u.items[c as int] == t.items[c as int]);
                }
            }
            assert forall|i: int, j: int| 0 <= i < j < u.children[n].len() implies u.name_at(
                #[trigger] u.children[n][i],
            ) != u.name_at(#[trigger] u.children[n][j]) by {
                let a = t.children[n][i];
                assert(u.children[n][i] == a);
                assert(u.items[a as int] == t.items[a as int]);
                if j < t.children[n].len() {
                    let b = t.children[n][j];
                    assert(u.children[n][j] == b);
                    assert(u.items[b as int] == t.items[b as int]);
                } else {
                    assert(u.children[n][j] == h);
                    assert(u.name_at(h) == item.name);
                }
            }
        } else {
            assert(u.children[n] =~= Seq::<usize>::empty());
            assert(u.children[p as int][t.children[p as int].len() as int] == h);
        }
    }
}

/// Where some position holds the name, some position is the first to do so.
pub proof fn lemma_has_first(t: TreeModel, among: Seq<usize>, name: Seq<char>, k: int)
    requires
        0 <= k < among.len(),
        t.name_at(among[k]) == name,
    ensures
        t.first_named(among, name) is Some,
    decreases k,
{
    if exists|j: int| 0 <= j < k && t.name_at(#[trigger] among[j]) == name {
        let j = choose|j: int| 0 <= j < k && t.name_at(#[trigger] among[j]) == name;
        lemma_has_first(t, among, name, j);
    } else {
        assert(t.is_first_named(among, name, k));
    }
}

/// Unlinking an item keeps the tree invariant.
pub proof fn lemma_detach_wf(t: TreeModel, h: usize)
    requires
        t.wf(),
        t.detach(h) is Ok,
    ensures
        t.detach(h)->Ok_0.wf(),
{
    let u = t.detach(h)->Ok_0;
    assert(t.node_wf(h as int));
    match t.items[h as int].parent {
        Link::Root => {
            let k = t.roots.index_of(h);
            assert(0 <= k < t.roots.len() && t.roots[k] == h);
            t.roots.remove_ensures(k);
            assert forall|i: int| 0 <= i < u.roots.len() implies {
                let r = #[trigger] u.roots[i];
                &&& r < u.items.len()
                &&& u.items[r as int].parent == Link::Root
            } by {
                if i < k {
                    assert(u.roots[i] == t.roots[i]);
                } else {
                    assert(u.roots[i] == t.roots[i + 1]);
                }
            }
            assert forall|i: int, j: int| 0 <= i < j < u.roots.len() implies #[trigger] u.roots[i]
                != #[trigger] u.roots[j] by {
                let a = if i < k { i } else { i + 1 };
                let b = if j < k { j } else { j + 1 };
                assert(u.roots[i] == t.roots[a]);
                assert(u.roots[j] == t.roots[b]);
            }
            assert forall|n: int| 0 <= n < u.items.len() implies #[trigger] u.node_wf(n) by {
                assert(t.node_wf(n));
                if n != h {
                    assert(u.items[n] == t.items[n]);
                    if t.items[n].parent == Link::Root {
                        let i = choose|i: int| 0 <= i < t.roots.len() && t.roots[i] == n as usize;
                        if i < k {
                            assert(u.roots[i] == n as usize);
                        } else {
                            assert(u.roots[i - 1] == n as usize);
                        }
                    }
                }
                assert forall|j: int| 0 <= j < u.children[n].len() implies {
                    let c = #[trigger] u.children[n][j];
                    &&& n < c < u.items.len()
                    &&& u.items[c as int].parent == Link::Child(n as usize)
                } by {
                    let c = t.children[n][j];
                    assert(c != h);
                }
            }
        },
        Link::Child(p) => {
            let sibs = t.children[p as int];
            let k = sibs.index_of(h);
            assert(0 <= k < sibs.len() && sibs[k] == h);
            sibs.remove_ensures(k);
            assert(t.node_wf(p as int));
            assert forall|i: int| 0 <= i < u.roots.len() implies {
                let r = #[trigger] u.roots[i];
                &&& r < u.items.len()
                &&& u.items[r as int].parent == Link::Root
            } by {
                assert(t.roots[i] != h);
            }
            assert forall|n: int| 0 <= n < u.items.len() implies #[trigger] u.node_wf(n) by {
                assert(t.node_wf(n));
                if n != h {
                    assert(u.items[n] == t.items[n]);
                    match t.items[n].parent {
                        Link::Child(q) => {
                            if q == p {
                                let i = choose|i: int| 0 <= i < sibs.len() && sibs[i] == n as usize;
                                if i < k {
                                    assert(u.children[p as int][i] == n as usize);
                                } else {
                                    assert(u.children[p as int][i - 1] == n as usize);
                                }
                            } else {
                                assert(u.children[q as int] == t.children[q as int]);
                            }
                        },
                        _ => {},
                    }
                }
                if n == p {
                    assert forall|j: int| 0 <= j < u.children[n].len() implies {
                        let c = #[trigger] u.children[n][j];
                        &&& n < c < u.items.len()
                        &&& u.items[c as int].parent == Link::Child(n as usize)
                    } by {
                        let a = if j < k { j } else { j + 1 };
                        assert(u.children[n][j] == sibs[a]);
                        if a < k {
                            assert(t.name_at(sibs[a]) != t.name_at(sibs[k]));
                        } else {
                            assert(t.name_at(sibs[k]) != t.name_at(sibs[a]));
                        }
                    }
                    assert forall|i: int, j: int| 0 <= i < j < u.children[n].len() implies u.name_at(
                        #[trigger] u.children[n][i],
                    ) != u.name_at(#[trigger] u.children[n][j]) by {
                        let a = if i < k { i } else { i + 1 };
                        let b = if j < k { j } else { j + 1 };
                        assert(u.children[n][i] == sibs[a]);
                        assert(u.children[n][j] == sibs[b]);
                        assert(t.name_at(sibs[a]) != t.name_at(sibs[b]));
                        if a < k {
                            assert(t.name_at(sibs[a]) != t.name_at(sibs[k]));
                        } else {
                            assert(t.name_at(sibs[k]) != t.name_at(sibs[a]));
                        }
                        if b < k {
                            assert(t.name_at(sibs[b]) != t.name_at(sibs[k]));
                        } else {
                            assert(t.name_at(sibs[k]) != t.name_at(sibs[b]));
                        }
                    }
                } else {
                    assert(u.children[n] == t.children[n]);
                    assert forall|j: int| 0 <= j < u.children[n].len() implies {
                        let c = #[trigger] u.children[n][j];
                        &&& n < c < u.items.len()
                        &&& u.items[c as int].parent == Link::Child(n as usize)
                    } by {
                        let c = t.children[n][j];
                        assert(c != h);
                    }
                    assert forall|i: int, j: int| 0 <= i < j < u.children[n].len() implies u.name_at(
                        #[trigger] u.children[n][i],
                    ) != u.name_at(#[trigger] u.children[n][j]) by {
                        let a = t.children[n][i];
                        let b = t.children[n][j];
                        assert(t.name_at(a) != t.name_at(b));
                        assert(a != h && b != h);
                    }
                }
            }
        },
        Link::Detached => {},
    }
}

/// Setting a modification time keeps the tree invariant.
pub proof fn lemma_touch_wf(t: TreeModel, h: usize, timestamp: u64)
    requires
        t.wf(),
        t.has(h),
    ensures
        t.touch(h, timestamp).wf(),
{
    let u = t.touch(h, timestamp);
    assert forall|i: int| 0 <= i < u.roots.len() implies {
        let r = #[trigger] u.roots[i];
        &&& r < u.items.len()
        &&& u.items[r as int].parent == Link::Root
    } by {
        assert(t.roots[i] < t.items.len());
    }
    assert forall|n: int| 0 <= n < u.items.len() implies #[trigger] u.node_wf(n) by {
        assert(t.node_wf(n));
        assert forall|j: int| 0 <= j < u.children[n].len() implies {
            let c = #[trigger] u.children[n][j];
            &&& n < c < u.items.len()
            &&& u.items[c as int].parent == Link::Child(n as usize)
        } by {
            let c = t.children[n][j];
            assert(n < c < t.items.len());
        }
        assert forall|i: int, j: int| 0 <= i < j < u.children[n].len() implies u.name_at(
            #[trigger] u.children[n][i],
        ) != u.name_at(#[trigger] u.children[n][j]) by {
            let a = t.children[n][i];
            let b = t.children[n][j];
            assert(t.name_at(a) != t.name_at(b));
            assert(a < t.items.len() && b < t.items.len());
        }
    }
}

/// One step of a descent: a segment that is not the current-directory name
/// selects the first item of that name, and the descent ends there or goes on
/// among its children.
pub proof fn lemma_lookup_step(
    t: TreeModel,
    among: Seq<usize>,
    name: Seq<char>,
    h: usize,
    tail: Seq<Seq<char>>,
)
    requires
        name != cur_dir(),
        t.first_named(among, name) == Some(h),
    ensures
        t.lookup(among, seq![name] + tail) == (if tail.len() == 0 {
            Ok::<Option<usize>, SyncError>(Some(h))
        } else {
            t.lookup(t.children[h as int], tail)
        }),
{
    let path = seq![name] + tail;
    assert(path[0] == name);
    assert(path.drop_first() =~= tail);
}

/// A descent along the path of a findable item, followed by further segments,
/// arrives at the item and goes on among its children.
pub proof fn lemma_lookup_through(t: TreeModel, h: usize, tail: Seq<Seq<char>>)
    requires
        t.wf(),
        t.findable(h),
    ensures
        t.path_of(h) is Ok,
        t.find(t.path_of(h)->Ok_0 + tail) == (if tail.len() == 0 {
            Ok::<Option<usize>, SyncError>(Some(h))
        } else {
            t.lookup(t.children[h as int], tail)
        }),
    decreases h,
{
    let name = t.name_at(h);
    match t.items[h as int].parent {
        Link::Root => {
            lemma_lookup_step(t, t.roots, name, h, tail);
        },
        Link::Child(p) => {
            let step = seq![name] + tail;
            lemma_lookup_through(t, p, step);
            let above = t.path_of(p)->Ok_0;
            assert(above.push(name) + tail =~= above + step);
            assert(t.node_wf(h as int));
            assert(t.node_wf(p as int));
            let sibs = t.children[p as int];
            let k = choose|k: int| 0 <= k < sibs.len() && sibs[k] == h;
            assert forall|j: int| 0 <= j < k implies t.name_at(#[trigger] sibs[j]) != name by {
                assert(t.name_at(sibs[j]) != t.name_at(sibs[k]));
            }
            assert(t.is_first_named(sibs, name, k));
            lemma_first_named_at(t, sibs, name, k);
            lemma_lookup_step(t, sibs, name, h, tail);
        },
        Link::Detached => {},
    }
}

/// Looking up the path of an item in its own tree finds that same item.
///
/// This is stated for the items that a path can tell apart (`findable`): an
/// item below a top-level item whose name an earlier top-level item also bears,
/// or with the current-directory name on its path, is not found by its path.
pub proof fn lemma_path_roundtrip(t: TreeModel, h: usize)
    requires
        t.wf(),
        t.findable(h),
    ensures
        t.path_of(h) is Ok,
        t.find(t.path_of(h)->Ok_0) == Ok::<Option<usize>, SyncError>(Some(h)),
{
    lemma_lookup_through(t, h, Seq::empty());
    assert(t.path_of(h)->Ok_0 + Seq::<Seq<char>>::empty() =~= t.path_of(h)->Ok_0);
}

/// `same_entries` is symmetric.
pub proof fn lemma_same_entries_symmetric(a: TreeModel, b: TreeModel)
    requires
        a.same_entries(b),
    ensures
        b.same_entries(a),
{
    assert forall|h: int| 0 <= h < b.items.len() implies (#[trigger] a.items[h]) == (ItemModel {
        parent: a.items[h].parent,
        ..b.items[h]
    }) by {
        assert(b.items[h] == (ItemModel { parent: b.items[h].parent, ..a.items[h] }));
    }
}

/// Whether the lists describe a forest does not depend on the parent links.
pub proof fn lemma_same_entries_links_ok(a: TreeModel, b: TreeModel)
    requires
        a.same_entries(b),
        a.links_ok(),
    ensures
        b.links_ok(),
{
    assert forall|n: int, j: int| b.is_slot(n, j) implies n < (#[trigger] b.child_at(n, j))
        < b.items.len() by {
        assert(a.is_slot(n, j));
        assert(a.child_at(n, j) == b.child_at(n, j));
    }
    assert forall|n: int, j: int, m: int, k: int|
        b.is_slot(n, j) && b.is_slot(m, k) && (n != m || j != k) implies #[trigger] b.child_at(n, j)
        != #[trigger] b.child_at(m, k) by {
        assert(a.child_at(n, j) != a.child_at(m, k));
    }
    assert forall|i: int, n: int, j: int|
        0 <= i < b.roots.len() && b.is_slot(n, j) implies #[trigger] b.roots[i]
        != #[trigger] b.child_at(n, j) by {
        assert(a.roots[i] != a.child_at(n, j));
    }
    assert forall|n: int, i: int, j: int|
        b.is_slot(n, i) && b.is_slot(n, j) && i < j implies b.name_at(#[trigger] b.child_at(n, i))
        != b.name_at(#[trigger] b.child_at(n, j)) by {
        let x = a.child_at(n, i);
        let y = a.child_at(n, j);
        assert(a.name_at(x) != a.name_at(y));
        assert(x < a.items.len() && y < a.items.len());
        assert(b.items[x as int].name == a.items[x as int].name);
        assert(b.items[y as int].name == a.items[y as int].name);
    }
    assert forall|n: int|
        0 <= n < b.items.len() && (#[trigger] b.items[n]).is_regular_file implies b.children[n].len()
        == 0 by {
        assert(a.items[n].is_regular_file);
    }
}

/// In a tree that holds its invariant, the lists describe a forest.
pub proof fn lemma_wf_links_ok(t: TreeModel)
    requires
        t.wf(),
    ensures
        t.links_ok(),
{
    assert forall|n: int, j: int| t.is_slot(n, j) implies n < (#[trigger] t.child_at(n, j))
        < t.items.len() by {
        assert(t.node_wf(n));
        assert(t.children[n][j] == t.child_at(n, j));
    }
    assert forall|n: int, j: int, m: int, k: int|
        t.is_slot(n, j) && t.is_slot(m, k) && (n != m || j != k) implies #[trigger] t.child_at(n, j)
        != #[trigger] t.child_at(m, k) by {
        assert(t.node_wf(n));
        assert(t.node_wf(m));
        let x = t.children[n][j];
        let y = t.children[m][k];
        if n == m {
            if j < k {
                assert(t.name_at(x) != t.name_at(y));
            } else {
                assert(t.name_at(y) != t.name_at(x));
            }
        } else {
            assert(t.items[x as int].parent == Link::Child(n as usize));
            assert(t.items[y as int].parent == Link::Child(m as usize));
        }
    }
    assert forall|i: int, n: int, j: int|
        0 <= i < t.roots.len() && t.is_slot(n, j) implies #[trigger] t.roots[i]
        != #[trigger] t.child_at(n, j) by {
        assert(t.node_wf(n));
        let x = t.children[n][j];
        assert(t.items[x as int].parent == Link::Child(n as usize));
        let r = t.roots[i];
        assert(t.items[r as int].parent == Link::Root);
    }
    assert forall|n: int, i: int, j: int|
        t.is_slot(n, i) && t.is_slot(n, j) && i < j implies t.name_at(#[trigger] t.child_at(n, i))
        != t.name_at(#[trigger] t.child_at(n, j)) by {
        assert(t.node_wf(n));
        assert(t.name_at(t.children[n][i]) != t.name_at(t.children[n][j]));
    }
    assert forall|n: int|
        0 <= n < t.items.len() && (#[trigger] t.items[n]).is_regular_file implies t.children[n].len()
        == 0 by {
        assert(t.node_wf(n));
    }
}

/// A relinking pass that has gone through all items leaves a tree that holds
/// its invariant.
pub proof fn lemma_fully_linked_wf(t: TreeModel)
    requires
        t.partly_linked(t.items.len() as int, 0),
    ensures
        t.wf(),
{
    let p = t.items.len() as int;
    assert forall|n: int| 0 <= n < t.items.len() implies #[trigger] t.node_wf(n) by {
        assert(t.link_ok(n, p, 0));
        match t.items[n].parent {
            Link::Child(q) => {
                let k = choose|k: int|
                    t.is_slot(q as int, k) && TreeModel::done(p, 0, q as int, k)
                        && #[trigger] t.child_at(q as int, k) == n;
                assert(t.children[q as int][k] == n as usize);
            },
            _ => {},
        }
        assert forall|j: int| 0 <= j < t.children[n].len() implies {
            let c = #[trigger] t.children[n][j];
            &&& n < c < t.items.len()
            &&& t.items[c as int].parent == Link::Child(n as usize)
        } by {
            assert(t.is_slot(n, j) && TreeModel::done(p, 0, n, j));
            assert(t.child_at(n, j) == t.children[n][j]);
        }
        assert forall|i: int, j: int| 0 <= i < j < t.children[n].len() implies t.name_at(
            #[trigger] t.children[n][i],
        ) != t.name_at(#[trigger] t.children[n][j]) by {
            assert(t.is_slot(n, i) && t.is_slot(n, j) && TreeModel::done(p, 0, n, j));
            assert(t.name_at(t.child_at(n, i)) != t.name_at(t.child_at(n, j)));
        }
        assert(t.items[n].is_regular_file ==> t.children[n].len() == 0);
    }
}

/// Linking the child in position `j` of item `p` moves a relinking pass one
/// position on.
pub proof fn lemma_link_step(pre: TreeModel, p: int, j: int)
    requires
        pre.partly_linked(p, j),
        pre.is_slot(p, j),
        p < pre.child_at(p, j) < pre.items.len(),
        pre.items[pre.child_at(p, j) as int].parent == Link::Detached,
        forall|a: int|
            0 <= a < j ==> pre.name_at(#[trigger] pre.child_at(p, a)) != pre.name_at(
                pre.child_at(p, j),
            ),
    ensures
        pre.relink(pre.child_at(p, j), Link::Child(p as usize)).partly_linked(p, j + 1),
{
    let c = pre.child_at(p, j);
    let post = pre.relink(c, Link::Child(p as usize));
    assert forall|i: int| 0 <= i < post.roots.len() implies {
        let r = #[trigger] post.roots[i];
        &&& r < post.items.len()
        &&& post.items[r as int].parent == Link::Root
    } by {
        let r = pre.roots[i];
        assert(pre.items[r as int].parent == Link::Root);
    }
    assert forall|m: int| 0 <= m < post.items.len() implies #[trigger] post.link_ok(m, p, j + 1) by {
        if m == c {
            let q = p as usize;
            assert(post.items[m].parent == Link::Child(q));
            assert(post.is_slot(q as int, j) && TreeModel::done(p, j + 1, q as int, j)
                && post.child_at(q as int, j) == m);
            assert(exists|k: int|
                post.is_slot(q as int, k) && TreeModel::done(p, j + 1, q as int, k)
                    && #[trigger] post.child_at(q as int, k) == m);
            assert(post.items[m].parent matches Link::Child(x) && x == q);
        } else {
            assert(pre.link_ok(m, p, j));
            assert(post.items[m] == pre.items[m]);
            match pre.items[m].parent {
                Link::Child(q) => {
                    let k = choose|k: int|
                        pre.is_slot(q as int, k) && TreeModel::done(p, j, q as int, k)
                            && #[trigger] pre.child_at(q as int, k) == m;
                    assert(post.is_slot(q as int, k) && TreeModel::done(p, j + 1, q as int, k)
                        && post.child_at(q as int, k) == m);
                },
                Link::Root => {
                    assert(pre.roots.contains(m as usize));
                },
                Link::Detached => {},
            }
        }
    }
    assert forall|q: int, k: int| post.is_slot(q, k) && TreeModel::done(p, j + 1, q, k) implies {
        let x = #[trigger] post.child_at(q, k);
        &&& q < x < post.items.len()
        &&& post.items[x as int].parent == Link::Child(q as usize)
    } by {
        if q == p && k == j {
        } else {
            assert(pre.is_slot(q, k) && TreeModel::done(p, j, q, k));
            let x = pre.child_at(q, k);
            assert(pre.items[x as int].parent == Link::Child(q as usize));
        }
    }
    assert forall|q: int, a: int, b: int|
        post.is_slot(q, a) && post.is_slot(q, b) && a < b && TreeModel::done(
            p,
            j + 1,
            q,
            b,
        ) implies post.name_at(#[trigger] post.child_at(q, a)) != post.name_at(
        #[trigger] post.child_at(q, b),
    ) by {
        let x = pre.child_at(q, a);
        let y = pre.child_at(q, b);
        assert(pre.is_slot(q, a) && TreeModel::done(p, j + 1, q, a));
        if q == p && b == j {
            assert(pre.name_at(x) != pre.name_at(c));
            assert(TreeModel::done(p, j, q, a));
        } else {
            assert(TreeModel::done(p, j, q, b));
            assert(TreeModel::done(p, j, q, a));
            assert(pre.name_at(x) != pre.name_at(y));
        }
        assert(x < pre.items.len());
        assert(y < pre.items.len());
    }
    assert forall|q: int|
        0 <= q < p && (#[trigger] post.items[q]).is_regular_file implies post.children[q].len()
        == 0 by {
        assert(pre.items[q].is_regular_file);
    }
}

/// A relinking pass that has linked all children of item `p` stands at the
/// beginning of the next item.
pub proof fn lemma_link_next(t: TreeModel, p: int)
    requires
        0 <= p < t.items.len(),
        t.partly_linked(p, t.children[p].len() as int),
        t.items[p].is_regular_file ==> t.children[p].len() == 0,
    ensures
        t.partly_linked(p + 1, 0),
{
    let j = t.children[p].len() as int;
    assert forall|m: int| 0 <= m < t.items.len() implies #[trigger] t.link_ok(m, p + 1, 0) by {
        assert(t.link_ok(m, p, j));
        match t.items[m].parent {
            Link::Child(q) => {
                let k = choose|k: int|
                    t.is_slot(q as int, k) && TreeModel::done(p, j, q as int, k)
                        && #[trigger] t.child_at(q as int, k) == m;
                assert(t.is_slot(q as int, k) && TreeModel::done(p + 1, 0, q as int, k)
                    && t.child_at(q as int, k) == m);
            },
            _ => {},
        }
    }
    assert forall|q: int, k: int| t.is_slot(q, k) && TreeModel::done(p + 1, 0, q, k) implies {
        let x = #[trigger] t.child_at(q, k);
        &&& q < x < t.items.len()
        &&& t.items[x as int].parent == Link::Child(q as usize)
    } by {
        assert(TreeModel::done(p, j, q, k));
    }
    assert forall|q: int, a: int, b: int|
        t.is_slot(q, a) && t.is_slot(q, b) && a < b && TreeModel::done(
            p + 1,
            0,
            q,
            b,
        ) implies t.name_at(#[trigger] t.child_at(q, a)) != t.name_at(
        #[trigger] t.child_at(q, b),
    ) by {
        assert(TreeModel::done(p, j, q, b));
    }
}

/// `same_entries` is transitive.
pub proof fn lemma_same_entries_chain(a: TreeModel, b: TreeModel, c: TreeModel)
    requires
        a.same_entries(b),
        b.same_entries(c),
    ensures
        a.same_entries(c),
{
    assert forall|h: int| 0 <= h < a.items.len() implies (#[trigger] c.items[h]) == (ItemModel {
        parent: c.items[h].parent,
        ..a.items[h]
    }) by {
        assert(b.items[h] == (ItemModel { parent: b.items[h].parent, ..a.items[h] }));
    }
}

/// A descent only ever arrives at an item that is linked: what it finds among
/// the top-level items, or among the children of an item, is not detached.
pub proof fn lemma_lookup_finds_linked(t: TreeModel, among: Seq<usize>, path: Seq<Seq<char>>)
    requires
        t.wf(),
        forall|k: int|
            0 <= k < among.len() ==> (#[trigger] among[k]) < t.items.len() && t.items[among[k] as int].parent
                != Link::Detached,
    ensures
        t.lookup(among, path) matches Ok(Some(h)) ==> h < t.items.len() && t.items[h as int].parent
            != Link::Detached,
    decreases path.len(),
{
    if path.len() == 0 {
    } else if path[0] == cur_dir() {
        lemma_lookup_finds_linked(t, among, path.drop_first());
    } else {
        match t.first_named(among, path[0]) {
            None => {},
            Some(h) => {
                lemma_first_named_some(t, among, path[0]);
                if path.len() > 1 {
                    assert(t.node_wf(h as int));
                    lemma_lookup_finds_linked(t, t.children[h as int], path.drop_first());
                }
            },
        }
    }
}

/// No path leads to a detached item.
pub proof fn lemma_detached_is_not_found(t: TreeModel, h: usize, path: Seq<Seq<char>>)
    requires
        t.wf(),
        t.has(h),
        t.items[h as int].parent == Link::Detached,
    ensures
        t.find(path) != Ok::<Option<usize>, SyncError>(Some(h)),
{
    lemma_lookup_finds_linked(t, t.roots, path);
}

/// Where no position is the first to hold the name, no position holds it.
pub proof fn lemma_first_named_none_means_absent(t: TreeModel, among: Seq<usize>, name: Seq<char>)
    requires
        t.first_named(among, name) is None,
    ensures
        forall|j: int| 0 <= j < among.len() ==> t.name_at(#[trigger] among[j]) != name,
{
    assert forall|j: int| 0 <= j < among.len() implies t.name_at(#[trigger] among[j]) != name by {
        if t.name_at(among[j]) == name {
            lemma_has_first(t, among, name, j);
        }
    }
}

/// What `first_named` selects stays selected when the tree grows and the list
/// gets longer at its end.
pub proof fn lemma_first_named_grown(
    t: TreeModel,
    u: TreeModel,
    among: Seq<usize>,
    longer: Seq<usize>,
    name: Seq<char>,
)
    requires
        t.grown_to(u),
        t.all_in_range(among),
        TreeModel::begins(among, longer),
        t.first_named(among, name) is Some,
    ensures
        u.first_named(longer, name) == t.first_named(among, name),
{
    let k = choose|k: int| t.is_first_named(among, name, k);
    assert(t.is_first_named(among, name, k));
    assert forall|j: int| 0 <= j <= k implies u.name_at(#[trigger] longer[j]) == t.name_at(
        among[j],
    ) by {
        assert(longer[j] == among[j]);
        assert(among[j] < t.items.len());
        assert(u.items[among[j] as int].name == t.items[among[j] as int].name);
    }
    assert(u.name_at(longer[k]) == name);
    assert forall|j: int| 0 <= j < k implies u.name_at(#[trigger] longer[j]) != name by {
        assert(t.name_at(among[j]) != name);
    }
    assert(u.is_first_named(longer, name, k));
    lemma_first_named_at(u, longer, name, k);
}

/// A descent that arrives at an item still arrives there when the tree grows.
pub proof fn lemma_lookup_grown(
    t: TreeModel,
    u: TreeModel,
    among: Seq<usize>,
    longer: Seq<usize>,
    path: Seq<Seq<char>>,
)
    requires
        t.wf(),
        t.grown_to(u),
        t.all_in_range(among),
        TreeModel::begins(among, longer),
        t.lookup(among, path) matches Ok(Some(_)),
    ensures
        u.lookup(longer, path) == t.lookup(among, path),
    decreases path.len(),
{
    if path.len() == 0 {
    } else if path[0] == cur_dir() {
        lemma_lookup_grown(t, u, among, longer, path.drop_first());
    } else {
        lemma_first_named_grown(t, u, among, longer, path[0]);
        let h = t.first_named(among, path[0])->Some_0;
        if path.len() > 1 {
            lemma_first_named_some(t, among, path[0]);
            assert(t.node_wf(h as int));
            assert(TreeModel::begins(t.children[h as int], u.children[h as int]));
            lemma_lookup_grown(t, u, t.children[h as int], u.children[h as int], path.drop_first());
        }
    }
}

/// A descent along a path that arrives at an item, followed by further
/// segments, goes on among the children of that item.
pub proof fn lemma_lookup_append(
    t: TreeModel,
    among: Seq<usize>,
    path: Seq<Seq<char>>,
    p: usize,
    tail: Seq<Seq<char>>,
)
    requires
        t.lookup(among, path) == Ok::<Option<usize>, SyncError>(Some(p)),
        tail.len() > 0,
    ensures
        t.lookup(among, path + tail) == t.lookup(t.children[p as int], tail),
    decreases path.len(),
{
    let whole = path + tail;
    if path.len() == 0 {
    } else {
        assert(whole[0] == path[0]);
        assert(whole.drop_first() =~= path.drop_first() + tail);
        if path[0] == cur_dir() {
            lemma_lookup_append(t, among, path.drop_first(), p, tail);
        } else {
            let h = t.first_named(among, path[0])->Some_0;
            if path.len() == 1 {
                assert(path.drop_first() + tail =~= tail);
            } else {
                lemma_lookup_append(t, t.children[h as int], path.drop_first(), p, tail);
            }
        }
    }
}

/// An item added at the end of a list, under a name that the list did not
/// hold, is the one that `first_named` selects for that name.
pub proof fn lemma_first_named_new(
    t: TreeModel,
    u: TreeModel,
    among: Seq<usize>,
    name: Seq<char>,
    h: usize,
)
    requires
        t.grown_to(u),
        t.all_in_range(among),
        t.first_named(among, name) is None,
        u.name_at(h) == name,
    ensures
        u.first_named(among.push(h), name) == Some(h),
{
    let longer = among.push(h);
    let k = among.len() as int;
    lemma_first_named_none_means_absent(t, among, name);
    assert forall|j: int| 0 <= j < k implies u.name_at(#[trigger] longer[j]) != name by {
        assert(longer[j] == among[j]);
        assert(among[j] < t.items.len());
        assert(t.name_at(among[j]) != name);
        assert(u.items[among[j] as int].name == t.items[among[j] as int].name);
    }
    assert(longer[k] == h);
    assert(u.is_first_named(longer, name, k));
    lemma_first_named_at(u, longer, name, k);
}

/// After `track`, the path leads to the item that `track` names, and that item
/// bears the time that was given. The tree keeps its invariant.
pub proof fn lemma_track_finds(
    t: TreeModel,
    path: Seq<Seq<char>>,
    id: u64,
    timestamp: u64,
    is_regular_file: bool,
)
    requires
        t.wf(),
        t.find(path) == Ok::<Option<usize>, SyncError>(None) ==> t.items.len() < usize::MAX,
        t.track(path, id, timestamp, is_regular_file) is Ok,
    ensures
        ({
            let kept = t.track(path, id, timestamp, is_regular_file)->Ok_0;
            &&& kept.0.wf()
            &&& kept.1 < kept.0.items.len()
            &&& kept.0.items[kept.1 as int].timestamp == timestamp
            &&& kept.0.find(path) == Ok::<Option<usize>, SyncError>(Some(kept.1))
        }),
{
    let kept = t.track(path, id, timestamp, is_regular_file)->Ok_0;
    let u = kept.0;
    let n = t.items.len() as usize;
    assert(t.all_in_range(t.roots));
    match t.find(path) {
        Ok(Some(h)) => {
            lemma_lookup_finds_linked(t, t.roots, path);
            lemma_touch_wf(t, h, timestamp);
            assert(t.grown_to(u)) by {
                assert forall|x: int| 0 <= x < t.children.len() implies TreeModel::begins(
                    t.children[x],
                    #[trigger] u.children[x],
                ) by {}
            }
            lemma_lookup_grown(t, u, t.roots, u.roots, path);
        },
        Ok(None) => {
            let item = ItemModel {
                id,
                name: path.last(),
                timestamp,
                is_regular_file,
                parent: Link::Root,
            };
            let name = path.last();
            if path.len() == 1 {
                assert(path[0] == name);
                if name == cur_dir() {
                    assert(t.lookup(t.roots, path.drop_first()) is Err);
                    assert(t.lookup(t.roots, path) == t.lookup(t.roots, path.drop_first()));
                }
                assert(t.first_named(t.roots, name) is None);
                assert(u == t.push_root(item));
                lemma_push_root_wf(t, item);
                assert(t.grown_to(u)) by {
                    assert forall|x: int| 0 <= x < t.children.len() implies TreeModel::begins(
                        t.children[x],
                        #[trigger] u.children[x],
                    ) by {}
                }
                lemma_first_named_new(t, u, t.roots, name, n);
            } else {
                let pre = path.drop_last();
                let p = t.find(pre)->Ok_0->Some_0;
                assert(u == t.push_child(p, item));
                lemma_push_child_wf(t, p, item);
                let tail = seq![name];
                assert(pre + tail =~= path);
                lemma_lookup_append(t, t.roots, pre, p, tail);
                assert(tail[0] == name);
                if name == cur_dir() {
                    assert(t.lookup(t.children[p as int], tail.drop_first()) is Err);
                    assert(t.lookup(t.children[p as int], tail) == t.lookup(
                        t.children[p as int],
                        tail.drop_first(),
                    ));
                }
                assert(t.first_named(t.children[p as int], name) is None);
                lemma_lookup_finds_linked(t, t.roots, pre);
                assert(t.node_wf(p as int));
                assert(t.grown_to(u)) by {
                    assert forall|x: int| 0 <= x < t.children.len() implies TreeModel::begins(
                        t.children[x],
                        #[trigger] u.children[x],
                    ) by {
                        if x == p {
                            assert(u.children[x] == t.children[x].push(n));
                        } else {
                            assert(u.children[x] == t.children[x]);
                        }
                    }
                }
                lemma_lookup_grown(t, u, t.roots, u.roots, pre);
                lemma_lookup_append(u, u.roots, pre, p, tail);
                lemma_first_named_new(t, u, t.children[p as int], name, n);
                assert(u.children[p as int] == t.children[p as int].push(n));
            }
        },
        Err(_) => {},
    }
}

/// Every item hangs in one place only: a top-level item is listed among the
/// top-level items and is nobody's child; a child is listed by its parent,
/// which precedes it, and by nobody else; a detached item is listed nowhere.
pub proof fn lemma_item_hangs_in_one_place(t: TreeModel, h: usize, n: int, j: int)
    requires
        t.wf(),
        t.has(h),
        t.is_slot(n, j),
    ensures
        match t.items[h as int].parent {
            Link::Root => t.roots.contains(h) && t.child_at(n, j) != h,
            Link::Child(p) => {
                &&& p < h
                &&& t.children[p as int].contains(h)
                &&& !t.roots.contains(h)
                &&& t.child_at(n, j) == h ==> n == p
            },
            Link::Detached => !t.roots.contains(h) && t.child_at(n, j) != h,
        },
{
    assert(t.node_wf(h as int));
    assert(t.node_wf(n));
    let c = t.children[n][j];
    assert(t.items[c as int].parent == Link::Child(n as usize));
    if t.roots.contains(h) {
        let i = choose|i: int| 0 <= i < t.roots.len() && t.roots[i] == h;
        assert(t.items[t.roots[i] as int].parent == Link::Root);
    }
}

} // verus!
