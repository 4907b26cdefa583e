use vstd::prelude::*;
use crate::error::SyncError;
use crate::item::{Item, Link, LocalItem};
use crate::item::ItemModel;
use crate::tree::{
    cur_dir, lemma_detach_wf, lemma_first_named_at, lemma_first_named_none, lemma_first_named_some,
    lemma_fully_linked_wf, lemma_link_next, lemma_link_step, lemma_push_child_wf,
    lemma_push_root_wf, lemma_same_entries_chain, lemma_same_entries_links_ok,
    lemma_same_entries_symmetric, lemma_touch_wf, lemma_track_finds,
    lemma_wf_links_ok, segments, TreeModel,
};

verus! {

/// The view of a fallible path computation.
pub open spec fn path_view(r: Result<Vec<String>, SyncError>) -> Result<Seq<Seq<char>>, SyncError> {
    match r {
        Ok(path) => Ok(segments(path@)),
        Err(e) => Err(e),
    }
}

/// The view of a fallible operation that yields a list of handles.
pub open spec fn handles_view<H>(r: Result<Vec<H>, SyncError>) -> Result<Seq<H>, SyncError> {
    match r {
        Ok(handles) => Ok(handles@),
        Err(e) => Err(e),
    }
}

/// The values of a list of items.
pub open spec fn item_views(items: Seq<LocalItem>) -> Seq<ItemModel> {
    items.map_values(|item: LocalItem| item@)
}

/// The values of a list of handle lists.
pub open spec fn list_views(lists: Seq<Vec<usize>>) -> Seq<Seq<usize>> {
    lists.map_values(|list: Vec<usize>| list@)
}

/// `true` exactly for the current-directory segment.
pub fn is_cur_dir(segment: &String) -> (dot: bool)
    ensures
        dot == (segment@ == cur_dir()),
{
    let text = segment.as_str();
    if text.unicode_len() == 1 {
        let c = text.get_char(0);
        assert(segment@ =~= seq![c]);
        c == '.'
    } else {
        false
    }
}

/// An index over a forest of items: its top-level items, and lookup by path.
pub trait Filesystem {
    /// How the index addresses an item.
    type Handle;

    /// The index's invariant.
    spec fn valid(&self) -> bool;

    /// The top-level items, or the failure of their enumeration.
    spec fn top_level(&self) -> Result<Seq<Self::Handle>, SyncError>;

    /// The item that a path leads to.
    spec fn resolve(&self, path: Seq<Seq<char>>) -> Result<Option<Self::Handle>, SyncError>;

    /// The top-level items.
    fn get_roots(&self) -> (roots: Result<Vec<Self::Handle>, SyncError>)
        requires
            self.valid(),
        ensures
            handles_view(roots) == self.top_level(),
    ;

    /// The item at `path`, by exact match of each segment's name.
    fn find_from_path(&self, path: &Vec<String>) -> (found: Result<
        Option<Self::Handle>,
        SyncError,
    >)
        requires
            self.valid(),
        ensures
            found == self.resolve(segments(path@)),
    ;
}

/// The local tree: what a scan of the synchronized folder found, or what the
/// last synchronization left as the baseline.
///
/// Items live in an arena and are addressed by their position in it. An item
/// that is removed is unlinked and keeps its handle; nothing is ever moved.
#[derive(Debug)]
pub struct LocalFilesystem {
    items: Vec<LocalItem>,
    children: Vec<Vec<usize>>,
    roots: Vec<usize>,
}

impl View for LocalFilesystem {
    type V = TreeModel;

    closed spec fn view(&self) -> TreeModel {
        TreeModel {
            items: item_views(self.items@),
            children: list_views(self.children@),
            roots: self.roots@,
        }
    }
}

impl Default for LocalFilesystem {
    /// The tree without items.
    fn default() -> (fs: Self)
        ensures
            fs@ == TreeModel::empty(),
            fs@.wf(),
    {
        LocalFilesystem::new()
    }
}

impl LocalFilesystem {
    /// The tree without items.
    pub fn new() -> (fs: Self)
        ensures
            fs@ == TreeModel::empty(),
            fs@.wf(),
    {
        let fs = LocalFilesystem { items: Vec::new(), children: Vec::new(), roots: Vec::new() };
        assert(fs@.items =~= Seq::empty());
        assert(fs@.children =~= Seq::empty());
        assert(fs@.roots =~= Seq::empty());
        fs
    }

    /// A tree put together from saved parts: the items, the child handles of each
    /// item and the top-level handles. Nothing is checked here, and the parent
    /// links are whatever the items carry: `post_deserialize` checks the parts
    /// and rebuilds the links.
    pub fn from_saved(items: Vec<LocalItem>, children: Vec<Vec<usize>>, roots: Vec<usize>) -> (fs:
        Self)
        ensures
            fs@ == (TreeModel {
                items: item_views(items@),
                children: list_views(children@),
                roots: roots@,
            }),
    {
        LocalFilesystem { items, children, roots }
    }

    /// Links the children of `parent` to it, top-down pass of `post_deserialize`.
    /// Fails where the child list of `parent` breaks the forest shape.
    #[verifier::loop_isolation(false)]
    fn fix_parents_for(&mut self, parent: usize) -> (linked: Result<(), SyncError>)
        requires
            old(self)@.partly_linked(parent as int, 0),
            parent < old(self)@.items.len(),
        ensures
            old(self)@.same_entries(final(self)@),
            match linked {
                Ok(()) => final(self)@.partly_linked(parent + 1, 0),
                Err(e) => e == SyncError::StateInconsistency && !final(self)@.links_ok(),
            },
    {
        let ghost start = self@;
        let count = self.children[parent].len();
        if self.items[parent].is_regular_file() && count > 0 {
            assert(self@.items[parent as int].is_regular_file);
            return Err(SyncError::StateInconsistency);
        }
        let mut j: usize = 0;
        while j < count
            invariant
                j <= count,
                count == self@.children[parent as int].len(),
                parent < self@.items.len(),
                start.same_entries(self@),
                self@.partly_linked(parent as int, j as int),
            decreases count - j,
        {
            let ghost pre = self@;
            let c = self.children[parent][j];
            assert(pre.is_slot(parent as int, j as int));
            assert(pre.child_at(parent as int, j as int) == c);
            if c <= parent || c >= self.items.len() {
                return Err(SyncError::StateInconsistency);
            }
            match self.items[c].link() {
                Link::Detached => {},
                Link::Root => {
                    proof {
                        assert(pre.link_ok(c as int, parent as int, j as int));
                        let i = choose|i: int| 0 <= i < pre.roots.len() && pre.roots[i] == c;
                        assert(pre.roots[i] == pre.child_at(parent as int, j as int));
                    }
                    return Err(SyncError::StateInconsistency);
                },
                Link::Child(q) => {
                    proof {
                        assert(pre.link_ok(c as int, parent as int, j as int));
                        let k = choose|k: int|
                            pre.is_slot(q as int, k) && TreeModel::done(
                                parent as int,
                                j as int,
                                q as int,
                                k,
                            ) && #[trigger] pre.child_at(q as int, k) == c;
                        assert(pre.child_at(q as int, k) == pre.child_at(parent as int, j as int));
                    }
                    return Err(SyncError::StateInconsistency);
                },
            }
            let mut a: usize = 0;
            while a < j
                invariant
                    a <= j,
                    j < count,
                    count == self@.children[parent as int].len(),
                    self@ == pre,
                    c < self@.items.len(),
                    parent < self@.items.len(),
                    c == pre.child_at(parent as int, j as int),
                    pre.partly_linked(parent as int, j as int),
                    forall|b: int|
                        0 <= b < a ==> pre.name_at(#[trigger] pre.child_at(parent as int, b))
                            != pre.name_at(c),
                decreases j - a,
            {
                let sibling = self.children[parent][a];
                assert(pre.is_slot(parent as int, a as int) && TreeModel::done(
                    parent as int,
                    j as int,
                    parent as int,
                    a as int,
                ));
                assert(pre.child_at(parent as int, a as int) == sibling);
                if *self.items[sibling].name() == *self.items[c].name() {
                    assert(pre.is_slot(parent as int, j as int));
                    assert(pre.name_at(pre.child_at(parent as int, a as int)) == pre.name_at(
                        pre.child_at(parent as int, j as int),
                    ));
                    return Err(SyncError::StateInconsistency);
                }
                a += 1;
            }
            self.items[c].set_link(Link::Child(parent));
            proof {
                let post = pre.relink(c, Link::Child(parent));
                assert(self@.items =~= post.items);
                assert(self@.children =~= post.children);
                lemma_link_step(pre, parent as int, j as int);
            }
            j += 1;
        }
        proof {
            lemma_link_next(self@, parent as int);
        }
        Ok(())
    }

    /// Checks the parts of a loaded tree and rebuilds every parent link from the
    /// child lists and the top-level list, parents before their children. Only
    /// parent links are written. Succeeds exactly when the lists describe a
    /// forest (`links_ok`); the tree then holds its invariant.
    #[verifier::loop_isolation(false)]
    pub fn post_deserialize(&mut self) -> (relinked: Result<(), SyncError>)
        ensures
            old(self)@.same_entries(final(self)@),
            match relinked {
                Ok(()) => old(self)@.links_ok() && final(self)@.wf(),
                Err(e) => e == SyncError::StateInconsistency && !old(self)@.links_ok(),
            },
    {
        let ghost start = self@;
        let n = self.items.len();
        if self.children.len() != n {
            return Err(SyncError::StateInconsistency);
        }
        let mut h: usize = 0;
        while h < n
            invariant
                h <= n,
                n == self@.items.len(),
                self@.children.len() == n,
                start.same_entries(self@),
                forall|m: int| 0 <= m < h ==> (#[trigger] self@.items[m]).parent == Link::Detached,
            decreases n - h,
        {
            let ghost pre = self@;
            self.items[h].set_link(Link::Detached);
            proof {
                let post = pre.relink(h, Link::Detached);
                assert(self@.items =~= post.items);
                assert(self@.children =~= post.children);
            }
            h += 1;
        }
        let mut i: usize = 0;
        while i < self.roots.len()
            invariant
                i <= self@.roots.len(),
                n == self@.items.len(),
                self@.children.len() == n,
                start.same_entries(self@),
                forall|k: int|
                    0 <= k < i ==> {
                        let r = #[trigger] self@.roots[k];
                        &&& r < n
                        &&& self@.items[r as int].parent == Link::Root
                    },
                forall|k: int, l: int|
                    0 <= k < l < i ==> #[trigger] self@.roots[k] != #[trigger] self@.roots[l],
                forall|m: int|
                    0 <= m < n ==> match (#[trigger] self@.items[m]).parent {
                        Link::Root => exists|k: int| 0 <= k < i && self@.roots[k] == m,
                        Link::Child(_) => false,
                        Link::Detached => true,
                    },
            decreases self@.roots.len() - i,
        {
            let ghost pre = self@;
            let r = self.roots[i];
            if r >= n {
                proof {
                    assert(!(pre.roots[i as int] < pre.items.len()));
                    if start.links_ok() {
                        lemma_same_entries_links_ok(start, pre);
                    }
                }
                return Err(SyncError::StateInconsistency);
            }
            match self.items[r].link() {
                Link::Detached => {},
                _ => {
                    proof {
                        assert(pre.items[r as int].parent == Link::Root);
                        let k = choose|k: int| 0 <= k < i && pre.roots[k] == r;
                        assert(pre.roots[k] == pre.roots[i as int]);
                        if start.links_ok() {
                            lemma_same_entries_links_ok(start, pre);
                        }
                    }
                    return Err(SyncError::StateInconsistency);
                },
            }
            self.items[r].set_link(Link::Root);
            proof {
                let post = pre.relink(r, Link::Root);
                assert(self@.items =~= post.items);
                assert(self@.children =~= post.children);
                assert forall|k: int| 0 <= k < i + 1 implies {
                    let x = #[trigger] self@.roots[k];
                    &&& x < n
                    &&& self@.items[x as int].parent == Link::Root
                } by {
                    if k < i {
                        let x = pre.roots[k];
                        assert(pre.items[x as int].parent == Link::Root);
                    }
                }
                assert forall|k: int, l: int| 0 <= k < l < i + 1 implies #[trigger] self@.roots[k]
                    != #[trigger] self@.roots[l] by {
                    if l == i {
                        let x = pre.roots[k];
                        assert(pre.items[x as int].parent == Link::Root);
                    }
                }
                assert forall|m: int| 0 <= m < n implies match (#[trigger] self@.items[m]).parent {
                    Link::Root => exists|k: int| 0 <= k < i + 1 && self@.roots[k] == m,
                    Link::Child(_) => false,
                    Link::Detached => true,
                } by {
                    if m == r {
                        assert(self@.roots[i as int] == m);
                    } else {
                        match pre.items[m].parent {
                            Link::Root => {
                                let k = choose|k: int| 0 <= k < i && pre.roots[k] == m;
                                assert(0 <= k < i + 1 && self@.roots[k] == m);
                            },
                            _ => {},
                        }
                    }
                }
            }
            i += 1;
        }
        proof {
            let t = self@;
            assert forall|m: int| 0 <= m < t.items.len() implies #[trigger] t.link_ok(m, 0, 0) by {
                match t.items[m].parent {
                    Link::Root => {
                        let k = choose|k: int| 0 <= k < i && t.roots[k] == m;
                        assert(t.roots[k] == m as usize);
                    },
                    _ => {},
                }
            }
            assert(t.partly_linked(0, 0));
        }
        let mut p: usize = 0;
        while p < n
            invariant
                p <= n,
                n == self@.items.len(),
                start.same_entries(self@),
                self@.partly_linked(p as int, 0),
            decreases n - p,
        {
            let ghost pre = self@;
            match self.fix_parents_for(p) {
                Ok(()) => {},
                Err(e) => {
                    proof {
                        lemma_same_entries_chain(start, pre, self@);
                        if start.links_ok() {
                            lemma_same_entries_links_ok(start, self@);
                        }
                    }
                    return Err(e);
                },
            }
            proof {
                lemma_same_entries_chain(start, pre, self@);
            }
            p += 1;
        }
        proof {
            lemma_fully_linked_wf(self@);
            lemma_wf_links_ok(self@);
            lemma_same_entries_symmetric(start, self@);
            lemma_same_entries_links_ok(self@, start);
        }
        Ok(())
    }

    /// Number of handles given out so far.
    pub fn len(&self) -> (n: usize)
        ensures
            n == self@.items.len(),
    {
        self.items.len()
    }

    /// The item behind a handle.
    pub fn item(&self, item: usize) -> (found: Option<&LocalItem>)
        ensures
            (found is Some) == self@.has(item),
            found matches Some(it) ==> it@ == self@.items[item as int],
    {
        if item < self.items.len() {
            Some(&self.items[item])
        } else {
            None
        }
    }

    /// The children of an item, in the order in which they were added. A file has none.
    pub fn children(&self, item: usize) -> (list: Result<&Vec<usize>, SyncError>)
        ensures
            match list {
                Ok(l) => self@.has(item) && item < self@.children.len() && l@
                    == self@.children[item as int],
                Err(e) => e == SyncError::NotFound && !(self@.has(item) && item
                    < self@.children.len()),
            },
            self@.wf() && self@.has(item) ==> list is Ok,
            self@.wf() && self@.has(item) && self@.items[item as int].is_regular_file ==> (list
                matches Ok(l) && l@.len() == 0),
    {
        if item < self.items.len() && item < self.children.len() {
            proof {
                if self@.wf() {
                    assert(self@.node_wf(item as int));
                }
            }
            Ok(&self.children[item])
        } else {
            Err(SyncError::NotFound)
        }
    }

    /// The parent of an item: `None` for a top-level item.
    pub fn get_parent(&self, item: usize) -> (parent: Result<Option<usize>, SyncError>)
        ensures
            parent == (if self@.has(item) {
                LocalItem::parent_of(self@.items[item as int].parent)
            } else {
                Err(SyncError::NotFound)
            }),
    {
        if item < self.items.len() {
            self.items[item].get_parent()
        } else {
            Err(SyncError::NotFound)
        }
    }

    /// Adds `new_item` as a top-level item, whatever parent it declares, and
    /// returns its handle.
    pub fn add_to_root(&mut self, new_item: LocalItem) -> (handle: usize)
        ensures
            final(self)@ == old(self)@.push_root(new_item@),
            handle == old(self)@.items.len(),
            old(self)@.wf() ==> final(self)@.wf(),
    {
        let mut item = new_item;
        item.set_link(Link::Root);
        let handle = self.items.len();
        self.items.push(item);
        self.children.push(Vec::new());
        self.roots.push(handle);
        proof {
            let t = old(self)@;
            let u = t.push_root(new_item@);
            assert(self.items.len() == self.items@.len());
            assert(self@.items =~= u.items);
            assert(self@.children =~= u.children);
            assert(self@.roots =~= u.roots);
            if t.wf() {
                lemma_push_root_wf(t, new_item@);
            }
        }
        handle
    }

    /// The first of `among` that is named `name`.
    fn find_named(&self, among: &Vec<usize>, name: &String) -> (found: Option<usize>)
        requires
            self@.all_in_range(among@),
        ensures
            found == self@.first_named(among@, name@),
    {
        let mut k: usize = 0;
        while k < among.len()
            invariant
                k <= among.len(),
                self@.all_in_range(among@),
                forall|j: int| 0 <= j < k ==> self@.name_at(#[trigger] among@[j]) != name@,
            decreases among.len() - k,
        {
            let h = among[k];
            assert(among@[k as int] < self@.items.len());
            if *self.items[h].name() == *name {
                proof {
                    assert(self@.is_first_named(among@, name@, k as int));
                    lemma_first_named_at(self@, among@, name@, k as int);
                }
                return Some(h);
            }
            k += 1;
        }
        proof {
            lemma_first_named_none(self@, among@, name@);
        }
        None
    }

    /// Adds `item` as the last child of directory `parent` and returns its handle.
    /// Fails, leaving the tree as it was, with `MissingParent` where `parent` is
    /// no item, `NotADirectory` where it is a file, and `DuplicateName` where it
    /// already has a child of that name.
    pub fn add_child(&mut self, parent: usize, item: LocalItem) -> (added: Result<usize, SyncError>)
        requires
            old(self)@.wf(),
        ensures
            final(self)@.wf(),
            match added {
                Ok(handle) => old(self)@.add_child(parent, item@) == Ok::<TreeModel, SyncError>(
                    final(self)@,
                ) && handle == old(self)@.items.len(),
                Err(e) => old(self)@.add_child(parent, item@) == Err::<TreeModel, SyncError>(e)
                    && final(self)@ == old(self)@,
            },
    {
        if parent >= self.items.len() {
            return Err(SyncError::MissingParent);
        }
        if self.items[parent].is_regular_file() {
            return Err(SyncError::NotADirectory);
        }
        assert(self@.node_wf(parent as int));
        if self.find_named(&self.children[parent], item.name()).is_some() {
            return Err(SyncError::DuplicateName);
        }
        let mut child = item;
        child.set_link(Link::Child(parent));
        let handle = self.items.len();
        self.items.push(child);
        self.children[parent].push(handle);
        self.children.push(Vec::new());
        proof {
            let t = old(self)@;
            let u = t.push_child(parent, item@);
            assert(self.items.len() == self.items@.len());
            assert(self@.items =~= u.items);
            assert(self@.children =~= u.children);
            assert(self@.roots =~= u.roots);
            lemma_push_child_wf(t, parent, item@);
        }
        Ok(handle)
    }

    /// Attaches an item that was built outside the tree to the parent it
    /// declares, or to the top level where it declares none, and returns its
    /// handle. Fails as `add_child` does, and with `MissingParent` for an item
    /// that is marked detached.
    pub fn update_item_from_filesystem(&mut self, item: LocalItem) -> (added: Result<
        usize,
        SyncError,
    >)
        requires
            old(self)@.wf(),
        ensures
            final(self)@.wf(),
            match added {
                Ok(handle) => old(self)@.attach(item@) == Ok::<TreeModel, SyncError>(final(self)@)
                    && handle == old(self)@.items.len(),
                Err(e) => old(self)@.attach(item@) == Err::<TreeModel, SyncError>(e) && final(self)@ == old(self)@,
            },
    {
        match item.link() {
            Link::Root => Ok(self.add_to_root(item)),
            Link::Child(parent) => self.add_child(parent, item),
            Link::Detached => Err(SyncError::MissingParent),
        }
    }

    /// Position of `handle` in `list`.
    fn position(list: &Vec<usize>, handle: usize) -> (at: Option<usize>)
        ensures
            match at {
                Some(k) => k < list@.len() && list@[k as int] == handle,
                None => !list@.contains(handle),
            },
    {
        let mut k: usize = 0;
        while k < list.len()
            invariant
                k <= list.len(),
                forall|j: int| 0 <= j < k ==> list@[j] != handle,
            decreases list.len() - k,
        {
            if list[k] == handle {
                return Some(k);
            }
            k += 1;
        }
        None
    }

    /// Unlinks an item, with everything below it, from its parent or from the
    /// top level. The item becomes detached; handles stay as they are. Fails,
    /// leaving the tree as it was, with `NotFound` for a handle that names no
    /// item and with `MissingParent` for an item that is already detached.
    pub fn remove_item(&mut self, item: usize) -> (removed: Result<(), SyncError>)
        requires
            old(self)@.wf(),
        ensures
            final(self)@.wf(),
            match removed {
                Ok(()) => old(self)@.detach(item) == Ok::<TreeModel, SyncError>(final(self)@),
                Err(e) => old(self)@.detach(item) == Err::<TreeModel, SyncError>(e) && final(self)@ == old(self)@,
            },
    {
        if item >= self.items.len() {
            return Err(SyncError::NotFound);
        }
        let ghost t = self@;
        assert(t.node_wf(item as int));
        match self.items[item].link() {
            Link::Detached => Err(SyncError::MissingParent),
            Link::Root => {
                let at = Self::position(&self.roots, item);
                let k = at.unwrap();
                proof {
                    let c = t.roots.index_of(item);
                    assert(0 <= c < t.roots.len() && t.roots[c] == item);
                    if c < k {
                        assert(t.roots[c] != t.roots[k as int]);
                    }
                    if k < c {
                        assert(t.roots[k as int] != t.roots[c]);
                    }
                }
                self.roots.remove(k);
                self.items[item].set_link(Link::Detached);
                proof {
                    let u = t.detach(item)->Ok_0;
                    assert(self@.items =~= u.items);
                    assert(self@.children =~= u.children);
                    assert(self@.roots =~= u.roots);
                    lemma_detach_wf(t, item);
                }
                Ok(())
            },
            Link::Child(p) => {
                assert(t.node_wf(p as int));
                let at = Self::position(&self.children[p], item);
                let k = at.unwrap();
                proof {
                    let sibs = t.children[p as int];
                    let c = sibs.index_of(item);
                    assert(0 <= c < sibs.len() && sibs[c] == item);
                    if c < k {
                        assert(t.name_at(sibs[c]) != t.name_at(sibs[k as int]));
                    }
                    if k < c {
                        assert(t.name_at(sibs[k as int]) != t.name_at(sibs[c]));
                    }
                }
                self.children[p].remove(k);
                self.items[item].set_link(Link::Detached);
                proof {
                    let u = t.detach(item)->Ok_0;
                    assert(self@.items =~= u.items);
                    assert(self@.children =~= u.children);
                    assert(self@.roots =~= u.roots);
                    lemma_detach_wf(t, item);
                }
                Ok(())
            },
        }
    }

    /// Unlinks the child of `parent` that is named `name` and returns its handle.
    /// Fails with `NotFound`, leaving the tree as it was, where `parent` is no
    /// item or has no such child.
    pub fn remove_child(&mut self, parent: usize, name: &String) -> (removed: Result<
        usize,
        SyncError,
    >)
        requires
            old(self)@.wf(),
        ensures
            final(self)@.wf(),
            match removed {
                Ok(child) => old(self)@.remove_child(parent, name@) == Ok::<
                    (TreeModel, usize),
                    SyncError,
                >((final(self)@, child)),
                Err(e) => old(self)@.remove_child(parent, name@) == Err::<
                    (TreeModel, usize),
                    SyncError,
                >(e) && final(self)@ == old(self)@,
            },
    {
        if parent >= self.items.len() {
            return Err(SyncError::NotFound);
        }
        assert(self@.node_wf(parent as int));
        match self.find_named(&self.children[parent], name) {
            None => Err(SyncError::NotFound),
            Some(child) => match self.remove_item(child) {
                Ok(()) => Ok(child),
                Err(e) => Err(e),
            },
        }
    }

    /// Sets the modification time of an item. Fails with `NotFound`, leaving the
    /// tree as it was, for a handle that names no item.
    pub fn set_timestamp(&mut self, item: usize, timestamp: u64) -> (set: Result<(), SyncError>)
        ensures
            match set {
                Ok(()) => old(self)@.has(item) && final(self)@ == old(self)@.touch(item, timestamp),
                Err(e) => e == SyncError::NotFound && !old(self)@.has(item) && final(self)@ == old(self)@,
            },
            old(self)@.wf() ==> final(self)@.wf(),
    {
        if item >= self.items.len() {
            return Err(SyncError::NotFound);
        }
        self.items[item].set_timestamp(timestamp);
        proof {
            let t = old(self)@;
            let u = t.touch(item, timestamp);
            assert(self@.items =~= u.items);
            assert(self@.children =~= u.children);
            if t.wf() {
                lemma_touch_wf(t, item, timestamp);
            }
        }
        Ok(())
    }

    /// The names from the top level down to an item. Fails with `NotFound` for a
    /// handle that names no item, and with `MissingParent` where the item or one
    /// of its ancestors is detached.
    pub fn path_from_root(&self, item: usize) -> (path: Result<Vec<String>, SyncError>)
        ensures
            path_view(path) == self@.path_of(item),
        decreases item,
    {
        if item >= self.items.len() {
            return Err(SyncError::NotFound);
        }
        match self.items[item].link() {
            Link::Root => {
                let mut path: Vec<String> = Vec::new();
                path.push(self.items[item].name().clone());
                assert(segments(path@) =~= seq![self@.name_at(item)]);
                Ok(path)
            },
            Link::Detached => Err(SyncError::MissingParent),
            Link::Child(p) => {
                if p < item {
                    match self.path_from_root(p) {
                        Ok(above) => {
                            let mut path = above;
                            path.push(self.items[item].name().clone());
                            assert(segments(path@) =~= segments(above@).push(self@.name_at(item)));
                            Ok(path)
                        },
                        Err(e) => Err(e),
                    }
                } else {
                    Err(SyncError::MissingParent)
                }
            },
        }
    }

    /// Descent along the segments of `path` from position `from` up to position
    /// `upto`, starting among the items `among`.
    fn find_from_path_internal(
        &self,
        path: &Vec<String>,
        from: usize,
        upto: usize,
        among: &Vec<usize>,
    ) -> (found: Result<Option<usize>, SyncError>)
        requires
            self@.wf(),
            from <= upto <= path@.len(),
            self@.all_in_range(among@),
        ensures
            found == self@.lookup(among@, segments(path@).subrange(from as int, upto as int)),
            found matches Ok(Some(h)) ==> self@.has(h),
        decreases upto - from,
    {
        let ghost rest = segments(path@).subrange(from as int, upto as int);
        if from >= upto {
            return Err(SyncError::InvalidPath);
        }
        assert(rest[0] == path@[from as int]@);
        assert(rest.drop_first() =~= segments(path@).subrange(from + 1, upto as int));
        if is_cur_dir(&path[from]) {
            return self.find_from_path_internal(path, from + 1, upto, among);
        }
        match self.find_named(among, &path[from]) {
            None => Ok(None),
            Some(h) => {
                proof {
                    lemma_first_named_some(self@, among@, rest[0]);
                    assert(self@.node_wf(h as int));
                }
                if from + 1 == upto {
                    Ok(Some(h))
                } else {
                    self.find_from_path_internal(path, from + 1, upto, &self.children[h])
                }
            },
        }
    }

    /// Makes the tree hold an item at `path` that bears the modification time
    /// `timestamp`, and returns its handle: the item that the path leads to
    /// gets that time; where the path leads to none, an item is added under the
    /// item that the path without its last segment leads to (at the top level
    /// for a path of one segment), with the last segment as its name and with
    /// the identity and kind given.
    ///
    /// Fails, leaving the tree as it was, as the lookup of the path or of the
    /// parent's path fails, with `MissingParent` where the parent's path leads
    /// to no item, and as `add_child` fails.
    pub fn track(
        &mut self,
        path: &Vec<String>,
        id: u64,
        timestamp: u64,
        is_regular_file: bool,
    ) -> (kept: Result<usize, SyncError>)
        requires
            old(self)@.wf(),
        ensures
            final(self)@.wf(),
            match kept {
                Ok(handle) => old(self)@.track(segments(path@), id, timestamp, is_regular_file)
                    == Ok::<(TreeModel, usize), SyncError>((final(self)@, handle)),
                Err(e) => old(self)@.track(segments(path@), id, timestamp, is_regular_file) == Err::<
                    (TreeModel, usize),
                    SyncError,
                >(e) && final(self)@ == old(self)@,
            },
            kept matches Ok(handle) ==> final(self)@.find(segments(path@)) == Ok::<
                Option<usize>,
                SyncError,
            >(Some(handle)) && final(self)@.has(handle) && final(self)@.items[handle as int].timestamp
                == timestamp,
    {
        let n = path.len();
        assert(segments(path@).subrange(0, n as int) =~= segments(path@));
        assert(self@.all_in_range(self.roots@));
        let kept = match self.find_from_path_internal(path, 0, n, &self.roots) {
            Err(e) => Err(e),
            Ok(Some(handle)) => {
                match self.set_timestamp(handle, timestamp) {
                    Ok(()) => Ok(handle),
                    Err(e) => Err(e),
                }
            },
            Ok(None) => {
                let item = LocalItem::new(id, path[n - 1].clone(), timestamp, is_regular_file);
                assert(segments(path@).last() == path@[n - 1]@);
                if n == 1 {
                    Ok(self.add_to_root(item))
                } else {
                    assert(segments(path@).drop_last() =~= segments(path@).subrange(0, n - 1));
                    match self.find_from_path_internal(path, 0, n - 1, &self.roots) {
                        Err(e) => Err(e),
                        Ok(None) => Err(SyncError::MissingParent),
                        Ok(Some(parent)) => self.add_child(parent, item),
                    }
                }
            },
        };
        proof {
            if kept is Ok {
                assert(self.items.len() == self.items@.len());
                lemma_track_finds(old(self)@, segments(path@), id, timestamp, is_regular_file);
            }
        }
        kept
    }

    /// Unlinks the item that `path` leads to and returns its handle. Fails,
    /// leaving the tree as it was, as the lookup of the path fails, and with
    /// `NotFound` where the path leads to no item.
    pub fn forget(&mut self, path: &Vec<String>) -> (forgotten: Result<usize, SyncError>)
        requires
            old(self)@.wf(),
        ensures
            final(self)@.wf(),
            match forgotten {
                Ok(handle) => old(self)@.forget(segments(path@)) == Ok::<
                    (TreeModel, usize),
                    SyncError,
                >((final(self)@, handle)),
                Err(e) => old(self)@.forget(segments(path@)) == Err::<(TreeModel, usize), SyncError>(
                    e,
                ) && final(self)@ == old(self)@,
            },
    {
        let n = path.len();
        assert(segments(path@).subrange(0, n as int) =~= segments(path@));
        assert(self@.all_in_range(self.roots@));
        match self.find_from_path_internal(path, 0, n, &self.roots) {
            Err(e) => Err(e),
            Ok(None) => Err(SyncError::NotFound),
            Ok(Some(handle)) => match self.remove_item(handle) {
                Ok(()) => Ok(handle),
                Err(e) => Err(e),
            },
        }
    }
}

impl Filesystem for LocalFilesystem {
    type Handle = usize;

    open spec fn valid(&self) -> bool {
        self@.wf()
    }

    open spec fn top_level(&self) -> Result<Seq<usize>, SyncError> {
        Ok(self@.roots)
    }

    open spec fn resolve(&self, path: Seq<Seq<char>>) -> Result<Option<usize>, SyncError> {
        self@.find(path)
    }

    /// The handles of the top-level items, in the order in which they were added.
    fn get_roots(&self) -> (roots: Result<Vec<usize>, SyncError>) {
        let mut roots: Vec<usize> = Vec::new();
        let mut k: usize = 0;
        while k < self.roots.len()
            invariant
                k <= self.roots.len(),
                roots@ == self.roots@.subrange(0, k as int),
            decreases self.roots.len() - k,
        {
            roots.push(self.roots[k]);
            assert(roots@ =~= self.roots@.subrange(0, k + 1));
            k += 1;
        }
        assert(roots@ =~= self.roots@);
        Ok(roots)
    }

    /// The item at `path`: `Ok(None)` where a segment names no child, and
    /// `InvalidPath` where the path is empty or ends in current-directory
    /// segments.
    fn find_from_path(&self, path: &Vec<String>) -> (found: Result<Option<usize>, SyncError>) {
        assert(segments(path@).subrange(0, path@.len() as int) =~= segments(path@));
        assert(self@.all_in_range(self.roots@));
        self.find_from_path_internal(path, 0, path.len(), &self.roots)
    }
}

} // verus!
