use vstd::prelude::*;
use std::collections::HashMap;
use crate::error::SyncError;
use crate::filesystem::{handles_view, is_cur_dir, path_view, Filesystem};
use crate::item::{Item, RemoteItem, RemoteModel};
use crate::tree::{cur_dir, segments};

verus! {

/// Mathematical value of the remote index: the items by identity, the child
/// identities recorded for each parent identity, and the top-level identities.
///
/// The index records what the remote listing declares and checks nothing: a
/// parent may be unknown, and an identity may be listed without an item.
pub struct RemoteIndex {
    pub items: Map<u64, RemoteModel>,
    pub children: Map<u64, Seq<u64>>,
    pub roots: Seq<u64>,
    /// The identities that have an item, in the order in which they first came in.
    pub order: Seq<u64>,
}

/// `list` with `id` appended, unless it holds `id` already.
pub open spec fn with_id(list: Seq<u64>, id: u64) -> Seq<u64> {
    if list.contains(id) {
        list
    } else {
        list.push(id)
    }
}

impl RemoteIndex {
    /// The index without items.
    pub open spec fn empty() -> RemoteIndex {
        RemoteIndex {
            items: Map::empty(),
            children: Map::empty(),
            roots: Seq::empty(),
            order: Seq::empty(),
        }
    }

    /// The child identities recorded for `id`; none where nothing was recorded.
    pub open spec fn children_of(self, id: u64) -> Seq<u64> {
        if self.children.contains_key(id) {
            self.children[id]
        } else {
            Seq::empty()
        }
    }

    /// The index after taking in `item`: its identity is recorded under the
    /// parent it declares, or at the top level, and the item replaces any
    /// earlier item of the same identity.
    pub open spec fn add_item(self, item: RemoteModel) -> RemoteIndex {
        let order = if self.items.contains_key(item.id) {
            self.order
        } else {
            self.order.push(item.id)
        };
        match item.parent {
            None => RemoteIndex {
                items: self.items.insert(item.id, item),
                children: self.children,
                roots: with_id(self.roots, item.id),
                order,
            },
            Some(p) => RemoteIndex {
                items: self.items.insert(item.id, item),
                children: self.children.insert(p, with_id(self.children_of(p), item.id)),
                roots: self.roots,
                order,
            },
        }
    }

    /// What taking items in one by one always gives: every identity that is
    /// listed (at the top level, as a child, or in the order of arrival) has
    /// an item, every item is held under its own identity and appears in the
    /// order of arrival, and no list holds an identity twice.
    pub open spec fn sound(self) -> bool {
        &&& forall|k: int|
            0 <= k < self.roots.len() ==> self.items.contains_key(#[trigger] self.roots[k])
        &&& forall|p: u64, k: int|
            self.children.contains_key(p) && 0 <= k < self.children[p].len()
                ==> self.items.contains_key(#[trigger] self.children[p][k])
        &&& forall|k: int|
            0 <= k < self.order.len() ==> self.items.contains_key(#[trigger] self.order[k])
        &&& forall|id: u64|
            self.items.contains_key(id) ==> (#[trigger] self.items[id]).id == id
                && self.order.contains(id)
        &&& self.roots.no_duplicates()
        &&& self.order.no_duplicates()
        &&& forall|p: u64| self.children.contains_key(p) ==> (#[trigger] self.children[p]).no_duplicates()
    }

    /// The item of identity `id`.
    pub open spec fn find_item(self, id: u64) -> Option<RemoteModel> {
        if self.items.contains_key(id) {
            Some(self.items[id])
        } else {
            None
        }
    }

    /// `list`, if every identity in it has an item.
    pub open spec fn checked(self, list: Seq<u64>) -> Result<Seq<u64>, SyncError> {
        if forall|k: int| 0 <= k < list.len() ==> self.items.contains_key(#[trigger] list[k]) {
            Ok(list)
        } else {
            Err(SyncError::StateInconsistency)
        }
    }

    /// Identity `h` has an item named `name` through which a descent can go on:
    /// at the last segment any such item, before it only one with a child record.
    pub open spec fn is_candidate(self, h: u64, name: Seq<char>, last: bool) -> bool {
        &&& self.items.contains_key(h)
        &&& self.items[h].name == name
        &&& (last || self.children.contains_key(h))
    }

    /// Position `k` of `among` holds the first candidate.
    pub open spec fn is_first_candidate(
        self,
        among: Seq<u64>,
        name: Seq<char>,
        last: bool,
        k: int,
    ) -> bool {
        &&& 0 <= k < among.len()
        &&& self.is_candidate(among[k], name, last)
        &&& forall|j: int| 0 <= j < k ==> !self.is_candidate(#[trigger] among[j], name, last)
    }

    /// The first candidate of `among`.
    pub open spec fn first_candidate(self, among: Seq<u64>, name: Seq<char>, last: bool) -> Option<
        u64,
    > {
        if exists|k: int| self.is_first_candidate(among, name, last, k) {
            Some(among[choose|k: int| self.is_first_candidate(among, name, last, k)])
        } else {
            None
        }
    }

    /// Descent along `path`, starting among the identities `among`:
    /// current-directory segments are skipped, every other segment selects the
    /// first candidate of that name, and the descent goes on among the
    /// children recorded for it. Fails with `NotFound` where a segment selects
    /// nothing.
    pub open spec fn lookup(self, among: Seq<u64>, path: Seq<Seq<char>>) -> Result<
        Option<u64>,
        SyncError,
    >
        decreases path.len(),
    {
        if path.len() == 0 {
            Err(SyncError::InvalidPath)
        } else if path[0] == cur_dir() {
            self.lookup(among, path.drop_first())
        } else {
            match self.first_candidate(among, path[0], path.len() == 1) {
                None => Err(SyncError::NotFound),
                Some(h) => if path.len() == 1 {
                    Ok(Some(h))
                } else {
                    self.lookup(self.children[h], path.drop_first())
                },
            }
        }
    }

    /// The names from the top level down to the item of identity `id`, found by
    /// following at most `fuel` parent identities upwards.
    pub open spec fn path_of(self, id: u64, fuel: nat) -> Result<Seq<Seq<char>>, SyncError>
        decreases fuel,
    {
        if !self.items.contains_key(id) {
            Err(SyncError::NotFound)
        } else {
            match self.items[id].parent {
                None => Ok(seq![self.items[id].name]),
                Some(p) => if fuel == 0 {
                    Err(SyncError::StateInconsistency)
                } else if !self.items.contains_key(p) {
                    Err(SyncError::MissingParent)
                } else {
                    match self.path_of(p, (fuel - 1) as nat) {
                        Ok(above) => Ok(above.push(self.items[id].name)),
                        Err(e) => Err(e),
                    }
                },
            }
        }
    }
}

impl RemoteIndex {
    /// The item of identity `r` can be told apart by its path, within `fuel`
    /// steps upwards: it and its ancestors have items, none bears the
    /// current-directory name, and each is the first candidate of its name
    /// among the top-level identities or among the children recorded for its
    /// parent (`last`: the descent ends at `r`).
    pub open spec fn findable(self, r: u64, fuel: nat, last: bool) -> bool
        decreases fuel,
    {
        &&& self.items.contains_key(r)
        &&& self.items[r].name != cur_dir()
        &&& match self.items[r].parent {
            None => self.first_candidate(self.roots, self.items[r].name, last) == Some(r),
            Some(p) => {
                &&& fuel > 0
                &&& self.children.contains_key(p)
                &&& self.first_candidate(self.children[p], self.items[r].name, last) == Some(r)
                &&& self.findable(p, (fuel - 1) as nat, false)
            },
        }
    }
}

/// One step of a descent: a segment that is not the current-directory name
/// selects the first candidate of that name, and the descent ends there or
/// goes on among the children recorded for it.
pub proof fn lemma_remote_lookup_step(
    t: RemoteIndex,
    among: Seq<u64>,
    name: Seq<char>,
    h: u64,
    tail: Seq<Seq<char>>,
)
    requires
        name != cur_dir(),
        t.first_candidate(among, name, tail.len() == 0) == Some(h),
    ensures
        t.lookup(among, seq![name] + tail) == (if tail.len() == 0 {
            Ok::<Option<u64>, SyncError>(Some(h))
        } else {
            t.lookup(t.children[h], tail)
        }),
{
    let path = seq![name] + tail;
    assert(path[0] == name);
    assert(path.drop_first() =~= tail);
}

/// A descent along the path of a findable item, followed by further segments,
/// arrives at the item and goes on among the children recorded for it.
pub proof fn lemma_remote_lookup_through(t: RemoteIndex, r: u64, fuel: nat, tail: Seq<Seq<char>>)
    requires
        t.findable(r, fuel, tail.len() == 0),
    ensures
        t.path_of(r, fuel) is Ok,
        t.lookup(t.roots, t.path_of(r, fuel)->Ok_0 + tail) == (if tail.len() == 0 {
            Ok::<Option<u64>, SyncError>(Some(r))
        } else {
            t.lookup(t.children[r], tail)
        }),
    decreases fuel,
{
    let name = t.items[r].name;
    match t.items[r].parent {
        None => {
            lemma_remote_lookup_step(t, t.roots, name, r, tail);
        },
        Some(p) => {
            let step = seq![name] + tail;
            lemma_remote_lookup_through(t, p, (fuel - 1) as nat, step);
            let above = t.path_of(p, (fuel - 1) as nat)->Ok_0;
            assert(above.push(name) + tail =~= above + step);
            lemma_remote_lookup_step(t, t.children[p], name, r, tail);
        },
    }
}

/// Looking up the path of a remote item in its own index finds that same item.
///
/// This is stated for the items that a path can tell apart (`findable`): the
/// index records what the listing declares, so an item may lack an ancestor,
/// or share its name with an earlier item of the same directory.
pub proof fn lemma_remote_path_roundtrip(t: RemoteIndex, r: u64)
    requires
        t.findable(r, t.items.len(), true),
    ensures
        t.path_of(r, t.items.len()) is Ok,
        t.lookup(t.roots, t.path_of(r, t.items.len())->Ok_0) == Ok::<Option<u64>, SyncError>(
            Some(r),
        ),
{
    lemma_remote_lookup_through(t, r, t.items.len(), Seq::empty());
    let path = t.path_of(r, t.items.len())->Ok_0;
    assert(path + Seq::<Seq<char>>::empty() =~= path);
}

/// Appending an identity that a list does not hold keeps the list free of
/// repetitions, and keeps what it held.
pub proof fn lemma_with_id(list: Seq<u64>, id: u64)
    requires
        list.no_duplicates(),
    ensures
        with_id(list, id).no_duplicates(),
        with_id(list, id).contains(id),
        forall|k: int| 0 <= k < list.len() ==> with_id(list, id)[k] == #[trigger] list[k],
        forall|k: int|
            0 <= k < with_id(list, id).len() ==> #[trigger] with_id(list, id)[k] == id || (k
                < list.len() && with_id(list, id)[k] == list[k]),
{
    if !list.contains(id) {
        let longer = list.push(id);
        assert(longer[list.len() as int] == id);
        assert forall|i: int, j: int| 0 <= i < longer.len() && 0 <= j < longer.len() && i
            != j implies longer[i] != longer[j] by {
            if i < list.len() && j < list.len() {
                assert(list[i] != list[j]);
            } else if i < list.len() {
                assert(list.contains(list[i]));
            } else {
                assert(list.contains(list[j]));
            }
        }
    }
}

/// Taking in an item keeps the index sound.
pub proof fn lemma_add_item_sound(t: RemoteIndex, item: RemoteModel)
    requires
        t.sound(),
    ensures
        t.add_item(item).sound(),
{
    let u = t.add_item(item);
    lemma_with_id(t.roots, item.id);
    assert forall|id: u64| u.items.contains_key(id) implies (#[trigger] u.items[id]).id == id
        && u.order.contains(id) by {
        if id == item.id {
            if t.items.contains_key(id) {
                assert(t.order.contains(id));
            } else {
                assert(u.order[t.order.len() as int] == id);
            }
        } else {
            assert(t.items[id].id == id);
            let k = choose|k: int| 0 <= k < t.order.len() && t.order[k] == id;
            assert(u.order[k] == id);
        }
    }
    assert forall|k: int| 0 <= k < u.order.len() implies u.items.contains_key(
        #[trigger] u.order[k],
    ) by {
        if k < t.order.len() {
            assert(t.items.contains_key(t.order[k]));
        }
    }
    assert(u.order.no_duplicates()) by {
        if !t.items.contains_key(item.id) {
            assert forall|i: int, j: int| 0 <= i < u.order.len() && 0 <= j < u.order.len() && i
                != j implies u.order[i] != u.order[j] by {
                if i < t.order.len() && j < t.order.len() {
                    assert(t.order[i] != t.order[j]);
                } else if i < t.order.len() {
                    assert(t.items.contains_key(t.order[i]));
                } else {
                    assert(t.items.contains_key(t.order[j]));
                }
            }
        }
    }
    assert forall|k: int| 0 <= k < u.roots.len() implies u.items.contains_key(
        #[trigger] u.roots[k],
    ) by {
        if u.roots[k] != item.id {
            assert(t.items.contains_key(t.roots[k]));
        }
    }
    match item.parent {
        None => {
            assert forall|p: u64, k: int|
                u.children.contains_key(p) && 0 <= k < u.children[p].len()
                    implies u.items.contains_key(#[trigger] u.children[p][k]) by {
                assert(t.items.contains_key(t.children[p][k]));
            }
        },
        Some(q) => {
            let list = t.children_of(q);
            assert(list.no_duplicates());
            lemma_with_id(list, item.id);
            assert forall|p: u64, k: int|
                u.children.contains_key(p) && 0 <= k < u.children[p].len()
                    implies u.items.contains_key(#[trigger] u.children[p][k]) by {
                if p == q {
                    if u.children[p][k] != item.id {
                        assert(k < list.len() && u.children[p][k] == list[k]);
                        assert(t.items.contains_key(t.children[q][k]));
                    }
                } else {
                    assert(t.items.contains_key(t.children[p][k]));
                }
            }
            assert forall|p: u64| u.children.contains_key(p) implies (
            #[trigger] u.children[p]).no_duplicates() by {
                if p != q {
                    assert(t.children[p].no_duplicates());
                }
            }
        },
    }
}

/// In a sound index no enumeration fails: every listed identity has an item.
pub proof fn lemma_sound_lists_are_checked(t: RemoteIndex, id: u64)
    requires
        t.sound(),
    ensures
        t.checked(t.roots) == Ok::<Seq<u64>, SyncError>(t.roots),
        t.checked(t.children_of(id)) == Ok::<Seq<u64>, SyncError>(t.children_of(id)),
        t.checked(t.order) == Ok::<Seq<u64>, SyncError>(t.order),
{
    let list = t.children_of(id);
    assert forall|k: int| 0 <= k < list.len() implies t.items.contains_key(#[trigger] list[k]) by {
        assert(t.items.contains_key(t.children[id][k]));
    }
}

/// A position that holds a candidate and has no earlier candidate is the one
/// that `first_candidate` selects.
pub proof fn lemma_first_candidate_at(
    t: RemoteIndex,
    among: Seq<u64>,
    name: Seq<char>,
    last: bool,
    k: int,
)
    requires
        t.is_first_candidate(among, name, last, k),
    ensures
        t.first_candidate(among, name, last) == Some(among[k]),
{
    let c = choose|c: int| t.is_first_candidate(among, name, last, c);
    assert(t.is_first_candidate(among, name, last, c));
    if c < k {
        assert(!t.is_candidate(among[c], name, last));
    }
    if k < c {
        assert(!t.is_candidate(among[k], name, last));
    }
}

/// Where no position holds a candidate, `first_candidate` selects nothing.
pub proof fn lemma_first_candidate_none(t: RemoteIndex, among: Seq<u64>, name: Seq<char>, last: bool)
    requires
        forall|j: int| 0 <= j < among.len() ==> !t.is_candidate(#[trigger] among[j], name, last),
    ensures
        t.first_candidate(among, name, last) is None,
{
    if exists|k: int| t.is_first_candidate(among, name, last, k) {
        let c = choose|c: int| t.is_first_candidate(among, name, last, c);
        assert(!t.is_candidate(among[c], name, last));
    }
}

/// The values of a map of items.
pub open spec fn item_map_view(items: Map<u64, RemoteItem>) -> Map<u64, RemoteModel> {
    items.map_values(|item: RemoteItem| item@)
}

/// The values of a map of identity lists.
pub open spec fn list_map_view(lists: Map<u64, Vec<u64>>) -> Map<u64, Seq<u64>> {
    lists.map_values(|list: Vec<u64>| list@)
}

/// The remote tree, rebuilt for every run from the listing of the remote
/// store. Items are addressed by the identity that the store gave them.
#[derive(Debug)]
pub struct RemoteFilesystem {
    items: HashMap<u64, RemoteItem>,
    children: HashMap<u64, Vec<u64>>,
    roots: Vec<u64>,
    order: Vec<u64>,
}

impl View for RemoteFilesystem {
    type V = RemoteIndex;

    closed spec fn view(&self) -> RemoteIndex {
        RemoteIndex {
            items: item_map_view(self.items@),
            children: list_map_view(self.children@),
            roots: self.roots@,
            order: self.order@,
        }
    }
}

/// `true` exactly when `list` holds `id`.
fn holds_id(list: &Vec<u64>, id: u64) -> (held: bool)
    ensures
        held == list@.contains(id),
{
    let mut k: usize = 0;
    while k < list.len()
        invariant
            k <= list.len(),
            forall|j: int| 0 <= j < k ==> list@[j] != id,
        decreases list.len() - k,
    {
        if list[k] == id {
            return true;
        }
        k += 1;
    }
    false
}

impl Default for RemoteFilesystem {
    /// The index without items.
    fn default() -> (fs: Self)
        ensures
            fs@ == RemoteIndex::empty(),
            fs@.sound(),
    {
        RemoteFilesystem::new()
    }
}

impl RemoteFilesystem {
    /// The index without items.
    pub fn new() -> (fs: Self)
        ensures
            fs@ == RemoteIndex::empty(),
            fs@.sound(),
    {
        let fs = RemoteFilesystem {
            items: HashMap::new(),
            children: HashMap::new(),
            roots: Vec::new(),
            order: Vec::new(),
        };
        assert(fs@.items =~= Map::empty());
        assert(fs@.children =~= Map::empty());
        assert(fs@.roots =~= Seq::empty());
        fs
    }

    /// Takes in one item of the remote listing: records its identity under the
    /// parent identity it declares, or at the top level, and maps its identity
    /// to the item.
    pub fn add_item(&mut self, item: RemoteItem)
        ensures
            final(self)@ == old(self)@.add_item(item@),
            old(self)@.sound() ==> final(self)@.sound(),
    {
        let id = item.id();
        let ghost t = self@;
        if self.items.get(&id).is_none() {
            self.order.push(id);
        }
        match item.get_parent() {
            None => {
                if !holds_id(&self.roots, id) {
                    self.roots.push(id);
                }
            },
            Some(p) => {
                match self.children.remove(&p) {
                    Some(list) => {
                        let mut list = list;
                        if !holds_id(&list, id) {
                            list.push(id);
                        }
                        self.children.insert(p, list);
                    },
                    None => {
                        let mut list: Vec<u64> = Vec::new();
                        assert(!list@.contains(id));
                        list.push(id);
                        self.children.insert(p, list);
                    },
                }
            },
        }
        self.items.insert(id, item);
        proof {
            let u = t.add_item(item@);
            assert(self@.items =~= u.items);
            assert(self@.children =~= u.children);
            assert(self@.roots =~= u.roots);
            assert(self@.order =~= u.order);
            if t.sound() {
                lemma_add_item_sound(t, item@);
            }
        }
    }

    /// The identities that have an item, in the order in which they first came in.
    pub fn ids(&self) -> (ids: &Vec<u64>)
        ensures
            ids@ == self@.order,
    {
        &self.order
    }

    /// The item of identity `id`.
    pub fn find_item(&self, id: u64) -> (found: Option<&RemoteItem>)
        ensures
            match found {
                Some(item) => self@.find_item(id) == Some(item@),
                None => self@.find_item(id) is None,
            },
    {
        self.items.get(&id)
    }

    /// A copy of `list`, if every identity in it has an item.
    fn checked_copy(&self, list: &Vec<u64>) -> (copy: Result<Vec<u64>, SyncError>)
        ensures
            handles_view(copy) == self@.checked(list@),
    {
        let mut copy: Vec<u64> = Vec::new();
        let mut k: usize = 0;
        while k < list.len()
            invariant
                k <= list.len(),
                copy@ == list@.subrange(0, k as int),
                forall|j: int| 0 <= j < k ==> self@.items.contains_key(#[trigger] list@[j]),
            decreases list.len() - k,
        {
            let id = list[k];
            if self.items.get(&id).is_none() {
                assert(!self@.items.contains_key(list@[k as int]));
                return Err(SyncError::StateInconsistency);
            }
            copy.push(id);
            assert(copy@ =~= list@.subrange(0, k + 1));
            k += 1;
        }
        assert(copy@ =~= list@);
        Ok(copy)
    }

    /// The identities of the children recorded for `id`, in the order in which
    /// they came in; none where nothing was recorded. Fails with
    /// `StateInconsistency` where a recorded child has no item.
    pub fn get_children(&self, id: u64) -> (children: Result<Vec<u64>, SyncError>)
        ensures
            handles_view(children) == self@.checked(self@.children_of(id)),
            self@.sound() ==> children is Ok,
    {
        proof {
            if self@.sound() {
                lemma_sound_lists_are_checked(self@, id);
            }
        }
        match self.children.get(&id) {
            Some(list) => self.checked_copy(list),
            None => {
                let empty: Vec<u64> = Vec::new();
                assert(empty@ =~= self@.children_of(id));
                Ok(empty)
            },
        }
    }

    /// Descent along the segments of `path` from position `from` on, starting
    /// among the identities `among`.
    #[verifier::loop_isolation(false)]
    fn find_from_path_internal(&self, path: &Vec<String>, from: usize, among: &Vec<u64>) -> (found:
        Result<Option<u64>, SyncError>)
        requires
            from <= path@.len(),
        ensures
            found == self@.lookup(among@, segments(path@).subrange(from as int, path@.len() as int)),
        decreases path@.len() - from, among@.len(),
    {
        let ghost rest = segments(path@).subrange(from as int, path@.len() as int);
        if from >= path.len() {
            return Err(SyncError::InvalidPath);
        }
        assert(rest[0] == path@[from as int]@);
        assert(rest.drop_first() =~= segments(path@).subrange(from + 1, path@.len() as int));
        if is_cur_dir(&path[from]) {
            return self.find_from_path_internal(path, from + 1, among);
        }
        let last = from + 1 == path.len();
        let mut k: usize = 0;
        while k < among.len()
            invariant
                k <= among.len(),
                from < path@.len(),
                last == (from + 1 == path@.len()),
                rest == segments(path@).subrange(from as int, path@.len() as int),
                rest[0] == path@[from as int]@,
                rest[0] != cur_dir(),
                rest.drop_first() =~= segments(path@).subrange(from + 1, path@.len() as int),
                forall|j: int|
                    0 <= j < k ==> !self@.is_candidate(#[trigger] among@[j], rest[0], last),
            decreases among.len() - k,
        {
            let id = among[k];
            match self.items.get(&id) {
                None => {},
                Some(item) => {
                    if *item.name() == path[from] {
                        if last {
                            proof {
                                assert(self@.is_first_candidate(among@, rest[0], last, k as int));
                                lemma_first_candidate_at(self@, among@, rest[0], last, k as int);
                            }
                            return Ok(Some(id));
                        }
                        match self.children.get(&id) {
                            None => {},
                            Some(below) => {
                                proof {
                                    assert(self@.is_first_candidate(among@, rest[0], last, k as int));
                                    lemma_first_candidate_at(self@, among@, rest[0], last, k as int);
                                }
                                return self.find_from_path_internal(path, from + 1, below);
                            },
                        }
                    }
                },
            }
            k += 1;
        }
        proof {
            lemma_first_candidate_none(self@, among@, rest[0], last);
        }
        Err(SyncError::NotFound)
    }

    /// Follows at most `fuel` parent identities upwards from `id`.
    fn path_within(&self, id: u64, fuel: usize) -> (path: Result<Vec<String>, SyncError>)
        ensures
            path_view(path) == self@.path_of(id, fuel as nat),
        decreases fuel,
    {
        match self.items.get(&id) {
            None => Err(SyncError::NotFound),
            Some(item) => match item.get_parent() {
                None => {
                    let mut path: Vec<String> = Vec::new();
                    path.push(item.name().clone());
                    assert(segments(path@) =~= seq![self@.items[id].name]);
                    Ok(path)
                },
                Some(p) => {
                    if fuel == 0 {
                        Err(SyncError::StateInconsistency)
                    } else if self.items.get(&p).is_none() {
                        Err(SyncError::MissingParent)
                    } else {
                        match self.path_within(p, fuel - 1) {
                            Ok(above) => {
                                let mut path = above;
                                path.push(item.name().clone());
                                assert(segments(path@) =~= segments(above@).push(
                                    self@.items[id].name,
                                ));
                                Ok(path)
                            },
                            Err(e) => Err(e),
                        }
                    }
                },
            },
        }
    }

    /// The names from the top level down to the item of identity `id`. Fails
    /// with `NotFound` where `id` has no item, with `MissingParent` where an
    /// ancestor it leads to has none, and with `StateInconsistency` where the
    /// parent identities run in a circle.
    pub fn path_from_root(&self, id: u64) -> (path: Result<Vec<String>, SyncError>)
        ensures
            path_view(path) == self@.path_of(id, self@.items.len()),
    {
        let fuel = self.items.len();
        assert(self@.items.dom() =~= self.items@.dom());
        self.path_within(id, fuel)
    }
}

impl Filesystem for RemoteFilesystem {
    type Handle = u64;

    open spec fn valid(&self) -> bool {
        true
    }

    open spec fn top_level(&self) -> Result<Seq<u64>, SyncError> {
        self@.checked(self@.roots)
    }

    open spec fn resolve(&self, path: Seq<Seq<char>>) -> Result<Option<u64>, SyncError> {
        self@.lookup(self@.roots, path)
    }

    /// The identities of the top-level items, in the order in which they came
    /// in. Fails with `StateInconsistency` where one of them has no item.
    fn get_roots(&self) -> (roots: Result<Vec<u64>, SyncError>) {
        self.checked_copy(&self.roots)
    }

    /// The identity of the item at `path`. Fails with `NotFound` where a
    /// segment selects nothing, and with `InvalidPath` where the path is empty
    /// or ends in current-directory segments.
    fn find_from_path(&self, path: &Vec<String>) -> (found: Result<Option<u64>, SyncError>) {
        assert(segments(path@).subrange(0, path@.len() as int) =~= segments(path@));
        self.find_from_path_internal(path, 0, &self.roots)
    }
}

} // verus!
