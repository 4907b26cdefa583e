use vstd::prelude::*;
use crate::error::SyncError;
use crate::filesystem::LocalFilesystem;
use crate::item::{ItemModel, Link, LocalItem};
use crate::tree::TreeModel;

verus! {

/// Name of the client's own control directory. No scan ever yields an item for
/// an entry of this name, nor for anything below it.
pub open spec fn control_dir() -> Seq<char> {
    seq!['.', 'f', 'i', 'l', 'e', 's', 'h', 'a', 'r', 'e']
}

/// `true` exactly for the name of the control directory.
pub fn is_control_dir(name: &String) -> (reserved: bool)
    ensures
        reserved == (name@ == control_dir()),
{
    proof {
        reveal_strlit(".fileshare");
    }
    let reserved = ".fileshare".to_string();
    assert(reserved@ =~= control_dir());
    *name == reserved
}

/// One entry of a directory listing, as read from disk. A listing holds the
/// entries of a whole subtree, every directory before what it contains.
#[derive(Debug)]
pub struct ScanEntry {
    /// Position in the listing of the directory that holds this entry; `None`
    /// for an entry that lies directly in the scanned directory.
    pub directory: Option<usize>,
    /// Identity given to the entry.
    pub id: u64,
    /// Leaf name.
    pub name: String,
    /// Instant of the last modification.
    pub timestamp: u64,
    /// `true` for a file, `false` for a directory.
    pub is_regular_file: bool,
}

/// Mathematical value of a [`ScanEntry`].
pub struct EntryModel {
    pub directory: Option<usize>,
    pub id: u64,
    pub name: Seq<char>,
    pub timestamp: u64,
    pub is_regular_file: bool,
}

impl View for ScanEntry {
    type V = EntryModel;

    open spec fn view(&self) -> EntryModel {
        EntryModel {
            directory: self.directory,
            id: self.id,
            name: self.name@,
            timestamp: self.timestamp,
            is_regular_file: self.is_regular_file,
        }
    }
}

/// The values of a listing.
pub open spec fn entry_views(entries: Seq<ScanEntry>) -> Seq<EntryModel> {
    entries.map_values(|entry: ScanEntry| entry@)
}

impl EntryModel {
    /// The item that the entry becomes.
    pub open spec fn item(self) -> ItemModel {
        ItemModel {
            id: self.id,
            name: self.name,
            timestamp: self.timestamp,
            is_regular_file: self.is_regular_file,
            parent: Link::Root,
        }
    }
}

/// The tree after adding an item under `parent` (`None`: at the top level),
/// with the new item's handle.
pub open spec fn place(t: TreeModel, parent: Option<usize>, item: ItemModel) -> Result<
    (TreeModel, Option<usize>),
    SyncError,
> {
    match parent {
        None => Ok((t.push_root(item), Some(t.items.len() as usize))),
        Some(p) => match t.add_child(p, item) {
            Ok(u) => Ok((u, Some(t.items.len() as usize))),
            Err(e) => Err(e),
        },
    }
}

/// What one entry does to the tree, given the handles that the entries before
/// it were given (`None` for an entry that was passed over): an entry of the
/// reserved name, or inside a directory that was passed over, is passed over;
/// any other becomes an item under the item of its directory, or under
/// `target` if it lies directly in the scanned directory.
pub open spec fn scan_step(
    t: TreeModel,
    handles: Seq<Option<usize>>,
    entry: EntryModel,
    target: Option<usize>,
) -> Result<(TreeModel, Option<usize>), SyncError> {
    if entry.name == control_dir() {
        Ok((t, None))
    } else {
        match entry.directory {
            None => place(t, target, entry.item()),
            Some(k) => if k >= handles.len() {
                Err(SyncError::MissingParent)
            } else {
                match handles[k as int] {
                    None => Ok((t, None)),
                    Some(p) => place(t, Some(p), entry.item()),
                }
            },
        }
    }
}

/// The tree after the first `n` entries of a listing, with the handle given to
/// each of them.
pub open spec fn scan(t: TreeModel, entries: Seq<EntryModel>, target: Option<usize>, n: nat) -> Result<
    (TreeModel, Seq<Option<usize>>),
    SyncError,
>
    decreases n,
{
    if n == 0 {
        Ok((t, Seq::empty()))
    } else {
        match scan(t, entries, target, (n - 1) as nat) {
            Err(e) => Err(e),
            Ok((u, handles)) => match scan_step(u, handles, entries[n - 1], target) {
                Err(e) => Err(e),
                Ok((v, handle)) => Ok((v, handles.push(handle))),
            },
        }
    }
}

/// A listing in which every entry that lies directly in the scanned directory
/// bears the reserved name yields no item at all: the tree stays as it is.
pub proof fn lemma_scan_control_dir_only(
    t: TreeModel,
    entries: Seq<EntryModel>,
    target: Option<usize>,
    n: nat,
)
    requires
        n <= entries.len(),
        forall|i: int|
            0 <= i < entries.len() ==> match (#[trigger] entries[i]).directory {
                None => entries[i].name == control_dir(),
                Some(k) => k < i,
            },
    ensures
        scan(t, entries, target, n) == Ok::<(TreeModel, Seq<Option<usize>>), SyncError>(
            (t, Seq::new(n, |i: int| None::<usize>)),
        ),
    decreases n,
{
    if n == 0 {
        assert(Seq::new(n, |i: int| None::<usize>) =~= Seq::<Option<usize>>::empty());
    } else {
        lemma_scan_control_dir_only(t, entries, target, (n - 1) as nat);
        let before = Seq::new((n - 1) as nat, |i: int| None::<usize>);
        let entry = entries[n - 1];
        assert(scan_step(t, before, entry, target) == Ok::<(TreeModel, Option<usize>), SyncError>(
            (t, None),
        ));
        assert(before.push(None) =~= Seq::new(n, |i: int| None::<usize>));
    }
}

impl LocalFilesystem {
    /// Adds `item` under `parent`, or at the top level for `None`.
    fn place_item(&mut self, parent: Option<usize>, item: LocalItem) -> (placed: Result<
        Option<usize>,
        SyncError,
    >)
        requires
            old(self)@.wf(),
        ensures
            final(self)@.wf(),
            match placed {
                Ok(handle) => place(old(self)@, parent, item@) == Ok::<
                    (TreeModel, Option<usize>),
                    SyncError,
                >((final(self)@, handle)),
                Err(e) => place(old(self)@, parent, item@) == Err::<
                    (TreeModel, Option<usize>),
                    SyncError,
                >(e) && final(self)@ == old(self)@,
            },
    {
        match parent {
            None => Ok(Some(self.add_to_root(item))),
            Some(p) => match self.add_child(p, item) {
                Ok(handle) => Ok(Some(handle)),
                Err(e) => Err(e),
            },
        }
    }

    /// Takes the listing of a directory subtree into the tree, below item
    /// `parent` (`None`: at the top level), and returns the handle given to
    /// each entry. Entries of the reserved name, and all that lies in them,
    /// are passed over (`None`).
    ///
    /// Fails at the first entry that cannot be added: `MissingParent` where it
    /// names a directory that is not before it in the listing or `parent` is no
    /// item, `NotADirectory` where its directory is a file, `DuplicateName`
    /// where its directory already has that name. The entries before it stay
    /// in the tree.
    #[verifier::loop_isolation(false)]
    pub fn scan_dir(&mut self, entries: &Vec<ScanEntry>, parent: Option<usize>) -> (scanned: Result<
        Vec<Option<usize>>,
        SyncError,
    >)
        requires
            old(self)@.wf(),
        ensures
            final(self)@.wf(),
            match scanned {
                Ok(handles) => scan(
                    old(self)@,
                    entry_views(entries@),
                    parent,
                    entries@.len(),
                ) == Ok::<(TreeModel, Seq<Option<usize>>), SyncError>((final(self)@, handles@)),
                Err(e) => scan(old(self)@, entry_views(entries@), parent, entries@.len()) == Err::<
                    (TreeModel, Seq<Option<usize>>),
                    SyncError,
                >(e) && exists|n: nat|
                    n < entries@.len() && (#[trigger] scan(
                        old(self)@,
                        entry_views(entries@),
                        parent,
                        n,
                    ) matches Ok(reached) && reached.0 == final(self)@),
            },
    {
        let ghost start = self@;
        let ghost listing = entry_views(entries@);
        let mut handles: Vec<Option<usize>> = Vec::new();
        let mut i: usize = 0;
        while i < entries.len()
            invariant
                i <= entries@.len(),
                listing == entry_views(entries@),
                self@.wf(),
                scan(start, listing, parent, i as nat) == Ok::<
                    (TreeModel, Seq<Option<usize>>),
                    SyncError,
                >((self@, handles@)),
                handles@.len() == i,
            decreases entries@.len() - i,
        {
            let entry = &entries[i];
            let ghost before = self@;
            let ghost given = handles@;
            assert(listing[i as int] == entry@);
            let mut under: Option<Option<usize>> = None;
            if !is_control_dir(&entry.name) {
                match entry.directory {
                    None => {
                        under = Some(parent);
                    },
                    Some(k) => {
                        if k >= handles.len() {
                            proof {
                                assert(scan_step(before, given, listing[i as int], parent) is Err);
                                assert(scan(start, listing, parent, (i + 1) as nat) is Err);
                                lemma_scan_fails(start, listing, parent, (i + 1) as nat, entries@.len());
                                assert(scan(start, listing, parent, i as nat) matches Ok(reached)
                                    && reached.0 == self@);
                            }
                            return Err(SyncError::MissingParent);
                        }
                        match handles[k] {
                            None => {},
                            Some(p) => {
                                under = Some(Some(p));
                            },
                        }
                    },
                }
            }
            let handle = match under {
                None => None,
                Some(directory) => {
                    let item = LocalItem::new(
                        entry.id,
                        entry.name.clone(),
                        entry.timestamp,
                        entry.is_regular_file,
                    );
                    assert(item@ == entry@.item());
                    match self.place_item(directory, item) {
                        Ok(handle) => handle,
                        Err(e) => {
                            proof {
                                assert(scan_step(before, given, listing[i as int], parent) is Err);
                                assert(scan(start, listing, parent, (i + 1) as nat) is Err);
                                lemma_scan_fails(start, listing, parent, (i + 1) as nat, entries@.len());
                                assert(scan(start, listing, parent, i as nat) matches Ok(reached)
                                    && reached.0 == self@);
                            }
                            return Err(e);
                        },
                    }
                },
            };
            handles.push(handle);
            i += 1;
        }
        Ok(handles)
    }

    /// The tree of a synchronized folder, from the listing of its content.
    /// Fails as `scan_dir` does.
    pub fn from_fileshare_root(entries: &Vec<ScanEntry>) -> (built: Result<Self, SyncError>)
        ensures
            match built {
                Ok(fs) => fs@.wf() && (scan(
                    TreeModel::empty(),
                    entry_views(entries@),
                    None,
                    entries@.len(),
                ) matches Ok(end) && end.0 == fs@),
                Err(e) => scan(TreeModel::empty(), entry_views(entries@), None, entries@.len())
                    == Err::<(TreeModel, Seq<Option<usize>>), SyncError>(e),
            },
    {
        let mut filesystem = LocalFilesystem::new();
        match filesystem.scan_dir(entries, None) {
            Ok(_) => Ok(filesystem),
            Err(e) => Err(e),
        }
    }
}

/// A scan that fails after `n` entries fails for every longer prefix, in the
/// same way.
pub proof fn lemma_scan_fails(
    t: TreeModel,
    entries: Seq<EntryModel>,
    target: Option<usize>,
    n: nat,
    m: nat,
)
    requires
        scan(t, entries, target, n) is Err,
        n <= m,
    ensures
        scan(t, entries, target, m) == scan(t, entries, target, n),
    decreases m,
{
    if n < m {
        lemma_scan_fails(t, entries, target, n, (m - 1) as nat);
    }
}

/// No scan ever makes an item of an entry that bears the reserved name: after
/// a scan, the items that the tree held before are as they were, every entry
/// of the reserved name was passed over, and every item that the scan added
/// is the item of an entry of another name.
pub proof fn lemma_scan_never_takes_control_dir(
    t: TreeModel,
    entries: Seq<EntryModel>,
    target: Option<usize>,
    n: nat,
)
    requires
        n <= entries.len(),
        scan(t, entries, target, n) is Ok,
        scan(t, entries, target, n)->Ok_0.0.items.len() <= usize::MAX,
    ensures
        ({
            let after = scan(t, entries, target, n)->Ok_0;
            &&& after.1.len() == n
            &&& t.items.len() <= after.0.items.len()
            &&& forall|h: int| 0 <= h < t.items.len() ==> #[trigger] after.0.items[h] == t.items[h]
            &&& forall|h: int|
                t.items.len() <= h < after.0.items.len() ==> (#[trigger] after.0.items[h]).name
                    != control_dir()
            &&& forall|i: int|
                0 <= i < n && (#[trigger] entries[i]).name == control_dir() ==> after.1[i] is None
            &&& forall|i: int|
                0 <= i < n && (#[trigger] after.1[i]) is Some ==> {
                    let h = after.1[i]->Some_0;
                    &&& t.items.len() <= h < after.0.items.len()
                    &&& after.0.items[h as int].name == entries[i].name
                }
        }),
    decreases n,
{
    if n > 0 {
        let before = scan(t, entries, target, (n - 1) as nat)->Ok_0;
        let after = scan(t, entries, target, n)->Ok_0;
        let entry = entries[n - 1];
        let step = scan_step(before.0, before.1, entry, target)->Ok_0;
        assert(after.0 == step.0);
        assert(after.1 == before.1.push(step.1));
        assert(before.0.items.len() <= step.0.items.len());
        lemma_scan_never_takes_control_dir(t, entries, target, (n - 1) as nat);
        assert(step.1 is Some ==> step.1->Some_0 == before.0.items.len() && step.0.items.len()
            == before.0.items.len() + 1 && step.0.items[before.0.items.len() as int].name
            == entry.name && entry.name != control_dir());
        assert(step.1 is None ==> step.0 == before.0);
        assert forall|h: int| 0 <= h < before.0.items.len() implies #[trigger] step.0.items[h]
            == before.0.items[h] by {}
        assert forall|h: int| 0 <= h < t.items.len() implies #[trigger] after.0.items[h]
            == t.items[h] by {
            assert(before.0.items[h] == t.items[h]);
        }
        assert forall|h: int| t.items.len() <= h < after.0.items.len() implies (
        #[trigger] after.0.items[h]).name != control_dir() by {
            if h < before.0.items.len() {
                assert(before.0.items[h].name != control_dir());
            }
        }
        assert forall|i: int| 0 <= i < n && (#[trigger] after.1[i]) is Some implies {
            let h = after.1[i]->Some_0;
            &&& t.items.len() <= h < after.0.items.len()
            &&& after.0.items[h as int].name == entries[i].name
        } by {
            if i < n - 1 {
                assert(after.1[i] == before.1[i]);
                let h = before.1[i]->Some_0;
                assert(t.items.len() <= h < before.0.items.len());
                assert(after.0.items[h as int] == before.0.items[h as int]);
            }
        }
    }
}

} // verus!
