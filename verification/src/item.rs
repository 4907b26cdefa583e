use vstd::prelude::*;
use crate::error::SyncError;

verus! {

/// Where an item of a local tree hangs.
///
/// Items are addressed by handles (their position in the tree's arena), so a
/// parent is a handle and never an owning pointer.
#[derive(Clone, Copy, Debug, PartialEq, Eq, Structural)]
pub enum Link {
    /// The item is a top-level item.
    Root,
    /// The item is a child of the directory with this handle.
    Child(usize),
    /// The item hangs nowhere: it was removed, or its tree was loaded and not yet relinked.
    Detached,
}

/// Mathematical value of a [`LocalItem`].
pub struct ItemModel {
    pub id: u64,
    pub name: Seq<char>,
    pub timestamp: u64,
    pub is_regular_file: bool,
    pub parent: Link,
}

/// Mathematical value of a [`RemoteItem`].
pub struct RemoteModel {
    pub id: u64,
    pub name: Seq<char>,
    pub timestamp: u64,
    pub is_regular_file: bool,
    pub parent: Option<u64>,
}

/// What the local and the remote kind of item have in common: identity, name,
/// modification time and kind of entry.
pub trait Item {
    /// The identity that [`Item::id`] returns.
    spec fn item_id(&self) -> u64;

    /// The name that [`Item::name`] returns.
    spec fn item_name(&self) -> Seq<char>;

    /// The time that [`Item::timestamp`] returns.
    spec fn item_timestamp(&self) -> u64;

    /// What [`Item::is_regular_file`] returns.
    spec fn item_is_regular_file(&self) -> bool;

    /// Stable identity of the entry.
    fn id(&self) -> (id: u64)
        ensures
            id == self.item_id(),
    ;

    /// Leaf name of the entry.
    fn name(&self) -> (name: &String)
        ensures
            name@ == self.item_name(),
    ;

    /// Instant of the last modification, the only signal that orders versions.
    fn timestamp(&self) -> (timestamp: u64)
        ensures
            timestamp == self.item_timestamp(),
    ;

    /// `true` for a file, `false` for a directory.
    fn is_regular_file(&self) -> (is_file: bool)
        ensures
            is_file == self.item_is_regular_file(),
    ;
}

/// One entry of a local tree: a file or a directory seen on disk, or remembered
/// from the last synchronization.
#[derive(Debug)]
pub struct LocalItem {
    id: u64,
    name: String,
    timestamp: u64,
    is_regular_file: bool,
    parent: Link,
}

impl View for LocalItem {
    type V = ItemModel;

    closed spec fn view(&self) -> ItemModel {
        ItemModel {
            id: self.id,
            name: self.name@,
            timestamp: self.timestamp,
            is_regular_file: self.is_regular_file,
            parent: self.parent,
        }
    }
}

impl LocalItem {
    /// A top-level item that is not yet part of any tree.
    pub fn new(id: u64, name: String, timestamp: u64, is_regular_file: bool) -> (item: Self)
        ensures
            item@ == (ItemModel { id, name: name@, timestamp, is_regular_file, parent: Link::Root }),
    {
        LocalItem { id, name, timestamp, is_regular_file, parent: Link::Root }
    }

    /// Declares the directory this item belongs under (`None`: the top level).
    /// The declaration takes effect when the item is handed to a tree.
    pub fn set_parent(&mut self, parent: Option<usize>)
        ensures
            final(self)@ == (ItemModel {
                parent: match parent {
                    Some(p) => Link::Child(p),
                    None => Link::Root,
                },
                ..old(self)@
            }),
    {
        self.parent = match parent {
            Some(p) => Link::Child(p),
            None => Link::Root,
        };
    }

    /// The parent's handle, `None` for a top-level item. Fails with
    /// `MissingParent` exactly when the item is detached.
    pub fn get_parent(&self) -> (parent: Result<Option<usize>, SyncError>)
        ensures
            parent == Self::parent_of(self@.parent),
    {
        match self.parent {
            Link::Root => Ok(None),
            Link::Child(p) => Ok(Some(p)),
            Link::Detached => Err(SyncError::MissingParent),
        }
    }

    /// What [`LocalItem::get_parent`] answers for each link.
    pub open spec fn parent_of(link: Link) -> Result<Option<usize>, SyncError> {
        match link {
            Link::Root => Ok(None),
            Link::Child(p) => Ok(Some(p)),
            Link::Detached => Err(SyncError::MissingParent),
        }
    }

    /// The item's link as it stands.
    pub fn link(&self) -> (link: Link)
        ensures
            link == self@.parent,
    {
        self.parent
    }

    /// A copy of the item.
    pub fn duplicate(&self) -> (copy: Self)
        ensures
            copy@ == self@,
    {
        LocalItem {
            id: self.id,
            name: self.name.clone(),
            timestamp: self.timestamp,
            is_regular_file: self.is_regular_file,
            parent: self.parent,
        }
    }

    pub(crate) fn set_link(&mut self, link: Link)
        ensures
            final(self)@ == (ItemModel { parent: link, ..old(self)@ }),
    {
        self.parent = link;
    }

    pub(crate) fn set_timestamp(&mut self, timestamp: u64)
        ensures
            final(self)@ == (ItemModel { timestamp, ..old(self)@ }),
    {
        self.timestamp = timestamp;
    }
}

impl Item for LocalItem {
    open spec fn item_id(&self) -> u64 {
        self@.id
    }

    open spec fn item_name(&self) -> Seq<char> {
        self@.name
    }

    open spec fn item_timestamp(&self) -> u64 {
        self@.timestamp
    }

    open spec fn item_is_regular_file(&self) -> bool {
        self@.is_regular_file
    }

    fn id(&self) -> (id: u64) {
        self.id
    }

    fn name(&self) -> (name: &String) {
        &self.name
    }

    fn timestamp(&self) -> (timestamp: u64) {
        self.timestamp
    }

    fn is_regular_file(&self) -> (is_file: bool) {
        self.is_regular_file
    }
}

/// One entry of the remote listing. It names its parent by identity, as the
/// remote store reports it.
#[derive(Debug)]
pub struct RemoteItem {
    id: u64,
    name: String,
    timestamp: u64,
    is_regular_file: bool,
    parent_item: Option<u64>,
}

impl View for RemoteItem {
    type V = RemoteModel;

    closed spec fn view(&self) -> RemoteModel {
        RemoteModel {
            id: self.id,
            name: self.name@,
            timestamp: self.timestamp,
            is_regular_file: self.is_regular_file,
            parent: self.parent_item,
        }
    }
}

impl RemoteItem {
    /// An entry of the remote listing (`parent`: identity of its directory, `None` at the top level).
    pub fn new(id: u64, parent: Option<u64>, name: String, timestamp: u64, is_regular_file: bool) -> (item: Self)
        ensures
            item@ == (RemoteModel { id, name: name@, timestamp, is_regular_file, parent }),
    {
        RemoteItem { id, name, timestamp, is_regular_file, parent_item: parent }
    }

    /// Identity of the parent directory, `None` for a top-level item.
    pub fn get_parent(&self) -> (parent: Option<u64>)
        ensures
            parent == self@.parent,
    {
        self.parent_item
    }

    /// Changes the identity of the parent directory.
    pub fn set_parent(&mut self, parent: Option<u64>)
        ensures
            final(self)@ == (RemoteModel { parent, ..old(self)@ }),
    {
        self.parent_item = parent;
    }

    /// A copy of the item.
    pub fn duplicate(&self) -> (copy: Self)
        ensures
            copy@ == self@,
    {
        RemoteItem {
            id: self.id,
            name: self.name.clone(),
            timestamp: self.timestamp,
            is_regular_file: self.is_regular_file,
            parent_item: self.parent_item,
        }
    }
}

impl Item for RemoteItem {
    open spec fn item_id(&self) -> u64 {
        self@.id
    }

    open spec fn item_name(&self) -> Seq<char> {
        self@.name
    }

    open spec fn item_timestamp(&self) -> u64 {
        self@.timestamp
    }

    open spec fn item_is_regular_file(&self) -> bool {
        self@.is_regular_file
    }

    fn id(&self) -> (id: u64) {
        self.id
    }

    fn name(&self) -> (name: &String) {
        &self.name
    }

    fn timestamp(&self) -> (timestamp: u64) {
        self.timestamp
    }

    fn is_regular_file(&self) -> (is_file: bool) {
        self.is_regular_file
    }
}

} // verus!
