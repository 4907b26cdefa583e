use vstd::prelude::*;
use crate::diff::Action;
use crate::error::SyncError;
use crate::filesystem::{path_view, Filesystem, LocalFilesystem};
use crate::item::Item;
use crate::remote::{RemoteFilesystem, RemoteIndex};
use crate::item::Link;
use crate::tree::{
    lemma_detach_wf, lemma_detached_is_not_found, lemma_track_finds, segments, TreeModel,
};

verus! {

/// The side that a conflict is settled toward.
#[derive(Clone, Copy, Debug, PartialEq, Eq, Structural)]
pub enum Side {
    /// The local version wins: it is sent to the remote store.
    Local,
    /// The remote version wins: it is fetched from the remote store.
    Remote,
}

/// The one effect on the two stores that applying an action asks for.
#[derive(Clone, Copy, Debug, PartialEq, Eq, Structural)]
pub enum Transfer {
    /// No transfer: only the baseline changes.
    Nothing,
    /// Send the scanned item with this handle to the remote store.
    Upload(usize),
    /// Fetch the remote item of this identity to the local folder.
    Download(u64),
    /// Delete the remote item of this identity.
    DeleteRemote(u64),
    /// Delete the scanned item with this handle from the local folder.
    DeleteLocal(usize),
}

/// How the transfer of one action ended.
#[derive(Clone, Copy, Debug, PartialEq, Eq, Structural)]
pub enum Outcome {
    /// The transfer failed; nothing may be recorded.
    Failed,
    /// The transfer succeeded.
    Done,
    /// The transfer succeeded and the remote store gave the new item this identity.
    Created(u64),
}

/// One action with the outcome of its transfer.
#[derive(Clone, Copy, Debug, PartialEq, Eq, Structural)]
pub struct Step {
    pub action: Action,
    pub outcome: Outcome,
}

/// The transfer that an action asks for. The push kinds send or delete on the
/// remote side, the pull kinds fetch or delete on the local side, and a
/// conflict or error kind does what the chosen side implies. Marking an
/// untracked item as tracked, and dropping an item that is gone from both
/// sides, need no transfer.
pub open spec fn transfer_of(action: Action, keep: Side) -> Transfer {
    match action {
        Action::ResyncLocal(_) => Transfer::Nothing,
        Action::RemovedOnBothSides(_) => Transfer::Nothing,
        Action::LocalUpgraded(s, _) => Transfer::Upload(s),
        Action::LocalAdded(s) => Transfer::Upload(s),
        Action::LocalRemoved(_, r) => Transfer::DeleteRemote(r),
        Action::RemoteUpgraded(_, r) => Transfer::Download(r),
        Action::RemoteAdded(r) => Transfer::Download(r),
        Action::RemoteRemoved(s) => Transfer::DeleteLocal(s),
        Action::ConflictAddLocalNewer(s, r)
        | Action::ConflictAddRemoteNewer(s, r)
        | Action::ErrorRemoteDowngraded(s, r)
        | Action::ErrorLocalDowngraded(s, r)
        | Action::ConflictBothDowngraded(s, _, r)
        | Action::ConflictBothUpgraded(s, _, r)
        | Action::ConflictLocalUpgradedRemoteDowngraded(s, _, r)
        | Action::ConflictLocalDowngradedRemoteUpgraded(s, _, r) => match keep {
            Side::Local => Transfer::Upload(s),
            Side::Remote => Transfer::Download(r),
        },
    }
}

/// The transfer that an action asks for, with conflicts settled toward `keep`.
pub fn transfer(action: &Action, keep: Side) -> (effect: Transfer)
    ensures
        effect == transfer_of(*action, keep),
{
    match action {
        Action::ResyncLocal(_) => Transfer::Nothing,
        Action::RemovedOnBothSides(_) => Transfer::Nothing,
        Action::LocalUpgraded(s, _) => Transfer::Upload(*s),
        Action::LocalAdded(s) => Transfer::Upload(*s),
        Action::LocalRemoved(_, r) => Transfer::DeleteRemote(*r),
        Action::RemoteUpgraded(_, r) => Transfer::Download(*r),
        Action::RemoteAdded(r) => Transfer::Download(*r),
        Action::RemoteRemoved(s) => Transfer::DeleteLocal(*s),
        Action::ConflictAddLocalNewer(s, r)
        | Action::ConflictAddRemoteNewer(s, r)
        | Action::ErrorRemoteDowngraded(s, r)
        | Action::ErrorLocalDowngraded(s, r)
        | Action::ConflictBothDowngraded(s, _, r)
        | Action::ConflictBothUpgraded(s, _, r)
        | Action::ConflictLocalUpgradedRemoteDowngraded(s, _, r)
        | Action::ConflictLocalDowngradedRemoteUpgraded(s, _, r) => match keep {
            Side::Local => Transfer::Upload(*s),
            Side::Remote => Transfer::Download(*r),
        },
    }
}

/// Mathematical value of a repository: the three views of the file tree.
pub struct RepoModel {
    /// The current local scan.
    pub local: TreeModel,
    /// The state that the last synchronization left.
    pub baseline: TreeModel,
    /// The current remote listing.
    pub remote: RemoteIndex,
}

impl RepoModel {
    /// Both local trees hold their invariant.
    pub open spec fn wf(self) -> bool {
        self.local.wf() && self.baseline.wf()
    }

    /// The repository with another baseline.
    pub open spec fn with_baseline(self, changed: Result<(TreeModel, usize), SyncError>) -> Result<
        RepoModel,
        SyncError,
    > {
        match changed {
            Ok(pair) => Ok(RepoModel { baseline: pair.0, ..self }),
            Err(e) => Err(e),
        }
    }

    /// The remote item that `path` leads to, if it leads to one.
    pub open spec fn counterpart(self, path: Seq<Seq<char>>) -> Option<u64> {
        match self.remote.lookup(self.remote.roots, path) {
            Ok(Some(r)) => Some(r),
            _ => None,
        }
    }

    /// The identity under which the baseline records an item that it did not
    /// hold: that of the remote item that the action carries; else the one
    /// that the remote store gave on creation; else that of the remote item at
    /// the same path; else the scanned item's own.
    pub open spec fn recorded_id(
        self,
        action: Action,
        outcome: Outcome,
        path: Seq<Seq<char>>,
        own: u64,
    ) -> u64 {
        match action.remote_of() {
            Some(r) => r,
            None => match outcome {
                Outcome::Created(id) => id,
                _ => match self.counterpart(path) {
                    Some(r) => r,
                    None => own,
                },
            },
        }
    }

    /// The repository after one action whose transfer ended as `outcome`.
    ///
    /// A failed transfer records nothing. After a successful one the baseline
    /// follows: an upload makes it hold the item with the local time, a
    /// download with the remote time, a deletion drops the item from it (and
    /// from the local scan, where the local file was deleted). Without a
    /// transfer, an untracked item becomes tracked with its local time, and an
    /// item gone from both sides is dropped.
    pub open spec fn settled(self, action: Action, keep: Side, outcome: Outcome) -> Result<
        RepoModel,
        SyncError,
    > {
        if transfer_of(action, keep) != Transfer::Nothing && outcome == Outcome::Failed {
            Err(SyncError::IoFailure)
        } else {
            match action {
                Action::RemovedOnBothSides(b) | Action::LocalRemoved(b, _) => match self.baseline.detach(
                    b,
                ) {
                    Ok(t) => Ok(RepoModel { baseline: t, ..self }),
                    Err(e) => Err(e),
                },
                Action::RemoteRemoved(s) => match self.local.path_of(s) {
                    Err(e) => Err(e),
                    Ok(path) => match self.baseline.forget(path) {
                        Err(e) => Err(e),
                        Ok(pair) => match self.local.detach(s) {
                            Err(e) => Err(e),
                            Ok(l) => Ok(RepoModel { local: l, baseline: pair.0, ..self }),
                        },
                    },
                },
                Action::RemoteAdded(r) => match self.remote.find_item(r) {
                    None => Err(SyncError::NotFound),
                    Some(item) => match self.remote.path_of(r, self.remote.items.len()) {
                        Err(e) => Err(e),
                        Ok(path) => self.with_baseline(
                            self.baseline.track(path, r, item.timestamp, item.is_regular_file),
                        ),
                    },
                },
                _ => {
                    let s = action.scanned_of()->Some_0;
                    match self.local.path_of(s) {
                        Err(e) => Err(e),
                        Ok(path) => {
                            let item = self.local.items[s as int];
                            match transfer_of(action, keep) {
                                Transfer::Download(r) => match self.remote.find_item(r) {
                                    None => Err(SyncError::NotFound),
                                    Some(remote) => self.with_baseline(
                                        self.baseline.track(
                                            path,
                                            r,
                                            remote.timestamp,
                                            item.is_regular_file,
                                        ),
                                    ),
                                },
                                _ => self.with_baseline(
                                    self.baseline.track(
                                        path,
                                        self.recorded_id(action, outcome, path, item.id),
                                        item.timestamp,
                                        item.is_regular_file,
                                    ),
                                ),
                            }
                        },
                    }
                },
            }
        }
    }
}

/// The repository after the first `n` steps, with the result of each of them.
/// A step that fails leaves the repository as it was and does not stop the
/// steps after it.
pub open spec fn applied(repo: RepoModel, steps: Seq<Step>, keep: Side, n: nat) -> (
    RepoModel,
    Seq<Result<(), SyncError>>,
)
    decreases n,
{
    if n == 0 {
        (repo, Seq::empty())
    } else {
        let before = applied(repo, steps, keep, (n - 1) as nat);
        match before.0.settled(steps[n - 1].action, keep, steps[n - 1].outcome) {
            Ok(after) => (after, before.1.push(Ok(()))),
            Err(e) => (before.0, before.1.push(Err(e))),
        }
    }
}

/// The three views of one synchronized folder, and the applier that advances
/// the baseline.
#[derive(Debug)]
pub struct Repository {
    local: LocalFilesystem,
    baseline: LocalFilesystem,
    remote: RemoteFilesystem,
}

impl View for Repository {
    type V = RepoModel;

    closed spec fn view(&self) -> RepoModel {
        RepoModel { local: self.local@, baseline: self.baseline@, remote: self.remote@ }
    }
}

impl Repository {
    /// A repository over the current local scan, the saved baseline and the
    /// current remote listing.
    pub fn new(local: LocalFilesystem, baseline: LocalFilesystem, remote: RemoteFilesystem) -> (repo:
        Self)
        ensures
            repo@ == (RepoModel { local: local@, baseline: baseline@, remote: remote@ }),
    {
        Repository { local, baseline, remote }
    }

    /// The current local scan.
    pub fn local(&self) -> (local: &LocalFilesystem)
        ensures
            local@ == self@.local,
    {
        &self.local
    }

    /// The baseline.
    pub fn baseline(&self) -> (baseline: &LocalFilesystem)
        ensures
            baseline@ == self@.baseline,
    {
        &self.baseline
    }

    /// The current remote listing.
    pub fn remote(&self) -> (remote: &RemoteFilesystem)
        ensures
            remote@ == self@.remote,
    {
        &self.remote
    }

    /// Gives the three views back.
    pub fn into_parts(self) -> (parts: (LocalFilesystem, LocalFilesystem, RemoteFilesystem))
        ensures
            parts.0@ == self@.local,
            parts.1@ == self@.baseline,
            parts.2@ == self@.remote,
    {
        (self.local, self.baseline, self.remote)
    }

    /// The identity under which the baseline records a new item.
    fn recorded_id(&self, action: &Action, outcome: Outcome, path: &Vec<String>, own: u64) -> (id:
        u64)
        ensures
            id == self@.recorded_id(*action, outcome, segments(path@), own),
    {
        match action.remote() {
            Some(r) => r,
            None => match outcome {
                Outcome::Created(id) => id,
                _ => match self.remote.find_from_path(path) {
                    Ok(Some(r)) => r,
                    _ => own,
                },
            },
        }
    }

    /// Records one action whose transfer ended as `outcome`: see
    /// [`RepoModel::settled`]. Fails with `IoFailure` for a failed transfer,
    /// and as the path computation or the change of the baseline fails. A
    /// failure leaves all three views as they were.
    pub fn settle(&mut self, action: &Action, keep: Side, outcome: Outcome) -> (settled: Result<
        (),
        SyncError,
    >)
        requires
            old(self)@.wf(),
        ensures
            final(self)@.wf(),
            match settled {
                Ok(()) => old(self)@.settled(*action, keep, outcome) == Ok::<RepoModel, SyncError>(
                    final(self)@,
                ),
                Err(e) => old(self)@.settled(*action, keep, outcome) == Err::<RepoModel, SyncError>(
                    e,
                ) && final(self)@ == old(self)@,
            },
    {
        let effect = transfer(action, keep);
        if effect != Transfer::Nothing && outcome == Outcome::Failed {
            return Err(SyncError::IoFailure);
        }
        match action {
            Action::RemovedOnBothSides(b) | Action::LocalRemoved(b, _) => {
                self.baseline.remove_item(*b)
            },
            Action::RemoteRemoved(s) => {
                let path = match self.local.path_from_root(*s) {
                    Ok(path) => path,
                    Err(e) => {
                        return Err(e);
                    },
                };
                match self.baseline.forget(&path) {
                    Ok(_) => {},
                    Err(e) => {
                        return Err(e);
                    },
                }
                match self.local.remove_item(*s) {
                    Ok(()) => Ok(()),
                    Err(e) => {
                        proof {
                            lemma_attached_detaches(old(self)@.local, *s);
                        }
                        Err(e)
                    },
                }
            },
            Action::RemoteAdded(r) => {
                let (timestamp, is_regular_file) = match self.remote.find_item(*r) {
                    None => {
                        return Err(SyncError::NotFound);
                    },
                    Some(item) => (item.timestamp(), item.is_regular_file()),
                };
                let path = match self.remote.path_from_root(*r) {
                    Ok(path) => path,
                    Err(e) => {
                        return Err(e);
                    },
                };
                match self.baseline.track(&path, *r, timestamp, is_regular_file) {
                    Ok(_) => Ok(()),
                    Err(e) => Err(e),
                }
            },
            _ => {
                let s = action.scanned().unwrap();
                let path = match self.local.path_from_root(s) {
                    Ok(path) => path,
                    Err(e) => {
                        return Err(e);
                    },
                };
                let (own, local_time, is_regular_file) = match self.local.item(s) {
                    Some(item) => (item.id(), item.timestamp(), item.is_regular_file()),
                    None => {
                        return Err(SyncError::NotFound);
                    },
                };
                match effect {
                    Transfer::Download(r) => {
                        let remote_time = match self.remote.find_item(r) {
                            None => {
                                return Err(SyncError::NotFound);
                            },
                            Some(item) => item.timestamp(),
                        };
                        match self.baseline.track(&path, r, remote_time, is_regular_file) {
                            Ok(_) => Ok(()),
                            Err(e) => Err(e),
                        }
                    },
                    _ => {
                        let id = self.recorded_id(action, outcome, &path, own);
                        match self.baseline.track(&path, id, local_time, is_regular_file) {
                            Ok(_) => Ok(()),
                            Err(e) => Err(e),
                        }
                    },
                }
            },
        }
    }

    /// Records the steps one after the other and returns the result of each.
    /// A step that fails changes nothing, and the steps after it still run.
    pub fn apply_actions(&mut self, steps: &Vec<Step>, keep: Side) -> (results: Vec<
        Result<(), SyncError>,
    >)
        requires
            old(self)@.wf(),
        ensures
            final(self)@.wf(),
            final(self)@ == applied(old(self)@, steps@, keep, steps@.len()).0,
            results@ == applied(old(self)@, steps@, keep, steps@.len()).1,
            steps@.len() == 0 ==> final(self)@ == old(self)@,
    {
        let mut results: Vec<Result<(), SyncError>> = Vec::new();
        let mut i: usize = 0;
        while i < steps.len()
            invariant
                i <= steps@.len(),
                self@.wf(),
                self@ == applied(old(self)@, steps@, keep, i as nat).0,
                results@ == applied(old(self)@, steps@, keep, i as nat).1,
            decreases steps@.len() - i,
        {
            let step = &steps[i];
            let ghost before = applied(old(self)@, steps@, keep, i as nat);
            let ghost given = results@;
            let result = self.settle(&step.action, keep, step.outcome);
            results.push(result);
            proof {
                let after = applied(old(self)@, steps@, keep, (i + 1) as nat);
                assert(steps@[i as int] == *step);
                assert(results@ == given.push(result));
                match result {
                    Ok(unit) => {
                        assert(unit == ());
                    },
                    Err(e) => {},
                }
                assert(after.1 == results@);
            }
            i += 1;
        }
        results
    }
}

/// An item that is linked to the top level can be unlinked.
pub proof fn lemma_attached_detaches(t: TreeModel, h: usize)
    requires
        t.attached(h),
    ensures
        t.detach(h) is Ok,
{
}

/// Applying the empty list of steps changes nothing: the local scan, the
/// baseline and the remote listing stay as they are, and no result is given.
pub proof fn lemma_empty_list_changes_nothing(repo: RepoModel, steps: Seq<Step>, keep: Side)
    ensures
        applied(repo, steps, keep, 0) == (repo, Seq::<Result<(), SyncError>>::empty()),
{
}

/// A step whose transfer failed records nothing, whatever the action.
pub proof fn lemma_failed_transfer_records_nothing(repo: RepoModel, action: Action, keep: Side)
    requires
        transfer_of(action, keep) != Transfer::Nothing,
    ensures
        repo.settled(action, keep, Outcome::Failed) == Err::<RepoModel, SyncError>(
            SyncError::IoFailure,
        ),
{
}

/// Applying "local upgraded" sends the scanned item, leaves the local scan and
/// the remote listing untouched, and makes the baseline hold the item, at the
/// scanned item's path, with the scanned item's modification time. Where the
/// baseline already held an item at that path, nothing but that item's time
/// changes.
pub proof fn lemma_local_upgraded_advances_baseline(
    repo: RepoModel,
    scanned: usize,
    remote: u64,
    keep: Side,
    outcome: Outcome,
)
    requires
        repo.wf(),
        repo.baseline.items.len() < usize::MAX,
        repo.settled(Action::LocalUpgraded(scanned, remote), keep, outcome) is Ok,
    ensures
        transfer_of(Action::LocalUpgraded(scanned, remote), keep) == Transfer::Upload(scanned),
        repo.local.path_of(scanned) is Ok,
        ({
            let after = repo.settled(Action::LocalUpgraded(scanned, remote), keep, outcome)->Ok_0;
            let path = repo.local.path_of(scanned)->Ok_0;
            let time = repo.local.items[scanned as int].timestamp;
            let kind = repo.local.items[scanned as int].is_regular_file;
            &&& after.local == repo.local
            &&& after.remote == repo.remote
            &&& repo.baseline.track(path, remote, time, kind) matches Ok(kept)
            &&& after.baseline == kept.0
            &&& after.baseline.wf()
            &&& after.baseline.find(path) == Ok::<Option<usize>, SyncError>(Some(kept.1))
            &&& kept.1 < after.baseline.items.len()
            &&& after.baseline.items[kept.1 as int].timestamp == time
            &&& repo.baseline.find(path) matches Ok(Some(held)) ==> kept.1 == held
                && after.baseline == repo.baseline.touch(held, time)
        }),
{
    let path = repo.local.path_of(scanned)->Ok_0;
    let time = repo.local.items[scanned as int].timestamp;
    let kind = repo.local.items[scanned as int].is_regular_file;
    lemma_track_finds(repo.baseline, path, remote, time, kind);
}

/// Applying "resync local" asks for no transfer, whatever side conflicts are
/// settled toward and whatever outcome is reported, leaves the local scan and
/// the remote listing untouched, and makes the baseline hold the item, at the
/// scanned item's path, with the scanned item's modification time.
pub proof fn lemma_resync_local_only_touches_baseline(
    repo: RepoModel,
    scanned: usize,
    keep: Side,
    outcome: Outcome,
)
    requires
        repo.wf(),
        repo.baseline.items.len() < usize::MAX,
        repo.settled(Action::ResyncLocal(scanned), keep, outcome) is Ok,
    ensures
        transfer_of(Action::ResyncLocal(scanned), keep) == Transfer::Nothing,
        repo.local.path_of(scanned) is Ok,
        ({
            let after = repo.settled(Action::ResyncLocal(scanned), keep, outcome)->Ok_0;
            let path = repo.local.path_of(scanned)->Ok_0;
            &&& after.local == repo.local
            &&& after.remote == repo.remote
            &&& after.baseline.wf()
            &&& after.baseline.find(path) matches Ok(Some(held))
            &&& held < after.baseline.items.len()
            &&& after.baseline.items[held as int].timestamp
                == repo.local.items[scanned as int].timestamp
        }),
{
    let path = repo.local.path_of(scanned)->Ok_0;
    let item = repo.local.items[scanned as int];
    let id = repo.recorded_id(Action::ResyncLocal(scanned), outcome, path, item.id);
    lemma_track_finds(repo.baseline, path, id, item.timestamp, item.is_regular_file);
}

/// Applying "removed on both sides" asks for no transfer, whatever side
/// conflicts are settled toward and whatever outcome is reported, and drops
/// the item from the baseline: the item is detached, so that it has no path
/// and no path leads to it. The local scan and the remote listing stay as
/// they are.
pub proof fn lemma_removed_on_both_sides_only_touches_baseline(
    repo: RepoModel,
    local: usize,
    keep: Side,
    outcome: Outcome,
    path: Seq<Seq<char>>,
)
    requires
        repo.wf(),
        repo.settled(Action::RemovedOnBothSides(local), keep, outcome) is Ok,
    ensures
        transfer_of(Action::RemovedOnBothSides(local), keep) == Transfer::Nothing,
        ({
            let after = repo.settled(Action::RemovedOnBothSides(local), keep, outcome)->Ok_0;
            &&& after.local == repo.local
            &&& after.remote == repo.remote
            &&& repo.baseline.detach(local) == Ok::<TreeModel, SyncError>(after.baseline)
            &&& after.baseline.wf()
            &&& after.baseline.items[local as int].parent == Link::Detached
            &&& after.baseline.path_of(local) is Err
            &&& after.baseline.find(path) != Ok::<Option<usize>, SyncError>(Some(local))
        }),
{
    let after = repo.settled(Action::RemovedOnBothSides(local), keep, outcome)->Ok_0;
    lemma_detach_wf(repo.baseline, local);
    lemma_detached_is_not_found(after.baseline, local, path);
}

} // verus!
