use vstd::prelude::*;
use std::collections::HashSet;
use crate::diff::{actions_of, handle_of, Diff, Observation};
use crate::error::SyncError;
use crate::filesystem::Filesystem;
use crate::item::Item;
use crate::repository::{RepoModel, Repository};
use crate::tree::{lemma_lookup_finds_linked, segments, TreeModel};

verus! {

/// What a lookup found. A lookup that fails counts as one that found nothing.
pub open spec fn found<H>(r: Result<Option<H>, SyncError>) -> Option<H> {
    match r {
        Ok(Some(h)) => Some(h),
        _ => None,
    }
}

/// Some observation of `observations` holds the remote item of identity `r`.
pub open spec fn remote_seen(observations: Seq<Observation>, r: u64) -> bool {
    exists|k: int|
        0 <= k < observations.len() && handle_of((#[trigger] observations[k]).remote) == Some(r)
}

impl RepoModel {
    /// A local item with the time it bears.
    pub open spec fn sighting(t: TreeModel, h: Option<usize>) -> Option<(usize, u64)> {
        match h {
            Some(x) => Some((x, t.items[x as int].timestamp)),
            None => None,
        }
    }

    /// A remote item with the time it bears; nothing for an identity without item.
    pub open spec fn remote_sighting(self, r: Option<u64>) -> Option<(u64, u64)> {
        match r {
            Some(id) => if self.remote.items.contains_key(id) {
                Some((id, self.remote.items[id].timestamp))
            } else {
                None
            },
            None => None,
        }
    }

    /// What the three views hold of the baseline item `b`: the scanned item at
    /// the same path, and the remote item of the identity that the baseline
    /// recorded. Nothing for an item that is not linked to the top level.
    pub open spec fn tracked_observation(self, b: usize) -> Option<Observation> {
        match self.baseline.path_of(b) {
            Err(_) => None,
            Ok(path) => Some(
                Observation {
                    local: Some((b, self.baseline.items[b as int].timestamp)),
                    scanned: Self::sighting(self.local, found(self.local.find(path))),
                    remote: self.remote_sighting(Some(self.baseline.items[b as int].id)),
                },
            ),
        }
    }

    /// What the views hold of the scanned item `s`, if the baseline holds no
    /// item at its path: the remote item at the same path. Nothing for an item
    /// that is not linked to the top level, or that the baseline tracks.
    pub open spec fn untracked_observation(self, s: usize) -> Option<Observation> {
        match self.local.path_of(s) {
            Err(_) => None,
            Ok(path) => if found(self.baseline.find(path)) is Some {
                None
            } else {
                Some(
                    Observation {
                        local: None,
                        scanned: Some((s, self.local.items[s as int].timestamp)),
                        remote: self.remote_sighting(
                            found(self.remote.lookup(self.remote.roots, path)),
                        ),
                    },
                )
            },
        }
    }

    /// What the views hold of the `k`-th remote item, if no observation of
    /// `seen` holds it already.
    pub open spec fn remote_only_observation(self, seen: Seq<Observation>, k: int) -> Option<
        Observation,
    > {
        let r = self.remote.order[k];
        if !self.remote.items.contains_key(r) || remote_seen(seen, r) {
            None
        } else {
            Some(
                Observation {
                    local: None,
                    scanned: None,
                    remote: Some((r, self.remote.items[r].timestamp)),
                },
            )
        }
    }

    /// The observations of the first `n` baseline items.
    pub open spec fn tracked_upto(self, n: nat) -> Seq<Observation>
        decreases n,
    {
        if n == 0 {
            Seq::empty()
        } else {
            let before = self.tracked_upto((n - 1) as nat);
            match self.tracked_observation((n - 1) as usize) {
                Some(o) => before.push(o),
                None => before,
            }
        }
    }

    /// The observations of the first `n` scanned items.
    pub open spec fn untracked_upto(self, n: nat) -> Seq<Observation>
        decreases n,
    {
        if n == 0 {
            Seq::empty()
        } else {
            let before = self.untracked_upto((n - 1) as nat);
            match self.untracked_observation((n - 1) as usize) {
                Some(o) => before.push(o),
                None => before,
            }
        }
    }

    /// The observations of the first `n` remote items that `seen` does not hold.
    pub open spec fn remote_only_upto(self, seen: Seq<Observation>, n: nat) -> Seq<Observation>
        decreases n,
    {
        if n == 0 {
            Seq::empty()
        } else {
            let before = self.remote_only_upto(seen, (n - 1) as nat);
            match self.remote_only_observation(seen, n - 1) {
                Some(o) => before.push(o),
                None => before,
            }
        }
    }

    /// The observations of the items that the baseline or the local scan holds.
    pub open spec fn local_observations(self) -> Seq<Observation> {
        self.tracked_upto(self.baseline.items.len()) + self.untracked_upto(self.local.items.len())
    }

    /// Every item that one of the three views holds, joined across the views:
    /// the baseline items, joined to the local scan by path and to the remote
    /// listing by the identity they recorded; then the scanned items that the
    /// baseline does not track, joined to the remote listing by path; then the
    /// remote items that none of these holds.
    pub open spec fn observations(self) -> Seq<Observation> {
        self.local_observations() + self.remote_only_upto(
            self.local_observations(),
            self.remote.order.len(),
        )
    }
}

/// Adding an observation adds the remote item it holds to those seen.
pub proof fn lemma_remote_seen_push(observations: Seq<Observation>, o: Observation, r: u64)
    ensures
        remote_seen(observations.push(o), r) <==> remote_seen(observations, r) || handle_of(
            o.remote,
        ) == Some(r),
{
    let longer = observations.push(o);
    if remote_seen(observations, r) {
        let k = choose|k: int|
            0 <= k < observations.len() && handle_of((#[trigger] observations[k]).remote) == Some(
                r,
            );
        assert(longer[k] == observations[k]);
    }
    if handle_of(o.remote) == Some(r) {
        assert(longer[observations.len() as int] == o);
    }
    if remote_seen(longer, r) {
        let k = choose|k: int|
            0 <= k < longer.len() && handle_of((#[trigger] longer[k]).remote) == Some(r);
        if k < observations.len() {
            assert(longer[k] == observations[k]);
        }
    }
}

impl Diff {
    /// Joins the three views of a repository item by item: see
    /// [`RepoModel::observations`].
    #[verifier::loop_isolation(false)]
    pub fn observe(repo: &Repository) -> (observations: Vec<Observation>)
        requires
            repo@.wf(),
        ensures
            observations@ == repo@.observations(),
    {
        let baseline = repo.baseline();
        let local = repo.local();
        let remote = repo.remote();
        let mut observations: Vec<Observation> = Vec::new();
        let mut seen: HashSet<u64> = HashSet::new();
        let saved_items = baseline.len();
        let mut b: usize = 0;
        while b < saved_items
            invariant
                b <= saved_items,
                observations@ == repo@.tracked_upto(b as nat),
                forall|r: u64| seen@.contains(r) <==> remote_seen(observations@, r),
            decreases saved_items - b,
        {
            let ghost before = observations@;
            match baseline.path_from_root(b) {
                Err(_) => {},
                Ok(path) => {
                    let (time, id) = match baseline.item(b) {
                        Some(item) => (item.timestamp(), item.id()),
                        None => (0, 0),
                    };
                    let scanned = match local.find_from_path(&path) {
                        Ok(Some(s)) => {
                            proof {
                                lemma_lookup_finds_linked(
                                    repo@.local,
                                    repo@.local.roots,
                                    segments(path@),
                                );
                            }
                            match local.item(s) {
                                Some(item) => Some((s, item.timestamp())),
                                None => None,
                            }
                        },
                        _ => None,
                    };
                    let remote_item = match remote.find_item(id) {
                        Some(item) => Some((id, item.timestamp())),
                        None => None,
                    };
                    let observation = Observation {
                        local: Some((b, time)),
                        scanned,
                        remote: remote_item,
                    };
                    assert(repo@.tracked_observation(b) == Some(observation));
                    observations.push(observation);
                    if remote_item.is_some() {
                        seen.insert(id);
                    }
                    proof {
                        assert forall|r: u64| seen@.contains(r) <==> remote_seen(
                            observations@,
                            r,
                        ) by {
                            lemma_remote_seen_push(before, observation, r);
                        }
                    }
                },
            }
            b += 1;
        }
        let scanned_items = local.len();
        let ghost first = observations@;
        let mut s: usize = 0;
        while s < scanned_items
            invariant
                s <= scanned_items,
                first == repo@.tracked_upto(saved_items as nat),
                observations@ == first + repo@.untracked_upto(s as nat),
                forall|r: u64| seen@.contains(r) <==> remote_seen(observations@, r),
            decreases scanned_items - s,
        {
            let ghost before = observations@;
            match local.path_from_root(s) {
                Err(_) => {},
                Ok(path) => {
                    let held = match baseline.find_from_path(&path) {
                        Ok(Some(_)) => true,
                        _ => false,
                    };
                    if !held {
                        let time = match local.item(s) {
                            Some(item) => item.timestamp(),
                            None => 0,
                        };
                        let remote_item = match remote.find_from_path(&path) {
                            Ok(Some(r)) => match remote.find_item(r) {
                                Some(item) => Some((r, item.timestamp())),
                                None => None,
                            },
                            _ => None,
                        };
                        let observation = Observation {
                            local: None,
                            scanned: Some((s, time)),
                            remote: remote_item,
                        };
                        assert(repo@.untracked_observation(s) == Some(observation));
                        observations.push(observation);
                        match remote_item {
                            Some(pair) => {
                                seen.insert(pair.0);
                            },
                            None => {},
                        }
                        proof {
                            assert(observations@ =~= first + repo@.untracked_upto((s + 1) as nat));
                            assert forall|r: u64| seen@.contains(r) <==> remote_seen(
                                observations@,
                                r,
                            ) by {
                                lemma_remote_seen_push(before, observation, r);
                            }
                        }
                    }
                },
            }
            s += 1;
        }
        let ids = remote.ids();
        let ghost locals = observations@;
        assert(locals == repo@.local_observations());
        let mut k: usize = 0;
        while k < ids.len()
            invariant
                k <= ids@.len(),
                ids@ == repo@.remote.order,
                locals == repo@.local_observations(),
                observations@ == locals + repo@.remote_only_upto(locals, k as nat),
                forall|r: u64| seen@.contains(r) <==> remote_seen(locals, r),
            decreases ids@.len() - k,
        {
            let r = ids[k];
            match remote.find_item(r) {
                None => {},
                Some(item) => {
                    if !seen.contains(&r) {
                        let observation = Observation {
                            local: None,
                            scanned: None,
                            remote: Some((r, item.timestamp())),
                        };
                        assert(repo@.remote_only_observation(locals, k as int) == Some(observation));
                        observations.push(observation);
                        assert(observations@ =~= locals + repo@.remote_only_upto(
                            locals,
                            (k + 1) as nat,
                        ));
                    }
                },
            }
            k += 1;
        }
        observations
    }

    /// Compares the three views of a repository: every item that one of them
    /// holds is classified, and the items that call for an action yield one
    /// each, in the order of [`RepoModel::observations`]. No view is changed.
    pub fn from_repository(repo: &Repository) -> (diff: Self)
        requires
            repo@.wf(),
        ensures
            diff@ == actions_of(repo@.observations(), repo@.observations().len()),
    {
        let observations = Self::observe(repo);
        Self::from_observations(&observations)
    }
}

} // verus!
