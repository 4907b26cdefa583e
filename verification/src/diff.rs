use vstd::prelude::*;

verus! {

/// How a current modification time stands to the time that the baseline holds.
#[derive(Clone, Copy, Debug, PartialEq, Eq, Structural)]
pub enum Change {
    /// The same instant. Equal times always count as "no change": an edit that
    /// lands on the very instant the baseline holds goes unnoticed.
    Unchanged,
    /// Strictly newer than the baseline.
    Upgraded,
    /// Strictly older than the baseline.
    Downgraded,
}

/// The sixteen outcomes of comparing one item across the local scan, the
/// baseline and the remote listing.
#[derive(Clone, Copy, Debug, PartialEq, Eq, Structural)]
pub enum ActionKind {
    /// Untracked, present on both sides with the same time.
    ResyncLocal,
    /// Untracked, present on both sides, local newer.
    ConflictAddLocalNewer,
    /// Local as in the baseline, remote older than the baseline.
    ErrorRemoteDowngraded,
    /// Local newer than the baseline, remote as in the baseline.
    LocalUpgraded,
    /// Both sides older than the baseline.
    ConflictBothDowngraded,
    /// Both sides newer than the baseline.
    ConflictBothUpgraded,
    /// Local newer, remote older than the baseline.
    ConflictLocalUpgradedRemoteDowngraded,
    /// Untracked, present on both sides, remote newer.
    ConflictAddRemoteNewer,
    /// Local as in the baseline, remote newer than the baseline.
    RemoteUpgraded,
    /// Local older than the baseline, remote as in the baseline.
    ErrorLocalDowngraded,
    /// Local older, remote newer than the baseline.
    ConflictLocalDowngradedRemoteUpgraded,
    /// Tracked, local as in the baseline, gone from the remote side.
    RemoteRemoved,
    /// Untracked, present on the local side only.
    LocalAdded,
    /// Tracked, remote as in the baseline, gone from the local side.
    LocalRemoved,
    /// Untracked, present on the remote side only.
    RemoteAdded,
    /// Tracked and gone from both sides.
    RemovedOnBothSides,
}

/// How `time` stands to `baseline`.
pub open spec fn change_of(time: u64, baseline: u64) -> Change {
    if time > baseline {
        Change::Upgraded
    } else if time < baseline {
        Change::Downgraded
    } else {
        Change::Unchanged
    }
}

/// How `time` stands to `baseline`.
pub fn change(time: u64, baseline: u64) -> (c: Change)
    ensures
        c == change_of(time, baseline),
{
    if time > baseline {
        Change::Upgraded
    } else if time < baseline {
        Change::Downgraded
    } else {
        Change::Unchanged
    }
}

impl ActionKind {
    /// Both sides changed on their own, in a way that cannot be settled without a decision.
    pub open spec fn is_conflict_spec(self) -> bool {
        self == ActionKind::ConflictAddLocalNewer || self == ActionKind::ConflictAddRemoteNewer
            || self == ActionKind::ConflictBothDowngraded || self
            == ActionKind::ConflictBothUpgraded || self
            == ActionKind::ConflictLocalUpgradedRemoteDowngraded || self
            == ActionKind::ConflictLocalDowngradedRemoteUpgraded
    }

    /// One side went back to an older version while the other stood still.
    pub open spec fn is_error_spec(self) -> bool {
        self == ActionKind::ErrorRemoteDowngraded || self == ActionKind::ErrorLocalDowngraded
    }

    /// `true` for the six conflict kinds.
    pub fn is_conflict(&self) -> (conflict: bool)
        ensures
            conflict == self.is_conflict_spec(),
    {
        match self {
            ActionKind::ConflictAddLocalNewer
            | ActionKind::ConflictAddRemoteNewer
            | ActionKind::ConflictBothDowngraded
            | ActionKind::ConflictBothUpgraded
            | ActionKind::ConflictLocalUpgradedRemoteDowngraded
            | ActionKind::ConflictLocalDowngradedRemoteUpgraded => true,
            _ => false,
        }
    }

    /// `true` for the two error kinds.
    pub fn is_error(&self) -> (error: bool)
        ensures
            error == self.is_error_spec(),
    {
        match self {
            ActionKind::ErrorRemoteDowngraded | ActionKind::ErrorLocalDowngraded => true,
            _ => false,
        }
    }
}

/// The row of the classification table that yields `kind`: which of the three
/// views must hold the item, and how the times it bears must stand to each
/// other.
pub open spec fn row(kind: ActionKind, baseline: Option<u64>, local: Option<u64>, remote: Option<u64>) -> bool {
    match kind {
        ActionKind::ConflictAddLocalNewer => baseline is None && local is Some && remote is Some
            && local->Some_0 > remote->Some_0,
        ActionKind::ConflictAddRemoteNewer => baseline is None && local is Some && remote is Some
            && remote->Some_0 > local->Some_0,
        ActionKind::ResyncLocal => baseline is None && local is Some && remote is Some
            && local->Some_0 == remote->Some_0,
        ActionKind::LocalAdded => baseline is None && local is Some && remote is None,
        ActionKind::RemoteAdded => baseline is None && local is None && remote is Some,
        ActionKind::ErrorRemoteDowngraded => baseline is Some && local is Some && remote is Some
            && local->Some_0 == baseline->Some_0 && remote->Some_0 < baseline->Some_0,
        ActionKind::RemoteUpgraded => baseline is Some && local is Some && remote is Some
            && local->Some_0 == baseline->Some_0 && remote->Some_0 > baseline->Some_0,
        ActionKind::LocalUpgraded => baseline is Some && local is Some && remote is Some
            && local->Some_0 > baseline->Some_0 && remote->Some_0 == baseline->Some_0,
        ActionKind::ErrorLocalDowngraded => baseline is Some && local is Some && remote is Some
            && local->Some_0 < baseline->Some_0 && remote->Some_0 == baseline->Some_0,
        ActionKind::ConflictBothDowngraded => baseline is Some && local is Some && remote is Some
            && local->Some_0 < baseline->Some_0 && remote->Some_0 < baseline->Some_0,
        ActionKind::ConflictBothUpgraded => baseline is Some && local is Some && remote is Some
            && local->Some_0 > baseline->Some_0 && remote->Some_0 > baseline->Some_0,
        ActionKind::ConflictLocalUpgradedRemoteDowngraded => baseline is Some && local is Some
            && remote is Some && local->Some_0 > baseline->Some_0 && remote->Some_0
            < baseline->Some_0,
        ActionKind::ConflictLocalDowngradedRemoteUpgraded => baseline is Some && local is Some
            && remote is Some && local->Some_0 < baseline->Some_0 && remote->Some_0
            > baseline->Some_0,
        ActionKind::LocalRemoved => baseline is Some && local is None && remote is Some
            && remote->Some_0 == baseline->Some_0,
        ActionKind::RemoteRemoved => baseline is Some && local is Some && remote is None
            && local->Some_0 == baseline->Some_0,
        ActionKind::RemovedOnBothSides => baseline is Some && local is None && remote is None,
    }
}

/// The combination is one that the classification table lists.
pub open spec fn in_table(baseline: Option<u64>, local: Option<u64>, remote: Option<u64>) -> bool {
    exists|kind: ActionKind| row(kind, baseline, local, remote)
}

/// The classification of one item, from the modification time it bears in each
/// of the three views (`None`: the view does not hold it).
///
/// The answer is `None` for the combinations that the table does not list: an
/// item that no view holds, an item that bears the same time in all three
/// views, and a tracked item that is gone from one side and changed on the
/// other.
pub open spec fn classification(baseline: Option<u64>, local: Option<u64>, remote: Option<u64>) -> Option<
    ActionKind,
> {
    match (baseline, local, remote) {
        (None, None, None) => None,
        (None, Some(_), None) => Some(ActionKind::LocalAdded),
        (None, None, Some(_)) => Some(ActionKind::RemoteAdded),
        (None, Some(l), Some(r)) => Some(
            if l > r {
                ActionKind::ConflictAddLocalNewer
            } else if r > l {
                ActionKind::ConflictAddRemoteNewer
            } else {
                ActionKind::ResyncLocal
            },
        ),
        (Some(_), None, None) => Some(ActionKind::RemovedOnBothSides),
        (Some(b), None, Some(r)) => if r == b {
            Some(ActionKind::LocalRemoved)
        } else {
            None
        },
        (Some(b), Some(l), None) => if l == b {
            Some(ActionKind::RemoteRemoved)
        } else {
            None
        },
        (Some(b), Some(l), Some(r)) => match (change_of(l, b), change_of(r, b)) {
            (Change::Unchanged, Change::Unchanged) => None,
            (Change::Unchanged, Change::Downgraded) => Some(ActionKind::ErrorRemoteDowngraded),
            (Change::Unchanged, Change::Upgraded) => Some(ActionKind::RemoteUpgraded),
            (Change::Upgraded, Change::Unchanged) => Some(ActionKind::LocalUpgraded),
            (Change::Downgraded, Change::Unchanged) => Some(ActionKind::ErrorLocalDowngraded),
            (Change::Downgraded, Change::Downgraded) => Some(ActionKind::ConflictBothDowngraded),
            (Change::Upgraded, Change::Upgraded) => Some(ActionKind::ConflictBothUpgraded),
            (Change::Upgraded, Change::Downgraded) => Some(
                ActionKind::ConflictLocalUpgradedRemoteDowngraded,
            ),
            (Change::Downgraded, Change::Upgraded) => Some(
                ActionKind::ConflictLocalDowngradedRemoteUpgraded,
            ),
        },
    }
}

/// Classifies one item from the modification time it bears in the baseline, in
/// the local scan and in the remote listing (`None`: not held there).
pub fn classify(baseline: Option<u64>, local: Option<u64>, remote: Option<u64>) -> (kind: Option<
    ActionKind,
>)
    ensures
        kind == classification(baseline, local, remote),
{
    match baseline {
        None => match local {
            None => match remote {
                None => None,
                Some(_) => Some(ActionKind::RemoteAdded),
            },
            Some(l) => match remote {
                None => Some(ActionKind::LocalAdded),
                Some(r) => if l > r {
                    Some(ActionKind::ConflictAddLocalNewer)
                } else if r > l {
                    Some(ActionKind::ConflictAddRemoteNewer)
                } else {
                    Some(ActionKind::ResyncLocal)
                },
            },
        },
        Some(b) => match local {
            None => match remote {
                None => Some(ActionKind::RemovedOnBothSides),
                Some(r) => if r == b {
                    Some(ActionKind::LocalRemoved)
                } else {
                    None
                },
            },
            Some(l) => match remote {
                None => if l == b {
                    Some(ActionKind::RemoteRemoved)
                } else {
                    None
                },
                Some(r) => {
                    let local_change = change(l, b);
                    let remote_change = change(r, b);
                    match local_change {
                        Change::Unchanged => match remote_change {
                            Change::Unchanged => None,
                            Change::Downgraded => Some(ActionKind::ErrorRemoteDowngraded),
                            Change::Upgraded => Some(ActionKind::RemoteUpgraded),
                        },
                        Change::Upgraded => match remote_change {
                            Change::Unchanged => Some(ActionKind::LocalUpgraded),
                            Change::Downgraded => Some(
                                ActionKind::ConflictLocalUpgradedRemoteDowngraded,
                            ),
                            Change::Upgraded => Some(ActionKind::ConflictBothUpgraded),
                        },
                        Change::Downgraded => match remote_change {
                            Change::Unchanged => Some(ActionKind::ErrorLocalDowngraded),
                            Change::Downgraded => Some(ActionKind::ConflictBothDowngraded),
                            Change::Upgraded => Some(
                                ActionKind::ConflictLocalDowngradedRemoteUpgraded,
                            ),
                        },
                    }
                },
            },
        },
    }
}

/// No combination falls under two rows of the table.
pub proof fn lemma_rows_exclusive(
    first: ActionKind,
    second: ActionKind,
    baseline: Option<u64>,
    local: Option<u64>,
    remote: Option<u64>,
)
    requires
        row(first, baseline, local, remote),
        row(second, baseline, local, remote),
    ensures
        first == second,
{
}

/// The classification is the table: a kind is the answer exactly for the
/// combinations of its row. So every combination that the table lists gets
/// one kind and no other, and a combination that it does not list gets none.
pub proof fn lemma_classification_is_table(
    kind: ActionKind,
    baseline: Option<u64>,
    local: Option<u64>,
    remote: Option<u64>,
)
    ensures
        classification(baseline, local, remote) == Some(kind) <==> row(
            kind,
            baseline,
            local,
            remote,
        ),
        classification(baseline, local, remote) is Some <==> in_table(baseline, local, remote),
{
    match classification(baseline, local, remote) {
        Some(k) => {
            assert(row(k, baseline, local, remote));
        },
        None => {
            assert forall|k: ActionKind| !row(k, baseline, local, remote) by {}
        },
    }
}

/// The combinations that the table leaves out.
pub proof fn lemma_unlisted_combinations(baseline: Option<u64>, local: Option<u64>, remote: Option<u64>)
    ensures
        classification(baseline, local, remote) is None <==> {
            ||| (baseline is None && local is None && remote is None)
            ||| (baseline is Some && local == baseline && remote == baseline)
            ||| (baseline is Some && local is None && remote is Some && remote != baseline)
            ||| (baseline is Some && remote is None && local is Some && local != baseline)
        },
{
}

/// Equal modification times never yield a conflict or an error: where every
/// view that holds the item bears the same time, the answer is neither.
pub proof fn lemma_equal_times_are_quiet(
    baseline: Option<u64>,
    local: Option<u64>,
    remote: Option<u64>,
    time: u64,
)
    requires
        baseline is Some ==> baseline == Some(time),
        local is Some ==> local == Some(time),
        remote is Some ==> remote == Some(time),
    ensures
        classification(baseline, local, remote) matches Some(kind) ==> !kind.is_conflict_spec()
            && !kind.is_error_spec(),
{
}

/// One classified item, with the handles of the items it concerns: `scanned`
/// is the item of the current local scan, `local` the item of the baseline,
/// `remote` the identity of the item of the remote listing.
#[derive(Clone, Copy, Debug, PartialEq, Eq, Structural)]
pub enum Action {
    ResyncLocal(usize),
    ConflictAddLocalNewer(usize, u64),
    ErrorRemoteDowngraded(usize, u64),
    LocalUpgraded(usize, u64),
    ConflictBothDowngraded(usize, usize, u64),
    ConflictBothUpgraded(usize, usize, u64),
    ConflictLocalUpgradedRemoteDowngraded(usize, usize, u64),
    ConflictAddRemoteNewer(usize, u64),
    RemoteUpgraded(usize, u64),
    ErrorLocalDowngraded(usize, u64),
    ConflictLocalDowngradedRemoteUpgraded(usize, usize, u64),
    RemoteRemoved(usize),
    LocalAdded(usize),
    LocalRemoved(usize, u64),
    RemoteAdded(u64),
    RemovedOnBothSides(usize),
}

impl Action {
    /// The classification that the action stands for.
    pub open spec fn kind_of(self) -> ActionKind {
        match self {
            Action::ResyncLocal(_) => ActionKind::ResyncLocal,
            Action::ConflictAddLocalNewer(_, _) => ActionKind::ConflictAddLocalNewer,
            Action::ErrorRemoteDowngraded(_, _) => ActionKind::ErrorRemoteDowngraded,
            Action::LocalUpgraded(_, _) => ActionKind::LocalUpgraded,
            Action::ConflictBothDowngraded(_, _, _) => ActionKind::ConflictBothDowngraded,
            Action::ConflictBothUpgraded(_, _, _) => ActionKind::ConflictBothUpgraded,
            Action::ConflictLocalUpgradedRemoteDowngraded(_, _, _) => {
                ActionKind::ConflictLocalUpgradedRemoteDowngraded
            },
            Action::ConflictAddRemoteNewer(_, _) => ActionKind::ConflictAddRemoteNewer,
            Action::RemoteUpgraded(_, _) => ActionKind::RemoteUpgraded,
            Action::ErrorLocalDowngraded(_, _) => ActionKind::ErrorLocalDowngraded,
            Action::ConflictLocalDowngradedRemoteUpgraded(_, _, _) => {
                ActionKind::ConflictLocalDowngradedRemoteUpgraded
            },
            Action::RemoteRemoved(_) => ActionKind::RemoteRemoved,
            Action::LocalAdded(_) => ActionKind::LocalAdded,
            Action::LocalRemoved(_, _) => ActionKind::LocalRemoved,
            Action::RemoteAdded(_) => ActionKind::RemoteAdded,
            Action::RemovedOnBothSides(_) => ActionKind::RemovedOnBothSides,
        }
    }

    /// The item of the local scan that the action carries.
    pub open spec fn scanned_of(self) -> Option<usize> {
        match self {
            Action::ResyncLocal(s) => Some(s),
            Action::ConflictAddLocalNewer(s, _) => Some(s),
            Action::ErrorRemoteDowngraded(s, _) => Some(s),
            Action::LocalUpgraded(s, _) => Some(s),
            Action::ConflictBothDowngraded(s, _, _) => Some(s),
            Action::ConflictBothUpgraded(s, _, _) => Some(s),
            Action::ConflictLocalUpgradedRemoteDowngraded(s, _, _) => Some(s),
            Action::ConflictAddRemoteNewer(s, _) => Some(s),
            Action::RemoteUpgraded(s, _) => Some(s),
            Action::ErrorLocalDowngraded(s, _) => Some(s),
            Action::ConflictLocalDowngradedRemoteUpgraded(s, _, _) => Some(s),
            Action::RemoteRemoved(s) => Some(s),
            Action::LocalAdded(s) => Some(s),
            Action::LocalRemoved(_, _) => None,
            Action::RemoteAdded(_) => None,
            Action::RemovedOnBothSides(_) => None,
        }
    }

    /// The item of the baseline that the action carries.
    pub open spec fn local_of(self) -> Option<usize> {
        match self {
            Action::ConflictBothDowngraded(_, l, _) => Some(l),
            Action::ConflictBothUpgraded(_, l, _) => Some(l),
            Action::ConflictLocalUpgradedRemoteDowngraded(_, l, _) => Some(l),
            Action::ConflictLocalDowngradedRemoteUpgraded(_, l, _) => Some(l),
            Action::LocalRemoved(l, _) => Some(l),
            Action::RemovedOnBothSides(l) => Some(l),
            _ => None,
        }
    }

    /// The item of the remote listing that the action carries.
    pub open spec fn remote_of(self) -> Option<u64> {
        match self {
            Action::ConflictAddLocalNewer(_, r) => Some(r),
            Action::ErrorRemoteDowngraded(_, r) => Some(r),
            Action::LocalUpgraded(_, r) => Some(r),
            Action::ConflictBothDowngraded(_, _, r) => Some(r),
            Action::ConflictBothUpgraded(_, _, r) => Some(r),
            Action::ConflictLocalUpgradedRemoteDowngraded(_, _, r) => Some(r),
            Action::ConflictAddRemoteNewer(_, r) => Some(r),
            Action::RemoteUpgraded(_, r) => Some(r),
            Action::ErrorLocalDowngraded(_, r) => Some(r),
            Action::ConflictLocalDowngradedRemoteUpgraded(_, _, r) => Some(r),
            Action::LocalRemoved(_, r) => Some(r),
            Action::RemoteAdded(r) => Some(r),
            _ => None,
        }
    }

    /// The action of kind `kind` over the items seen in the three views.
    /// `None` where the kind carries an item of a view that saw none.
    pub open spec fn assembled(
        kind: ActionKind,
        scanned: Option<usize>,
        local: Option<usize>,
        remote: Option<u64>,
    ) -> Option<Action> {
        match kind {
            ActionKind::ResyncLocal => match scanned {
                Some(s) => Some(Action::ResyncLocal(s)),
                _ => None,
            },
            ActionKind::RemoteRemoved => match scanned {
                Some(s) => Some(Action::RemoteRemoved(s)),
                _ => None,
            },
            ActionKind::LocalAdded => match scanned {
                Some(s) => Some(Action::LocalAdded(s)),
                _ => None,
            },
            ActionKind::RemoteAdded => match remote {
                Some(r) => Some(Action::RemoteAdded(r)),
                _ => None,
            },
            ActionKind::RemovedOnBothSides => match local {
                Some(l) => Some(Action::RemovedOnBothSides(l)),
                _ => None,
            },
            ActionKind::LocalRemoved => match (local, remote) {
                (Some(l), Some(r)) => Some(Action::LocalRemoved(l, r)),
                _ => None,
            },
            ActionKind::ConflictAddLocalNewer => match (scanned, remote) {
                (Some(s), Some(r)) => Some(Action::ConflictAddLocalNewer(s, r)),
                _ => None,
            },
            ActionKind::ConflictAddRemoteNewer => match (scanned, remote) {
                (Some(s), Some(r)) => Some(Action::ConflictAddRemoteNewer(s, r)),
                _ => None,
            },
            ActionKind::ErrorRemoteDowngraded => match (scanned, remote) {
                (Some(s), Some(r)) => Some(Action::ErrorRemoteDowngraded(s, r)),
                _ => None,
            },
            ActionKind::ErrorLocalDowngraded => match (scanned, remote) {
                (Some(s), Some(r)) => Some(Action::ErrorLocalDowngraded(s, r)),
                _ => None,
            },
            ActionKind::LocalUpgraded => match (scanned, remote) {
                (Some(s), Some(r)) => Some(Action::LocalUpgraded(s, r)),
                _ => None,
            },
            ActionKind::RemoteUpgraded => match (scanned, remote) {
                (Some(s), Some(r)) => Some(Action::RemoteUpgraded(s, r)),
                _ => None,
            },
            ActionKind::ConflictBothDowngraded => match (scanned, local, remote) {
                (Some(s), Some(l), Some(r)) => Some(Action::ConflictBothDowngraded(s, l, r)),
                _ => None,
            },
            ActionKind::ConflictBothUpgraded => match (scanned, local, remote) {
                (Some(s), Some(l), Some(r)) => Some(Action::ConflictBothUpgraded(s, l, r)),
                _ => None,
            },
            ActionKind::ConflictLocalUpgradedRemoteDowngraded => match (scanned, local, remote) {
                (Some(s), Some(l), Some(r)) => Some(
                    Action::ConflictLocalUpgradedRemoteDowngraded(s, l, r),
                ),
                _ => None,
            },
            ActionKind::ConflictLocalDowngradedRemoteUpgraded => match (scanned, local, remote) {
                (Some(s), Some(l), Some(r)) => Some(
                    Action::ConflictLocalDowngradedRemoteUpgraded(s, l, r),
                ),
                _ => None,
            },
        }
    }

    /// The classification that the action stands for.
    pub fn kind(&self) -> (kind: ActionKind)
        ensures
            kind == self.kind_of(),
    {
        match self {
            Action::ResyncLocal(_) => ActionKind::ResyncLocal,
            Action::ConflictAddLocalNewer(_, _) => ActionKind::ConflictAddLocalNewer,
            Action::ErrorRemoteDowngraded(_, _) => ActionKind::ErrorRemoteDowngraded,
            Action::LocalUpgraded(_, _) => ActionKind::LocalUpgraded,
            Action::ConflictBothDowngraded(_, _, _) => ActionKind::ConflictBothDowngraded,
            Action::ConflictBothUpgraded(_, _, _) => ActionKind::ConflictBothUpgraded,
            Action::ConflictLocalUpgradedRemoteDowngraded(_, _, _) => {
                ActionKind::ConflictLocalUpgradedRemoteDowngraded
            },
            Action::ConflictAddRemoteNewer(_, _) => ActionKind::ConflictAddRemoteNewer,
            Action::RemoteUpgraded(_, _) => ActionKind::RemoteUpgraded,
            Action::ErrorLocalDowngraded(_, _) => ActionKind::ErrorLocalDowngraded,
            Action::ConflictLocalDowngradedRemoteUpgraded(_, _, _) => {
                ActionKind::ConflictLocalDowngradedRemoteUpgraded
            },
            Action::RemoteRemoved(_) => ActionKind::RemoteRemoved,
            Action::LocalAdded(_) => ActionKind::LocalAdded,
            Action::LocalRemoved(_, _) => ActionKind::LocalRemoved,
            Action::RemoteAdded(_) => ActionKind::RemoteAdded,
            Action::RemovedOnBothSides(_) => ActionKind::RemovedOnBothSides,
        }
    }

    /// Handle, in the local scan, of the scanned item that the action carries.
    pub fn scanned(&self) -> (scanned: Option<usize>)
        ensures
            scanned == self.scanned_of(),
    {
        match self {
            Action::ResyncLocal(s) => Some(*s),
            Action::ConflictAddLocalNewer(s, _) => Some(*s),
            Action::ErrorRemoteDowngraded(s, _) => Some(*s),
            Action::LocalUpgraded(s, _) => Some(*s),
            Action::ConflictBothDowngraded(s, _, _) => Some(*s),
            Action::ConflictBothUpgraded(s, _, _) => Some(*s),
            Action::ConflictLocalUpgradedRemoteDowngraded(s, _, _) => Some(*s),
            Action::ConflictAddRemoteNewer(s, _) => Some(*s),
            Action::RemoteUpgraded(s, _) => Some(*s),
            Action::ErrorLocalDowngraded(s, _) => Some(*s),
            Action::ConflictLocalDowngradedRemoteUpgraded(s, _, _) => Some(*s),
            Action::RemoteRemoved(s) => Some(*s),
            Action::LocalAdded(s) => Some(*s),
            Action::LocalRemoved(_, _) => None,
            Action::RemoteAdded(_) => None,
            Action::RemovedOnBothSides(_) => None,
        }
    }

    /// Handle, in the baseline, of the saved item that the action carries.
    pub fn local(&self) -> (local: Option<usize>)
        ensures
            local == self.local_of(),
    {
        match self {
            Action::ConflictBothDowngraded(_, l, _) => Some(*l),
            Action::ConflictBothUpgraded(_, l, _) => Some(*l),
            Action::ConflictLocalUpgradedRemoteDowngraded(_, l, _) => Some(*l),
            Action::ConflictLocalDowngradedRemoteUpgraded(_, l, _) => Some(*l),
            Action::LocalRemoved(l, _) => Some(*l),
            Action::RemovedOnBothSides(l) => Some(*l),
            _ => None,
        }
    }

    /// Identity of the remote item that the action carries.
    pub fn remote(&self) -> (remote: Option<u64>)
        ensures
            remote == self.remote_of(),
    {
        match self {
            Action::ConflictAddLocalNewer(_, r) => Some(*r),
            Action::ErrorRemoteDowngraded(_, r) => Some(*r),
            Action::LocalUpgraded(_, r) => Some(*r),
            Action::ConflictBothDowngraded(_, _, r) => Some(*r),
            Action::ConflictBothUpgraded(_, _, r) => Some(*r),
            Action::ConflictLocalUpgradedRemoteDowngraded(_, _, r) => Some(*r),
            Action::ConflictAddRemoteNewer(_, r) => Some(*r),
            Action::RemoteUpgraded(_, r) => Some(*r),
            Action::ErrorLocalDowngraded(_, r) => Some(*r),
            Action::ConflictLocalDowngradedRemoteUpgraded(_, _, r) => Some(*r),
            Action::LocalRemoved(_, r) => Some(*r),
            Action::RemoteAdded(r) => Some(*r),
            _ => None,
        }
    }

    /// The action of kind `kind` over the items seen in the three views.
    pub fn assemble(
        kind: ActionKind,
        scanned: Option<usize>,
        local: Option<usize>,
        remote: Option<u64>,
    ) -> (action: Option<Action>)
        ensures
            action == Self::assembled(kind, scanned, local, remote),
    {
        match kind {
            ActionKind::ResyncLocal => match scanned {
                Some(s) => Some(Action::ResyncLocal(s)),
                _ => None,
            },
            ActionKind::RemoteRemoved => match scanned {
                Some(s) => Some(Action::RemoteRemoved(s)),
                _ => None,
            },
            ActionKind::LocalAdded => match scanned {
                Some(s) => Some(Action::LocalAdded(s)),
                _ => None,
            },
            ActionKind::RemoteAdded => match remote {
                Some(r) => Some(Action::RemoteAdded(r)),
                _ => None,
            },
            ActionKind::RemovedOnBothSides => match local {
                Some(l) => Some(Action::RemovedOnBothSides(l)),
                _ => None,
            },
            ActionKind::LocalRemoved => match (local, remote) {
                (Some(l), Some(r)) => Some(Action::LocalRemoved(l, r)),
                _ => None,
            },
            ActionKind::ConflictAddLocalNewer => match (scanned, remote) {
                (Some(s), Some(r)) => Some(Action::ConflictAddLocalNewer(s, r)),
                _ => None,
            },
            ActionKind::ConflictAddRemoteNewer => match (scanned, remote) {
                (Some(s), Some(r)) => Some(Action::ConflictAddRemoteNewer(s, r)),
                _ => None,
            },
            ActionKind::ErrorRemoteDowngraded => match (scanned, remote) {
                (Some(s), Some(r)) => Some(Action::ErrorRemoteDowngraded(s, r)),
                _ => None,
            },
            ActionKind::ErrorLocalDowngraded => match (scanned, remote) {
                (Some(s), Some(r)) => Some(Action::ErrorLocalDowngraded(s, r)),
                _ => None,
            },
            ActionKind::LocalUpgraded => match (scanned, remote) {
                (Some(s), Some(r)) => Some(Action::LocalUpgraded(s, r)),
                _ => None,
            },
            ActionKind::RemoteUpgraded => match (scanned, remote) {
                (Some(s), Some(r)) => Some(Action::RemoteUpgraded(s, r)),
                _ => None,
            },
            ActionKind::ConflictBothDowngraded => match (scanned, local, remote) {
                (Some(s), Some(l), Some(r)) => Some(Action::ConflictBothDowngraded(s, l, r)),
                _ => None,
            },
            ActionKind::ConflictBothUpgraded => match (scanned, local, remote) {
                (Some(s), Some(l), Some(r)) => Some(Action::ConflictBothUpgraded(s, l, r)),
                _ => None,
            },
            ActionKind::ConflictLocalUpgradedRemoteDowngraded => match (scanned, local, remote) {
                (Some(s), Some(l), Some(r)) => Some(
                    Action::ConflictLocalUpgradedRemoteDowngraded(s, l, r),
                ),
                _ => None,
            },
            ActionKind::ConflictLocalDowngradedRemoteUpgraded => match (scanned, local, remote) {
                (Some(s), Some(l), Some(r)) => Some(
                    Action::ConflictLocalDowngradedRemoteUpgraded(s, l, r),
                ),
                _ => None,
            },
        }
    }
}

/// What the three views hold of one item: in each view that holds it, its
/// handle there and the modification time it bears.
#[derive(Clone, Copy, Debug)]
pub struct Observation {
    /// The item of the baseline.
    pub local: Option<(usize, u64)>,
    /// The item of the current local scan.
    pub scanned: Option<(usize, u64)>,
    /// The item of the remote listing.
    pub remote: Option<(u64, u64)>,
}

/// The handle of a sighting.
pub open spec fn handle_of<H>(seen: Option<(H, u64)>) -> Option<H> {
    match seen {
        Some(pair) => Some(pair.0),
        None => None,
    }
}

/// The modification time of a sighting.
pub open spec fn time_of<H>(seen: Option<(H, u64)>) -> Option<u64> {
    match seen {
        Some(pair) => Some(pair.1),
        None => None,
    }
}

impl Observation {
    /// The action that the observation calls for: the kind that the three
    /// times classify to, over the three handles. `None` where the table lists
    /// no kind for them.
    pub open spec fn action(self) -> Option<Action> {
        match classification(time_of(self.local), time_of(self.scanned), time_of(self.remote)) {
            Some(kind) => Action::assembled(
                kind,
                handle_of(self.scanned),
                handle_of(self.local),
                handle_of(self.remote),
            ),
            None => None,
        }
    }
}

/// The actions that the first `n` observations call for, in their order.
pub open spec fn actions_of(observations: Seq<Observation>, n: nat) -> Seq<Action>
    decreases n,
{
    if n == 0 {
        Seq::empty()
    } else {
        let before = actions_of(observations, (n - 1) as nat);
        match observations[n - 1].action() {
            Some(action) => before.push(action),
            None => before,
        }
    }
}

/// Every observation that the table lists a kind for yields an action of that
/// kind, which carries exactly the handles that the observation holds for it.
pub proof fn lemma_observation_action(observation: Observation)
    ensures
        observation.action() is Some <==> in_table(
            time_of(observation.local),
            time_of(observation.scanned),
            time_of(observation.remote),
        ),
        observation.action() matches Some(action) ==> {
            &&& Some(action.kind_of()) == classification(
                time_of(observation.local),
                time_of(observation.scanned),
                time_of(observation.remote),
            )
            &&& action.scanned_of() is Some ==> action.scanned_of() == handle_of(
                observation.scanned,
            )
            &&& action.local_of() is Some ==> action.local_of() == handle_of(observation.local)
            &&& action.remote_of() is Some ==> action.remote_of() == handle_of(observation.remote)
        },
{
    let b = time_of(observation.local);
    let l = time_of(observation.scanned);
    let r = time_of(observation.remote);
    match classification(b, l, r) {
        Some(kind) => {
            lemma_classification_is_table(kind, b, l, r);
        },
        None => {
            assert forall|k: ActionKind| !row(k, b, l, r) by {
                lemma_classification_is_table(k, b, l, r);
            }
        },
    }
}

/// The outcome of a comparison of the three views: the actions that restore
/// consistency, one per item that needs one.
#[derive(Debug)]
pub struct Diff {
    actions: Vec<Action>,
}

impl View for Diff {
    type V = Seq<Action>;

    closed spec fn view(&self) -> Seq<Action> {
        self.actions@
    }
}

impl Diff {
    /// A comparison that found nothing to do.
    pub fn new() -> (diff: Self)
        ensures
            diff@ == Seq::<Action>::empty(),
    {
        Diff { actions: Vec::new() }
    }

    /// The actions, in the order in which the items were compared.
    pub fn actions(&self) -> (actions: &Vec<Action>)
        ensures
            actions@ == self@,
    {
        &self.actions
    }

    /// Classifies one observed item.
    pub fn diff_item(observation: &Observation) -> (action: Option<Action>)
        ensures
            action == observation.action(),
    {
        let baseline_time = match observation.local {
            Some(seen) => Some(seen.1),
            None => None,
        };
        let scanned_time = match observation.scanned {
            Some(seen) => Some(seen.1),
            None => None,
        };
        let remote_time = match observation.remote {
            Some(seen) => Some(seen.1),
            None => None,
        };
        match classify(baseline_time, scanned_time, remote_time) {
            None => None,
            Some(kind) => {
                let scanned = match observation.scanned {
                    Some(seen) => Some(seen.0),
                    None => None,
                };
                let local = match observation.local {
                    Some(seen) => Some(seen.0),
                    None => None,
                };
                let remote = match observation.remote {
                    Some(seen) => Some(seen.0),
                    None => None,
                };
                Action::assemble(kind, scanned, local, remote)
            },
        }
    }

    /// Takes in one observed item: its action, if it calls for one, is added at the end.
    pub fn record(&mut self, observation: &Observation)
        ensures
            final(self)@ == (match observation.action() {
                Some(action) => old(self)@.push(action),
                None => old(self)@,
            }),
    {
        match Self::diff_item(observation) {
            Some(action) => {
                self.actions.push(action);
            },
            None => {},
        }
    }

    /// Compares the observed items one by one.
    pub fn from_observations(observations: &Vec<Observation>) -> (diff: Self)
        ensures
            diff@ == actions_of(observations@, observations@.len()),
    {
        let mut diff = Diff::new();
        let mut i: usize = 0;
        while i < observations.len()
            invariant
                i <= observations@.len(),
                diff@ == actions_of(observations@, i as nat),
            decreases observations@.len() - i,
        {
            diff.record(&observations[i]);
            i += 1;
        }
        diff
    }
}

} // verus!
