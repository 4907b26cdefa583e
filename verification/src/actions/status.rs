use vstd::prelude::*;
use crate::diff::{actions_of, change_of, row, Action, ActionKind, Change, Diff};
use crate::repository::Repository;

verus! {

/// The "status" runner: it shows every action and applies only those that
/// touch nothing but the baseline.
pub struct ActionStatus {}

/// What the status line shows for one of the three views of an item.
#[derive(Clone, Copy, Debug, PartialEq, Eq, Structural)]
pub enum Mark {
    /// The view holds the item as the baseline does.
    Same,
    /// The view does not hold the item, and the baseline does not either.
    Absent,
    /// The view holds the item and the baseline does not.
    Added,
    /// The view holds a newer version than the baseline.
    Upgraded,
    /// The view holds an older version than the baseline.
    Downgraded,
    /// The baseline holds the item and the view does not.
    Removed,
}

/// The mark of one side, from the time that the baseline holds and the time
/// that the side holds. Where the baseline holds none, two sides that both
/// hold the item are marked as added, or as the same if their times agree
/// (`other`: the time of the other side).
pub open spec fn side_mark(baseline: Option<u64>, side: Option<u64>, other: Option<u64>) -> Mark {
    match (baseline, side) {
        (None, None) => Mark::Absent,
        (None, Some(t)) => if other == Some(t) {
            Mark::Same
        } else {
            Mark::Added
        },
        (Some(_), None) => Mark::Removed,
        (Some(b), Some(t)) => match change_of(t, b) {
            Change::Unchanged => Mark::Same,
            Change::Upgraded => Mark::Upgraded,
            Change::Downgraded => Mark::Downgraded,
        },
    }
}

/// The mark of the baseline itself.
pub open spec fn saved_mark(baseline: Option<u64>) -> Mark {
    match baseline {
        Some(_) => Mark::Same,
        None => Mark::Absent,
    }
}

/// One line of a status report: an action and the marks of its three views.
#[derive(Clone, Copy, Debug, PartialEq, Eq, Structural)]
pub struct StatusLine {
    pub action: Action,
    pub local: Mark,
    pub saved: Mark,
    pub remote: Mark,
}

/// What a status run found: a line for every action, and the actions that it applies.
#[derive(Debug)]
pub struct StatusReport {
    /// One line per action of the comparison, in its order.
    pub lines: Vec<StatusLine>,
    /// The actions that need no transfer, in the same order.
    pub selected: Vec<Action>,
}

/// The status line of an action.
pub open spec fn line_of(action: Action) -> StatusLine {
    let marks = ActionStatus::marks_of(action.kind_of());
    StatusLine { action, local: marks.0, saved: marks.1, remote: marks.2 }
}

impl ActionStatus {
    /// Compares the three views of the repository and gives the report of a
    /// status run: a line for every action, and the actions that it applies.
    /// Nothing is changed. An empty report means that there is nothing to do.
    pub fn run(repository: &Repository) -> (report: StatusReport)
        requires
            repository@.wf(),
        ensures
            report.lines@ == actions_of(
                repository@.observations(),
                repository@.observations().len(),
            ).map_values(|action: Action| line_of(action)),
            report.selected@ == actions_of(
                repository@.observations(),
                repository@.observations().len(),
            ).filter(|action: Action| Self::keeps_kind(action.kind_of())),
    {
        let diff = Diff::from_repository(repository);
        let actions = diff.actions();
        let mut lines: Vec<StatusLine> = Vec::new();
        let mut i: usize = 0;
        while i < actions.len()
            invariant
                i <= actions@.len(),
                lines@ == actions@.subrange(0, i as int).map_values(|action: Action| line_of(action)),
            decreases actions@.len() - i,
        {
            let action = actions[i];
            let marks = Self::marks(action.kind());
            lines.push(StatusLine { action, local: marks.0, saved: marks.1, remote: marks.2 });
            assert(lines@ =~= actions@.subrange(0, i + 1).map_values(
                |action: Action| line_of(action),
            ));
            i += 1;
        }
        assert(actions@.subrange(0, i as int) =~= actions@);
        StatusReport { lines, selected: Self::select(actions) }
    }

    /// The kinds that a status run applies: those that need no transfer.
    pub open spec fn keeps_kind(kind: ActionKind) -> bool {
        kind == ActionKind::ResyncLocal || kind == ActionKind::RemovedOnBothSides
    }

    /// `true` for the kinds that a status run applies.
    pub fn keeps(kind: ActionKind) -> (kept: bool)
        ensures
            kept == Self::keeps_kind(kind),
    {
        match kind {
            ActionKind::ResyncLocal | ActionKind::RemovedOnBothSides => true,
            _ => false,
        }
    }

    /// The actions that a status run applies: those of `actions` that need no
    /// transfer, in their order.
    pub fn select(actions: &Vec<Action>) -> (selected: Vec<Action>)
        ensures
            selected@ == actions@.filter(|action: Action| Self::keeps_kind(action.kind_of())),
    {
        let ghost pred = |action: Action| Self::keeps_kind(action.kind_of());
        let mut selected: Vec<Action> = Vec::new();
        let mut i: usize = 0;
        proof {
            reveal(Seq::filter);
            assert(actions@.subrange(0, 0) =~= Seq::<Action>::empty());
        }
        while i < actions.len()
            invariant
                i <= actions@.len(),
                pred == |action: Action| Self::keeps_kind(action.kind_of()),
                selected@ == actions@.subrange(0, i as int).filter(pred),
            decreases actions@.len() - i,
        {
            let action = actions[i];
            proof {
                reveal(Seq::filter);
                let next = actions@.subrange(0, i + 1);
                assert(next.drop_last() =~= actions@.subrange(0, i as int));
                assert(next.last() == action);
            }
            if Self::keeps(action.kind()) {
                selected.push(action);
            }
            i += 1;
        }
        assert(actions@.subrange(0, i as int) =~= actions@);
        selected
    }

    /// The three marks of a status line, for the local side, the baseline and
    /// the remote side.
    pub open spec fn marks_of(kind: ActionKind) -> (Mark, Mark, Mark) {
        match kind {
            ActionKind::ResyncLocal => (Mark::Same, Mark::Absent, Mark::Same),
            ActionKind::ConflictAddLocalNewer => (Mark::Added, Mark::Absent, Mark::Added),
            ActionKind::ConflictAddRemoteNewer => (Mark::Added, Mark::Absent, Mark::Added),
            ActionKind::LocalAdded => (Mark::Added, Mark::Absent, Mark::Absent),
            ActionKind::RemoteAdded => (Mark::Absent, Mark::Absent, Mark::Added),
            ActionKind::ErrorRemoteDowngraded => (Mark::Same, Mark::Same, Mark::Downgraded),
            ActionKind::RemoteUpgraded => (Mark::Same, Mark::Same, Mark::Upgraded),
            ActionKind::LocalUpgraded => (Mark::Upgraded, Mark::Same, Mark::Same),
            ActionKind::ErrorLocalDowngraded => (Mark::Downgraded, Mark::Same, Mark::Same),
            ActionKind::ConflictBothDowngraded => (Mark::Downgraded, Mark::Same, Mark::Downgraded),
            ActionKind::ConflictBothUpgraded => (Mark::Upgraded, Mark::Same, Mark::Upgraded),
            ActionKind::ConflictLocalUpgradedRemoteDowngraded => (
                Mark::Upgraded,
                Mark::Same,
                Mark::Downgraded,
            ),
            ActionKind::ConflictLocalDowngradedRemoteUpgraded => (
                Mark::Downgraded,
                Mark::Same,
                Mark::Upgraded,
            ),
            ActionKind::RemoteRemoved => (Mark::Same, Mark::Same, Mark::Removed),
            ActionKind::LocalRemoved => (Mark::Removed, Mark::Same, Mark::Same),
            ActionKind::RemovedOnBothSides => (Mark::Removed, Mark::Same, Mark::Removed),
        }
    }

    /// The three marks of the status line of an action of kind `kind`.
    pub fn marks(kind: ActionKind) -> (marks: (Mark, Mark, Mark))
        ensures
            marks == Self::marks_of(kind),
    {
        match kind {
            ActionKind::ResyncLocal => (Mark::Same, Mark::Absent, Mark::Same),
            ActionKind::ConflictAddLocalNewer => (Mark::Added, Mark::Absent, Mark::Added),
            ActionKind::ConflictAddRemoteNewer => (Mark::Added, Mark::Absent, Mark::Added),
            ActionKind::LocalAdded => (Mark::Added, Mark::Absent, Mark::Absent),
            ActionKind::RemoteAdded => (Mark::Absent, Mark::Absent, Mark::Added),
            ActionKind::ErrorRemoteDowngraded => (Mark::Same, Mark::Same, Mark::Downgraded),
            ActionKind::RemoteUpgraded => (Mark::Same, Mark::Same, Mark::Upgraded),
            ActionKind::LocalUpgraded => (Mark::Upgraded, Mark::Same, Mark::Same),
            ActionKind::ErrorLocalDowngraded => (Mark::Downgraded, Mark::Same, Mark::Same),
            ActionKind::ConflictBothDowngraded => (Mark::Downgraded, Mark::Same, Mark::Downgraded),
            ActionKind::ConflictBothUpgraded => (Mark::Upgraded, Mark::Same, Mark::Upgraded),
            ActionKind::ConflictLocalUpgradedRemoteDowngraded => (
                Mark::Upgraded,
                Mark::Same,
                Mark::Downgraded,
            ),
            ActionKind::ConflictLocalDowngradedRemoteUpgraded => (
                Mark::Downgraded,
                Mark::Same,
                Mark::Upgraded,
            ),
            ActionKind::RemoteRemoved => (Mark::Same, Mark::Same, Mark::Removed),
            ActionKind::LocalRemoved => (Mark::Removed, Mark::Same, Mark::Same),
            ActionKind::RemovedOnBothSides => (Mark::Removed, Mark::Same, Mark::Removed),
        }
    }
}

/// The marks of a kind say what happened on each side: for every combination
/// of its row in the classification table, they are the marks of the three
/// views.
pub proof fn lemma_marks_tell_the_row(
    kind: ActionKind,
    baseline: Option<u64>,
    local: Option<u64>,
    remote: Option<u64>,
)
    requires
        row(kind, baseline, local, remote),
    ensures
        ActionStatus::marks_of(kind) == (
            side_mark(baseline, local, remote),
            saved_mark(baseline),
            side_mark(baseline, remote, local),
        ),
{
}

} // verus!
