use vstd::prelude::*;
use crate::diff::{actions_of, Action, ActionKind, Diff};
use crate::repository::Repository;

verus! {

/// The "push" runner: it sends what changed locally and settles conflicts
/// toward the local side.
pub struct ActionPush {}

impl ActionPush {
    /// The kinds that a push lets through: everything but the kinds whose only
    /// remedy is a fetch or a local deletion, and the report that the remote
    /// side went back to an older version.
    pub open spec fn keeps_kind(kind: ActionKind) -> bool {
        kind != ActionKind::ErrorRemoteDowngraded && kind != ActionKind::RemoteUpgraded && kind
            != ActionKind::RemoteRemoved && kind != ActionKind::RemoteAdded
    }

    /// `true` for the kinds that a push lets through.
    pub fn keeps(kind: ActionKind) -> (kept: bool)
        ensures
            kept == Self::keeps_kind(kind),
    {
        match kind {
            ActionKind::ErrorRemoteDowngraded
            | ActionKind::RemoteUpgraded
            | ActionKind::RemoteRemoved
            | ActionKind::RemoteAdded => false,
            _ => true,
        }
    }

    /// Compares the three views of the repository and gives the actions that a
    /// push applies, in the order of the comparison. Nothing is changed: the
    /// caller performs the transfers and records their outcomes.
    pub fn run(repository: &Repository) -> (selected: Vec<Action>)
        requires
            repository@.wf(),
        ensures
            selected@ == actions_of(
                repository@.observations(),
                repository@.observations().len(),
            ).filter(|action: Action| Self::keeps_kind(action.kind_of())),
    {
        let diff = Diff::from_repository(repository);
        Self::select(diff.actions())
    }

    /// The actions that a push applies: those of `actions` whose kind it lets
    /// through, in their order.
    pub fn select(actions: &Vec<Action>) -> (selected: Vec<Action>)
        ensures
            selected@ == actions@.filter(|action: Action| Self::keeps_kind(action.kind_of())),
    {
        let ghost pred = |action: Action| Self::keeps_kind(action.kind_of());
        let mut selected: Vec<Action> = Vec::new();
        let mut i: usize = 0;
        proof {
            reveal(Seq::filter);
            assert(actions@.subrange(0, 0) =~= Seq::<Action>::empty());
        }
        while i < actions.len()
            invariant
                i <= actions@.len(),
                pred == |action: Action| Self::keeps_kind(action.kind_of()),
                selected@ == actions@.subrange(0, i as int).filter(pred),
            decreases actions@.len() - i,
        {
            let action = actions[i];
            proof {
                reveal(Seq::filter);
                let next = actions@.subrange(0, i + 1);
                assert(next.drop_last() =~= actions@.subrange(0, i as int));
                assert(next.last() == action);
            }
            if Self::keeps(action.kind()) {
                selected.push(action);
            }
            i += 1;
        }
        assert(actions@.subrange(0, i as int) =~= actions@);
        selected
    }
}

} // verus!
