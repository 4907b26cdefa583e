use fileshare_client::actions::push::ActionPush;
use fileshare_client::actions::status::ActionStatus;
use fileshare_client::actions::status::Mark::{Absent, Added, Downgraded, Removed, Same, Upgraded};
use fileshare_client::diff::{change, classify, Action, ActionKind, Change, Diff, Observation};

const ALL_KINDS: [ActionKind; 16] = [
    ActionKind::ResyncLocal,
    ActionKind::ConflictAddLocalNewer,
    ActionKind::ErrorRemoteDowngraded,
    ActionKind::LocalUpgraded,
    ActionKind::ConflictBothDowngraded,
    ActionKind::ConflictBothUpgraded,
    ActionKind::ConflictLocalUpgradedRemoteDowngraded,
    ActionKind::ConflictAddRemoteNewer,
    ActionKind::RemoteUpgraded,
    ActionKind::ErrorLocalDowngraded,
    ActionKind::ConflictLocalDowngradedRemoteUpgraded,
    ActionKind::RemoteRemoved,
    ActionKind::LocalAdded,
    ActionKind::LocalRemoved,
    ActionKind::RemoteAdded,
    ActionKind::RemovedOnBothSides,
];

fn one_of_each() -> Vec<Action> {
    vec![
        Action::ResyncLocal(0),
        Action::ConflictAddLocalNewer(1, 101),
        Action::ErrorRemoteDowngraded(2, 102),
        Action::LocalUpgraded(3, 103),
        Action::ConflictBothDowngraded(4, 54, 104),
        Action::ConflictBothUpgraded(5, 55, 105),
        Action::ConflictLocalUpgradedRemoteDowngraded(6, 56, 106),
        Action::ConflictAddRemoteNewer(7, 107),
        Action::RemoteUpgraded(8, 108),
        Action::ErrorLocalDowngraded(9, 109),
        Action::ConflictLocalDowngradedRemoteUpgraded(10, 60, 110),
        Action::RemoteRemoved(11),
        Action::LocalAdded(12),
        Action::LocalRemoved(63, 113),
        Action::RemoteAdded(114),
        Action::RemovedOnBothSides(65),
    ]
}

#[test]
fn change_orders_a_time_against_the_baseline() {
    assert_eq!(change(20, 10), Change::Upgraded);
    assert_eq!(change(5, 10), Change::Downgraded);
    assert_eq!(change(10, 10), Change::Unchanged);
    assert_eq!(change(u64::MAX, 0), Change::Upgraded);
}

#[test]
fn classify_untracked_items() {
    assert_eq!(classify(None, Some(9), Some(5)), Some(ActionKind::ConflictAddLocalNewer));
    assert_eq!(classify(None, Some(5), Some(9)), Some(ActionKind::ConflictAddRemoteNewer));
    assert_eq!(classify(None, Some(5), Some(5)), Some(ActionKind::ResyncLocal));
    assert_eq!(classify(None, Some(5), None), Some(ActionKind::LocalAdded));
    assert_eq!(classify(None, None, Some(5)), Some(ActionKind::RemoteAdded));
}

#[test]
fn classify_tracked_items_present_on_both_sides() {
    assert_eq!(classify(Some(10), Some(10), Some(5)), Some(ActionKind::ErrorRemoteDowngraded));
    assert_eq!(classify(Some(10), Some(10), Some(15)), Some(ActionKind::RemoteUpgraded));
    assert_eq!(classify(Some(10), Some(15), Some(10)), Some(ActionKind::LocalUpgraded));
    assert_eq!(classify(Some(10), Some(5), Some(10)), Some(ActionKind::ErrorLocalDowngraded));
    assert_eq!(classify(Some(10), Some(5), Some(4)), Some(ActionKind::ConflictBothDowngraded));
    assert_eq!(classify(Some(10), Some(15), Some(14)), Some(ActionKind::ConflictBothUpgraded));
    assert_eq!(classify(Some(10), Some(12), Some(12)), Some(ActionKind::ConflictBothUpgraded));
    assert_eq!(
        classify(Some(10), Some(15), Some(5)),
        Some(ActionKind::ConflictLocalUpgradedRemoteDowngraded)
    );
    assert_eq!(
        classify(Some(10), Some(5), Some(15)),
        Some(ActionKind::ConflictLocalDowngradedRemoteUpgraded)
    );
}

#[test]
fn classify_tracked_items_gone_from_a_side() {
    assert_eq!(classify(Some(10), None, Some(10)), Some(ActionKind::LocalRemoved));
    assert_eq!(classify(Some(10), Some(10), None), Some(ActionKind::RemoteRemoved));
    assert_eq!(classify(Some(10), None, None), Some(ActionKind::RemovedOnBothSides));
}

#[test]
fn classify_gives_nothing_outside_the_table() {
    assert_eq!(classify(None, None, None), None);
    assert_eq!(classify(Some(10), Some(10), Some(10)), None);
    assert_eq!(classify(Some(10), None, Some(11)), None);
    assert_eq!(classify(Some(10), None, Some(9)), None);
    assert_eq!(classify(Some(10), Some(11), None), None);
    assert_eq!(classify(Some(10), Some(9), None), None);
}

#[test]
fn equal_times_never_classify_as_conflict_or_error() {
    let views = [None, Some(7u64)];
    for b in views {
        for l in views {
            for r in views {
                if let Some(kind) = classify(b, l, r) {
                    assert!(!kind.is_conflict(), "{:?}", kind);
                    assert!(!kind.is_error(), "{:?}", kind);
                }
            }
        }
    }
}

#[test]
fn every_kind_is_reached_by_some_combination() {
    let times = [None, Some(1u64), Some(2), Some(3)];
    let mut reached = Vec::new();
    for b in times {
        for l in times {
            for r in times {
                if let Some(kind) = classify(b, l, r) {
                    if !reached.contains(&kind) {
                        reached.push(kind);
                    }
                }
            }
        }
    }
    assert_eq!(reached.len(), 16);
}

#[test]
fn conflict_and_error_kinds() {
    let conflicts = ALL_KINDS.iter().filter(|k| k.is_conflict()).count();
    let errors = ALL_KINDS.iter().filter(|k| k.is_error()).count();
    assert_eq!((conflicts, errors), (6, 2));
    assert!(ActionKind::ConflictAddLocalNewer.is_conflict());
    assert!(ActionKind::ErrorRemoteDowngraded.is_error());
    assert!(!ActionKind::ErrorRemoteDowngraded.is_conflict());
    assert!(!ActionKind::LocalUpgraded.is_conflict());
    assert!(!ActionKind::LocalUpgraded.is_error());
}

#[test]
fn action_accessors_give_the_items_of_each_variant() {
    let all = one_of_each();
    for (action, kind) in all.iter().zip(ALL_KINDS.iter()) {
        assert_eq!(action.kind(), *kind);
    }
    assert_eq!(Action::ResyncLocal(4).scanned(), Some(4));
    assert_eq!(Action::ResyncLocal(4).local(), None);
    assert_eq!(Action::ResyncLocal(4).remote(), None);
    let three = Action::ConflictBothUpgraded(1, 2, 3);
    assert_eq!((three.scanned(), three.local(), three.remote()), (Some(1), Some(2), Some(3)));
    let removed = Action::LocalRemoved(8, 9);
    assert_eq!((removed.scanned(), removed.local(), removed.remote()), (None, Some(8), Some(9)));
    assert_eq!(Action::RemoteAdded(5).remote(), Some(5));
    assert_eq!(Action::RemoteAdded(5).scanned(), None);
    assert_eq!(Action::RemovedOnBothSides(6).local(), Some(6));
    assert_eq!(Action::LocalUpgraded(1, 2).local(), None);
}

#[test]
fn assemble_builds_each_variant_from_its_items() {
    for (action, kind) in one_of_each().iter().zip(ALL_KINDS.iter()) {
        let built = Action::assemble(*kind, action.scanned(), action.local(), action.remote());
        assert_eq!(built, Some(*action));
    }
    assert_eq!(Action::assemble(ActionKind::LocalUpgraded, Some(1), Some(2), Some(3)), Some(Action::LocalUpgraded(1, 3)));
    assert_eq!(Action::assemble(ActionKind::LocalUpgraded, None, Some(2), Some(3)), None);
    assert_eq!(Action::assemble(ActionKind::RemoteAdded, Some(1), None, None), None);
    assert_eq!(Action::assemble(ActionKind::ConflictBothUpgraded, Some(1), None, Some(3)), None);
}

#[test]
fn local_upgraded_scenario_classifies_as_local_upgraded() {
    // baseline a.txt at 10, local scan at 20, remote at 10
    let observation =
        Observation { local: Some((0, 10)), scanned: Some((3, 20)), remote: Some((41, 10)) };
    assert_eq!(Diff::diff_item(&observation), Some(Action::LocalUpgraded(3, 41)));
}

#[test]
fn resync_scenario_classifies_as_resync_local() {
    // no baseline entry for b.txt, local at 5, remote at 5
    let observation = Observation { local: None, scanned: Some((2, 5)), remote: Some((9, 5)) };
    assert_eq!(Diff::diff_item(&observation), Some(Action::ResyncLocal(2)));
}

#[test]
fn local_removed_scenario_classifies_as_local_removed() {
    // baseline c.txt at 10, local missing, remote at 10
    let observation = Observation { local: Some((1, 10)), scanned: None, remote: Some((7, 10)) };
    assert_eq!(Diff::diff_item(&observation), Some(Action::LocalRemoved(1, 7)));
}

#[test]
fn diff_keeps_one_action_per_item_in_order() {
    let observations = vec![
        Observation { local: Some((0, 10)), scanned: Some((0, 10)), remote: Some((1, 10)) },
        Observation { local: Some((1, 10)), scanned: Some((1, 20)), remote: Some((2, 10)) },
        Observation { local: None, scanned: None, remote: None },
        Observation { local: None, scanned: Some((2, 1)), remote: None },
        Observation { local: Some((2, 3)), scanned: None, remote: None },
    ];
    let diff = Diff::from_observations(&observations);
    assert_eq!(
        diff.actions(),
        &vec![Action::LocalUpgraded(1, 2), Action::LocalAdded(2), Action::RemovedOnBothSides(2)]
    );
    assert!(Diff::new().actions().is_empty());
    assert!(Diff::from_observations(&vec![]).actions().is_empty());
}

#[test]
fn record_adds_at_the_end() {
    let mut diff = Diff::new();
    diff.record(&Observation { local: None, scanned: None, remote: Some((5, 1)) });
    diff.record(&Observation { local: Some((0, 1)), scanned: Some((0, 1)), remote: Some((6, 1)) });
    diff.record(&Observation { local: None, scanned: Some((3, 1)), remote: None });
    assert_eq!(diff.actions(), &vec![Action::RemoteAdded(5), Action::LocalAdded(3)]);
}

#[test]
fn push_lets_through_all_but_the_pull_kinds() {
    let selected = ActionPush::select(&one_of_each());
    let kinds: Vec<ActionKind> = selected.iter().map(|a| a.kind()).collect();
    assert_eq!(
        kinds,
        vec![
            ActionKind::ResyncLocal,
            ActionKind::ConflictAddLocalNewer,
            ActionKind::LocalUpgraded,
            ActionKind::ConflictBothDowngraded,
            ActionKind::ConflictBothUpgraded,
            ActionKind::ConflictLocalUpgradedRemoteDowngraded,
            ActionKind::ConflictAddRemoteNewer,
            ActionKind::ErrorLocalDowngraded,
            ActionKind::ConflictLocalDowngradedRemoteUpgraded,
            ActionKind::LocalAdded,
            ActionKind::LocalRemoved,
            ActionKind::RemovedOnBothSides,
        ]
    );
    assert!(!ActionPush::keeps(ActionKind::ErrorRemoteDowngraded));
    assert!(!ActionPush::keeps(ActionKind::RemoteUpgraded));
    assert!(!ActionPush::keeps(ActionKind::RemoteRemoved));
    assert!(!ActionPush::keeps(ActionKind::RemoteAdded));
    assert!(ActionPush::select(&vec![]).is_empty());
}

#[test]
fn push_keeps_the_items_of_the_actions() {
    let selected = ActionPush::select(&vec![
        Action::RemoteAdded(1),
        Action::LocalUpgraded(2, 3),
        Action::RemoteRemoved(4),
        Action::LocalUpgraded(5, 6),
    ]);
    assert_eq!(selected, vec![Action::LocalUpgraded(2, 3), Action::LocalUpgraded(5, 6)]);
}

#[test]
fn status_applies_only_what_needs_no_transfer() {
    let selected = ActionStatus::select(&one_of_each());
    assert_eq!(selected, vec![Action::ResyncLocal(0), Action::RemovedOnBothSides(65)]);
    for kind in ALL_KINDS {
        let expected = kind == ActionKind::ResyncLocal || kind == ActionKind::RemovedOnBothSides;
        assert_eq!(ActionStatus::keeps(kind), expected);
    }
}

#[test]
fn status_marks_show_each_side() {
    assert_eq!(ActionStatus::marks(ActionKind::ResyncLocal), (Same, Absent, Same));
    assert_eq!(ActionStatus::marks(ActionKind::ConflictAddLocalNewer), (Added, Absent, Added));
    assert_eq!(ActionStatus::marks(ActionKind::ConflictAddRemoteNewer), (Added, Absent, Added));
    assert_eq!(ActionStatus::marks(ActionKind::ErrorRemoteDowngraded), (Same, Same, Downgraded));
    assert_eq!(ActionStatus::marks(ActionKind::LocalUpgraded), (Upgraded, Same, Same));
    assert_eq!(ActionStatus::marks(ActionKind::ConflictBothDowngraded), (Downgraded, Same, Downgraded));
    assert_eq!(ActionStatus::marks(ActionKind::ConflictBothUpgraded), (Upgraded, Same, Upgraded));
    assert_eq!(
        ActionStatus::marks(ActionKind::ConflictLocalUpgradedRemoteDowngraded),
        (Upgraded, Same, Downgraded)
    );
    assert_eq!(ActionStatus::marks(ActionKind::RemoteUpgraded), (Same, Same, Upgraded));
    assert_eq!(ActionStatus::marks(ActionKind::ErrorLocalDowngraded), (Downgraded, Same, Same));
    assert_eq!(
        ActionStatus::marks(ActionKind::ConflictLocalDowngradedRemoteUpgraded),
        (Downgraded, Same, Upgraded)
    );
    assert_eq!(ActionStatus::marks(ActionKind::RemoteRemoved), (Same, Same, Removed));
    assert_eq!(ActionStatus::marks(ActionKind::LocalAdded), (Added, Absent, Absent));
    assert_eq!(ActionStatus::marks(ActionKind::LocalRemoved), (Removed, Same, Same));
    assert_eq!(ActionStatus::marks(ActionKind::RemoteAdded), (Absent, Absent, Added));
    assert_eq!(ActionStatus::marks(ActionKind::RemovedOnBothSides), (Removed, Same, Removed));
}
