use syncignore::state::{
    execute, marker_payload, marker_state, reconcile, Action, ActualState, DesiredState, Effect,
    MarkerOp, StoreMode, MARKER_BYTE, MARKER_NAME, RULE_FILE_NAME,
};

#[test]
fn excluded_and_unmarked_is_marked() {
    assert_eq!(
        reconcile(DesiredState::Excluded, ActualState::Unmarked),
        Action::Apply(MarkerOp::Mark)
    );
}

#[test]
fn excluded_and_marked_is_left_alone() {
    assert_eq!(reconcile(DesiredState::Excluded, ActualState::Marked), Action::NoOp);
}

#[test]
fn included_and_marked_is_reported() {
    assert_eq!(reconcile(DesiredState::Included, ActualState::Marked), Action::ReportAnomaly);
}

#[test]
fn included_and_unmarked_is_left_alone() {
    assert_eq!(reconcile(DesiredState::Included, ActualState::Unmarked), Action::NoOp);
}

#[test]
fn reconcile_never_unmarks() {
    for desired in [DesiredState::Excluded, DesiredState::Included] {
        for actual in [ActualState::Marked, ActualState::Unmarked] {
            assert_ne!(reconcile(desired, actual), Action::Apply(MarkerOp::Unmark));
        }
    }
}

#[test]
fn live_store_persists_changes() {
    assert_eq!(
        execute(StoreMode::Live, Action::Apply(MarkerOp::Mark)),
        Effect::Persist(MarkerOp::Mark)
    );
    assert_eq!(
        execute(StoreMode::Live, Action::Apply(MarkerOp::Unmark)),
        Effect::Persist(MarkerOp::Unmark)
    );
}

#[test]
fn simulated_store_only_announces() {
    assert_eq!(
        execute(StoreMode::Simulated, Action::Apply(MarkerOp::Mark)),
        Effect::Announce(MarkerOp::Mark)
    );
    assert_eq!(
        execute(StoreMode::Simulated, Action::Apply(MarkerOp::Unmark)),
        Effect::Announce(MarkerOp::Unmark)
    );
}

#[test]
fn simulated_store_never_persists() {
    let all = [
        Action::NoOp,
        Action::ReportAnomaly,
        Action::Apply(MarkerOp::Mark),
        Action::Apply(MarkerOp::Unmark),
    ];
    for action in all {
        assert!(!matches!(execute(StoreMode::Simulated, action), Effect::Persist(_)));
    }
}

#[test]
fn anomaly_is_a_warning_under_both_stores() {
    assert_eq!(execute(StoreMode::Live, Action::ReportAnomaly), Effect::Warn);
    assert_eq!(execute(StoreMode::Simulated, Action::ReportAnomaly), Effect::Warn);
}

#[test]
fn no_op_has_no_effect() {
    assert_eq!(execute(StoreMode::Live, Action::NoOp), Effect::Nothing);
    assert_eq!(execute(StoreMode::Simulated, Action::NoOp), Effect::Nothing);
}

#[test]
fn second_check_of_an_entry_corrects_nothing() {
    for desired in [DesiredState::Excluded, DesiredState::Included] {
        for actual in [ActualState::Marked, ActualState::Unmarked] {
            let after = match execute(StoreMode::Live, reconcile(desired, actual)) {
                Effect::Persist(MarkerOp::Mark) => ActualState::Marked,
                Effect::Persist(MarkerOp::Unmark) => ActualState::Unmarked,
                _ => actual,
            };
            assert!(!matches!(reconcile(desired, after), Action::Apply(_)));
        }
    }
}

#[test]
fn marker_payload_is_the_digit_one() {
    assert_eq!(marker_payload(), vec![b'1']);
    assert_eq!(MARKER_BYTE, b'1');
}

#[test]
fn absent_marker_is_unmarked() {
    assert_eq!(marker_state(None), ActualState::Unmarked);
}

#[test]
fn marker_with_the_payload_is_marked() {
    assert_eq!(marker_state(Some(&vec![b'1'])), ActualState::Marked);
    assert_eq!(marker_state(Some(&marker_payload())), ActualState::Marked);
}

#[test]
fn marker_with_another_payload_is_unmarked() {
    assert_eq!(marker_state(Some(&vec![b'0'])), ActualState::Unmarked);
    assert_eq!(marker_state(Some(&vec![])), ActualState::Unmarked);
    assert_eq!(marker_state(Some(&vec![b'1', b'1'])), ActualState::Unmarked);
    assert_eq!(marker_state(Some(&vec![b'1', b'\n'])), ActualState::Unmarked);
    assert_eq!(marker_state(Some(&vec![1])), ActualState::Unmarked);
}

#[test]
fn fixed_names() {
    assert_eq!(RULE_FILE_NAME, ".dropboxignore");
    assert_eq!(MARKER_NAME, "user.com.dropbox.ignored");
}
