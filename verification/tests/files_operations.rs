use mmv::files_operations::{
    check_found_files, MassMoveError, MassMovePlan, MoveAction, MoveEvent, NoFilesError,
};

#[test]
fn found_files_guard() {
    let files = vec!["a.txt".to_string(), "b.txt".to_string()];
    assert_eq!(
        check_found_files("*.txt", files.clone()),
        Ok(files.clone())
    );
    assert_eq!(
        check_found_files("*.mp3", vec![]),
        Err(NoFilesError {
            template_name: "*.mp3".to_string()
        })
    );
}

#[test]
fn plan_renames_every_pair_in_order() {
    let initial = vec!["a".to_string(), "b".to_string()];
    let target = vec!["x".to_string(), "y".to_string()];
    let mut plan = MassMovePlan::new(initial, target, false);

    assert_eq!(plan.next_action(), MoveAction::CheckTarget("x".to_string()));
    assert!(plan.step(&MoveEvent::Exists(false)));
    assert_eq!(
        plan.next_action(),
        MoveAction::Rename("a".to_string(), "x".to_string())
    );
    assert!(plan.step(&MoveEvent::Renamed(true)));
    assert_eq!(plan.next_action(), MoveAction::CheckTarget("y".to_string()));
    assert!(plan.step(&MoveEvent::Exists(false)));
    assert_eq!(
        plan.next_action(),
        MoveAction::Rename("b".to_string(), "y".to_string())
    );
    assert!(plan.step(&MoveEvent::Renamed(true)));
    assert_eq!(plan.next_action(), MoveAction::Finished);
}

#[test]
fn plan_of_empty_batch_is_finished() {
    let plan = MassMovePlan::new(vec![], vec![], false);
    assert_eq!(plan.next_action(), MoveAction::Finished);
}

#[test]
fn existing_target_without_force_fails() {
    let mut plan = MassMovePlan::new(vec!["a".to_string()], vec!["x".to_string()], false);
    assert!(plan.step(&MoveEvent::Exists(true)));
    assert_eq!(
        plan.next_action(),
        MoveAction::Fail(MassMoveError::ReplaceError("x".to_string()))
    );
}

#[test]
fn existing_target_with_force_is_renamed() {
    let mut plan = MassMovePlan::new(vec!["a".to_string()], vec!["x".to_string()], true);
    assert!(plan.step(&MoveEvent::Exists(true)));
    assert_eq!(
        plan.next_action(),
        MoveAction::Rename("a".to_string(), "x".to_string())
    );
}

#[test]
fn failed_rename_retries_with_resolved_paths() {
    let mut plan = MassMovePlan::new(vec!["a".to_string()], vec!["x".to_string()], false);
    assert!(plan.step(&MoveEvent::Exists(false)));
    assert!(plan.step(&MoveEvent::Renamed(false)));
    assert_eq!(plan.next_action(), MoveAction::ResolveDir);
    assert!(plan.step(&MoveEvent::Dir("/work".to_string())));
    assert_eq!(
        plan.next_action(),
        MoveAction::Rename("/work/a".to_string(), "/work/x".to_string())
    );
    assert!(plan.step(&MoveEvent::Renamed(true)));
    assert_eq!(plan.next_action(), MoveAction::Finished);
}

#[test]
fn failed_retry_reports_resolved_target() {
    let mut plan = MassMovePlan::new(vec!["a".to_string()], vec!["x".to_string()], false);
    assert!(plan.step(&MoveEvent::Exists(false)));
    assert!(plan.step(&MoveEvent::Renamed(false)));
    assert!(plan.step(&MoveEvent::Dir("/work".to_string())));
    assert!(plan.step(&MoveEvent::Renamed(false)));
    assert_eq!(
        plan.next_action(),
        MoveAction::Fail(MassMoveError::PermissionError("/work/x".to_string()))
    );
}

#[test]
fn mismatched_event_is_refused_and_changes_nothing() {
    let mut plan = MassMovePlan::new(vec!["a".to_string()], vec!["x".to_string()], false);
    assert!(!plan.step(&MoveEvent::Renamed(true)));
    assert_eq!(plan.next_action(), MoveAction::CheckTarget("x".to_string()));
    assert!(!plan.step(&MoveEvent::Dir("/work".to_string())));
    assert_eq!(plan.next_action(), MoveAction::CheckTarget("x".to_string()));
}
