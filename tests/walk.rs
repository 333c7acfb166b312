use confidence::report::{skip_walk_error, WalkErrorKind};

#[test]
fn only_permitted_permission_errors_are_skipped() {
    assert!(skip_walk_error(WalkErrorKind::PermissionDenied, true));
    assert!(!skip_walk_error(WalkErrorKind::PermissionDenied, false));
    assert!(!skip_walk_error(WalkErrorKind::NotFound, true));
    assert!(!skip_walk_error(WalkErrorKind::Other, true));
}
