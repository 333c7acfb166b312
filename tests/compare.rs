use confidence::compare::{
    check_digest, check_size, compare_contents, corresponding_path, join_path, pair_verdict, relative_path,
    Counterpart, LockStep, Step, Verdict,
};
use confidence::digest::CHUNK_SIZE;
use confidence::error::ConfidenceError;
use confidence::report::{report, LineKind, ReportLine};
use confidence::tally::BytesComparison;

fn pair(t: &BytesComparison) -> (usize, usize) {
    (t.agreement(), t.disagreement())
}

#[test]
fn paths_map_between_roots() {
    assert_eq!(relative_path("tests/test_dir_0/a/b", "tests/test_dir_0"), Some("a/b".to_string()));
    assert_eq!(relative_path("root/", "root/"), Some(String::new()));
    assert_eq!(relative_path("root/x", "root/"), Some("x".to_string()));
    assert_eq!(relative_path("rooted/x", "root"), None);
    assert_eq!(relative_path("other/x", "root"), None);
    assert_eq!(join_path("right", "a/b"), "right/a/b");
    assert_eq!(join_path("right/", "a"), "right/a");
    assert_eq!(
        corresponding_path("tests/test_dir_0/k/t", "tests/test_dir_0", "tests/test_dir_1"),
        Ok("tests/test_dir_1/k/t".to_string())
    );
}

#[test]
fn path_outside_root_is_a_mismatch() {
    assert_eq!(
        corresponding_path("elsewhere/f", "left", "right"),
        Err(ConfidenceError::PathMismatch {
            root: "left".to_string(),
            path: "elsewhere/f".to_string(),
        })
    );
}

#[test]
fn identity_short_circuit_agrees() {
    let t = pair_verdict(42, Counterpart::SameFile).unwrap();
    assert_eq!(pair(&t), (42, 0));
}

#[test]
fn size_mismatch_disagrees_on_larger_size() {
    assert_eq!(pair(&pair_verdict(3, Counterpart::Sized(10)).unwrap()), (0, 10));
    assert_eq!(pair(&pair_verdict(10, Counterpart::Sized(3)).unwrap()), (0, 10));
    assert!(pair_verdict(10, Counterpart::Sized(10)).is_none());
}

#[test]
fn missing_counterpart_disagrees_on_left_size() {
    assert_eq!(pair(&pair_verdict(5, Counterpart::Missing).unwrap()), (0, 5));
}

#[test]
fn lock_step_agrees_on_equal_contents() {
    let content: Vec<u8> = (0..(2 * CHUNK_SIZE + 5)).map(|i| (i % 7) as u8).collect();
    assert_eq!(pair(&compare_contents(&content, &content)), (2 * CHUNK_SIZE + 5, 0));
    let exact: Vec<u8> = vec![1u8; CHUNK_SIZE];
    assert_eq!(pair(&compare_contents(&exact, &exact)), (CHUNK_SIZE, 0));
    assert_eq!(pair(&compare_contents(b"", b"")), (0, 0));
}

#[test]
fn lock_step_disagrees_on_any_difference() {
    let a: Vec<u8> = vec![0u8; CHUNK_SIZE + 3];
    let mut b = a.clone();
    b[CHUNK_SIZE + 1] = 1;
    assert_eq!(pair(&compare_contents(&a, &b)), (0, CHUNK_SIZE + 3));
    let mut step = LockStep::new(4);
    assert!(matches!(step.step(b"ab", b"abc"), Step::Done(_)));
}

#[test]
fn direct_comparison_with_one_byte_changed() {
    let files: Vec<(&[u8], &[u8])> =
        vec![(b"hi", b"hi"), (b"abc", b"abd"), (b"", b""), (b"xy", b"xy")];
    let mut total = BytesComparison::empty();
    for (l, r) in files {
        let t = match pair_verdict(l.len(), Counterpart::Sized(r.len())) {
            Some(t) => t,
            None => compare_contents(l, r),
        };
        total.add_assign(t);
    }
    assert_eq!(pair(&total), (4, 3));
    assert_eq!(
        report(&total, Some(7)),
        vec![
            ReportLine { kind: LineKind::Agree, bytes: 4, total: Some(7) },
            ReportLine { kind: LineKind::Disagree, bytes: 3, total: Some(7) },
        ]
    );
}

#[test]
fn entry_checks() {
    match check_size(2, None) {
        Verdict::Settled(t) => assert_eq!(pair(&t), (0, 2)),
        Verdict::NeedsDigest => panic!("an unreadable file needs no digest"),
    }
    match check_size(2, Some(9)) {
        Verdict::Settled(t) => assert_eq!(pair(&t), (0, 9)),
        Verdict::NeedsDigest => panic!("sizes differ"),
    }
    assert!(matches!(check_size(2, Some(2)), Verdict::NeedsDigest));
    let d = "c22b5f9178342609428d6f51b2c5af4c0bde6a42";
    assert_eq!(pair(&check_digest(d, 2, Some((d.to_string(), 2)))), (2, 0));
    assert_eq!(pair(&check_digest(d, 2, Some(("0".repeat(40), 2)))), (0, 2));
    assert_eq!(pair(&check_digest(d, 2, None)), (0, 2));
}
