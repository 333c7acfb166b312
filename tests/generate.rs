use confidence::digest::DigestStream;
use confidence::generate::Generation;
use confidence::error::{ConfidenceError, Corruption};
use confidence::manifest::bytes_from_last_line;
use confidence::verification::ManifestCheck;
use confidence::report::{report, run_status, LineKind, ReportLine};
use confidence::tally::BytesComparison;

fn stream_of(content: &[u8]) -> DigestStream {
    let mut s = DigestStream::new();
    s.absorb(content);
    s
}

/// Verify manifest lines against a tree given as (relative path, content).
fn verify(lines: &[String], tree: &[(&str, &[u8])]) -> BytesComparison {
    let mut check = ManifestCheck::new();
    for line in lines {
        let path = match check.read_line(line).unwrap() {
            None => break,
            Some(path) => path,
        };
        let found = tree.iter().find(|(p, _)| *p == path).map(|(_, c)| *c);
        let size = found.map(|c| c.len());
        let stream = if check.needs_digest(size) { Some(stream_of(found.unwrap())) } else { None };
        assert!(check.settle(size, stream.as_ref()));
    }
    assert!(check.is_finished());
    check.tally()
}

fn generate(tree: &[(&str, &[u8])]) -> (Vec<String>, usize) {
    let mut g = Generation::new();
    let mut lines = Vec::new();
    for (path, content) in tree {
        lines.push(g.record(path, &stream_of(content)));
    }
    lines.push(g.footer());
    (lines, g.total())
}

#[test]
fn generated_manifest_of_small_tree() {
    let tree: [(&str, &[u8]); 2] = [("a", b"hi"), ("b/c", b"")];
    let (lines, total) = generate(&tree);
    assert_eq!(total, 2);
    assert_eq!(
        lines,
        vec![
            "sha1: c22b5f9178342609428d6f51b2c5af4c0bde6a42 YQ== 2".to_string(),
            "sha1: da39a3ee5e6b4b0d3255bfef95601890afd80709 Yi9j 0".to_string(),
            "2 bytes hashed".to_string(),
        ]
    );
    assert_eq!(bytes_from_last_line(lines.last().unwrap()), Ok(2));

    let t = verify(&lines, &tree);
    assert_eq!((t.agreement(), t.disagreement()), (2, 0));
    assert_eq!(run_status(&t), 0);
    let summary = report(&t, Some(2));
    assert_eq!(summary, vec![ReportLine { kind: LineKind::Agree, bytes: 2, total: Some(2) }]);
    let line = &summary[0];
    let percent = (line.bytes as f32 / line.total.unwrap() as f32) * 100.0;
    assert_eq!(
        format!("Agreed on {}/{} bytes ({}% confidence)", line.bytes, 2, percent),
        "Agreed on 2/2 bytes (100% confidence)"
    );
}

#[test]
fn round_trip_agrees_on_total() {
    let big: Vec<u8> = (0..20000u32).map(|i| (i % 13) as u8).collect();
    let tree: [(&str, &[u8]); 3] = [("x", b"hello"), ("dir/with space", &big), ("e", b"")];
    let (lines, total) = generate(&tree);
    let t = verify(&lines, &tree);
    assert_eq!((t.agreement(), t.disagreement()), (total, 0));
}

#[test]
fn missing_entry_disagrees_on_recorded_size_and_continues() {
    let tree: [(&str, &[u8]); 3] = [("a", b"hi"), ("gone", b"12345"), ("z", b"xyz")];
    let (lines, _) = generate(&tree);
    let later: [(&str, &[u8]); 2] = [("a", b"hi"), ("z", b"xyz")];
    let t = verify(&lines, &later);
    assert_eq!((t.agreement(), t.disagreement()), (5, 5));
    assert_eq!(run_status(&t), 1);
}

#[test]
fn changed_file_reports_worry() {
    let tree: [(&str, &[u8]); 2] = [("a", b"hi"), ("b", b"abc")];
    let (lines, _) = generate(&tree);
    let changed: [(&str, &[u8]); 2] = [("a", b"hi"), ("b", b"abd")];
    let t = verify(&lines, &changed);
    assert_eq!((t.agreement(), t.disagreement()), (2, 3));
    let summary = report(&t, Some(5));
    assert_eq!(
        summary,
        vec![
            ReportLine { kind: LineKind::Agree, bytes: 2, total: Some(5) },
            ReportLine { kind: LineKind::Disagree, bytes: 3, total: Some(5) },
        ]
    );
    assert_eq!(report(&t, None)[1], ReportLine { kind: LineKind::Disagree, bytes: 3, total: None });
}

#[test]
fn check_stops_at_footer_and_refuses_corrupt_lines() {
    let mut check = ManifestCheck::new();
    assert_eq!(
        check.read_line("sha1: abc"),
        Err(ConfidenceError::CorruptManifest(Corruption::WrongFieldCount))
    );
    assert!(!check.is_finished());
    assert_eq!(check.read_line("sha1: abc YQ== 4"), Ok(Some("a".to_string())));
    assert_eq!(check.awaited_size(), 4);
    assert!(!check.needs_digest(None));
    assert!(!check.needs_digest(Some(5)));
    assert!(check.needs_digest(Some(4)));
    assert!(check.settle(None, None));
    assert_eq!(check.read_line("4 bytes hashed"), Ok(None));
    assert!(check.is_finished());
    let t = check.tally();
    assert_eq!((t.agreement(), t.disagreement()), (0, 4));
}

#[test]
fn check_counts_a_digest_mismatch_as_disagreement() {
    let mut check = ManifestCheck::new();
    let line = format!("sha1: {} YQ== 2", "0".repeat(40));
    assert_eq!(check.read_line(&line), Ok(Some("a".to_string())));
    assert!(check.settle(Some(2), Some(&stream_of(b"hi"))));
    let t = check.tally();
    assert_eq!((t.agreement(), t.disagreement()), (0, 2));
}
