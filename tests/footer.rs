use confidence::footer::{last_line_start, FooterScan};

/// The last line read from the front, without its newline.
fn forward_last_line(content: &[u8]) -> Vec<u8> {
    let text = std::str::from_utf8(content).unwrap();
    text.lines().last().unwrap_or("").as_bytes().to_vec()
}

fn backward_last_line(content: &[u8]) -> Vec<u8> {
    let start = last_line_start(content);
    let mut line = content[start..].to_vec();
    if line.last() == Some(&b'\n') {
        line.pop();
    }
    line
}

#[test]
fn footer_of_one_line() {
    let m = b"0 bytes hashed\n";
    assert_eq!(last_line_start(m), 0);
    assert_eq!(backward_last_line(m), forward_last_line(m));
}

#[test]
fn footer_of_two_lines() {
    let m = b"sha1: c22b5f9178342609428d6f51b2c5af4c0bde6a42 YQ== 2\n2 bytes hashed\n";
    assert_eq!(backward_last_line(m), b"2 bytes hashed".to_vec());
    assert_eq!(backward_last_line(m), forward_last_line(m));
}

#[test]
fn footer_of_many_lines() {
    let mut m = Vec::new();
    for i in 0..50 {
        m.extend_from_slice(format!("sha1: {:040} YQ== {}\n", i, i).as_bytes());
    }
    m.extend_from_slice(b"1225 bytes hashed\n");
    assert_eq!(backward_last_line(&m), b"1225 bytes hashed".to_vec());
    assert_eq!(backward_last_line(&m), forward_last_line(&m));
    let no_newline = &m[..m.len() - 1];
    assert_eq!(backward_last_line(no_newline), forward_last_line(no_newline));
}

#[test]
fn footer_of_tiny_contents() {
    assert_eq!(last_line_start(b""), 0);
    assert_eq!(last_line_start(b"\n"), 0);
    assert_eq!(last_line_start(b"a\n\n"), 2);
}

#[test]
fn scan_reads_from_the_penultimate_byte() {
    let content = b"ab\ncd\n";
    let mut scan = FooterScan::new(content.len() as u64);
    let mut asked = Vec::new();
    while let Some(p) = scan.position() {
        asked.push(p);
        scan.feed(content[p as usize]);
    }
    assert_eq!(asked, vec![4, 3, 2]);
    assert_eq!(scan.start(), Some(3));
}
