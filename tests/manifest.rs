use confidence::error::{ConfidenceError, Corruption};
use confidence::manifest::{
    body_line, bytes_from_last_line, footer_line, parse_line, path_string_from_b64,
    path_to_b64, ManifestLine,
};

const HI: &str = "c22b5f9178342609428d6f51b2c5af4c0bde6a42";

fn corrupt(c: Corruption) -> ConfidenceError {
    ConfidenceError::CorruptManifest(c)
}

#[test]
fn footer_value_is_read() {
    assert_eq!(bytes_from_last_line("2 bytes hashed"), Ok(2));
    assert_eq!(bytes_from_last_line("19 bytes hashed\n"), Ok(19));
    assert_eq!(bytes_from_last_line("  0   bytes\thashed "), Ok(0));
    assert_eq!(bytes_from_last_line("+7 bytes hashed"), Ok(7));
}

#[test]
fn footer_errors() {
    assert_eq!(bytes_from_last_line(""), Err(corrupt(Corruption::BadFooter)));
    assert_eq!(bytes_from_last_line("2 byte hashed"), Err(corrupt(Corruption::BadFooter)));
    assert_eq!(bytes_from_last_line("2 bytes hashed now"), Err(corrupt(Corruption::BadFooter)));
    assert_eq!(bytes_from_last_line("two bytes hashed"), Err(corrupt(Corruption::BadNumber)));
    assert_eq!(bytes_from_last_line("-2 bytes hashed"), Err(corrupt(Corruption::BadNumber)));
    assert_eq!(
        bytes_from_last_line("99999999999999999999999 bytes hashed"),
        Err(corrupt(Corruption::BadNumber))
    );
}

#[test]
fn path_fields_round_trip() {
    assert_eq!(path_to_b64("a"), "YQ==");
    assert_eq!(path_to_b64("b/c"), "Yi9j");
    assert_eq!(path_to_b64("with space"), "d2l0aCBzcGFjZQ==");
    assert_eq!(path_string_from_b64("d2l0aCBzcGFjZQ=="), Ok("with space".to_string()));
    assert_eq!(path_string_from_b64(&path_to_b64("é/ü")), Ok("é/ü".to_string()));
}

#[test]
fn path_field_errors() {
    assert_eq!(path_string_from_b64("!!!!"), Err(corrupt(Corruption::BadBase64)));
    assert_eq!(path_string_from_b64("/w=="), Err(corrupt(Corruption::BadUtf8)));
}

#[test]
fn lines_are_written() {
    assert_eq!(body_line(HI, "a", 2), format!("sha1: {} YQ== 2", HI));
    assert_eq!(footer_line(2), "2 bytes hashed");
    assert_eq!(footer_line(0), "0 bytes hashed");
    assert_eq!(footer_line(1234567890), "1234567890 bytes hashed");
}

#[test]
fn body_line_reads_back() {
    let line = body_line(HI, "dir/file name", 2);
    match parse_line(&line) {
        Ok(ManifestLine::Entry(e)) => {
            assert_eq!(e.digest, HI);
            assert_eq!(e.path, "dir/file name");
            assert_eq!(e.size, 2);
        }
        _ => panic!("body line did not read back"),
    }
    assert!(matches!(parse_line("2 bytes hashed"), Ok(ManifestLine::Footer)));
}

#[test]
fn line_errors() {
    assert!(matches!(
        parse_line("sha1: abc YQ=="),
        Err(ConfidenceError::CorruptManifest(Corruption::WrongFieldCount))
    ));
    assert!(matches!(
        parse_line("sha1: abc YQ== x"),
        Err(ConfidenceError::CorruptManifest(Corruption::BadNumber))
    ));
    assert!(matches!(
        parse_line("x bytes hashed"),
        Err(ConfidenceError::CorruptManifest(Corruption::WrongFieldCount))
    ));
    assert!(matches!(
        parse_line("sha1: abc !!!! 3"),
        Err(ConfidenceError::CorruptManifest(Corruption::BadBase64))
    ));
}
