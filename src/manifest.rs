//! The manifest: one line per hashed file, `sha1: <hex> <base64-path> <size>`,
//! and a last line `<total> bytes hashed`.

use vstd::prelude::*;
use vstd::utf8::{decode_utf8, encode_utf8, valid_utf8};
use vstd::string::StringSliceAdditionalSpecFns;
use vstd::string::StringExecFns;
use crate::error::{ConfidenceError, Corruption};
use crate::text::{
    chars_of, decimal, decimal_string, fields, parse_size, parse_size_spec,
    push_char, split_fields, views_of,
};

verus! {

/// What `base64::encode` returns for some bytes.
pub uninterp spec fn base64_text(b: Seq<u8>) -> Seq<char>;

/// What `base64::decode` returns for some text: the bytes, or `None` where
/// it reports an error.
pub uninterp spec fn base64_bytes(s: Seq<char>) -> Option<Seq<u8>>;

/// The characters of the standard base64 alphabet, padding included.
pub open spec fn is_base64_char(c: char) -> bool {
    ||| 'A' <= c <= 'Z'
    ||| 'a' <= c <= 'z'
    ||| '0' <= c <= '9'
    ||| c == '+'
    ||| c == '/'
    ||| c == '='
}

#[verifier::external_type_specification]
#[verifier::external_body]
pub struct ExDecodeError(base64::DecodeError);

/// Relies on `base64::encode` (standard alphabet, padded): the text is made
/// of the alphabet only, four characters for each started group of three
/// bytes, and `base64::decode` gives the input back.
#[verifier::external_body]
fn encode_base64(b: &[u8]) -> (r: String)
    requires
        b@.len() <= usize::MAX / 2,
    ensures
        r@ == base64_text(b@),
        forall|i: int| 0 <= i < r@.len() ==> is_base64_char(#[trigger] r@[i]),
        r@.len() == 4 * ((b@.len() + 2) / 3),
        base64_bytes(r@) == Some(b@),
{
    base64::encode(b)
}

/// Relies on `base64::decode` (standard alphabet, padded). It panics only
/// when the input length nears `usize::MAX`.
#[verifier::external_body]
fn decode_base64(s: &str) -> (r: Result<Vec<u8>, base64::DecodeError>)
    requires
        s@.len() <= usize::MAX / 8,
    ensures
        match r {
            Ok(v) => base64_bytes(s@) == Some(v@),
            Err(_) => base64_bytes(s@) is None,
        },
{
    base64::decode(s)
}

/// Relies on `std::str::from_utf8`: succeeds exactly on valid UTF-8.
#[verifier::external_body]
fn utf8_text(b: &[u8]) -> (r: Option<&str>)
    ensures
        r is Some <==> valid_utf8(b@),
        r is Some ==> r->0@ == decode_utf8(b@),
{
    std::str::from_utf8(b).ok()
}

/// The path field written for a relative path.
pub open spec fn encoded_path(path: Seq<char>) -> Seq<char> {
    base64_text(encode_utf8(path))
}

/// What reading a path field gives. A field too long to decode is refused.
pub open spec fn decoded_path(field: Seq<char>) -> Result<Seq<char>, Corruption> {
    if field.len() > usize::MAX / 8 {
        Err(Corruption::BadBase64)
    } else {
        match base64_bytes(field) {
            None => Err(Corruption::BadBase64),
            Some(b) => if valid_utf8(b) {
                Ok(decode_utf8(b))
            } else {
                Err(Corruption::BadUtf8)
            },
        }
    }
}

/// What the encoder promises of the field written for `path`: it is made of
/// the base64 alphabet, is empty only for the empty path, is short enough to
/// be decoded, and decodes back to the path's UTF-8 bytes.
pub open spec fn well_encoded(path: Seq<char>) -> bool {
    let f = encoded_path(path);
    &&& forall|i: int| 0 <= i < f.len() ==> is_base64_char(#[trigger] f[i])
    &&& (f.len() == 0 <==> path.len() == 0)
    &&& f.len() <= usize::MAX / 8
    &&& base64_bytes(f) == Some(encode_utf8(path))
}

/// Encode a relative path as a manifest field.
pub fn path_to_b64(path: &str) -> (r: String)
    requires
        path@.len() <= usize::MAX / 64,
    ensures
        r@ == encoded_path(path@),
        well_encoded(path@),
{
    let b = path.as_bytes();
    proof {
        lemma_encode_utf8_len(path@);
    }
    let r = encode_base64(b);
    proof {
        let n = b@.len();
        assert(4 * ((n + 2) / 3) <= usize::MAX / 8) by (nonlinear_arith)
            requires
                n <= 4 * (usize::MAX / 64),
                usize::MAX >= 0xffff_ffff,
        ;
    }
    r
}

proof fn lemma_encode_utf8_len(s: Seq<char>)
    ensures
        s.len() <= encode_utf8(s).len() <= 4 * s.len(),
        encode_utf8(s).len() == 0 <==> s.len() == 0,
    decreases s.len(),
{
    if s.len() > 0 {
        vstd::utf8::encode_utf8_first_scalar(s);
        lemma_encode_utf8_len(s.drop_first());
    }
}

/// Decode a manifest path field back to the relative path it stands for.
pub fn path_string_from_b64(b64: &str) -> (r: Result<String, ConfidenceError>)
    ensures
        match decoded_path(b64@) {
            Ok(p) => r is Ok && r->Ok_0@ == p,
            Err(c) => r == Err::<String, ConfidenceError>(ConfidenceError::CorruptManifest(c)),
        },
{
    if chars_of(b64).len() > usize::MAX / 8 {
        return Err(ConfidenceError::CorruptManifest(Corruption::BadBase64));
    }
    match decode_base64(b64) {
        Err(_) => Err(ConfidenceError::CorruptManifest(Corruption::BadBase64)),
        Ok(bytes) => match utf8_text(bytes.as_slice()) {
            Some(s) => Ok(s.to_owned()),
            None => Err(ConfidenceError::CorruptManifest(Corruption::BadUtf8)),
        },
    }
}

pub open spec fn sha1_tag() -> Seq<char> {
    seq!['s', 'h', 'a', '1', ':']
}

pub open spec fn bytes_word() -> Seq<char> {
    seq!['b', 'y', 't', 'e', 's']
}

pub open spec fn hashed_word() -> Seq<char> {
    seq!['h', 'a', 's', 'h', 'e', 'd']
}

/// The body line of one file: its digest, its encoded path and its size.
pub open spec fn body_line_spec(digest: Seq<char>, field: Seq<char>, size: nat) -> Seq<char> {
    sha1_tag() + seq![' '] + digest + seq![' '] + field + seq![' '] + decimal(size)
}

/// The footer line: the total number of bytes hashed.
pub open spec fn footer_line_spec(total: nat) -> Seq<char> {
    decimal(total) + seq![' '] + bytes_word() + seq![' '] + hashed_word()
}

/// A line read from a manifest, as far as the grammar decides it.
pub enum LineModel {
    Footer,
    Entry { digest: Seq<char>, path: Seq<char>, size: nat },
}

pub open spec fn is_footer_fields(f: Seq<Seq<char>>) -> bool {
    f.len() == 3 && f[1] == bytes_word() && f[2] == hashed_word()
}

/// How a line of the manifest body reads: a line `<integer> bytes hashed`
/// is the footer and ends the body; any other line must have four fields, a
/// byte count and a decodable path.
pub open spec fn parse_line_spec(line: Seq<char>) -> Result<LineModel, Corruption> {
    let f = fields(line);
    if is_footer_fields(f) && parse_size_spec(f[0]) is Some {
        Ok(LineModel::Footer)
    } else if f.len() != 4 {
        Err(Corruption::WrongFieldCount)
    } else {
        match parse_size_spec(f[3]) {
            None => Err(Corruption::BadNumber),
            Some(n) => match decoded_path(f[2]) {
                Err(c) => Err(c),
                Ok(p) => Ok(LineModel::Entry { digest: f[1], path: p, size: n as nat }),
            },
        }
    }
}

/// The byte total that a footer line records.
pub open spec fn footer_value(line: Seq<char>) -> Result<usize, Corruption> {
    let f = fields(line);
    if !is_footer_fields(f) {
        Err(Corruption::BadFooter)
    } else {
        match parse_size_spec(f[0]) {
            None => Err(Corruption::BadNumber),
            Some(n) => Ok(n),
        }
    }
}

/// One body line of a manifest: a file's digest, relative path and size.
pub struct ManifestEntry {
    pub digest: String,
    pub path: String,
    pub size: usize,
}

pub enum ManifestLine {
    Footer,
    Entry(ManifestEntry),
}

impl View for ManifestLine {
    type V = LineModel;

    open spec fn view(&self) -> LineModel {
        match self {
            ManifestLine::Footer => LineModel::Footer,
            ManifestLine::Entry(e) => LineModel::Entry {
                digest: e.digest@,
                path: e.path@,
                size: e.size as nat,
            },
        }
    }
}

/// The text of some characters.
pub fn string_of(v: &Vec<char>) -> (r: String)
    ensures
        r@ == v@,
{
    let mut r = String::new();
    let mut i: usize = 0;
    while i < v.len()
        invariant
            i <= v@.len(),
            r@ == v@.take(i as int),
        decreases v@.len() - i,
    {
        assert(v@.take(i + 1) =~= v@.take(i as int).push(v@[i as int]));
        push_char(&mut r, v[i]);
        i = i + 1;
    }
    assert(v@.take(i as int) =~= v@);
    r
}

pub(crate) fn same_chars(a: &Vec<char>, b: &Vec<char>) -> (r: bool)
    ensures
        r == (a@ == b@),
{
    if a.len() != b.len() {
        return false;
    }
    let mut i: usize = 0;
    while i < a.len()
        invariant
            a@.len() == b@.len(),
            i <= a@.len(),
            forall|k: int| 0 <= k < i ==> a@[k] == b@[k],
        decreases a@.len() - i,
    {
        if a[i] != b[i] {
            return false;
        }
        i = i + 1;
    }
    assert(a@ =~= b@);
    true
}

fn footer_shaped(f: &Vec<Vec<char>>) -> (r: bool)
    ensures
        r == is_footer_fields(views_of(f@)),
{
    if f.len() != 3 {
        return false;
    }
    let bytes = chars_of("bytes");
    let hashed = chars_of("hashed");
    proof {
        reveal_strlit("bytes");
        reveal_strlit("hashed");
        assert(bytes@ =~= bytes_word());
        assert(hashed@ =~= hashed_word());
    }
    same_chars(&f[1], &bytes) && same_chars(&f[2], &hashed)
}

/// Read the byte total from a manifest's last line.
pub fn bytes_from_last_line(last_line: &str) -> (r: Result<usize, ConfidenceError>)
    ensures
        match footer_value(last_line@) {
            Ok(n) => r == Ok::<usize, ConfidenceError>(n),
            Err(c) => r == Err::<usize, ConfidenceError>(ConfidenceError::CorruptManifest(c)),
        },
{
    let f = split_fields(&chars_of(last_line));
    if !footer_shaped(&f) {
        return Err(ConfidenceError::CorruptManifest(Corruption::BadFooter));
    }
    match parse_size(&f[0]) {
        None => Err(ConfidenceError::CorruptManifest(Corruption::BadNumber)),
        Some(n) => Ok(n),
    }
}

/// Read one line of a manifest body.
pub fn parse_line(line: &str) -> (r: Result<ManifestLine, ConfidenceError>)
    ensures
        match parse_line_spec(line@) {
            Ok(m) => r is Ok && r->Ok_0@ == m,
            Err(c) => r is Err && r->Err_0 == ConfidenceError::CorruptManifest(c),
        },
{
    let f = split_fields(&chars_of(line));
    if footer_shaped(&f) && parse_size(&f[0]).is_some() {
        return Ok(ManifestLine::Footer);
    }
    if f.len() != 4 {
        return Err(ConfidenceError::CorruptManifest(Corruption::WrongFieldCount));
    }
    let size = match parse_size(&f[3]) {
        None => {
            return Err(ConfidenceError::CorruptManifest(Corruption::BadNumber));
        },
        Some(n) => n,
    };
    let path = path_string_from_b64(string_of(&f[2]).as_str())?;
    Ok(ManifestLine::Entry(ManifestEntry { digest: string_of(&f[1]), path, size }))
}

/// The body line recording one hashed file.
pub fn body_line(digest: &str, path: &str, size: usize) -> (r: String)
    requires
        path@.len() <= usize::MAX / 64,
    ensures
        r@ == body_line_spec(digest@, encoded_path(path@), size as nat),
        well_encoded(path@),
{
    let mut r = "sha1: ".to_owned();
    proof {
        reveal_strlit("sha1: ");
        reveal_strlit(" ");
    }
    r.append(digest);
    r.append(" ");
    r.append(path_to_b64(path).as_str());
    r.append(" ");
    r.append(decimal_string(size).as_str());
    assert(r@ =~= body_line_spec(digest@, encoded_path(path@), size as nat));
    r
}

/// The footer line recording the total number of bytes hashed.
pub fn footer_line(total: usize) -> (r: String)
    ensures
        r@ == footer_line_spec(total as nat),
{
    let mut r = decimal_string(total);
    proof {
        reveal_strlit(" bytes hashed");
    }
    r.append(" bytes hashed");
    assert(r@ =~= footer_line_spec(total as nat));
    r
}

} // verus!
