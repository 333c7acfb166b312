//! Manifest generation, and what verifying a tree against a manifest
//! amounts to.

use vstd::prelude::*;
use crate::compare::{digest_verdict_spec, disagreed, size_verdict_spec};
use crate::digest::{DigestStream, is_lower_hex, sha1_hex};
use crate::error::Corruption;
use crate::manifest::{
    bytes_word, hashed_word, is_base64_char, sha1_tag, decoded_path,
    LineModel, body_line, body_line_spec, encoded_path, footer_line, footer_line_spec,
    parse_line_spec, well_encoded,
};
use crate::tally::{Tally, combine, zero};
use crate::text::{
    decimal, fields, is_space, lemma_decimal_digits, lemma_parse_decimal, lemma_word_len_exact,
};
use vstd::utf8::{encode_utf8_decode_utf8, encode_utf8_valid_utf8};

verus! {

/// A regular file as a generation run hashed it.
pub struct GeneratedFile {
    pub path: Seq<char>,
    pub content: Seq<u8>,
}

/// The body line written for a file.
pub open spec fn body_of(f: GeneratedFile) -> Seq<char> {
    body_line_spec(sha1_hex(f.content), encoded_path(f.path), f.content.len())
}

/// Total size of some files.
pub open spec fn total_of(files: Seq<GeneratedFile>) -> nat
    decreases files.len(),
{
    if files.len() == 0 {
        0
    } else {
        files[0].content.len() + total_of(files.drop_first())
    }
}

/// The manifest for some files: one body line each, then the footer.
pub open spec fn manifest_lines(files: Seq<GeneratedFile>, total: nat) -> Seq<Seq<char>> {
    files.map_values(|f: GeneratedFile| body_of(f)).push(footer_line_spec(total))
}

/// What digesting gave for this content, as the digest wrapper promises it.
pub open spec fn good_digest(content: Seq<u8>) -> bool {
    &&& sha1_hex(content).len() == 40
    &&& forall|i: int| 0 <= i < 40 ==> is_lower_hex(#[trigger] sha1_hex(content)[i])
}

proof fn lemma_total_push(files: Seq<GeneratedFile>, f: GeneratedFile)
    ensures
        total_of(files.push(f)) == total_of(files) + f.content.len(),
    decreases files.len(),
{
    if files.len() > 0 {
        assert(files.push(f).drop_first() =~= files.drop_first().push(f));
        lemma_total_push(files.drop_first(), f);
    } else {
        assert(files.push(f).drop_first() =~= Seq::<GeneratedFile>::empty());
        assert(total_of(Seq::<GeneratedFile>::empty()) == 0);
    }
}

/// A manifest generation run: the files hashed so far and their total size.
pub struct Generation {
    total: usize,
    files: Ghost<Seq<GeneratedFile>>,
}

impl Generation {
    /// The files recorded so far, in the order their lines were written.
    pub closed spec fn files(&self) -> Seq<GeneratedFile> {
        self.files@
    }

    pub closed spec fn total_spec(&self) -> nat {
        self.total as nat
    }

    pub closed spec fn wf(&self) -> bool {
        &&& self.total == total_of(self.files@)
        &&& forall|i: int|
            0 <= i < self.files@.len() ==> {
                &&& well_encoded(#[trigger] self.files@[i].path)
                &&& good_digest(self.files@[i].content)
                &&& self.files@[i].content.len() <= usize::MAX
            }
    }

    pub fn new() -> (r: Self)
        ensures
            r.wf(),
            r.files() == Seq::<GeneratedFile>::empty(),
            r.total_spec() == 0,
    {
        Generation { total: 0, files: Ghost(Seq::empty()) }
    }

    /// Total number of bytes hashed so far.
    pub fn total(&self) -> (r: usize)
        ensures
            r == self.total_spec(),
    {
        self.total
    }

    /// Whether a file of `n` more bytes keeps the total within `usize`.
    pub fn has_room(&self, n: usize) -> (r: bool)
        ensures
            r == (self.total_spec() + n <= usize::MAX),
    {
        self.total <= usize::MAX - n
    }

    /// Record a file whose content went through `stream`, and return the
    /// body line to write for it.
    pub fn record(&mut self, rel_path: &str, stream: &DigestStream) -> (line: String)
        requires
            old(self).wf(),
            stream.wf(),
            old(self).total_spec() + stream@.len() <= usize::MAX,
            rel_path@.len() <= usize::MAX / 64,
        ensures
            final(self).wf(),
            final(self).files() == old(self).files().push(
                GeneratedFile { path: rel_path@, content: stream@ },
            ),
            final(self).total_spec() == old(self).total_spec() + stream@.len(),
            line@ == body_of(GeneratedFile { path: rel_path@, content: stream@ }),
    {
        let (digest, size) = stream.finish();
        let line = body_line(digest.as_str(), rel_path, size);
        let ghost f = GeneratedFile { path: rel_path@, content: stream@ };
        proof {
            assert(digest@ == sha1_hex(stream@));
            assert forall|i: int| 0 <= i < 40 implies is_lower_hex(#[trigger] sha1_hex(stream@)[i]) by {
                assert(is_lower_hex(digest@[i]));
            }
            assert(good_digest(stream@));
            lemma_total_push(self.files@, f);
        }
        self.total = self.total + size;
        self.files = Ghost(self.files@.push(f));
        proof {
            assert forall|i: int| 0 <= i < self.files@.len() implies {
                &&& well_encoded(#[trigger] self.files@[i].path)
                &&& good_digest(self.files@[i].content)
                &&& self.files@[i].content.len() <= usize::MAX
            } by {
                if i == self.files@.len() - 1 {
                    assert(self.files@[i] == f);
                } else {
                    assert(self.files@[i] == old(self).files@[i]);
                }
            }
        }
        line
    }

    /// The footer line to write once every file is recorded.
    pub fn footer(&self) -> (r: String)
        ensures
            r@ == footer_line_spec(self.total_spec()),
    {
        footer_line(self.total)
    }
}

/// The content at a relative path of a tree, if a regular file is there.
pub open spec fn lookup(tree: Map<Seq<char>, Seq<u8>>, path: Seq<char>) -> Option<Seq<u8>> {
    if tree.dom().contains(path) {
        Some(tree[path])
    } else {
        None
    }
}

/// What one manifest entry contributes when the file at its path has
/// content `found` (or cannot be read): sizes first, then digests.
pub open spec fn entry_outcome(digest: Seq<char>, size: nat, found: Option<Seq<u8>>) -> Tally {
    match found {
        None => disagreed(size),
        Some(c) => match size_verdict_spec(size, Some(c.len())) {
            Some(t) => t,
            None => digest_verdict_spec(digest, size, Some((sha1_hex(c), c.len()))),
        },
    }
}

/// Verifying a tree against manifest lines: body lines are read in order
/// until the footer; each entry is checked against the tree; a line that
/// breaks the grammar makes the manifest corrupt.
pub open spec fn verify_lines(lines: Seq<Seq<char>>, tree: Map<Seq<char>, Seq<u8>>) -> Result<
    Tally,
    Corruption,
>
    decreases lines.len(),
{
    if lines.len() == 0 {
        Ok(zero())
    } else {
        match parse_line_spec(lines[0]) {
            Err(c) => Err(c),
            Ok(LineModel::Footer) => Ok(zero()),
            Ok(LineModel::Entry { digest, path, size }) => match verify_lines(
                lines.drop_first(),
                tree,
            ) {
                Err(c) => Err(c),
                Ok(t) => Ok(combine(entry_outcome(digest, size, lookup(tree, path)), t)),
            },
        }
    }
}

proof fn lemma_fields_word_then(w: Seq<char>, rest: Seq<char>)
    requires
        w.len() > 0,
        forall|i: int| 0 <= i < w.len() ==> !is_space(#[trigger] w[i]),
    ensures
        fields(w + seq![' '] + rest) == seq![w] + fields(rest),
{
    let s = w + seq![' '] + rest;
    assert forall|m: int| 0 <= m < w.len() implies !is_space(#[trigger] s[m]) by {
        assert(s[m] == w[m]);
    }
    lemma_word_len_exact(s, w.len());
    assert(s.take(w.len() as int) =~= w);
    let t = s.skip(w.len() as int);
    assert(t.drop_first() =~= rest);
    assert(is_space(t[0]));
    assert(fields(t) == fields(t.drop_first()));
}

proof fn lemma_fields_word(w: Seq<char>)
    requires
        w.len() > 0,
        forall|i: int| 0 <= i < w.len() ==> !is_space(#[trigger] w[i]),
    ensures
        fields(w) == seq![w],
{
    lemma_word_len_exact(w, w.len());
    assert(w.take(w.len() as int) =~= w);
    assert(w.skip(w.len() as int) =~= Seq::<char>::empty());
    assert(fields(Seq::<char>::empty()) =~= Seq::<Seq<char>>::empty());
    assert(seq![w] + Seq::<Seq<char>>::empty() =~= seq![w]);
}

proof fn lemma_decimal_no_space(n: nat)
    ensures
        decimal(n).len() > 0,
        forall|i: int| 0 <= i < decimal(n).len() ==> !is_space(#[trigger] decimal(n)[i]),
{
    lemma_decimal_digits(n);
}

/// A body line written for a file reads back as that file's entry.
proof fn lemma_parse_body(f: GeneratedFile)
    requires
        well_encoded(f.path),
        f.path.len() > 0,
        good_digest(f.content),
        f.content.len() <= usize::MAX,
    ensures
        parse_line_spec(body_of(f)) == Ok::<LineModel, Corruption>(
            LineModel::Entry { digest: sha1_hex(f.content), path: f.path, size: f.content.len() },
        ),
{
    let tag = sha1_tag();
    let hex = sha1_hex(f.content);
    let field = encoded_path(f.path);
    let num = decimal(f.content.len());
    lemma_decimal_no_space(f.content.len());
    assert forall|i: int| 0 <= i < hex.len() implies !is_space(#[trigger] hex[i]) by {
        assert(is_lower_hex(hex[i]));
    }
    assert forall|i: int| 0 <= i < field.len() implies !is_space(#[trigger] field[i]) by {
        assert(is_base64_char(field[i]));
    }
    assert forall|i: int| 0 <= i < tag.len() implies !is_space(#[trigger] tag[i]) by {}
    let line = body_of(f);
    assert(line =~= tag + seq![' '] + (hex + seq![' '] + (field + seq![' '] + num)));
    lemma_fields_word_then(tag, hex + seq![' '] + (field + seq![' '] + num));
    lemma_fields_word_then(hex, field + seq![' '] + num);
    lemma_fields_word_then(field, num);
    lemma_fields_word(num);
    let fs = fields(line);
    assert(fs =~= seq![tag, hex, field, num]);
    lemma_parse_decimal(f.content.len() as usize);
    encode_utf8_valid_utf8(f.path);
    encode_utf8_decode_utf8(f.path);
    assert(decoded_path(field) == Ok::<Seq<char>, Corruption>(f.path));
}

/// The footer line reads back as the footer.
proof fn lemma_parse_footer(total: nat)
    requires
        total <= usize::MAX,
    ensures
        parse_line_spec(footer_line_spec(total)) == Ok::<LineModel, Corruption>(LineModel::Footer),
{
    let num = decimal(total);
    lemma_decimal_no_space(total);
    let b = bytes_word();
    let h = hashed_word();
    assert forall|i: int| 0 <= i < b.len() implies !is_space(#[trigger] b[i]) by {}
    assert forall|i: int| 0 <= i < h.len() implies !is_space(#[trigger] h[i]) by {}
    let line = footer_line_spec(total);
    assert(line =~= num + seq![' '] + (b + seq![' '] + h));
    lemma_fields_word_then(num, b + seq![' '] + h);
    lemma_fields_word_then(b, h);
    lemma_fields_word(h);
    assert(fields(line) =~= seq![num, b, h]);
    lemma_parse_decimal(total as usize);
}

proof fn lemma_verify_generated(
    files: Seq<GeneratedFile>,
    total: nat,
    tree: Map<Seq<char>, Seq<u8>>,
)
    requires
        total <= usize::MAX,
        forall|i: int|
            0 <= i < files.len() ==> {
                &&& well_encoded(#[trigger] files[i].path)
                &&& files[i].path.len() > 0
                &&& good_digest(files[i].content)
                &&& files[i].content.len() <= usize::MAX
                &&& lookup(tree, files[i].path) == Some(files[i].content)
            },
    ensures
        verify_lines(manifest_lines(files, total), tree) == Ok::<Tally, Corruption>(
            Tally { agreement: total_of(files), disagreement: 0 },
        ),
    decreases files.len(),
{
    let lines = manifest_lines(files, total);
    if files.len() == 0 {
        lemma_parse_footer(total);
        assert(lines =~= seq![footer_line_spec(total)]);
    } else {
        let f = files[0];
        lemma_parse_body(f);
        assert(lines[0] == body_of(f));
        assert(lines.drop_first() =~= manifest_lines(files.drop_first(), total));
        lemma_verify_generated(files.drop_first(), total, tree);
        assert(entry_outcome(sha1_hex(f.content), f.content.len(), Some(f.content)) == (Tally {
            agreement: f.content.len(),
            disagreement: 0,
        }));
    }
}

/// Total size of the files whose path the tree still holds, and of those
/// whose path it no longer holds.
pub open spec fn split_totals(files: Seq<GeneratedFile>, tree: Map<Seq<char>, Seq<u8>>) -> Tally
    decreases files.len(),
{
    if files.len() == 0 {
        zero()
    } else {
        let rest = split_totals(files.drop_first(), tree);
        if lookup(tree, files[0].path) is Some {
            Tally { agreement: rest.agreement + files[0].content.len(), ..rest }
        } else {
            Tally { disagreement: rest.disagreement + files[0].content.len(), ..rest }
        }
    }
}

proof fn lemma_verify_with_missing(
    files: Seq<GeneratedFile>,
    total: nat,
    tree: Map<Seq<char>, Seq<u8>>,
)
    requires
        total <= usize::MAX,
        forall|i: int|
            0 <= i < files.len() ==> {
                &&& well_encoded(#[trigger] files[i].path)
                &&& files[i].path.len() > 0
                &&& good_digest(files[i].content)
                &&& files[i].content.len() <= usize::MAX
                &&& (lookup(tree, files[i].path) is None || lookup(tree, files[i].path) == Some(
                    files[i].content,
                ))
            },
    ensures
        verify_lines(manifest_lines(files, total), tree) == Ok::<Tally, Corruption>(
            split_totals(files, tree),
        ),
    decreases files.len(),
{
    let lines = manifest_lines(files, total);
    if files.len() == 0 {
        lemma_parse_footer(total);
        assert(lines =~= seq![footer_line_spec(total)]);
    } else {
        let f = files[0];
        lemma_parse_body(f);
        assert(lines[0] == body_of(f));
        assert(lines.drop_first() =~= manifest_lines(files.drop_first(), total));
        lemma_verify_with_missing(files.drop_first(), total, tree);
    }
}

/// Verifying a tree against the manifest generated for it, after some of
/// its files went away: each missing file disagrees on its recorded size,
/// the verification is not cut short, and every file still present agrees
/// on its size. Present files must be unchanged, and every path non-empty.
pub proof fn lemma_missing_files(g: Generation, tree: Map<Seq<char>, Seq<u8>>)
    requires
        g.wf(),
        forall|i: int|
            0 <= i < g.files().len() ==> {
                &&& (#[trigger] g.files()[i]).path.len() > 0
                &&& (lookup(tree, g.files()[i].path) is None || lookup(tree, g.files()[i].path)
                    == Some(g.files()[i].content))
            },
    ensures
        verify_lines(manifest_lines(g.files(), g.total_spec()), tree) == Ok::<Tally, Corruption>(
            split_totals(g.files(), tree),
        ),
        split_totals(g.files(), tree).agreement + split_totals(g.files(), tree).disagreement
            == g.total_spec(),
{
    lemma_verify_with_missing(g.files(), g.total_spec(), tree);
    lemma_split_totals_sum(g.files(), tree);
}

proof fn lemma_split_totals_sum(files: Seq<GeneratedFile>, tree: Map<Seq<char>, Seq<u8>>)
    ensures
        split_totals(files, tree).agreement + split_totals(files, tree).disagreement == total_of(
            files,
        ),
    decreases files.len(),
{
    if files.len() > 0 {
        lemma_split_totals_sum(files.drop_first(), tree);
    }
}

/// Generating a manifest for a tree and then verifying that same tree
/// against it finds every byte in agreement: agreement equals the total
/// hashed and disagreement is zero. Every file must have a non-empty path
/// below the root (a root that is itself a file writes an empty path field).
pub proof fn lemma_round_trip(g: Generation, tree: Map<Seq<char>, Seq<u8>>)
    requires
        g.wf(),
        forall|i: int|
            0 <= i < g.files().len() ==> {
                &&& (#[trigger] g.files()[i]).path.len() > 0
                &&& lookup(tree, g.files()[i].path) == Some(g.files()[i].content)
            },
    ensures
        verify_lines(manifest_lines(g.files(), g.total_spec()), tree) == Ok::<Tally, Corruption>(
            Tally { agreement: g.total_spec(), disagreement: 0 },
        ),
{
    lemma_verify_generated(g.files(), g.total_spec(), tree);
}

} // verus!
