//! The comparator's decisions. The caller walks the tree and reads the
//! files; these functions decide what each observation means for the tally.

use vstd::prelude::*;
use vstd::string::StringExecFns;
use crate::digest::CHUNK_SIZE;
use crate::error::ConfidenceError;
use crate::tally::{BytesComparison, Tally};
use crate::text::{chars_of, push_char};
use crate::manifest::{same_chars, string_of};

verus! {

pub open spec fn max(a: nat, b: nat) -> nat {
    if a >= b {
        a
    } else {
        b
    }
}

pub open spec fn agreed(n: nat) -> Tally {
    Tally { agreement: n, disagreement: 0 }
}

pub open spec fn disagreed(n: nat) -> Tally {
    Tally { agreement: 0, disagreement: n }
}

/// The part of `path` below `root`, if `path` lies under `root`.
pub open spec fn strip_root(path: Seq<char>, root: Seq<char>) -> Option<Seq<char>> {
    if root.len() <= path.len() && path.take(root.len() as int) == root {
        let rest = path.skip(root.len() as int);
        if rest.len() == 0 {
            Some(rest)
        } else if rest[0] == '/' {
            Some(rest.drop_first())
        } else if root.len() > 0 && root.last() == '/' {
            Some(rest)
        } else {
            None
        }
    } else {
        None
    }
}

/// `rel` placed below `root`.
pub open spec fn join(root: Seq<char>, rel: Seq<char>) -> Seq<char> {
    if rel.len() == 0 {
        root
    } else if root.len() > 0 && root.last() == '/' {
        root + rel
    } else {
        root + seq!['/'] + rel
    }
}

/// The path below `root`, or `None` where `path` does not lie under it.
pub fn relative_path(path: &str, root: &str) -> (r: Option<String>)
    ensures
        match strip_root(path@, root@) {
            Some(rel) => r is Some && r->0@ == rel,
            None => r is None,
        },
{
    let p = chars_of(path);
    let q = chars_of(root);
    if q.len() > p.len() {
        return None;
    }
    let mut i: usize = 0;
    while i < q.len()
        invariant
            p@ == path@,
            q@ == root@,
            q@.len() <= p@.len(),
            i <= q@.len(),
            forall|k: int| 0 <= k < i ==> p@[k] == q@[k],
        decreases q@.len() - i,
    {
        if p[i] != q[i] {
            assert(p@.take(q@.len() as int)[i as int] != q@[i as int]);
            assert(p@.take(q@.len() as int) != q@);
            return None;
        }
        i = i + 1;
    }
    assert(p@.take(q@.len() as int) =~= q@);
    let start: usize = if q.len() == p.len() {
        q.len()
    } else if p[q.len()] == '/' {
        q.len() + 1
    } else if q.len() > 0 && q[q.len() - 1] == '/' {
        q.len()
    } else {
        assert(p@.skip(q@.len() as int)[0] == p@[q@.len() as int]);
        return None;
    };
    let mut rel = String::new();
    let mut k: usize = start;
    while k < p.len()
        invariant
            start <= k <= p@.len(),
            rel@ == p@.subrange(start as int, k as int),
        decreases p@.len() - k,
    {
        assert(p@.subrange(start as int, k + 1) =~= p@.subrange(start as int, k as int).push(
            p@[k as int],
        ));
        push_char(&mut rel, p[k]);
        k = k + 1;
    }
    proof {
        let rest = p@.skip(q@.len() as int);
        if q@.len() < p@.len() && p@[q@.len() as int] == '/' {
            assert(rel@ =~= rest.drop_first());
        } else {
            assert(rel@ =~= rest);
        }
    }
    Some(rel)
}

/// `rel` placed below `root`.
pub fn join_path(root: &str, rel: &str) -> (r: String)
    ensures
        r@ == join(root@, rel@),
{
    let q = chars_of(root);
    let mut r = string_of(&q);
    if rel.is_empty() {
        return r;
    }
    proof {
        reveal_strlit("/");
    }
    if !(q.len() > 0 && q[q.len() - 1] == '/') {
        r.append("/");
    }
    r.append(rel);
    assert(r@ =~= join(root@, rel@));
    r
}

/// The right-tree counterpart of a path walked under the left root.
pub fn corresponding_path(path: &str, left_root: &str, right_root: &str) -> (r: Result<
    String,
    ConfidenceError,
>)
    ensures
        match strip_root(path@, left_root@) {
            Some(rel) => r is Ok && r->Ok_0@ == join(right_root@, rel),
            None => r matches Err(ConfidenceError::PathMismatch { root: a, path: b }) && a@
                == left_root@ && b@ == path@,
        },
{
    match relative_path(path, left_root) {
        Some(rel) => Ok(join_path(right_root, rel.as_str())),
        None => Err(
            ConfidenceError::PathMismatch { root: left_root.to_owned(), path: path.to_owned() },
        ),
    }
}

/// What is found at the right-tree path of a regular file under the left root.
pub enum Counterpart {
    /// No regular file is there.
    Missing,
    /// The same underlying file as the left one (for example a hard link).
    SameFile,
    /// A different regular file of this size.
    Sized(usize),
}

/// What a pair of files contributes before any content is read, or `None`
/// where their contents must be compared.
pub open spec fn pair_verdict_spec(left_size: nat, right: Counterpart) -> Option<Tally> {
    match right {
        Counterpart::Missing => Some(disagreed(left_size)),
        Counterpart::SameFile => Some(agreed(left_size)),
        Counterpart::Sized(n) => if n != left_size {
            Some(disagreed(max(left_size, n as nat)))
        } else {
            None
        },
    }
}

/// Decide a pair of files from what is known without reading them: a
/// missing counterpart disagrees on the left size, a file always agrees with
/// itself, and files of different sizes disagree on the larger size.
pub fn pair_verdict(left_size: usize, right: Counterpart) -> (r: Option<BytesComparison>)
    ensures
        match pair_verdict_spec(left_size as nat, right) {
            Some(t) => r is Some && r->0@ == t,
            None => r is None,
        },
{
    match right {
        Counterpart::Missing => Some(BytesComparison::disagreed(left_size)),
        Counterpart::SameFile => Some(BytesComparison::agreed(left_size)),
        Counterpart::Sized(n) => if n != left_size {
            Some(BytesComparison::disagreed(if n > left_size { n } else { left_size }))
        } else {
            None
        },
    }
}

/// A file compared with itself (the same device and inode, as with a hard
/// link) agrees on its whole size, and no content needs to be read.
pub proof fn lemma_identity_short_circuit(size: nat)
    ensures
        pair_verdict_spec(size, Counterpart::SameFile) == Some(agreed(size)),
{
}

/// Files of different sizes disagree on the larger size, decided before any
/// content is read, both between two trees and against a manifest.
pub proof fn lemma_size_mismatch_fast_path(a: usize, b: usize)
    requires
        a != b,
    ensures
        pair_verdict_spec(a as nat, Counterpart::Sized(b)) == Some(disagreed(max(a as nat, b as nat))),
        size_verdict_spec(a as nat, Some(b as nat)) == Some(disagreed(max(a as nat, b as nat))),
{
}

/// Outcome of comparing one pair of chunks.
pub enum Step {
    /// Both chunks were full and equal: read the next pair.
    Continue,
    /// The comparison of this pair of files is over.
    Done(BytesComparison),
}

/// Content comparison of two files of equal size, chunk by chunk in
/// lock-step.
pub struct LockStep {
    examined: usize,
    size: usize,
}

impl LockStep {
    /// Bytes found equal so far.
    pub closed spec fn examined(&self) -> nat {
        self.examined as nat
    }

    /// The size both files reported.
    pub closed spec fn size(&self) -> nat {
        self.size as nat
    }

    pub fn new(size: usize) -> (r: Self)
        ensures
            r.examined() == 0,
            r.size() == size,
    {
        LockStep { examined: 0, size }
    }

    /// Compare the next chunk of each file. A difference in length or
    /// content ends the pair as a disagreement on the whole size; a short
    /// chunk ends it as agreement on every byte examined.
    pub fn step(&mut self, left: &[u8], right: &[u8]) -> (r: Step)
        ensures
            final(self).size() == old(self).size(),
            left@ != right@ ==> (r matches Step::Done(t) && t@ == disagreed(old(self).size())),
            left@ == right@ && old(self).examined() + left@.len() > usize::MAX ==> (r matches Step::Done(
                t,
            ) && t@ == disagreed(old(self).size())),
            left@ == right@ && old(self).examined() + left@.len() <= usize::MAX && left@.len()
                < CHUNK_SIZE ==> (r matches Step::Done(t) && t@ == agreed(
                old(self).examined() + left@.len(),
            )),
            left@ == right@ && old(self).examined() + left@.len() <= usize::MAX && left@.len()
                >= CHUNK_SIZE ==> r is Continue && final(self).examined() == old(self).examined()
                + left@.len(),
    {
        if !same_bytes(left, right) {
            return Step::Done(BytesComparison::disagreed(self.size));
        }
        if self.examined > usize::MAX - left.len() {
            return Step::Done(BytesComparison::disagreed(self.size));
        }
        self.examined = self.examined + left.len();
        if left.len() < CHUNK_SIZE {
            Step::Done(BytesComparison::agreed(self.examined))
        } else {
            Step::Continue
        }
    }
}

/// Compare two contents of equal size through `LockStep`, chunk by chunk:
/// equal contents agree on their size, and contents that differ anywhere,
/// even in one byte, disagree on their whole size.
pub fn compare_contents(left: &[u8], right: &[u8]) -> (r: BytesComparison)
    requires
        left@.len() == right@.len(),
    ensures
        r@ == (if left@ == right@ {
            agreed(left@.len())
        } else {
            disagreed(left@.len())
        }),
{
    let n = left.len();
    let mut lock_step = LockStep::new(n);
    let mut i: usize = 0;
    loop
        invariant
            left@.len() == n,
            right@.len() == n,
            i <= n,
            lock_step.examined() == i,
            lock_step.size() == n,
            left@.subrange(0, i as int) == right@.subrange(0, i as int),
        decreases n - i,
    {
        let end: usize = if n - i > CHUNK_SIZE { i + CHUNK_SIZE } else { n };
        let a = vstd::slice::slice_subrange(left, i, end);
        let b = vstd::slice::slice_subrange(right, i, end);
        match lock_step.step(a, b) {
            Step::Done(t) => {
                proof {
                    if a@ == b@ {
                        assert(left@ =~= left@.subrange(0, i as int) + a@);
                        assert(right@ =~= right@.subrange(0, i as int) + b@);
                    } else {
                        assert(exists|k: int| 0 <= k < a@.len() && a@[k] != b@[k]) by {
                            if forall|k: int| 0 <= k < a@.len() ==> a@[k] == b@[k] {
                                assert(a@ =~= b@);
                            }
                        }
                        let k = choose|k: int| 0 <= k < a@.len() && a@[k] != b@[k];
                        assert(left@[i + k] != right@[i + k]);
                    }
                }
                return t;
            },
            Step::Continue => {
                assert(left@.subrange(0, end as int) =~= left@.subrange(0, i as int) + a@);
                assert(right@.subrange(0, end as int) =~= right@.subrange(0, i as int) + b@);
                i = end;
            },
        }
    }
}

fn same_bytes(a: &[u8], b: &[u8]) -> (r: bool)
    ensures
        r == (a@ == b@),
{
    if a.len() != b.len() {
        return false;
    }
    let mut i: usize = 0;
    while i < a.len()
        invariant
            a@.len() == b@.len(),
            i <= a@.len(),
            forall|k: int| 0 <= k < i ==> a@[k] == b@[k],
        decreases a@.len() - i,
    {
        if a[i] != b[i] {
            return false;
        }
        i = i + 1;
    }
    assert(a@ =~= b@);
    true
}

/// First step of checking a manifest entry: its recorded size against the
/// size the file has now.
pub enum Verdict {
    Settled(BytesComparison),
    /// Sizes agree: the file must be digested.
    NeedsDigest,
}

/// What a manifest entry contributes from sizes alone: `None` where the
/// file cannot be read, the file's size otherwise.
pub open spec fn size_verdict_spec(recorded: nat, actual: Option<nat>) -> Option<Tally> {
    match actual {
        None => Some(disagreed(recorded)),
        Some(a) => if a != recorded {
            Some(disagreed(max(a, recorded)))
        } else {
            None
        },
    }
}

/// What a manifest entry contributes once digested: `None` where the file
/// could not be digested, else its digest and the bytes streamed.
pub open spec fn digest_verdict_spec(
    recorded_digest: Seq<char>,
    recorded: nat,
    digest: Option<(Seq<char>, nat)>,
) -> Tally {
    match digest {
        None => disagreed(recorded),
        Some((d, n)) => if d == recorded_digest {
            agreed(n)
        } else {
            disagreed(recorded)
        },
    }
}

/// Check an entry's recorded size. An unreadable file disagrees on the
/// recorded size; a size mismatch disagrees on the larger size without
/// reading the file.
pub fn check_size(recorded: usize, actual: Option<usize>) -> (r: Verdict)
    ensures
        match size_verdict_spec(
            recorded as nat,
            match actual {
                Some(a) => Some(a as nat),
                None => None,
            },
        ) {
            Some(t) => r matches Verdict::Settled(b) && b@ == t,
            None => r is NeedsDigest,
        },
{
    match actual {
        None => Verdict::Settled(BytesComparison::disagreed(recorded)),
        Some(a) => if a != recorded {
            Verdict::Settled(BytesComparison::disagreed(if a > recorded { a } else { recorded }))
        } else {
            Verdict::NeedsDigest
        },
    }
}

/// Check an entry's recorded digest against the file's. A matching digest
/// agrees on the bytes streamed; anything else disagrees on the recorded size.
pub fn check_digest(recorded_digest: &str, recorded: usize, digest: Option<(String, usize)>) -> (r:
    BytesComparison)
    ensures
        r@ == digest_verdict_spec(
            recorded_digest@,
            recorded as nat,
            match digest {
                Some((d, n)) => Some((d@, n as nat)),
                None => None,
            },
        ),
{
    match digest {
        None => BytesComparison::disagreed(recorded),
        Some((d, n)) => {
            let a = chars_of(d.as_str());
            let b = chars_of(recorded_digest);
            if same_chars(&a, &b) {
                BytesComparison::agreed(n)
            } else {
                BytesComparison::disagreed(recorded)
            }
        },
    }
}

} // verus!
