//! Verifying a tree against a manifest, one line at a time. The reader
//! hands over each line and what it found on disk for it; this state keeps
//! the tally and decides when the body ends.

use vstd::prelude::*;
use crate::compare::{Verdict, check_digest, check_size, digest_verdict_spec, size_verdict_spec};
use crate::digest::{DigestStream, sha1_hex};
use crate::error::{ConfidenceError, Corruption};
use crate::generate::{Generation, lemma_round_trip, lookup, manifest_lines, verify_lines};
use crate::manifest::{LineModel, ManifestLine, parse_line, parse_line_spec};
use crate::tally::{BytesComparison, Tally, combinable, combine, zero};

verus! {

/// What the reader found for one manifest entry: the size of the file at
/// its path (`None` where it could not be read), and the content it
/// streamed, where it digested the file.
pub struct Observation {
    pub size: Option<nat>,
    pub content: Option<Seq<u8>>,
}

pub open spec fn nothing_observed() -> Observation {
    Observation { size: None, content: None }
}

/// What one entry contributes given what was observed for it: sizes first,
/// then digests.
pub open spec fn entry_tally(digest: Seq<char>, size: nat, obs: Observation) -> Tally {
    match size_verdict_spec(size, obs.size) {
        Some(t) => t,
        None => digest_verdict_spec(
            digest,
            size,
            match obs.content {
                Some(c) => Some((sha1_hex(c), c.len())),
                None => None,
            },
        ),
    }
}

/// The tally of some manifest lines, each with what was observed for it:
/// body lines count until the footer; a line that breaks the grammar makes
/// the manifest corrupt.
pub open spec fn check_steps(steps: Seq<(Seq<char>, Observation)>) -> Result<Tally, Corruption>
    decreases steps.len(),
{
    if steps.len() == 0 {
        Ok(zero())
    } else {
        match parse_line_spec(steps[0].0) {
            Err(c) => Err(c),
            Ok(LineModel::Footer) => Ok(zero()),
            Ok(LineModel::Entry { digest, path, size }) => match check_steps(steps.drop_first()) {
                Err(c) => Err(c),
                Ok(t) => Ok(combine(entry_tally(digest, size, steps[0].1), t)),
            },
        }
    }
}

pub open spec fn is_entry_line(line: Seq<char>) -> bool {
    parse_line_spec(line) is Ok && parse_line_spec(line)->Ok_0 is Entry
}

/// The lines of some steps.
pub open spec fn lines_of_steps(steps: Seq<(Seq<char>, Observation)>) -> Seq<Seq<char>> {
    steps.map_values(|s: (Seq<char>, Observation)| s.0)
}

/// What was observed for an entry is what a tree holds at its path: the
/// file's size, and its content wherever the sizes agreed.
pub open spec fn observed_from(
    obs: Observation,
    tree: Map<Seq<char>, Seq<u8>>,
    path: Seq<char>,
    size: nat,
) -> bool {
    let found = lookup(tree, path);
    &&& obs.size == (match found {
        Some(c) => Some(c.len()),
        None => None,
    })
    &&& (obs.content is Some ==> obs.content == found)
    &&& (size_verdict_spec(size, obs.size) is None ==> obs.content is Some)
}

pub open spec fn step_follows(step: (Seq<char>, Observation), tree: Map<Seq<char>, Seq<u8>>) -> bool {
    match parse_line_spec(step.0) {
        Ok(LineModel::Entry { digest, path, size }) => observed_from(step.1, tree, path, size),
        _ => true,
    }
}

proof fn lemma_check_steps_push(steps: Seq<(Seq<char>, Observation)>, x: (Seq<char>, Observation))
    requires
        forall|i: int| 0 <= i < steps.len() ==> is_entry_line(#[trigger] steps[i].0),
        check_steps(steps) is Ok,
    ensures
        parse_line_spec(x.0) == Ok::<LineModel, Corruption>(LineModel::Footer) ==> check_steps(
            steps.push(x),
        ) == check_steps(steps),
        parse_line_spec(x.0) matches Ok(LineModel::Entry { digest, path, size }) ==> check_steps(
            steps.push(x),
        ) == Ok::<Tally, Corruption>(
            combine(check_steps(steps)->Ok_0, entry_tally(digest, size, x.1)),
        ),
    decreases steps.len(),
{
    let p = steps.push(x);
    if steps.len() == 0 {
        assert(p.drop_first() =~= Seq::<(Seq<char>, Observation)>::empty());
        assert(p[0] == x);
    } else {
        assert(is_entry_line(steps[0].0));
        assert(p.drop_first() =~= steps.drop_first().push(x));
        assert(p[0] == steps[0]);
        assert forall|i: int| 0 <= i < steps.drop_first().len() implies is_entry_line(
            #[trigger] steps.drop_first()[i].0,
        ) by {
            assert(steps.drop_first()[i] == steps[i + 1]);
        }
        lemma_check_steps_push(steps.drop_first(), x);
    }
}

/// Where every observation came from one tree, the tally of the steps is
/// the tally of verifying that tree against their lines.
pub proof fn lemma_steps_follow_tree(
    steps: Seq<(Seq<char>, Observation)>,
    tree: Map<Seq<char>, Seq<u8>>,
)
    requires
        forall|i: int| 0 <= i < steps.len() ==> step_follows(#[trigger] steps[i], tree),
    ensures
        check_steps(steps) == verify_lines(lines_of_steps(steps), tree),
    decreases steps.len(),
{
    let lines = lines_of_steps(steps);
    if steps.len() > 0 {
        assert(step_follows(steps[0], tree));
        assert(lines[0] == steps[0].0);
        assert(lines.drop_first() =~= lines_of_steps(steps.drop_first()));
        assert forall|i: int| 0 <= i < steps.drop_first().len() implies step_follows(
            #[trigger] steps.drop_first()[i],
            tree,
        ) by {
            assert(steps.drop_first()[i] == steps[i + 1]);
        }
        lemma_steps_follow_tree(steps.drop_first(), tree);
    }
}

/// A manifest verification run in progress.
pub struct ManifestCheck {
    tally: BytesComparison,
    finished: bool,
    pending: Option<(String, usize)>,
    steps: Ghost<Seq<(Seq<char>, Observation)>>,
    pending_line: Ghost<Seq<char>>,
}

impl ManifestCheck {
    /// The lines settled so far, each with what was observed for it.
    pub closed spec fn steps(&self) -> Seq<(Seq<char>, Observation)> {
        self.steps@
    }

    pub closed spec fn tally_model(&self) -> Tally {
        self.tally@
    }

    /// The footer has been read: the body is over.
    pub closed spec fn finished(&self) -> bool {
        self.finished
    }

    /// The line whose entry awaits what was found on disk, if any.
    pub closed spec fn awaiting(&self) -> Option<Seq<char>> {
        if self.pending is Some {
            Some(self.pending_line@)
        } else {
            None
        }
    }

    pub closed spec fn wf(&self) -> bool {
        &&& check_steps(self.steps@) == Ok::<Tally, Corruption>(self.tally@)
        &&& !self.finished ==> forall|i: int|
            0 <= i < self.steps@.len() ==> is_entry_line(#[trigger] self.steps@[i].0)
        &&& self.pending matches Some(p) ==> !self.finished && (parse_line_spec(
            self.pending_line@,
        ) matches Ok(LineModel::Entry { digest, path, size }) && digest == p.0@ && size == p.1)
    }

    pub fn new() -> (r: Self)
        ensures
            r.wf(),
            r.steps() == Seq::<(Seq<char>, Observation)>::empty(),
            r.tally_model() == zero(),
            !r.finished(),
            r.awaiting() is None,
    {
        ManifestCheck {
            tally: BytesComparison::empty(),
            finished: false,
            pending: None,
            steps: Ghost(Seq::empty()),
            pending_line: Ghost(Seq::empty()),
        }
    }

    pub fn is_finished(&self) -> (r: bool)
        ensures
            r == self.finished(),
    {
        self.finished
    }

    /// The tally so far.
    pub fn tally(&self) -> (r: BytesComparison)
        ensures
            r@ == self.tally_model(),
    {
        BytesComparison::new(self.tally.agreement(), self.tally.disagreement())
    }

    /// Read the next manifest line. The footer ends the body (`Ok(None)`);
    /// an entry gives the relative path the reader must look at.
    pub fn read_line(&mut self, line: &str) -> (r: Result<Option<String>, ConfidenceError>)
        requires
            old(self).wf(),
            !old(self).finished(),
            old(self).awaiting() is None,
        ensures
            final(self).wf(),
            final(self).tally_model() == old(self).tally_model(),
            match parse_line_spec(line@) {
                Err(c) => r == Err::<Option<String>, ConfidenceError>(
                    ConfidenceError::CorruptManifest(c),
                ) && final(self).steps() == old(self).steps() && !final(self).finished()
                    && final(self).awaiting() is None,
                Ok(LineModel::Footer) => r == Ok::<Option<String>, ConfidenceError>(None)
                    && final(self).finished() && final(self).steps() == old(self).steps().push(
                    (line@, nothing_observed()),
                ) && final(self).awaiting() is None,
                Ok(LineModel::Entry { digest, path, size }) => (r matches Ok(Some(p)) && p@
                    == path) && final(self).steps() == old(self).steps() && !final(self).finished()
                    && final(self).awaiting() == Some(line@),
            },
    {
        match parse_line(line) {
            Err(e) => Err(e),
            Ok(ManifestLine::Footer) => {
                proof {
                    lemma_check_steps_push(self.steps@, (line@, nothing_observed()));
                }
                self.finished = true;
                self.steps = Ghost(self.steps@.push((line@, nothing_observed())));
                Ok(None)
            },
            Ok(ManifestLine::Entry(entry)) => {
                self.pending = Some((entry.digest, entry.size));
                self.pending_line = Ghost(line@);
                Ok(Some(entry.path))
            },
        }
    }

    /// The size recorded for the awaited entry.
    pub fn awaited_size(&self) -> (r: usize)
        requires
            self.wf(),
            self.awaiting() is Some,
        ensures
            parse_line_spec(self.awaiting()->0) matches Ok(LineModel::Entry { size, .. }) && r
                == size,
    {
        match &self.pending {
            Some(p) => p.1,
            None => 0,
        }
    }

    /// Whether the awaited entry's file must be digested: only where its
    /// size is known and equals the recorded size.
    pub fn needs_digest(&self, actual_size: Option<usize>) -> (r: bool)
        requires
            self.wf(),
            self.awaiting() is Some,
        ensures
            parse_line_spec(self.awaiting()->0) matches Ok(LineModel::Entry { size, .. }) && r
                == (size_verdict_spec(
                size,
                match actual_size {
                    Some(n) => Some(n as nat),
                    None => None,
                },
            ) is None),
    {
        match check_size(self.awaited_size(), actual_size) {
            Verdict::Settled(_) => false,
            Verdict::NeedsDigest => true,
        }
    }

    /// Settle the awaited entry with what the reader found: the file's size
    /// (`None` where it could not be read) and, where the sizes agree, a
    /// stream of its content (`None` where it could not be digested).
    /// Returns false, changing nothing, where the tally would leave `usize`.
    pub fn settle(&mut self, actual_size: Option<usize>, content: Option<&DigestStream>) -> (r:
        bool)
        requires
            old(self).wf(),
            old(self).awaiting() is Some,
            content matches Some(s) ==> s.wf(),
        ensures
            final(self).wf(),
            ({
                let obs = Observation {
                    size: match actual_size {
                        Some(n) => Some(n as nat),
                        None => None,
                    },
                    content: match content {
                        Some(s) => Some(s@),
                        None => None,
                    },
                };
                let line = old(self).awaiting()->0;
                let t = match parse_line_spec(line) {
                    Ok(LineModel::Entry { digest, path, size }) => entry_tally(digest, size, obs),
                    _ => zero(),
                };
                &&& r == combinable(old(self).tally_model(), t)
                &&& r ==> final(self).steps() == old(self).steps().push((line, obs))
                    && final(self).tally_model() == combine(old(self).tally_model(), t)
                    && final(self).awaiting() is None && !final(self).finished()
                &&& !r ==> final(self).steps() == old(self).steps() && final(self).tally_model()
                    == old(self).tally_model() && final(self).awaiting() == old(self).awaiting()
                    && !final(self).finished()
            }),
    {
        let (digest, size) = match &self.pending {
            Some(p) => (p.0.clone(), p.1),
            None => (String::new(), 0),
        };
        let outcome = match check_size(size, actual_size) {
            Verdict::Settled(t) => t,
            Verdict::NeedsDigest => {
                let found = match content {
                    Some(s) => Some(s.finish()),
                    None => None,
                };
                check_digest(digest.as_str(), size, found)
            },
        };
        if !self.tally.fits_with(&outcome) {
            return false;
        }
        let ghost obs = Observation {
            size: match actual_size {
                Some(n) => Some(n as nat),
                None => None,
            },
            content: match content {
                Some(s) => Some(s@),
                None => None,
            },
        };
        proof {
            lemma_check_steps_push(self.steps@, (self.pending_line@, obs));
        }
        self.tally.add_assign(outcome);
        self.steps = Ghost(self.steps@.push((self.pending_line@, obs)));
        self.pending = None;
        true
    }
}

/// Generating a manifest for a tree and then running a verification of that
/// same tree over all its lines ends in agreement on every byte hashed and
/// no disagreement. The reader's observations must come from the tree, and
/// every file must have a non-empty path below the root.
pub proof fn lemma_round_trip_check(g: Generation, c: ManifestCheck, tree: Map<Seq<char>, Seq<u8>>)
    requires
        g.wf(),
        forall|i: int|
            0 <= i < g.files().len() ==> {
                &&& (#[trigger] g.files()[i]).path.len() > 0
                &&& lookup(tree, g.files()[i].path) == Some(g.files()[i].content)
            },
        c.wf(),
        lines_of_steps(c.steps()) == manifest_lines(g.files(), g.total_spec()),
        forall|i: int| 0 <= i < c.steps().len() ==> step_follows(#[trigger] c.steps()[i], tree),
    ensures
        c.tally_model() == (Tally { agreement: g.total_spec(), disagreement: 0 }),
{
    lemma_round_trip(g, tree);
    lemma_steps_follow_tree(c.steps(), tree);
}

} // verus!
