//! Finding a manifest's last line by scanning backward from its end, so
//! that only the footer is read.

use vstd::prelude::*;

verus! {

/// One past the last newline at a position at most `i`, or 0 if there is
/// none.
pub open spec fn start_at_or_before(c: Seq<u8>, i: int) -> nat
    decreases i + 1,
{
    if i < 0 || i >= c.len() {
        0
    } else if c[i] == 10u8 {
        (i + 1) as nat
    } else {
        start_at_or_before(c, i - 1)
    }
}

/// Where the last line of `c` begins. The final byte is skipped, since it
/// is usually the newline that ends the last line.
pub open spec fn footer_start(c: Seq<u8>) -> nat {
    if c.len() < 2 {
        0
    } else {
        start_at_or_before(c, c.len() - 2)
    }
}

proof fn lemma_start_bound(c: Seq<u8>, i: int)
    ensures
        start_at_or_before(c, i) <= c.len(),
    decreases i + 1,
{
    if 0 <= i < c.len() && c[i] != 10u8 {
        lemma_start_bound(c, i - 1);
    }
}

/// Backward scan for the start of the last line. The reader asks for the
/// byte at `position()`, hands it to `feed`, and repeats until `start()`
/// is known.
pub struct FooterScan {
    next: u64,
    start: Option<u64>,
}

impl FooterScan {
    /// The scan is consistent with content `c`: once done it holds the
    /// footer's start, and until then the footer starts where a scan from
    /// `next` downward finds it.
    pub closed spec fn tracks(&self, c: Seq<u8>) -> bool {
        match self.start {
            Some(s) => s == footer_start(c),
            None => self.next + 1 < c.len() && start_at_or_before(c, self.next as int)
                == footer_start(c),
        }
    }

    /// The start of the last line, once the scan has found it.
    pub closed spec fn found(&self) -> Option<u64> {
        self.start
    }

    /// The scan can still step below its next position.
    pub closed spec fn wf(&self) -> bool {
        self.next < u64::MAX
    }

    pub closed spec fn is_done(&self) -> bool {
        self.start is Some
    }

    /// The position read next while the scan is not done.
    pub closed spec fn next_position(&self) -> u64 {
        self.next
    }

    /// Begin a scan of content that is `len` bytes long.
    pub fn new(len: u64) -> (r: Self)
        ensures
            r.wf(),
            forall|c: Seq<u8>| c.len() == len ==> r.tracks(c),
            r.is_done() <==> len < 2,
            !r.is_done() ==> r.next_position() == len - 2,
    {
        if len < 2 {
            FooterScan { next: 0, start: Some(0) }
        } else {
            FooterScan { next: len - 2, start: None }
        }
    }

    /// The position whose byte the scan needs next, if it needs one.
    pub fn position(&self) -> (r: Option<u64>)
        ensures
            r == (if self.is_done() { None } else { Some(self.next_position()) }),
    {
        match self.start {
            Some(_) => None,
            None => Some(self.next),
        }
    }

    /// Where the last line begins, once the scan is done.
    pub fn start(&self) -> (r: Option<u64>)
        ensures
            r == self.found(),
            r is Some <==> self.is_done(),
            forall|c: Seq<u8>| self.tracks(c) && r is Some ==> r->0 == footer_start(c),
    {
        self.start
    }

    /// Take the byte at `next_position()`.
    pub fn feed(&mut self, byte: u8)
        requires
            old(self).wf(),
            !old(self).is_done(),
        ensures
            final(self).wf(),
            forall|c: Seq<u8>|
                old(self).tracks(c) && c[old(self).next_position() as int] == byte
                    ==> final(self).tracks(c),
            final(self).is_done() || final(self).next_position() == old(self).next_position() - 1,
            byte == 10u8 ==> final(self).found() == Some((old(self).next_position() + 1) as u64),
    {
        proof {
            assert forall|c: Seq<u8>|
                old(self).tracks(c) && c[old(self).next_position() as int] == byte implies
                start_at_or_before(c, self.next as int) == (if byte == 10u8 {
                    (self.next + 1) as nat
                } else {
                    start_at_or_before(c, self.next - 1)
                }) by {}
        }
        if byte == 10u8 {
            self.start = Some(self.next + 1);
        } else if self.next == 0 {
            self.start = Some(0);
        } else {
            self.next = self.next - 1;
        }
    }
}

/// Where the last line of `content` begins, found by the backward scan.
pub fn last_line_start(content: &[u8]) -> (r: usize)
    ensures
        r == footer_start(content@),
{
    let mut scan = FooterScan::new(content.len() as u64);
    loop
        invariant
            scan.wf(),
            scan.tracks(content@),
            content@.len() <= u64::MAX,
        ensures
            scan.is_done(),
            scan.tracks(content@),
        decreases if scan.is_done() { 0 } else { scan.next_position() + 1 },
    {
        match scan.position() {
            None => break,
            Some(p) => scan.feed(content[p as usize]),
        }
    }
    proof {
        if content@.len() >= 2 {
            lemma_start_bound(content@, content@.len() - 2);
        }
    }
    match scan.start() {
        Some(s) => s as usize,
        None => 0,
    }
}

/// Index of the first newline in `c`, or its length if there is none.
pub open spec fn first_newline(c: Seq<u8>) -> nat
    decreases c.len(),
{
    if c.len() == 0 || c[0] == 10u8 {
        0
    } else {
        1 + first_newline(c.drop_first())
    }
}

/// The lines of `c` read from the front, as `BufRead::lines` splits them:
/// newline-separated, with no empty line after a final newline.
pub open spec fn lines_of(c: Seq<u8>) -> Seq<Seq<u8>>
    decreases c.len(),
{
    if c.len() == 0 {
        seq![]
    } else if first_newline(c) >= c.len() {
        seq![c]
    } else {
        seq![c.take(first_newline(c) as int)] + lines_of(c.skip(first_newline(c) as int + 1))
    }
}

/// A line without the newline that ends it, if any.
pub open spec fn without_newline(t: Seq<u8>) -> Seq<u8> {
    if t.len() > 0 && t.last() == 10u8 {
        t.drop_last()
    } else {
        t
    }
}

proof fn lemma_first_newline(c: Seq<u8>)
    ensures
        first_newline(c) <= c.len(),
        forall|k: int| 0 <= k < first_newline(c) ==> c[k] != 10u8,
        first_newline(c) < c.len() ==> c[first_newline(c) as int] == 10u8,
    decreases c.len(),
{
    if c.len() > 0 && c[0] != 10u8 {
        let d = c.drop_first();
        lemma_first_newline(d);
        assert forall|k: int| 0 <= k < first_newline(c) implies c[k] != 10u8 by {
            if k > 0 {
                assert(c[k] == d[k - 1]);
            }
        }
    }
}

proof fn lemma_no_newline_start(c: Seq<u8>, i: int)
    requires
        i < c.len(),
        forall|k: int| 0 <= k <= i ==> c[k] != 10u8,
    ensures
        start_at_or_before(c, i) == 0,
    decreases i + 1,
{
    if i >= 0 {
        lemma_no_newline_start(c, i - 1);
    }
}

/// Behind a newline at `q`, the scan of `c` is the scan of what follows
/// `q`, shifted.
proof fn lemma_start_shift(c: Seq<u8>, q: int, j: int)
    requires
        0 <= q < c.len(),
        c[q] == 10u8,
        -1 <= j < c.len() - q - 1,
    ensures
        start_at_or_before(c, q + 1 + j) == q + 1 + start_at_or_before(c.skip(q + 1), j),
    decreases j + 1,
{
    if j >= 0 {
        assert(c.skip(q + 1)[j] == c[q + 1 + j]);
        if c[q + 1 + j] != 10u8 {
            lemma_start_shift(c, q, j - 1);
        }
    }
}

/// The backward scan finds the line that a forward read sees last.
pub proof fn lemma_footer_matches_forward(c: Seq<u8>)
    requires
        c.len() > 0,
    ensures
        lines_of(c).len() > 0,
        without_newline(c.skip(footer_start(c) as int)) == lines_of(c).last(),
    decreases c.len(),
{
    lemma_first_newline(c);
    let q = first_newline(c) as int;
    if q >= c.len() {
        if c.len() >= 2 {
            lemma_no_newline_start(c, c.len() - 2);
        }
        assert(c.skip(0) =~= c);
    } else if q == c.len() - 1 {
        if c.len() >= 2 {
            lemma_no_newline_start(c, c.len() - 2);
        }
        assert(c.skip(0) =~= c);
        assert(c.drop_last() =~= c.take(q));
        assert(c.skip(q + 1) =~= Seq::<u8>::empty());
        assert(lines_of(c.skip(q + 1)).len() == 0);
        assert(lines_of(c) =~= seq![c.take(q)]);
    } else {
        let rest = c.skip(q + 1);
        lemma_footer_matches_forward(rest);
        lemma_start_shift(c, q, rest.len() - 2);
        assert(footer_start(c) == q + 1 + footer_start(rest));
        lemma_start_bound(rest, rest.len() - 2);
        assert(c.skip(footer_start(c) as int) =~= rest.skip(footer_start(rest) as int));
        assert((seq![c.take(q)] + lines_of(rest)).last() == lines_of(rest).last());
    }
}

} // verus!
