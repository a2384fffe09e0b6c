//! Reading replies from a byte stream in which a single read may end
//! anywhere, even inside a token. Bytes are gathered into lines, and a line
//! is looked at only once its newline has arrived.
use vstd::prelude::*;

use crate::codec::{decode_line, is_ok_line, is_sync_line, line_fields, ok_line, sync_line};
use crate::interface::{with_port, Interfaces, State};
use crate::text::NEWLINE;

verus! {

/// How far the answer to a query has got.
pub enum Listing {
    /// The ports seen so far, and the bytes of the line not yet finished.
    Reading { directory: Map<u8, Map<u8, State>>, partial: Seq<u8> },
    /// The `<SYNC>` line arrived: the directory is complete.
    Complete(Map<u8, Map<u8, State>>),
    /// A line could not be decoded, and what was gathered is dropped; the
    /// rest of the answer is still read, line by line, up to its `<SYNC>`
    /// line, so that none of it is taken for the next reply. `partial` holds
    /// the bytes of the line not yet finished.
    Discarding { partial: Seq<u8> },
    /// The `<SYNC>` line arrived after a malformed line: the answer is over
    /// and gave nothing.
    Malformed,
}

/// The listing after one more complete line (without its newline). Empty
/// lines are skipped.
pub open spec fn listing_after_line(directory: Map<u8, Map<u8, State>>, line: Seq<u8>) -> Listing {
    if line.len() == 0 {
        Listing::Reading { directory, partial: Seq::empty() }
    } else if line == sync_line() {
        Listing::Complete(directory)
    } else {
        match line_fields(line) {
            Some((m, p, l)) => Listing::Reading {
                directory: with_port(directory, m, p, State { lock: l }),
                partial: Seq::empty(),
            },
            None => Listing::Discarding { partial: Seq::empty() },
        }
    }
}

/// The listing after one more byte. Once complete or malformed, a listing
/// takes no more bytes.
pub open spec fn listing_after_byte(s: Listing, b: u8) -> Listing {
    match s {
        Listing::Reading { directory, partial } => if b == NEWLINE {
            listing_after_line(directory, partial)
        } else {
            Listing::Reading { directory, partial: partial.push(b) }
        },
        Listing::Discarding { partial } => if b != NEWLINE {
            Listing::Discarding { partial: partial.push(b) }
        } else if partial == sync_line() {
            Listing::Malformed
        } else {
            Listing::Discarding { partial: Seq::empty() }
        },
        _ => s,
    }
}

/// The listing that the bytes `reply` of the answer to a query amount to.
pub open spec fn listing_of(reply: Seq<u8>) -> Listing
    decreases reply.len(),
{
    if reply.len() == 0 {
        Listing::Reading { directory: Map::empty(), partial: Seq::empty() }
    } else {
        listing_after_byte(listing_of(reply.drop_last()), reply.last())
    }
}

/// The listing `s` after the further bytes `more`, taken one at a time.
pub open spec fn listing_after_bytes(s: Listing, more: Seq<u8>) -> Listing
    decreases more.len(),
{
    if more.len() == 0 {
        s
    } else {
        listing_after_byte(listing_after_bytes(s, more.drop_last()), more.last())
    }
}

/// However an answer is split into reads, the result is the same: the
/// listing after the first part carries all that the rest needs, so reading
/// `first` and then `rest` gives the listing of `first + rest`.
pub proof fn lemma_split_reads(first: Seq<u8>, rest: Seq<u8>)
    ensures
        listing_of(first + rest) == listing_after_bytes(listing_of(first), rest),
    decreases rest.len(),
{
    if rest.len() == 0 {
        assert(first + rest =~= first);
    } else {
        lemma_split_reads(first, rest.drop_last());
        assert((first + rest).drop_last() =~= first + rest.drop_last());
        assert((first + rest).last() == rest.last());
    }
}

/// The listing `s` after a series of reads, each taken whole in turn.
pub open spec fn listing_after_reads(s: Listing, reads: Seq<Seq<u8>>) -> Listing
    decreases reads.len(),
{
    if reads.len() == 0 {
        s
    } else {
        listing_after_reads(listing_after_bytes(s, reads[0]), reads.drop_first())
    }
}

/// Any series of reads gives the listing of all their bytes together: two
/// runs whose reads split the same answer differently end alike.
pub proof fn lemma_any_reads(before: Seq<u8>, reads: Seq<Seq<u8>>)
    ensures
        listing_after_reads(listing_of(before), reads) == listing_of(before + reads.flatten()),
    decreases reads.len(),
{
    if reads.len() == 0 {
        assert(before + reads.flatten() =~= before);
    } else {
        lemma_split_reads(before, reads[0]);
        lemma_any_reads(before + reads[0], reads.drop_first());
        assert(reads.flatten() == reads[0] + reads.drop_first().flatten());
        assert(before + reads[0] + reads.drop_first().flatten() =~= before + reads.flatten());
    }
}

/// A fragment that does not finish a line is never parsed: bytes with no
/// newline among them only extend the unfinished line, and change nothing
/// once the answer is over.
pub proof fn lemma_fragment_not_parsed(reply: Seq<u8>, fragment: Seq<u8>)
    requires
        forall|i: int| 0 <= i < fragment.len() ==> #[trigger] fragment[i] != NEWLINE,
    ensures
        listing_of(reply + fragment) == match listing_of(reply) {
            Listing::Reading { directory, partial } => Listing::Reading {
                directory,
                partial: partial + fragment,
            },
            Listing::Discarding { partial } => Listing::Discarding { partial: partial + fragment },
            other => other,
        },
    decreases fragment.len(),
{
    if fragment.len() == 0 {
        assert(reply + fragment =~= reply);
        match listing_of(reply) {
            Listing::Reading { directory, partial } => {
                assert(partial + fragment =~= partial);
            },
            Listing::Discarding { partial } => {
                assert(partial + fragment =~= partial);
            },
            _ => {},
        }
    } else {
        let f = fragment.drop_last();
        assert forall|i: int| 0 <= i < f.len() implies #[trigger] f[i] != NEWLINE by {
            assert(f[i] == fragment[i]);
        }
        lemma_fragment_not_parsed(reply, f);
        assert((reply + fragment).drop_last() =~= reply + f);
        assert((reply + fragment).last() == fragment.last());
        assert(fragment.last() != NEWLINE);
        match listing_of(reply) {
            Listing::Reading { directory, partial } => {
                assert((partial + f).push(fragment.last()) =~= partial + fragment);
            },
            Listing::Discarding { partial } => {
                assert((partial + f).push(fragment.last()) =~= partial + fragment);
            },
            _ => {},
        }
    }
}

/// How far an acknowledgement has got: it is decided by the first line.
pub enum Ack {
    /// The bytes of the first line so far.
    Reading(Seq<u8>),
    /// The first line is exactly `<OK>`.
    Accepted,
    /// The first line is anything else.
    Refused,
}

/// The acknowledgement after one more byte.
pub open spec fn ack_after_byte(s: Ack, b: u8) -> Ack {
    match s {
        Ack::Reading(partial) => if b != NEWLINE {
            Ack::Reading(partial.push(b))
        } else if partial == ok_line() {
            Ack::Accepted
        } else {
            Ack::Refused
        },
        _ => s,
    }
}

/// The acknowledgement that the bytes `reply` amount to.
pub open spec fn ack_of(reply: Seq<u8>) -> Ack
    decreases reply.len(),
{
    if reply.len() == 0 {
        Ack::Reading(Seq::empty())
    } else {
        ack_after_byte(ack_of(reply.drop_last()), reply.last())
    }
}

#[derive(Clone, Copy, PartialEq, Eq, Structural)]
enum Progress {
    Reading,
    Complete,
    Discarding,
    Malformed,
}

/// Gathers the answer to a query, read in pieces of any size.
pub struct ListingReader {
    progress: Progress,
    directory: Interfaces,
    partial: Vec<u8>,
    received: Ghost<Seq<u8>>,
}

impl ListingReader {
    /// All bytes fed so far.
    pub closed spec fn received(&self) -> Seq<u8> {
        self.received@
    }

    /// Where the answer stands.
    pub closed spec fn listing(&self) -> Listing {
        match self.progress {
            Progress::Reading => Listing::Reading {
                directory: self.directory@,
                partial: self.partial@,
            },
            Progress::Complete => Listing::Complete(self.directory@),
            Progress::Discarding => Listing::Discarding { partial: self.partial@ },
            Progress::Malformed => Listing::Malformed,
        }
    }

    pub closed spec fn wf(&self) -> bool {
        self.listing() == listing_of(self.received@)
    }

    /// A reader that has seen nothing.
    pub fn new() -> (r: ListingReader)
        ensures
            r.wf(),
            r.received() == Seq::<u8>::empty(),
            r.listing() == listing_of(Seq::empty()),
    {
        let r = ListingReader {
            progress: Progress::Reading,
            directory: Interfaces::new(),
            partial: Vec::new(),
            received: Ghost(Seq::empty()),
        };
        assert(r.partial@ =~= Seq::<u8>::empty());
        r
    }

    fn push_byte(&mut self, b: u8)
        requires
            old(self).wf(),
        ensures
            final(self).wf(),
            final(self).received() == old(self).received().push(b),
    {
        let ghost before = self.received@;
        if self.progress == Progress::Reading {
            if b == NEWLINE {
                if self.partial.len() == 0 {
                } else if is_sync_line(self.partial.as_slice()) {
                    self.progress = Progress::Complete;
                } else {
                    match decode_line(self.partial.as_slice()) {
                        Ok((m, p, s)) => {
                            self.directory.insert(m, p, s);
                        },
                        Err(_) => {
                            self.progress = Progress::Discarding;
                            self.directory = Interfaces::new();
                        },
                    }
                }
                self.partial.clear();
            } else {
                self.partial.push(b);
            }
        } else if self.progress == Progress::Discarding {
            if b == NEWLINE {
                if is_sync_line(self.partial.as_slice()) {
                    self.progress = Progress::Malformed;
                }
                self.partial.clear();
            } else {
                self.partial.push(b);
            }
        }
        self.received = Ghost(before.push(b));
        assert(self.received@.drop_last() =~= before);
        assert(self.listing() =~= listing_of(self.received@));
    }

    /// Takes the next piece of the answer, as one read returned it.
    pub fn feed(&mut self, chunk: &[u8])
        requires
            old(self).wf(),
        ensures
            final(self).wf(),
            final(self).received() == old(self).received() + chunk@,
            final(self).listing() == listing_of(final(self).received()),
    {
        let ghost start = self.received@;
        let mut i: usize = 0;
        while i < chunk.len()
            invariant
                i <= chunk@.len(),
                self.wf(),
                self.received() == start + chunk@.subrange(0, i as int),
            decreases chunk@.len() - i,
        {
            self.push_byte(chunk[i]);
            i = i + 1;
            assert(self.received() =~= start + chunk@.subrange(0, i as int));
        }
        assert(chunk@.subrange(0, i as int) =~= chunk@);
    }

    /// Whether the `<SYNC>` line has arrived.
    pub fn is_complete(&self) -> (r: bool)
        ensures
            r == (self.listing() is Complete),
    {
        self.progress == Progress::Complete
    }

    /// Whether the answer is over after a malformed line.
    pub fn is_malformed(&self) -> (r: bool)
        ensures
            r == (self.listing() is Malformed),
    {
        self.progress == Progress::Malformed
    }

    /// The directory gathered so far: the whole one once complete.
    pub fn into_directory(self) -> (r: Interfaces)
        requires
            self.listing() is Reading || self.listing() is Complete,
        ensures
            self.listing() is Complete ==> r@ == self.listing()->Complete_0,
            self.listing() is Reading ==> r@ == self.listing()->directory,
    {
        self.directory
    }
}

/// Waits for the acknowledgement of a request, read in pieces of any size.
pub struct AckReader {
    verdict: Option<bool>,
    partial: Vec<u8>,
    received: Ghost<Seq<u8>>,
}

impl AckReader {
    /// All bytes fed so far.
    pub closed spec fn received(&self) -> Seq<u8> {
        self.received@
    }

    /// Where the acknowledgement stands.
    pub closed spec fn ack(&self) -> Ack {
        match self.verdict {
            None => Ack::Reading(self.partial@),
            Some(true) => Ack::Accepted,
            Some(false) => Ack::Refused,
        }
    }

    pub closed spec fn wf(&self) -> bool {
        self.ack() == ack_of(self.received@)
    }

    /// A reader that has seen nothing.
    pub fn new() -> (r: AckReader)
        ensures
            r.wf(),
            r.received() == Seq::<u8>::empty(),
            r.ack() == ack_of(Seq::empty()),
    {
        let r = AckReader { verdict: None, partial: Vec::new(), received: Ghost(Seq::empty()) };
        assert(r.partial@ =~= Seq::<u8>::empty());
        r
    }

    /// Takes the next piece of the reply, as one read returned it.
    pub fn feed(&mut self, chunk: &[u8])
        requires
            old(self).wf(),
        ensures
            final(self).wf(),
            final(self).received() == old(self).received() + chunk@,
            final(self).ack() == ack_of(final(self).received()),
    {
        let ghost start = self.received@;
        let mut i: usize = 0;
        while i < chunk.len()
            invariant
                i <= chunk@.len(),
                self.wf(),
                self.received() == start + chunk@.subrange(0, i as int),
            decreases chunk@.len() - i,
        {
            let b = chunk[i];
            let ghost before = self.received@;
            if self.verdict.is_none() {
                if b == NEWLINE {
                    self.verdict = Some(is_ok_line(self.partial.as_slice()));
                } else {
                    self.partial.push(b);
                }
            }
            self.received = Ghost(before.push(b));
            assert(self.received@.drop_last() =~= before);
            i = i + 1;
            assert(self.received() =~= start + chunk@.subrange(0, i as int));
        }
        assert(chunk@.subrange(0, i as int) =~= chunk@);
    }

    /// The verdict, once the first line is complete: `Some(true)` for
    /// `<OK>`, `Some(false)` for anything else.
    pub fn verdict(&self) -> (r: Option<bool>)
        ensures
            r == match self.ack() {
                Ack::Reading(_) => None,
                Ack::Accepted => Some(true),
                Ack::Refused => Some(false),
            },
    {
        self.verdict
    }
}

} // verus!
