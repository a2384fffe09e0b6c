//! The decisions of the session that owns the socket. The session never
//! touches the socket itself: whoever drives it performs each `Step` it
//! returns and reports back what happened (bytes read, an I/O failure, the
//! next request, the request queue closing). One request is on the wire at
//! a time. A session that lost its socket answers the requests queued
//! behind the failure with that failure, then is torn down with one logoff
//! as soon as none is waiting.
use vstd::prelude::*;

use crate::codec::{
    encode_logoff, encode_mutation, encode_owner, encode_query, encode_logon, logoff_request,
    logon_request, mutation_request, owner_request, query_request,
};
use crate::error::Error;
use crate::interface::{Interfaces, Lock};
use crate::reply::{ack_of, listing_of, Ack, AckReader, Listing, ListingReader};

verus! {

/// A request from a caller of the session.
#[derive(Debug, Clone, Copy, PartialEq, Eq, Structural)]
pub enum Request {
    ListInterfaces,
    LockInterface(u8, u8),
    UnlockInterface(u8, u8),
    RelinquishInterface(u8, u8),
}

/// The request that changes `module`/`port`, chosen by the caller's last
/// known lock state: reserve a released port, release our own reservation,
/// take over someone else's.
pub open spec fn request_for(state: Lock, module: u8, port: u8) -> Request {
    match state {
        Lock::Released => Request::LockInterface(module, port),
        Lock::ReservedByYou => Request::UnlockInterface(module, port),
        Lock::ReservedByOther => Request::RelinquishInterface(module, port),
    }
}

impl Request {
    /// The bytes that carry this request.
    pub open spec fn wire(self) -> Seq<u8> {
        match self {
            Request::ListInterfaces => query_request(),
            Request::LockInterface(m, p) => mutation_request(Lock::Released, m, p),
            Request::UnlockInterface(m, p) => mutation_request(Lock::ReservedByYou, m, p),
            Request::RelinquishInterface(m, p) => mutation_request(Lock::ReservedByOther, m, p),
        }
    }

    /// The request that changes `module`/`port` from the caller's last
    /// known state of it; the state may be stale, and the chassis decides.
    pub fn from_lock_state(state: Lock, module: u8, port: u8) -> (r: Request)
        ensures
            r == request_for(state, module, port),
    {
        match state {
            Lock::Released => Request::LockInterface(module, port),
            Lock::ReservedByYou => Request::UnlockInterface(module, port),
            Lock::ReservedByOther => Request::RelinquishInterface(module, port),
        }
    }

    /// The bytes that carry this request.
    pub fn encode(self) -> (r: Vec<u8>)
        ensures
            r@ == self.wire(),
    {
        match self {
            Request::ListInterfaces => encode_query(),
            Request::LockInterface(m, p) => encode_mutation(Lock::Released, m, p),
            Request::UnlockInterface(m, p) => encode_mutation(Lock::ReservedByYou, m, p),
            Request::RelinquishInterface(m, p) => encode_mutation(Lock::ReservedByOther, m, p),
        }
    }
}

/// Where a session stands.
#[derive(Debug, Clone, Copy, PartialEq, Eq, Structural)]
pub enum Stage {
    /// The login line was sent; its acknowledgement is awaited.
    LoggingOn,
    /// The ownership claim was sent; its acknowledgement is awaited.
    ClaimingOwnership,
    /// Logged in, with no request on the wire.
    Ready,
    /// The request was sent; its reply is awaited.
    Serving(Request),
    /// The socket failed; the error answers every request until the session
    /// is torn down.
    Failed(Error),
    /// The session is over.
    Closed,
}

/// What a finished request gave.
#[derive(Debug)]
pub enum Outcome {
    Listed(Interfaces),
    Acknowledged,
    Failed(Error),
}

impl Outcome {
    /// The outcome as the answer to a query.
    pub fn into_listing(self) -> (r: Result<Interfaces, Error>)
        ensures
            match self {
                Outcome::Listed(d) => r matches Ok(i) && i@ == d@,
                Outcome::Acknowledged => r == Err::<Interfaces, Error>(Error::InternalConsistency),
                Outcome::Failed(e) => r == Err::<Interfaces, Error>(e),
            },
    {
        match self {
            Outcome::Listed(d) => Ok(d),
            Outcome::Acknowledged => Err(Error::InternalConsistency),
            Outcome::Failed(e) => Err(e),
        }
    }

    /// The outcome as the answer to a reservation change.
    pub fn into_ack(self) -> (r: Result<(), Error>)
        ensures
            match self {
                Outcome::Listed(_) => r == Err::<(), Error>(Error::InternalConsistency),
                Outcome::Acknowledged => r == Ok::<(), Error>(()),
                Outcome::Failed(e) => r == Err::<(), Error>(e),
            },
    {
        match self {
            Outcome::Listed(_) => Err(Error::InternalConsistency),
            Outcome::Acknowledged => Ok(()),
            Outcome::Failed(e) => Err(e),
        }
    }
}

/// What the driver of a session does next.
#[derive(Debug)]
pub enum Step {
    /// Read more of the current reply and hand it to `on_reply`.
    Read,
    /// Write these bytes, then read the reply.
    Write(Vec<u8>),
    /// The login succeeded: the session takes requests.
    Established,
    /// The login failed; the session is closed.
    Refused(Error),
    /// The current request is finished: hand this to its caller.
    Deliver(Outcome),
    /// Write these bytes, ignoring any failure, and stop.
    Logoff(Vec<u8>),
    /// Nothing to do.
    Idle,
}

/// The session's stage once the request queue has closed, and whether the
/// logoff line is to be written: it is, once, whatever happened before.
pub open spec fn after_queue_closed(stage: Stage) -> (Stage, bool) {
    (Stage::Closed, stage != Stage::Closed)
}

/// The session's stage once no request is waiting, and whether the logoff
/// line is to be written: a session that lost its socket is torn down then,
/// once; any other session stays as it is.
pub open spec fn after_idle(stage: Stage) -> (Stage, bool) {
    match stage {
        Stage::Failed(_) => (Stage::Closed, true),
        _ => (stage, false),
    }
}

/// The decisions of one session with the chassis.
pub struct Session {
    stage: Stage,
    ack: AckReader,
    listing: ListingReader,
}

impl Session {
    pub closed spec fn stage(&self) -> Stage {
        self.stage
    }

    /// The bytes of the current reply read so far.
    pub closed spec fn received(&self) -> Seq<u8> {
        match self.stage {
            Stage::Serving(Request::ListInterfaces) => self.listing.received(),
            Stage::LoggingOn | Stage::ClaimingOwnership | Stage::Serving(_) => self.ack.received(),
            _ => Seq::empty(),
        }
    }

    pub closed spec fn wf(&self) -> bool {
        self.ack.wf() && self.listing.wf()
    }

    /// A session that starts by logging in: the bytes returned are to be
    /// written first.
    pub fn new() -> (r: (Session, Vec<u8>))
        ensures
            r.0.wf(),
            r.0.stage() == Stage::LoggingOn,
            r.0.received() == Seq::<u8>::empty(),
            r.1@ == logon_request(),
    {
        let s = Session { stage: Stage::LoggingOn, ack: AckReader::new(), listing: ListingReader::new() };
        (s, encode_logon())
    }

    /// Bytes read from the socket while a reply is awaited. A reply that is
    /// not yet complete is kept; a complete one decides the next step. In a
    /// stage that awaits no reply the bytes are dropped.
    pub fn on_reply(&mut self, chunk: &[u8]) -> (r: Step)
        requires
            old(self).wf(),
        ensures
            final(self).wf(),
            match old(self).stage() {
                Stage::LoggingOn => match ack_of(old(self).received() + chunk@) {
                    Ack::Reading(_) => r is Read && final(self).stage() == Stage::LoggingOn
                        && final(self).received() == old(self).received() + chunk@,
                    Ack::Accepted => r matches Step::Write(w) && w@ == owner_request()
                        && final(self).stage() == Stage::ClaimingOwnership
                        && final(self).received() == Seq::<u8>::empty(),
                    Ack::Refused => r matches Step::Refused(e) && e == Error::Authentication
                        && final(self).stage() == Stage::Closed,
                },
                Stage::ClaimingOwnership => match ack_of(old(self).received() + chunk@) {
                    Ack::Reading(_) => r is Read && final(self).stage() == Stage::ClaimingOwnership
                        && final(self).received() == old(self).received() + chunk@,
                    Ack::Accepted => r is Established && final(self).stage() == Stage::Ready,
                    Ack::Refused => r matches Step::Refused(e) && e == Error::Authentication
                        && final(self).stage() == Stage::Closed,
                },
                Stage::Serving(Request::ListInterfaces) => match listing_of(
                    old(self).received() + chunk@,
                ) {
                    Listing::Reading { .. } => r is Read && final(self).stage() == old(self).stage()
                        && final(self).received() == old(self).received() + chunk@,
                    Listing::Discarding { .. } => r is Read && final(self).stage() == old(self).stage()
                        && final(self).received() == old(self).received() + chunk@,
                    Listing::Complete(d) => r matches Step::Deliver(Outcome::Listed(i)) && i@ == d
                        && final(self).stage() == Stage::Ready,
                    Listing::Malformed => r matches Step::Deliver(Outcome::Failed(e))
                        && e == Error::ProtocolParse && final(self).stage() == Stage::Ready,
                },
                Stage::Serving(_) => match ack_of(old(self).received() + chunk@) {
                    Ack::Reading(_) => r is Read && final(self).stage() == old(self).stage()
                        && final(self).received() == old(self).received() + chunk@,
                    Ack::Accepted => r matches Step::Deliver(Outcome::Acknowledged)
                        && final(self).stage() == Stage::Ready,
                    Ack::Refused => r matches Step::Deliver(Outcome::Failed(e))
                        && e == Error::NotAcknowledged && final(self).stage() == Stage::Ready,
                },
                _ => r is Idle && final(self).stage() == old(self).stage(),
            },
    {
        match self.stage {
            Stage::LoggingOn | Stage::ClaimingOwnership => {
                self.ack.feed(chunk);
                match self.ack.verdict() {
                    None => Step::Read,
                    Some(true) => {
                        self.ack = AckReader::new();
                        if self.stage == Stage::LoggingOn {
                            self.stage = Stage::ClaimingOwnership;
                            Step::Write(encode_owner())
                        } else {
                            self.stage = Stage::Ready;
                            Step::Established
                        }
                    },
                    Some(false) => {
                        self.stage = Stage::Closed;
                        Step::Refused(Error::Authentication)
                    },
                }
            },
            Stage::Serving(Request::ListInterfaces) => {
                self.listing.feed(chunk);
                if self.listing.is_complete() {
                    let mut reader = ListingReader::new();
                    std::mem::swap(&mut reader, &mut self.listing);
                    self.stage = Stage::Ready;
                    Step::Deliver(Outcome::Listed(reader.into_directory()))
                } else if self.listing.is_malformed() {
                    self.listing = ListingReader::new();
                    self.stage = Stage::Ready;
                    Step::Deliver(Outcome::Failed(Error::ProtocolParse))
                } else {
                    Step::Read
                }
            },
            Stage::Serving(_) => {
                self.ack.feed(chunk);
                match self.ack.verdict() {
                    None => Step::Read,
                    Some(true) => {
                        self.ack = AckReader::new();
                        self.stage = Stage::Ready;
                        Step::Deliver(Outcome::Acknowledged)
                    },
                    Some(false) => {
                        self.ack = AckReader::new();
                        self.stage = Stage::Ready;
                        Step::Deliver(Outcome::Failed(Error::NotAcknowledged))
                    },
                }
            },
            _ => Step::Idle,
        }
    }

    /// The next request from the queue. Only a ready session sends it; a
    /// session that lost its socket answers with that failure, and one that
    /// is logging in, busy or closed answers that the request cannot be
    /// taken.
    pub fn on_request(&mut self, request: Request) -> (r: Step)
        requires
            old(self).wf(),
        ensures
            final(self).wf(),
            match old(self).stage() {
                Stage::Ready => r matches Step::Write(w) && w@ == request.wire()
                    && final(self).stage() == Stage::Serving(request)
                    && final(self).received() == Seq::<u8>::empty(),
                Stage::Failed(e) => r matches Step::Deliver(Outcome::Failed(f)) && f == e
                    && final(self).stage() == old(self).stage(),
                _ => r matches Step::Deliver(Outcome::Failed(f)) && f == Error::InternalConsistency
                    && final(self).stage() == old(self).stage()
                    && final(self).received() == old(self).received(),
            },
    {
        match self.stage {
            Stage::Ready => {
                self.ack = AckReader::new();
                self.listing = ListingReader::new();
                self.stage = Stage::Serving(request);
                Step::Write(request.encode())
            },
            Stage::Failed(e) => Step::Deliver(Outcome::Failed(e)),
            _ => Step::Deliver(Outcome::Failed(Error::InternalConsistency)),
        }
    }

    /// A socket operation failed with `error`. During the login the session
    /// is refused; during a request the failure is that request's outcome.
    /// Either way the socket is given up.
    pub fn on_io_error(&mut self, error: Error) -> (r: Step)
        requires
            old(self).wf(),
        ensures
            final(self).wf(),
            match old(self).stage() {
                Stage::LoggingOn | Stage::ClaimingOwnership => r matches Step::Refused(e)
                    && e == error && final(self).stage() == Stage::Closed,
                Stage::Serving(_) => r matches Step::Deliver(Outcome::Failed(e)) && e == error
                    && final(self).stage() == Stage::Failed(error),
                Stage::Ready => r is Idle && final(self).stage() == Stage::Failed(error),
                _ => r is Idle && final(self).stage() == old(self).stage(),
            },
    {
        match self.stage {
            Stage::LoggingOn | Stage::ClaimingOwnership => {
                self.stage = Stage::Closed;
                Step::Refused(error)
            },
            Stage::Serving(_) => {
                self.stage = Stage::Failed(error);
                Step::Deliver(Outcome::Failed(error))
            },
            Stage::Ready => {
                self.stage = Stage::Failed(error);
                Step::Idle
            },
            _ => Step::Idle,
        }
    }

    /// Every handle to the session is gone. The logoff line is to be
    /// written once, however the session fared; after that the session is
    /// closed.
    pub fn on_queue_closed(&mut self) -> (r: Step)
        requires
            old(self).wf(),
        ensures
            final(self).wf(),
            final(self).stage() == after_queue_closed(old(self).stage()).0,
            after_queue_closed(old(self).stage()).1 ==> (r matches Step::Logoff(w) && w@
                == logoff_request()),
            !after_queue_closed(old(self).stage()).1 ==> r is Idle,
    {
        if self.stage == Stage::Closed {
            Step::Idle
        } else {
            self.stage = Stage::Closed;
            Step::Logoff(encode_logoff())
        }
    }

    /// No request is waiting in the queue. A session that lost its socket
    /// has answered every request queued behind the failure, and is now torn
    /// down: the logoff line is to be written, ignoring any failure, and the
    /// session is closed. Any other session has nothing to do.
    pub fn on_idle(&mut self) -> (r: Step)
        requires
            old(self).wf(),
        ensures
            final(self).wf(),
            final(self).stage() == after_idle(old(self).stage()).0,
            final(self).received() == old(self).received(),
            after_idle(old(self).stage()).1 ==> (r matches Step::Logoff(w) && w@
                == logoff_request()),
            !after_idle(old(self).stage()).1 ==> r is Idle,
    {
        match self.stage {
            Stage::Failed(_) => {
                self.stage = Stage::Closed;
                Step::Logoff(encode_logoff())
            },
            _ => Step::Idle,
        }
    }

    /// Whether the session is over.
    pub fn is_closed(&self) -> (r: bool)
        ensures
            r == (self.stage() == Stage::Closed),
    {
        self.stage == Stage::Closed
    }
}

/// Teardown writes the logoff line exactly once: when the request queue
/// closes on a session that is not yet closed, whatever failed before, the
/// logoff is due and the session ends closed; a second close finds nothing
/// more to write.
pub proof fn lemma_single_logoff(stage: Stage)
    requires
        stage != Stage::Closed,
    ensures
        after_queue_closed(stage).1,
        after_queue_closed(stage).0 == Stage::Closed,
        !after_queue_closed(after_queue_closed(stage).0).1,
        after_queue_closed(after_queue_closed(stage).0).0 == Stage::Closed,
{
}

/// A session that lost its socket is torn down as soon as no request is
/// waiting, with exactly one logoff: the idle step writes it and closes the
/// session, and neither a second idle step nor the queue closing afterwards
/// writes another.
pub proof fn lemma_teardown_after_failure(error: Error)
    ensures
        after_idle(Stage::Failed(error)) == (Stage::Closed, true),
        after_idle(Stage::Closed) == (Stage::Closed, false),
        after_queue_closed(Stage::Closed) == (Stage::Closed, false),
{
}

} // verus!
