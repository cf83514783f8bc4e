//! The state machine of one session.
//!
//! A session is strictly sequential: a request is answered before the next
//! one is read. Its states are the points at which it waits for the peer,
//! and every move between them is listed in [`transition`].

use vstd::prelude::*;

use crate::messages::{
    Capability, FetchRequest, FetchResponse, HelloRequest, HelloResponse, PushNegotiate,
    PushRequest, PushResult,
};
use crate::negotiation::{
    fetch_outcome, hello_outcome, negotiate_capabilities, negotiated, negotiation_outcome,
    push_negotiation, push_outcome, run_fetch, run_handshake, run_push, unchanged, ProtocolError,
};
use crate::object_id::OperationId;
use crate::repo_state::RepoState;

verus! {

/// Where a session stands.
#[derive(Debug, Clone, Copy, PartialEq, Eq, Structural)]
pub enum SessionState {
    /// No transport yet.
    Disconnected,
    /// Connected; waiting for the hello exchange.
    Handshaking,
    /// Handshake done; waiting for a fetch or a push.
    Negotiated,
    /// A fetch was announced with a pack; the pack is being sent.
    Fetching,
    /// A push asked for objects; they are being received.
    Pushing,
    /// Ended or broken; nothing more is sent or received.
    Closed,
}

/// What can happen to a session.
#[derive(Debug, Clone, Copy, PartialEq, Eq, Structural)]
pub enum SessionEvent {
    /// The transport was opened.
    Connected,
    /// The hello exchange completed between compatible peers.
    HelloAccepted,
    /// The hello exchange found incompatible versions.
    HelloRefused,
    /// A fetch was answered and a pack follows.
    PackAnnounced,
    /// A fetch was answered and nothing follows.
    NothingToSend,
    /// The announced pack was sent in full.
    PackSent,
    /// A push was asked to supply objects first.
    ObjectsRequested,
    /// A push was judged and its result sent.
    PushJudged,
    /// The session was ended on purpose.
    Ended,
    /// Framing failed, or a message could not be understood or came out of
    /// turn.
    Failed,
}

/// The state that follows `state` when `event` happens. An event that the
/// state does not allow closes the session, as does a failure or an end;
/// a closed session stays closed.
pub open spec fn transition(state: SessionState, event: SessionEvent) -> SessionState {
    match (state, event) {
        (SessionState::Disconnected, SessionEvent::Connected) => SessionState::Handshaking,
        (SessionState::Handshaking, SessionEvent::HelloAccepted) => SessionState::Negotiated,
        (SessionState::Negotiated, SessionEvent::PackAnnounced) => SessionState::Fetching,
        (SessionState::Negotiated, SessionEvent::NothingToSend) => SessionState::Negotiated,
        (SessionState::Fetching, SessionEvent::PackSent) => SessionState::Negotiated,
        (SessionState::Negotiated, SessionEvent::ObjectsRequested) => SessionState::Pushing,
        (SessionState::Negotiated, SessionEvent::PushJudged) => SessionState::Negotiated,
        (SessionState::Pushing, SessionEvent::PushJudged) => SessionState::Negotiated,
        _ => SessionState::Closed,
    }
}

/// Whether `state` allows `event`: the event is one that the state waits
/// for, or it ends or breaks a session that is not closed yet.
pub open spec fn allows(state: SessionState, event: SessionEvent) -> bool {
    match (state, event) {
        (SessionState::Closed, _) => false,
        (_, SessionEvent::Ended) => true,
        (_, SessionEvent::Failed) => true,
        (SessionState::Handshaking, SessionEvent::HelloRefused) => true,
        _ => transition(state, event) != SessionState::Closed,
    }
}

/// A closed session allows nothing and never leaves the closed state, and a
/// failure or an end closes every session.
pub proof fn lemma_closed_is_final(state: SessionState, event: SessionEvent)
    ensures
        !allows(SessionState::Closed, event),
        transition(SessionState::Closed, event) == SessionState::Closed,
        transition(state, SessionEvent::Failed) == SessionState::Closed,
        transition(state, SessionEvent::Ended) == SessionState::Closed,
        !allows(state, event) ==> transition(state, event) == SessionState::Closed,
{
}

/// The state that follows `state` when `event` happens.
pub fn next_state(state: SessionState, event: SessionEvent) -> (next: SessionState)
    ensures
        next == transition(state, event),
{
    match (state, event) {
        (SessionState::Disconnected, SessionEvent::Connected) => SessionState::Handshaking,
        (SessionState::Handshaking, SessionEvent::HelloAccepted) => SessionState::Negotiated,
        (SessionState::Negotiated, SessionEvent::PackAnnounced) => SessionState::Fetching,
        (SessionState::Negotiated, SessionEvent::NothingToSend) => SessionState::Negotiated,
        (SessionState::Fetching, SessionEvent::PackSent) => SessionState::Negotiated,
        (SessionState::Negotiated, SessionEvent::ObjectsRequested) => SessionState::Pushing,
        (SessionState::Negotiated, SessionEvent::PushJudged) => SessionState::Negotiated,
        (SessionState::Pushing, SessionEvent::PushJudged) => SessionState::Negotiated,
        _ => SessionState::Closed,
    }
}

/// Whether `state` allows `event`.
pub fn is_allowed(state: SessionState, event: SessionEvent) -> (allowed: bool)
    ensures
        allowed == allows(state, event),
{
    match (state, event) {
        (SessionState::Closed, _) => false,
        (_, SessionEvent::Ended) => true,
        (_, SessionEvent::Failed) => true,
        (SessionState::Handshaking, SessionEvent::HelloRefused) => true,
        _ => match next_state(state, event) {
            SessionState::Closed => false,
            _ => true,
        },
    }
}

/// A push that waits for the objects the server asked for.
#[derive(Debug)]
pub struct PendingPush {
    pub request: PushRequest,
    pub operation: OperationId,
}

/// What a server answers to a push request.
#[derive(Debug)]
pub enum PushReply {
    /// The server needs objects before it can judge the push.
    Negotiate(PushNegotiate),
    /// The push was judged.
    Judged(PushResult),
}

/// One session as the server sees it.
pub struct Session {
    state: SessionState,
    capabilities: Vec<Capability>,
    announced: u64,
    pending: Option<PendingPush>,
}

impl Session {
    /// Where the session stands.
    pub closed spec fn current(self) -> SessionState {
        self.state
    }

    /// The capabilities that the peers share, once the handshake is done.
    pub closed spec fn shared(self) -> Seq<Capability> {
        self.capabilities@
    }

    /// The count that the last fetch announced for its pack.
    pub closed spec fn expecting(self) -> u64 {
        self.announced
    }

    /// The push that waits for objects, if there is one.
    pub closed spec fn waiting(self) -> Option<PendingPush> {
        self.pending
    }

    /// Whether `self` differs from `before` in nothing but the state.
    pub open spec fn keeps(self, before: Session) -> bool {
        &&& self.shared() == before.shared()
        &&& self.expecting() == before.expecting()
        &&& self.waiting() == before.waiting()
    }

    /// A session without a transport.
    pub fn new() -> (session: Self)
        ensures
            session.current() == SessionState::Disconnected,
            session.shared().len() == 0,
            session.expecting() == 0,
            session.waiting() is None,
    {
        Session {
            state: SessionState::Disconnected,
            capabilities: Vec::new(),
            announced: 0,
            pending: None,
        }
    }

    /// Where the session stands.
    pub fn state(&self) -> (state: SessionState)
        ensures
            state == self.current(),
    {
        self.state
    }

    /// The capabilities that the peers share.
    pub fn capabilities(&self) -> (shared: &Vec<Capability>)
        ensures
            shared@ == self.shared(),
    {
        &self.capabilities
    }

    /// Whether the session is closed.
    pub fn is_closed(&self) -> (closed: bool)
        ensures
            closed == (self.current() == SessionState::Closed),
    {
        match self.state {
            SessionState::Closed => true,
            _ => false,
        }
    }

    /// The transport was opened.
    pub fn connect(&mut self) -> (r: Result<(), ProtocolError>)
        ensures
            final(self).current() == transition(old(self).current(), SessionEvent::Connected),
            final(self).keeps(*old(self)),
            old(self).current() == SessionState::Disconnected ==> r is Ok,
            old(self).current() != SessionState::Disconnected ==> r == Err::<(), ProtocolError>(
                ProtocolError::UnexpectedMessage,
            ),
    {
        let allowed = is_allowed(self.state, SessionEvent::Connected);
        self.state = next_state(self.state, SessionEvent::Connected);
        if allowed {
            Ok(())
        } else {
            Err(ProtocolError::UnexpectedMessage)
        }
    }

    /// The pack that the last fetch announced was sent, with `sent` items.
    ///
    /// The count must be the one announced: a pack of another size breaks
    /// the session, as does a pack that was not announced.
    pub fn pack_sent(&mut self, sent: u64) -> (r: Result<(), ProtocolError>)
        ensures
            final(self).keeps(*old(self)),
            old(self).current() != SessionState::Fetching ==> {
                &&& r == Err::<(), ProtocolError>(ProtocolError::UnexpectedMessage)
                &&& final(self).current() == SessionState::Closed
            },
            old(self).current() == SessionState::Fetching && sent != old(self).expecting() ==> {
                &&& r == Err::<(), ProtocolError>(
                    ProtocolError::PackMismatch { announced: old(self).expecting(), sent },
                )
                &&& final(self).current() == SessionState::Closed
            },
            old(self).current() == SessionState::Fetching && sent == old(self).expecting() ==> {
                &&& r is Ok
                &&& final(self).current() == SessionState::Negotiated
            },
    {
        match self.state {
            SessionState::Fetching => {},
            _ => {
                self.state = SessionState::Closed;
                return Err(ProtocolError::UnexpectedMessage);
            },
        }
        if sent != self.announced {
            self.state = next_state(self.state, SessionEvent::Failed);
            return Err(ProtocolError::PackMismatch { announced: self.announced, sent });
        }
        self.state = next_state(self.state, SessionEvent::PackSent);
        Ok(())
    }

    /// End the session on purpose.
    pub fn close(&mut self)
        ensures
            final(self).current() == transition(old(self).current(), SessionEvent::Ended),
            final(self).current() == SessionState::Closed,
            final(self).keeps(*old(self)),
    {
        self.state = next_state(self.state, SessionEvent::Ended);
    }

    /// The transport or the framing failed, or a message could not be
    /// understood: the session is closed.
    pub fn fail(&mut self)
        ensures
            final(self).current() == transition(old(self).current(), SessionEvent::Failed),
            final(self).current() == SessionState::Closed,
            final(self).keeps(*old(self)),
    {
        self.state = next_state(self.state, SessionEvent::Failed);
    }

    /// Handle a hello request.
    ///
    /// While handshaking, the request is answered as `run_handshake` answers
    /// it; compatible peers move on with the capabilities they share, and
    /// incompatible ones close the session. In any other state the request
    /// is out of turn and closes the session.
    pub fn on_hello(
        &mut self,
        repo: &RepoState,
        capabilities: &Vec<Capability>,
        request: &HelloRequest,
    ) -> (r: Result<HelloResponse, ProtocolError>)
        ensures
            final(self).waiting() == old(self).waiting(),
            final(self).expecting() == old(self).expecting(),
            old(self).current() != SessionState::Handshaking ==> {
                &&& r == Err::<HelloResponse, ProtocolError>(ProtocolError::UnexpectedMessage)
                &&& final(self).current() == SessionState::Closed
                &&& final(self).shared() == old(self).shared()
            },
            old(self).current() == SessionState::Handshaking ==> {
                &&& hello_outcome(*repo, capabilities@, *request, r)
                &&& r is Ok ==> final(self).current() == SessionState::Negotiated && final(self).shared() == negotiated(request.capabilities@, capabilities@)
                &&& r is Err ==> final(self).current() == SessionState::Closed && final(self).shared() == old(self).shared()
            },
    {
        match self.state {
            SessionState::Handshaking => {},
            _ => {
                self.state = SessionState::Closed;
                return Err(ProtocolError::UnexpectedMessage);
            },
        }
        let r = run_handshake(repo, capabilities, request);
        match &r {
            Ok(_) => {
                self.capabilities = negotiate_capabilities(&request.capabilities, capabilities);
                self.state = next_state(self.state, SessionEvent::HelloAccepted);
            },
            Err(_) => {
                self.state = next_state(self.state, SessionEvent::HelloRefused);
            },
        }
        r
    }

    /// Handle a fetch request.
    ///
    /// After the handshake, the request is answered as `run_fetch` answers
    /// it. Where a pack follows, the session goes on to send it and
    /// remembers the count that was announced. In any other state the
    /// request is out of turn and closes the session.
    pub fn on_fetch(&mut self, repo: &RepoState, request: &FetchRequest) -> (r: Result<
        FetchResponse,
        ProtocolError,
    >)
        ensures
            final(self).shared() == old(self).shared(),
            final(self).waiting() == old(self).waiting(),
            old(self).current() != SessionState::Negotiated ==> {
                &&& r == Err::<FetchResponse, ProtocolError>(ProtocolError::UnexpectedMessage)
                &&& final(self).current() == SessionState::Closed
                &&& final(self).expecting() == old(self).expecting()
            },
            old(self).current() == SessionState::Negotiated ==> {
                &&& r is Ok
                &&& fetch_outcome(*repo, *request, r->Ok_0)
                &&& final(self).current() == if r->Ok_0.pack_follows {
                    SessionState::Fetching
                } else {
                    SessionState::Negotiated
                }
                &&& final(self).expecting() == r->Ok_0.commit_count
            },
    {
        match self.state {
            SessionState::Negotiated => {},
            _ => {
                self.state = SessionState::Closed;
                return Err(ProtocolError::UnexpectedMessage);
            },
        }
        let response = run_fetch(repo, request);
        let event = if response.pack_follows {
            SessionEvent::PackAnnounced
        } else {
            SessionEvent::NothingToSend
        };
        self.announced = response.commit_count;
        self.state = next_state(self.state, event);
        Ok(response)
    }

    /// Handle a push request that is to be recorded as `operation`.
    ///
    /// After the handshake, the server first asks for objects where
    /// `push_negotiation` says so; the push then waits, and nothing is judged
    /// or changed yet. Otherwise the push is judged and applied as `run_push`
    /// does, and the session is ready for the next request. A push that
    /// cannot be recorded closes the session, and so does a push out of turn.
    pub fn on_push(&mut self, repo: &mut RepoState, request: PushRequest, operation: OperationId) -> (r:
        Result<PushReply, ProtocolError>)
        ensures
            final(self).shared() == old(self).shared(),
            final(self).expecting() == old(self).expecting(),
            old(self).current() != SessionState::Negotiated ==> {
                &&& r == Err::<PushReply, ProtocolError>(ProtocolError::UnexpectedMessage)
                &&& final(self).current() == SessionState::Closed
                &&& final(self).waiting() == old(self).waiting()
                &&& unchanged(*old(repo), *final(repo))
            },
            old(self).current() == SessionState::Negotiated ==> match r {
                Ok(PushReply::Negotiate(asked)) => {
                    &&& negotiation_outcome(*old(repo), request, Some(asked))
                    &&& final(self).current() == SessionState::Pushing
                    &&& final(self).waiting() == Some(PendingPush { request, operation })
                    &&& unchanged(*old(repo), *final(repo))
                },
                Ok(PushReply::Judged(result)) => {
                    &&& negotiation_outcome(*old(repo), request, None)
                    &&& push_outcome(
                        *old(repo),
                        *final(repo),
                        request,
                        operation,
                        Ok::<PushResult, ProtocolError>(result),
                    )
                    &&& final(self).current() == SessionState::Negotiated
                    &&& final(self).waiting() == old(self).waiting()
                },
                Err(e) => {
                    &&& negotiation_outcome(*old(repo), request, None)
                    &&& push_outcome(
                        *old(repo),
                        *final(repo),
                        request,
                        operation,
                        Err::<PushResult, ProtocolError>(e),
                    )
                    &&& final(self).current() == SessionState::Closed
                    &&& final(self).waiting() == old(self).waiting()
                },
            },
    {
        match self.state {
            SessionState::Negotiated => {},
            _ => {
                self.state = SessionState::Closed;
                return Err(ProtocolError::UnexpectedMessage);
            },
        }
        match push_negotiation(repo, &request) {
            Some(asked) => {
                self.pending = Some(PendingPush { request, operation });
                self.state = next_state(self.state, SessionEvent::ObjectsRequested);
                Ok(PushReply::Negotiate(asked))
            },
            None => match run_push(repo, &request, operation) {
                Ok(result) => {
                    self.state = next_state(self.state, SessionEvent::PushJudged);
                    Ok(PushReply::Judged(result))
                },
                Err(e) => {
                    self.state = next_state(self.state, SessionEvent::Failed);
                    Err(e)
                },
            },
        }
    }

    /// The objects that a waiting push was asked for have arrived: judge and
    /// apply the push as `run_push` does.
    ///
    /// Where no push is waiting the event is out of turn and closes the
    /// session.
    pub fn on_objects(&mut self, repo: &mut RepoState) -> (r: Result<PushResult, ProtocolError>)
        ensures
            final(self).shared() == old(self).shared(),
            final(self).expecting() == old(self).expecting(),
            final(self).waiting() is None,
            old(self).current() != SessionState::Pushing || old(self).waiting() is None ==> {
                &&& r == Err::<PushResult, ProtocolError>(ProtocolError::UnexpectedMessage)
                &&& final(self).current() == SessionState::Closed
                &&& unchanged(*old(repo), *final(repo))
            },
            old(self).current() == SessionState::Pushing && old(self).waiting() is Some ==> {
                &&& push_outcome(
                    *old(repo),
                    *final(repo),
                    old(self).waiting()->0.request,
                    old(self).waiting()->0.operation,
                    r,
                )
                &&& final(self).current() == if r is Ok {
                    SessionState::Negotiated
                } else {
                    SessionState::Closed
                }
            },
    {
        let mut pending: Option<PendingPush> = None;
        core::mem::swap(&mut self.pending, &mut pending);
        let waiting = match self.state {
            SessionState::Pushing => pending,
            _ => None,
        };
        match waiting {
            Some(push) => {
                let r = run_push(repo, &push.request, push.operation);
                let event = match &r {
                    Ok(_) => SessionEvent::PushJudged,
                    Err(_) => SessionEvent::Failed,
                };
                self.state = next_state(self.state, event);
                r
            },
            None => {
                self.state = SessionState::Closed;
                Err(ProtocolError::UnexpectedMessage)
            },
        }
    }
}

} // verus!
