//! The state machine that one connection runs through.

use crate::messages::ClientMessage;
use crate::session::{
    admits, clients_by_id, fresh_session, is_session_id, joined, keyed_by_id, left, registered,
    rejection_text, ConnectionRegistry, DuplicateConnection, Session, SessionRegistry,
    SessionView, SESSION_ID_LENGTH,
};
use vstd::prelude::*;

verus! {

/// What a client sends along when it asks for a connection.
#[derive(Debug, PartialEq, Eq)]
pub struct ClientConnectionParams {
    /// The identifier under which the client wants to be known.
    pub id: String,
}

/// Where a connection stands in its life.
#[derive(Debug, Clone, Copy, PartialEq, Eq, Structural)]
pub enum RunnerState {
    /// Not yet admitted: the identifier is not registered for this connection.
    Connecting,
    /// Admitted, and reading what the client sends.
    Active,
    /// The client's input has ended; the registration is still in place.
    Disconnecting,
    /// The registration and the session membership are given up.
    Terminated,
}

impl RunnerState {
    /// Tells whether a connection in this state holds its identifier in the
    /// connection registry.
    pub open spec fn is_registered(self) -> bool {
        self is Active || self is Disconnecting
    }
}

/// What arrives on a connection.
#[derive(Debug, PartialEq, Eq)]
pub enum Frame {
    /// A text frame that holds a message.
    Message(ClientMessage),
    /// A text frame that holds no known message.
    Malformed,
    /// A frame that is not text.
    Unhandled,
    /// The end of the input, or an error of the transport.
    Closed,
}

/// A runner as a mathematical value.
pub struct RunnerView {
    /// The identifier of the connection.
    pub connection_id: Seq<char>,
    /// The session that the connection created or joined last.
    pub cached_session: Option<Seq<char>>,
    /// Where the connection stands.
    pub state: RunnerState,
}

/// The sessions after `client` opened one named `id` with state `ext`.
pub open spec fn created<Ext>(
    sessions: Map<Seq<char>, SessionView<Ext>>,
    id: Seq<char>,
    client: Seq<char>,
    ext: Ext,
) -> Map<Seq<char>, SessionView<Ext>> {
    sessions.insert(id, fresh_session(id, ext).with_member(client))
}

/// The sessions after `client` left the session that it remembers, if any.
pub open spec fn left_cached<Ext>(
    sessions: Map<Seq<char>, SessionView<Ext>>,
    cached_session: Option<Seq<char>>,
    client: Seq<char>,
) -> Map<Seq<char>, SessionView<Ext>> {
    match cached_session {
        Some(id) => left(sessions, id, client),
        None => sessions,
    }
}

/// Relates a runner and the sessions before a message of the client to the
/// runner and the sessions after it.
pub open spec fn processed<Ext: Default>(
    before: RunnerView,
    sessions: Map<Seq<char>, SessionView<Ext>>,
    event: ClientMessage,
    after: RunnerView,
    sessions_after: Map<Seq<char>, SessionView<Ext>>,
) -> bool {
    &&& after.connection_id == before.connection_id
    &&& after.state == before.state
    &&& match event {
        ClientMessage::CreateSession => {
            &&& after.cached_session matches Some(id)
            &&& is_session_id(id, SESSION_ID_LENGTH as nat)
            &&& sessions_after == created(
                sessions,
                id,
                before.connection_id,
                sessions_after[id].ext,
            )
            &&& call_ensures(Ext::default, (), sessions_after[id].ext)
        },
        ClientMessage::JoinSession(id) => {
            &&& after.cached_session == Some(id@)
            &&& sessions_after == joined(
                sessions,
                id@,
                before.connection_id,
                sessions_after[id@].ext,
            )
            &&& !sessions.contains_key(id@) ==> call_ensures(
                Ext::default,
                (),
                sessions_after[id@].ext,
            )
        },
        ClientMessage::LeaveSession => {
            &&& after.cached_session == before.cached_session
            &&& sessions_after == left_cached(
                sessions,
                before.cached_session,
                before.connection_id,
            )
        },
    }
}

/// Relates a runner and the sessions before a frame to the runner and the
/// sessions after it. An `Active` runner applies a message, passes over a
/// frame that holds none, and becomes `Disconnecting` when the input has
/// ended. A runner in another state passes over every frame.
pub open spec fn received<Ext: Default>(
    before: RunnerView,
    sessions: Map<Seq<char>, SessionView<Ext>>,
    frame: Frame,
    after: RunnerView,
    sessions_after: Map<Seq<char>, SessionView<Ext>>,
) -> bool {
    if before.state is Active {
        match frame {
            Frame::Message(event) => processed(before, sessions, event, after, sessions_after),
            Frame::Closed => {
                &&& after == (RunnerView { state: RunnerState::Disconnecting, ..before })
                &&& sessions_after == sessions
            },
            _ => after == before && sessions_after == sessions,
        }
    } else {
        after == before && sessions_after == sessions
    }
}

/// The part of a connection that decides: it holds the connection's
/// identifier, the session it entered last, and its place in its life.
#[derive(Debug)]
pub struct ClientRunner {
    connection_id: String,
    cached_session: Option<String>,
    state: RunnerState,
}

impl View for ClientRunner {
    type V = RunnerView;

    closed spec fn view(&self) -> RunnerView {
        RunnerView {
            connection_id: self.connection_id@,
            cached_session: match self.cached_session {
                Some(id) => Some(id@),
                None => None,
            },
            state: self.state,
        }
    }
}

impl ClientRunner {
    /// A runner for a connection that has not been admitted yet.
    pub fn new(connection_id: String) -> (r: Self)
        ensures
            r@ == (RunnerView {
                connection_id: connection_id@,
                cached_session: None,
                state: RunnerState::Connecting,
            }),
    {
        Self { connection_id, cached_session: None, state: RunnerState::Connecting }
    }

    /// The identifier of the connection.
    pub fn connection_id(&self) -> (id: &String)
        ensures
            id@ == self@.connection_id,
    {
        &self.connection_id
    }

    /// The session that the connection created or joined last.
    pub fn cached_session(&self) -> (id: Option<&String>)
        ensures
            match id {
                Some(id) => self@.cached_session == Some(id@),
                None => self@.cached_session is None,
            },
    {
        self.cached_session.as_ref()
    }

    /// Where the connection stands.
    pub fn state(&self) -> (s: RunnerState)
        ensures
            s == self@.state,
    {
        self.state
    }

    /// Registers the connection with handle `sender`, in one step with the
    /// test that its identifier is free. The runner becomes `Active` if that
    /// succeeds and stays `Connecting` if it fails. Only a runner that is
    /// `Connecting` connects: `accept_client` makes one and connects it.
    pub fn connect_client<Sender>(
        &mut self,
        clients: &mut ConnectionRegistry<Sender>,
        sender: Sender,
    ) -> (r: Result<(), DuplicateConnection>)
        requires
            old(self)@.state is Connecting,
        ensures
            r is Ok <==> admits(old(clients)@, old(self)@.connection_id),
            r matches Err(e) ==> e.id@ == old(self)@.connection_id,
            final(clients)@ == registered(old(clients)@, old(self)@.connection_id, sender),
            clients_by_id(old(clients)@) ==> clients_by_id(final(clients)@),
            final(self)@ == (RunnerView {
                state: if r is Ok {
                    RunnerState::Active
                } else {
                    RunnerState::Connecting
                },
                ..old(self)@
            }),
    {
        let outcome = clients.register(self.connection_id.clone(), sender);
        if outcome.is_ok() {
            self.state = RunnerState::Active;
        }
        outcome
    }

    /// Makes a session that nobody has joined yet and that is not in any
    /// registry. The session's identifier is `reserved_id` where one is given
    /// and a random one otherwise. The runner stays as it is: whoever
    /// dispatches a message adds the connection and remembers the session.
    pub fn create_session<Ext: Default>(&mut self, reserved_id: Option<String>) -> (s: Session<Ext>)
        ensures
            match reserved_id {
                Some(id) => s@.id == id@,
                None => is_session_id(s@.id, SESSION_ID_LENGTH as nat),
            },
            s@.clients == Map::<Seq<char>, bool>::empty(),
            call_ensures(Ext::default, (), s@.ext),
            final(self)@ == old(self)@,
    {
        SessionRegistry::<Ext>::create(reserved_id)
    }

    /// Takes the connection out of the session named `session_id`, which is
    /// dropped if that leaves it without an attached member.
    pub fn leave_session<Ext>(&self, sessions: &mut SessionRegistry<Ext>, session_id: &str)
        ensures
            final(sessions)@ == left(old(sessions)@, session_id@, self@.connection_id),
            keyed_by_id(old(sessions)@) ==> keyed_by_id(final(sessions)@),
    {
        sessions.leave(session_id, self.connection_id.as_str());
    }

    /// Applies a message of the client to the sessions.
    ///
    /// `CreateSession` stores a new session under a random identifier, with
    /// the connection as its only member, in place of any session of that
    /// name. `JoinSession` attaches the connection to the named session,
    /// which is made if it is unknown. Either way the runner remembers the
    /// session. `LeaveSession` takes the connection out of the remembered
    /// session, which stays remembered.
    pub fn process_event<Ext: Default>(
        &mut self,
        sessions: &mut SessionRegistry<Ext>,
        event: ClientMessage,
    )
        ensures
            processed(old(self)@, old(sessions)@, event, final(self)@, final(sessions)@),
            keyed_by_id(old(sessions)@) ==> keyed_by_id(final(sessions)@),
    {
        match event {
            ClientMessage::CreateSession => {
                let mut new_session = self.create_session::<Ext>(None);
                new_session.clients.insert(self.connection_id.clone(), true);
                self.cached_session = Some(new_session.id.clone());
                proof {
                    assert(new_session@ == fresh_session(new_session@.id, new_session@.ext).with_member(
                        self@.connection_id,
                    ));
                }
                sessions.insert(new_session);
            },
            ClientMessage::JoinSession(session_id) => {
                self.cached_session = Some(session_id.clone());
                sessions.join(session_id, self.connection_id.as_str());
            },
            ClientMessage::LeaveSession => {
                match &self.cached_session {
                    Some(session_id) => {
                        self.leave_session(sessions, session_id.as_str());
                    },
                    None => {},
                }
            },
        }
    }

    /// Takes in one frame and tells where the connection stands after it.
    /// The caller goes on reading for as long as that is `Active`.
    pub fn on_frame<Ext: Default>(
        &mut self,
        sessions: &mut SessionRegistry<Ext>,
        frame: Frame,
    ) -> (next: RunnerState)
        ensures
            next == final(self)@.state,
            received(old(self)@, old(sessions)@, frame, final(self)@, final(sessions)@),
            keyed_by_id(old(sessions)@) ==> keyed_by_id(final(sessions)@),
    {
        match self.state {
            RunnerState::Active => {
                match frame {
                    Frame::Message(event) => {
                        self.process_event(sessions, event);
                    },
                    Frame::Malformed => {},
                    Frame::Unhandled => {},
                    Frame::Closed => {
                        self.state = RunnerState::Disconnecting;
                    },
                }
            },
            _ => {},
        }
        self.state
    }

    /// Ends the connection. A runner that holds a registration gives it up
    /// and leaves the session that it remembers, if any. Every runner ends
    /// up `Terminated`.
    pub fn disconnect_client<Sender, Ext>(
        &mut self,
        clients: &mut ConnectionRegistry<Sender>,
        sessions: &mut SessionRegistry<Ext>,
    )
        ensures
            final(self)@ == (RunnerView { state: RunnerState::Terminated, ..old(self)@ }),
            final(clients)@ == if old(self)@.state.is_registered() {
                old(clients)@.remove(old(self)@.connection_id)
            } else {
                old(clients)@
            },
            final(sessions)@ == if old(self)@.state.is_registered() {
                left_cached(old(sessions)@, old(self)@.cached_session, old(self)@.connection_id)
            } else {
                old(sessions)@
            },
            old(self)@.cached_session is None ==> final(sessions)@ == old(sessions)@,
            clients_by_id(old(clients)@) ==> clients_by_id(final(clients)@),
            keyed_by_id(old(sessions)@) ==> keyed_by_id(final(sessions)@),
    {
        match self.state {
            RunnerState::Active | RunnerState::Disconnecting => {
                clients.unregister(self.connection_id.as_str());
                match &self.cached_session {
                    Some(session_id) => {
                        self.leave_session(sessions, session_id.as_str());
                    },
                    None => {},
                }
            },
            _ => {},
        }
        self.state = RunnerState::Terminated;
    }
}

/// Decides on a request for a connection. A client whose identifier is free
/// is registered with handle `sender` and gets a runner that is `Active`;
/// the test and the registration are one step. A client whose identifier is
/// in use gets the text that rejects it, and the registry stays as it was.
pub fn accept_client<Sender>(
    clients: &mut ConnectionRegistry<Sender>,
    params: ClientConnectionParams,
    sender: Sender,
) -> (r: Result<ClientRunner, String>)
    ensures
        r is Ok <==> admits(old(clients)@, params.id@),
        final(clients)@ == registered(old(clients)@, params.id@, sender),
        clients_by_id(old(clients)@) ==> clients_by_id(final(clients)@),
        match r {
            Ok(runner) => runner@ == (RunnerView {
                connection_id: params.id@,
                cached_session: None,
                state: RunnerState::Active,
            }),
            Err(text) => text@ == rejection_text(params.id@),
        },
{
    let mut runner = ClientRunner::new(params.id);
    match runner.connect_client(clients, sender) {
        Ok(()) => Ok(runner),
        Err(duplicate) => Err(duplicate.message()),
    }
}

} // verus!
