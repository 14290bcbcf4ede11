//! What holds of the registries and of the connection state machine,
//! whatever their state.

use crate::messages::ClientMessage;
use crate::session::{admits, joined, left, registered, ClientView, SessionView};
use crate::ws::{created, left_cached, processed, RunnerView};
use vstd::prelude::*;

verus! {

/// Every session has a member that is attached to it.
pub open spec fn attended<Ext>(sessions: Map<Seq<char>, SessionView<Ext>>) -> bool {
    forall|id: Seq<char>| #[trigger] sessions.contains_key(id) ==> sessions[id].is_attended()
}

/// Of two connections that ask for the same identifier while no live
/// connection holds it, one is admitted and one is refused: the one that
/// comes first is registered, and the other finds the identifier taken and
/// leaves the registry as it found it. The registry is changed through an
/// exclusive reference only, so one of the two does come first.
pub proof fn lemma_one_of_two_admitted<Sender>(
    clients: Map<Seq<char>, ClientView<Sender>>,
    id: Seq<char>,
    first: Sender,
    second: Sender,
)
    requires
        !clients.contains_key(id),
    ensures
        admits(clients, id),
        registered(clients, id, first)[id] == (ClientView { id, sender: first }),
        !admits(registered(clients, id, first), id),
        registered(registered(clients, id, first), id, second) == registered(clients, id, first),
{
}

/// A registration that succeeds adds one connection to the registry, with
/// the identifier and the handle that were given, and one that fails adds
/// none.
pub proof fn lemma_registration_counts<Sender>(
    clients: Map<Seq<char>, ClientView<Sender>>,
    id: Seq<char>,
    sender: Sender,
)
    requires
        clients.dom().finite(),
    ensures
        registered(clients, id, sender).dom().finite(),
        registered(clients, id, sender).contains_key(id),
        admits(clients, id) ==> registered(clients, id, sender)[id] == (ClientView { id, sender })
            && registered(clients, id, sender).len() == clients.len() + 1,
        !admits(clients, id) ==> registered(clients, id, sender)[id] == clients[id] && registered(
            clients,
            id,
            sender,
        ).len() == clients.len(),
{
}

/// Forgetting a connection takes one out of the registry if it was there,
/// and leaves every other connection as it was.
pub proof fn lemma_unregistration_counts<Sender>(
    clients: Map<Seq<char>, ClientView<Sender>>,
    id: Seq<char>,
)
    requires
        clients.dom().finite(),
    ensures
        clients.remove(id).dom().finite(),
        clients.contains_key(id) ==> clients.remove(id).len() == clients.len() - 1,
        !clients.contains_key(id) ==> clients.remove(id) == clients,
        forall|other: Seq<char>|
            other != id && clients.contains_key(other) ==> #[trigger] clients.remove(id)[other]
                == clients[other],
{
    if !clients.contains_key(id) {
        assert(clients.remove(id) =~= clients);
    }
}

/// A connection that is refused leaves the registry unchanged, and one that
/// is admitted changes nothing but its own entry.
pub proof fn lemma_registration_is_local<Sender>(
    clients: Map<Seq<char>, ClientView<Sender>>,
    id: Seq<char>,
    sender: Sender,
    other: Seq<char>,
)
    requires
        other != id,
    ensures
        registered(clients, id, sender).contains_key(other) == clients.contains_key(other),
        clients.contains_key(other) ==> registered(clients, id, sender)[other] == clients[other],
        !admits(clients, id) ==> registered(clients, id, sender) == clients,
{
}

/// A session that a connection creates is stored under its identifier and
/// has that connection as its one member, attached. No other session
/// changes.
pub proof fn lemma_created_session<Ext>(
    sessions: Map<Seq<char>, SessionView<Ext>>,
    id: Seq<char>,
    client: Seq<char>,
    ext: Ext,
)
    ensures
        created(sessions, id, client, ext).contains_key(id),
        created(sessions, id, client, ext)[id].id == id,
        created(sessions, id, client, ext)[id].clients == map![client => true],
        created(sessions, id, client, ext)[id].active_clients() == set![client],
        forall|other: Seq<char>|
            other != id ==> created(sessions, id, client, ext).contains_key(other)
                == sessions.contains_key(other),
        forall|other: Seq<char>|
            other != id && sessions.contains_key(other) ==> created(sessions, id, client, ext)[other]
                == sessions[other],
        sessions.dom().finite() ==> created(sessions, id, client, ext).dom().finite(),
        sessions.dom().finite() && !sessions.contains_key(id) ==> created(
            sessions,
            id,
            client,
            ext,
        ).len() == sessions.len() + 1,
        sessions.dom().finite() && sessions.contains_key(id) ==> created(
            sessions,
            id,
            client,
            ext,
        ).len() == sessions.len(),
{
    let session = created(sessions, id, client, ext)[id];
    assert(session.clients =~= map![client => true]);
    assert(session.active_clients() =~= set![client]);
}

/// After a `CreateSession` of a connection, the session that the runner
/// remembers is in the registry and its attached members are that connection
/// and nobody else.
pub proof fn lemma_create_session_event<Ext: Default>(
    before: RunnerView,
    sessions: Map<Seq<char>, SessionView<Ext>>,
    after: RunnerView,
    sessions_after: Map<Seq<char>, SessionView<Ext>>,
)
    requires
        processed(before, sessions, ClientMessage::CreateSession, after, sessions_after),
    ensures
        after.cached_session is Some,
        sessions_after.contains_key(after.cached_session->0),
        sessions_after[after.cached_session->0].id == after.cached_session->0,
        sessions_after[after.cached_session->0].active_clients() == set![before.connection_id],
{
    let id = after.cached_session->0;
    lemma_created_session(sessions, id, before.connection_id, sessions_after[id].ext);
}

/// Joining a session that exists attaches the caller and touches nothing
/// else: the session keeps its identifier and its state, every other member
/// keeps its entry and its flag, no member is lost or added besides the
/// caller, and no other session changes.
pub proof fn lemma_join_existing<Ext>(
    sessions: Map<Seq<char>, SessionView<Ext>>,
    session_id: Seq<char>,
    client: Seq<char>,
    ext: Ext,
)
    requires
        sessions.contains_key(session_id),
    ensures
        joined(sessions, session_id, client, ext).dom() == sessions.dom(),
        joined(sessions, session_id, client, ext)[session_id].id == sessions[session_id].id,
        joined(sessions, session_id, client, ext)[session_id].ext == sessions[session_id].ext,
        joined(sessions, session_id, client, ext)[session_id].is_active(client),
        joined(sessions, session_id, client, ext)[session_id].clients.dom()
            == sessions[session_id].clients.dom().insert(client),
        forall|member: Seq<char>|
            member != client && sessions[session_id].clients.contains_key(member) ==> joined(
                sessions,
                session_id,
                client,
                ext,
            )[session_id].clients[member] == sessions[session_id].clients[member],
        forall|other: Seq<char>|
            other != session_id && sessions.contains_key(other) ==> joined(
                sessions,
                session_id,
                client,
                ext,
            )[other] == sessions[other],
        sessions.dom().finite() ==> joined(sessions, session_id, client, ext).len()
            == sessions.len(),
{
    let after = joined(sessions, session_id, client, ext);
    assert(after.dom() =~= sessions.dom());
    assert(after[session_id].clients.dom() =~= sessions[session_id].clients.dom().insert(client));
}

/// Joining a session that does not exist makes one whose identifier is the
/// one asked for, with the caller as its one member, attached. No other
/// session changes.
pub proof fn lemma_join_unknown<Ext>(
    sessions: Map<Seq<char>, SessionView<Ext>>,
    session_id: Seq<char>,
    client: Seq<char>,
    ext: Ext,
)
    requires
        !sessions.contains_key(session_id),
    ensures
        joined(sessions, session_id, client, ext) == created(sessions, session_id, client, ext),
        joined(sessions, session_id, client, ext).dom() == sessions.dom().insert(session_id),
        joined(sessions, session_id, client, ext)[session_id].id == session_id,
        joined(sessions, session_id, client, ext)[session_id].clients == map![client => true],
        joined(sessions, session_id, client, ext)[session_id].active_clients() == set![client],
        forall|other: Seq<char>|
            other != session_id && sessions.contains_key(other) ==> joined(
                sessions,
                session_id,
                client,
                ext,
            )[other] == sessions[other],
        sessions.dom().finite() ==> joined(sessions, session_id, client, ext).dom().finite()
            && joined(sessions, session_id, client, ext).len() == sessions.len() + 1,
{
    lemma_created_session(sessions, session_id, client, ext);
    assert(joined(sessions, session_id, client, ext).dom() =~= sessions.dom().insert(session_id));
}

/// When the one attached member of a session leaves, the session is dropped
/// from the registry. No other session changes.
pub proof fn lemma_leave_as_last<Ext>(
    sessions: Map<Seq<char>, SessionView<Ext>>,
    session_id: Seq<char>,
    client: Seq<char>,
)
    requires
        sessions.contains_key(session_id),
        sessions[session_id].active_clients() == set![client],
    ensures
        !left(sessions, session_id, client).contains_key(session_id),
        left(sessions, session_id, client) == sessions.remove(session_id),
        forall|other: Seq<char>|
            other != session_id && sessions.contains_key(other) ==> left(
                sessions,
                session_id,
                client,
            ).contains_key(other) && left(sessions, session_id, client)[other] == sessions[other],
        sessions.dom().finite() ==> left(sessions, session_id, client).dom().finite() && left(
            sessions,
            session_id,
            client,
        ).len() == sessions.len() - 1,
{
    let session = sessions[session_id];
    let after = session.with_status(client, false);
    assert(session.active_clients().contains(client));
    assert forall|other: Seq<char>| !after.is_active(other) by {
        if other != client && after.is_active(other) {
            assert(session.active_clients().contains(other));
        }
    }
    assert(after.active_clients() =~= Set::<Seq<char>>::empty());
}

/// When one of several attached members of a session leaves, the session
/// stays in the registry, that member is no longer attached but still has
/// its entry, and every other member keeps its entry and its flag. No other
/// session changes.
pub proof fn lemma_leave_among_others<Ext>(
    sessions: Map<Seq<char>, SessionView<Ext>>,
    session_id: Seq<char>,
    client: Seq<char>,
    other: Seq<char>,
)
    requires
        sessions.contains_key(session_id),
        sessions[session_id].is_active(client),
        sessions[session_id].is_active(other),
        other != client,
    ensures
        left(sessions, session_id, client).dom() == sessions.dom(),
        left(sessions, session_id, client)[session_id].id == sessions[session_id].id,
        left(sessions, session_id, client)[session_id].ext == sessions[session_id].ext,
        left(sessions, session_id, client)[session_id].clients == sessions[session_id].clients.insert(
            client,
            false,
        ),
        !left(sessions, session_id, client)[session_id].is_active(client),
        left(sessions, session_id, client)[session_id].active_clients()
            == sessions[session_id].active_clients().remove(client),
        forall|id: Seq<char>|
            id != session_id && sessions.contains_key(id) ==> left(sessions, session_id, client)[id]
                == sessions[id],
        sessions.dom().finite() ==> left(sessions, session_id, client).len() == sessions.len(),
{
    let after = sessions[session_id].with_status(client, false);
    assert(after.is_active(other));
    assert(after.active_clients().contains(other));
    assert(left(sessions, session_id, client).dom() =~= sessions.dom());
    assert(after.active_clients() =~= sessions[session_id].active_clients().remove(client));
}

/// Leaving a session that does not exist changes nothing, and so does
/// leaving when no session is remembered.
pub proof fn lemma_leave_nothing<Ext>(
    sessions: Map<Seq<char>, SessionView<Ext>>,
    session_id: Seq<char>,
    client: Seq<char>,
)
    ensures
        !sessions.contains_key(session_id) ==> left(sessions, session_id, client) == sessions,
        left_cached(sessions, None, client) == sessions,
{
}

/// Only a leave drops a session: creating and joining keep every session
/// that was there.
pub proof fn lemma_only_leave_drops<Ext>(
    sessions: Map<Seq<char>, SessionView<Ext>>,
    session_id: Seq<char>,
    client: Seq<char>,
    ext: Ext,
    other: Seq<char>,
)
    requires
        sessions.contains_key(other),
    ensures
        created(sessions, session_id, client, ext).contains_key(other),
        joined(sessions, session_id, client, ext).contains_key(other),
        other != session_id ==> left(sessions, session_id, client).contains_key(other),
{
}

/// Where every session has an attached member, that is still so once a
/// session with an attached member is stored.
pub proof fn lemma_attended_with<Ext>(
    sessions: Map<Seq<char>, SessionView<Ext>>,
    id: Seq<char>,
    session: SessionView<Ext>,
)
    requires
        attended(sessions),
        session.is_attended(),
    ensures
        attended(sessions.insert(id, session)),
{
    let stored = sessions.insert(id, session);
    assert forall|other: Seq<char>| #[trigger] stored.contains_key(other) implies stored[other].is_attended() by {
        if other != id {
            assert(sessions.contains_key(other));
        }
    }
}

/// Where every session has an attached member, that is still so after a
/// session was created, joined or left: a session is in the registry for as
/// long as somebody is attached to it.
pub proof fn lemma_sessions_stay_attended<Ext>(
    sessions: Map<Seq<char>, SessionView<Ext>>,
    session_id: Seq<char>,
    client: Seq<char>,
    ext: Ext,
)
    requires
        attended(sessions),
    ensures
        attended(created(sessions, session_id, client, ext)),
        attended(joined(sessions, session_id, client, ext)),
        attended(left(sessions, session_id, client)),
{
    let made = created(sessions, session_id, client, ext);
    assert(made[session_id].is_active(client));
    lemma_attended_with(sessions, session_id, made[session_id]);
    let entered = joined(sessions, session_id, client, ext);
    assert(entered[session_id].is_active(client));
    lemma_attended_with(sessions, session_id, entered[session_id]);
    let gone = left(sessions, session_id, client);
    assert forall|id: Seq<char>| #[trigger] gone.contains_key(id) implies gone[id].is_attended() by {
        assert(sessions.contains_key(id));
        if id == session_id {
            let after = sessions[session_id].with_status(client, false);
            assert(gone[id] == after);
            assert(!(after.active_clients() =~= Set::<Seq<char>>::empty()));
            let c = choose|c: Seq<char>| after.active_clients().contains(c);
            assert(after.is_active(c));
        } else {
            let c = choose|c: Seq<char>| sessions[id].is_active(c);
            assert(gone[id].is_active(c));
        }
    }
}

/// A message of a client keeps every session attended.
pub proof fn lemma_messages_keep_sessions_attended<Ext: Default>(
    before: RunnerView,
    sessions: Map<Seq<char>, SessionView<Ext>>,
    event: ClientMessage,
    after: RunnerView,
    sessions_after: Map<Seq<char>, SessionView<Ext>>,
)
    requires
        attended(sessions),
        processed(before, sessions, event, after, sessions_after),
    ensures
        attended(sessions_after),
{
    match event {
        ClientMessage::CreateSession => {
            let id = after.cached_session->0;
            lemma_sessions_stay_attended(sessions, id, before.connection_id, sessions_after[id].ext);
        },
        ClientMessage::JoinSession(id) => {
            lemma_sessions_stay_attended(
                sessions,
                id@,
                before.connection_id,
                sessions_after[id@].ext,
            );
        },
        ClientMessage::LeaveSession => {
            match before.cached_session {
                Some(id) => {
                    lemma_sessions_stay_attended(
                        sessions,
                        id,
                        before.connection_id,
                        arbitrary::<Ext>(),
                    );
                },
                None => {},
            }
        },
    }
}

/// After a `JoinSession` for a session that did not exist, the registry
/// holds one session more. It is stored under the identifier as it was
/// given, has a fresh state and the caller as its one member, attached, and
/// is the session that the runner remembers. No other session changes.
pub proof fn lemma_join_unknown_event<Ext: Default>(
    before: RunnerView,
    sessions: Map<Seq<char>, SessionView<Ext>>,
    id: String,
    after: RunnerView,
    sessions_after: Map<Seq<char>, SessionView<Ext>>,
)
    requires
        !sessions.contains_key(id@),
        processed(before, sessions, ClientMessage::JoinSession(id), after, sessions_after),
    ensures
        after.cached_session == Some(id@),
        sessions_after.contains_key(id@),
        sessions_after[id@].id == id@,
        sessions_after[id@].clients == map![before.connection_id => true],
        sessions_after[id@].active_clients() == set![before.connection_id],
        call_ensures(Ext::default, (), sessions_after[id@].ext),
        forall|other: Seq<char>|
            other != id@ ==> sessions_after.contains_key(other) == sessions.contains_key(other),
        forall|other: Seq<char>|
            other != id@ && sessions.contains_key(other) ==> sessions_after[other]
                == sessions[other],
        sessions.dom().finite() ==> sessions_after.dom().finite() && sessions_after.len()
            == sessions.len() + 1,
{
    lemma_join_unknown(sessions, id@, before.connection_id, sessions_after[id@].ext);
}

/// After a `JoinSession` for a session that exists, the registry holds the
/// same sessions. In the one that was named the caller is attached, every
/// other member has the entry and the flag it had, and the identifier and
/// the state are as before. The runner remembers that session.
pub proof fn lemma_join_existing_event<Ext: Default>(
    before: RunnerView,
    sessions: Map<Seq<char>, SessionView<Ext>>,
    id: String,
    after: RunnerView,
    sessions_after: Map<Seq<char>, SessionView<Ext>>,
)
    requires
        sessions.contains_key(id@),
        processed(before, sessions, ClientMessage::JoinSession(id), after, sessions_after),
    ensures
        after.cached_session == Some(id@),
        sessions_after.dom() == sessions.dom(),
        sessions_after[id@].id == sessions[id@].id,
        sessions_after[id@].ext == sessions[id@].ext,
        sessions_after[id@].clients == sessions[id@].clients.insert(before.connection_id, true),
        forall|other: Seq<char>|
            other != id@ && sessions.contains_key(other) ==> sessions_after[other]
                == sessions[other],
        sessions.dom().finite() ==> sessions_after.len() == sessions.len(),
{
    lemma_join_existing(sessions, id@, before.connection_id, sessions_after[id@].ext);
}

/// After a `LeaveSession` of the one attached member of the session that the
/// runner remembers, that session is gone, the registry holds one session
/// less, and no other session has changed.
pub proof fn lemma_leave_as_last_event<Ext: Default>(
    before: RunnerView,
    sessions: Map<Seq<char>, SessionView<Ext>>,
    after: RunnerView,
    sessions_after: Map<Seq<char>, SessionView<Ext>>,
)
    requires
        before.cached_session is Some,
        sessions.contains_key(before.cached_session->0),
        sessions[before.cached_session->0].active_clients() == set![before.connection_id],
        processed(before, sessions, ClientMessage::LeaveSession, after, sessions_after),
    ensures
        after == before,
        !sessions_after.contains_key(before.cached_session->0),
        forall|other: Seq<char>|
            other != before.cached_session->0 && sessions.contains_key(other)
                ==> sessions_after.contains_key(other) && sessions_after[other] == sessions[other],
        sessions.dom().finite() ==> sessions_after.dom().finite() && sessions_after.len()
            == sessions.len() - 1,
{
    lemma_leave_as_last(sessions, before.cached_session->0, before.connection_id);
}

} // verus!
