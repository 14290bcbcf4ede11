//! Sessions: the rooms that connections gather in.

use crate::random::random_text;
use crate::registry::{lemma_entries_map, Registry};
use vstd::prelude::*;
use vstd::string::StringExecFns;

verus! {

/// A session as a mathematical value.
pub struct SessionView<Ext> {
    /// The session's identifier.
    pub id: Seq<char>,
    /// For each connection that ever joined, whether it is still attached.
    pub clients: Map<Seq<char>, bool>,
    /// The state that the session carries for its members.
    pub ext: Ext,
}

impl<Ext> SessionView<Ext> {
    /// Tells whether `client` is attached to the session.
    pub open spec fn is_active(self, client: Seq<char>) -> bool {
        self.clients.contains_key(client) && self.clients[client]
    }

    /// The connections that are attached to the session.
    pub open spec fn active_clients(self) -> Set<Seq<char>> {
        Set::new(|client: Seq<char>| self.is_active(client))
    }

    /// Tells whether some connection is attached to the session.
    pub open spec fn is_attended(self) -> bool {
        exists|client: Seq<char>| self.is_active(client)
    }

    /// The session after `client` was marked as attached, whether or not it
    /// was a member before.
    pub open spec fn with_member(self, client: Seq<char>) -> Self {
        SessionView { id: self.id, clients: self.clients.insert(client, true), ext: self.ext }
    }

    /// The session after the flag of `client` was set to `active`. A
    /// connection that never joined is not added.
    pub open spec fn with_status(self, client: Seq<char>, active: bool) -> Self {
        if self.clients.contains_key(client) {
            SessionView { id: self.id, clients: self.clients.insert(client, active), ext: self.ext }
        } else {
            self
        }
    }
}

/// A room: an identifier, the connections that joined it with a flag that
/// says whether each is still attached, and the state shared by its members.
#[derive(Debug)]
pub struct Session<Ext> {
    pub id: String,
    pub clients: Registry<bool>,
    pub ext: Ext,
}

impl<Ext> View for Session<Ext> {
    type V = SessionView<Ext>;

    open spec fn view(&self) -> SessionView<Ext> {
        SessionView { id: self.id@, clients: self.clients@, ext: self.ext }
    }
}

/// The characters of each string that `refs` points to.
pub open spec fn ref_texts(refs: Seq<&String>) -> Seq<Seq<char>> {
    refs.map_values(|s: &String| s@)
}

impl<Ext: Default> Session<Ext> {
    /// A session named `id` that nobody has joined yet, with a fresh state.
    pub fn new(id: String) -> (s: Self)
        ensures
            s@.id == id@,
            s@.clients == Map::<Seq<char>, bool>::empty(),
            call_ensures(Ext::default, (), s@.ext),
    {
        Self { id, clients: Registry::new(), ext: Ext::default() }
    }
}

impl<Ext> Session<Ext> {
    /// Sets the flag of `client_id` to `active` if that connection is a
    /// member of the session, and changes nothing if it is not.
    pub fn set_client_status(&mut self, client_id: &str, active: bool)
        ensures
            final(self)@ == old(self)@.with_status(client_id@, active),
    {
        match self.clients.get_mut(client_id) {
            Some(flag) => {
                *flag = active;
            },
            None => {},
        }
    }

    /// The identifiers of the connections that are attached to the session,
    /// each one once.
    pub fn active_client_set(&self) -> (active: Vec<&String>)
        ensures
            ref_texts(active@).no_duplicates(),
            ref_texts(active@).to_set() == self@.active_clients(),
    {
        let mut active: Vec<&String> = Vec::new();
        let n = self.clients.len();
        let ghost keys = self.clients.keys();
        let ghost values = self.clients.values();
        let ghost mut places: Seq<int> = Seq::empty();
        proof {
            use_type_invariant(&self.clients);
            self.clients.lemma_wf();
            lemma_entries_map(keys, values);
        }
        let mut i: usize = 0;
        while i < n
            invariant
                i <= n,
                n == keys.len(),
                keys == self.clients.keys(),
                values == self.clients.values(),
                keys.len() == values.len(),
                places.len() == active@.len(),
                forall|j: int|
                    0 <= j < places.len() ==> 0 <= #[trigger] places[j] < i && values[places[j]]
                        && active@[j]@ == keys[places[j]],
                forall|j: int, k: int|
                    0 <= j < k < places.len() ==> #[trigger] places[j] < #[trigger] places[k],
                forall|p: int| 0 <= p < i && #[trigger] values[p] ==> places.contains(p),
            decreases n - i,
        {
            if *self.clients.value_at(i) {
                let key = self.clients.key_at(i);
                active.push(key);
                proof {
                    let ghost earlier = places;
                    places = places.push(i as int);
                    assert forall|p: int| 0 <= p < i + 1 && #[trigger] values[p] implies places.contains(
                        p,
                    ) by {
                        if p < i {
                            let j = earlier.index_of(p);
                            assert(places[j] == p);
                        } else {
                            assert(places[earlier.len() as int] == p);
                        }
                    }
                }
            }
            i = i + 1;
        }
        proof {
            let texts = ref_texts(active@);
            assert forall|j: int, k: int| 0 <= j < k < texts.len() implies texts[j] != texts[k] by {
                assert(places[j] < places[k]);
                assert(texts[j] == keys[places[j]]);
                assert(texts[k] == keys[places[k]]);
            }
            assert forall|c: Seq<char>| texts.to_set().contains(c) <==> self@.active_clients().contains(
                c,
            ) by {
                if texts.to_set().contains(c) {
                    let j = choose|j: int| 0 <= j < texts.len() && texts[j] == c;
                    assert(texts[j] == keys[places[j]]);
                    assert(self.clients@.contains_key(keys[places[j]]));
                    assert(self.clients@[keys[places[j]]] == values[places[j]]);
                    assert(self@.is_active(c));
                }
                if self@.active_clients().contains(c) {
                    assert(self@.is_active(c));
                    assert(keys.to_set().contains(c));
                    let p = choose|p: int| 0 <= p < keys.len() && keys[p] == c;
                    assert(self.clients@[keys[p]] == values[p]);
                    assert(values[p]);
                    let j = places.index_of(p);
                    assert(texts[j] == c);
                }
            }
            assert(texts.to_set() =~= self@.active_clients());
        }
        active
    }
}

/// The length of the identifiers that sessions get when none is reserved.
pub const SESSION_ID_LENGTH: usize = 5;

/// `id` is made of `len` capital letters of the Latin alphabet.
pub open spec fn is_session_id(id: Seq<char>, len: nat) -> bool {
    &&& id.len() == len
    &&& forall|i: int| 0 <= i < id.len() ==> 'A' <= #[trigger] id[i] <= 'Z'
}

/// A random identifier of `ID_LENGTH` capital letters. A length that is more
/// than the generator takes in one call is drawn in parts.
pub fn generate_session_id<const ID_LENGTH: usize>() -> (id: String)
    ensures
        is_session_id(id@, ID_LENGTH as nat),
{
    let alphabet: [char; 26] = [
        'A', 'B', 'C', 'D', 'E', 'F', 'G', 'H', 'I', 'J', 'K', 'L', 'M', 'N', 'O', 'P', 'Q',
        'R', 'S', 'T', 'U', 'V', 'W', 'X', 'Y', 'Z',
    ];
    let mut id = String::new();
    let mut missing: usize = ID_LENGTH;
    while missing > 0
        invariant
            missing <= ID_LENGTH,
            alphabet@.len() == 26,
            forall|j: int| 0 <= j < 26 ==> 'A' <= #[trigger] alphabet@[j] <= 'Z',
            is_session_id(id@, (ID_LENGTH - missing) as nat),
        decreases missing,
    {
        let size = if missing > usize::MAX / 8 {
            usize::MAX / 8
        } else {
            missing
        };
        let part = random_text(alphabet.as_slice(), size);
        proof {
            assert forall|i: int| 0 <= i < part@.len() implies 'A' <= #[trigger] part@[i] <= 'Z' by {
                let j = alphabet@.index_of(part@[i]);
                assert(alphabet@[j] == part@[i]);
            }
        }
        id.append(part.as_str());
        missing = missing - size;
    }
    id
}

/// A session named `id` that nobody has joined yet.
pub open spec fn fresh_session<Ext>(id: Seq<char>, ext: Ext) -> SessionView<Ext> {
    SessionView { id, clients: Map::empty(), ext }
}

/// The sessions after `client` joined the one named `session_id`. A session
/// of that name gains `client` as an attached member. Where there is none, one
/// is made, with state `ext` and with `client` as its only member.
pub open spec fn joined<Ext>(
    sessions: Map<Seq<char>, SessionView<Ext>>,
    session_id: Seq<char>,
    client: Seq<char>,
    ext: Ext,
) -> Map<Seq<char>, SessionView<Ext>> {
    if sessions.contains_key(session_id) {
        sessions.insert(session_id, sessions[session_id].with_member(client))
    } else {
        sessions.insert(session_id, fresh_session(session_id, ext).with_member(client))
    }
}

/// The sessions after `client` left the one named `session_id`. Its flag in
/// that session is cleared, and a session that has no attached member after
/// that is dropped.
pub open spec fn left<Ext>(
    sessions: Map<Seq<char>, SessionView<Ext>>,
    session_id: Seq<char>,
    client: Seq<char>,
) -> Map<Seq<char>, SessionView<Ext>> {
    if sessions.contains_key(session_id) {
        let after = sessions[session_id].with_status(client, false);
        if after.active_clients() =~= Set::<Seq<char>>::empty() {
            sessions.remove(session_id)
        } else {
            sessions.insert(session_id, after)
        }
    } else {
        sessions
    }
}

/// Every session is stored under its own identifier.
pub open spec fn keyed_by_id<Ext>(sessions: Map<Seq<char>, SessionView<Ext>>) -> bool {
    forall|id: Seq<char>| sessions.contains_key(id) ==> (#[trigger] sessions[id]).id == id
}

/// The sessions of a server, by identifier.
#[derive(Debug)]
pub struct SessionRegistry<Ext> {
    sessions: Registry<Session<Ext>>,
}

impl<Ext> View for SessionRegistry<Ext> {
    type V = Map<Seq<char>, SessionView<Ext>>;

    closed spec fn view(&self) -> Map<Seq<char>, SessionView<Ext>> {
        self.sessions@.map_values(|s: Session<Ext>| s@)
    }
}

impl<Ext> SessionRegistry<Ext> {
    /// A registry without sessions.
    pub fn new() -> (r: Self)
        ensures
            r@ == Map::<Seq<char>, SessionView<Ext>>::empty(),
            keyed_by_id(r@),
    {
        let r = SessionRegistry { sessions: Registry::new() };
        assert(r@ =~= Map::<Seq<char>, SessionView<Ext>>::empty());
        r
    }

    /// The number of sessions, of which there are finitely many.
    pub fn len(&self) -> (n: usize)
        ensures
            n == self@.len(),
            self@.dom().finite(),
    {
        assert(self@.dom() =~= self.sessions@.dom());
        self.sessions.len()
    }

    /// Tells whether a session is stored under `session_id`.
    pub fn contains(&self, session_id: &str) -> (r: bool)
        ensures
            r == self@.contains_key(session_id@),
    {
        self.sessions.contains_key(session_id)
    }

    /// The session stored under `session_id`, if there is one.
    pub fn get(&self, session_id: &str) -> (r: Option<&Session<Ext>>)
        ensures
            match r {
                Some(s) => self@.contains_key(session_id@) && s@ == self@[session_id@],
                None => !self@.contains_key(session_id@),
            },
    {
        self.sessions.get(session_id)
    }

    /// Detaches `connection_id` from the session named `session_id` and drops
    /// the session if no member is attached to it any more. Nothing happens
    /// if there is no such session.
    pub fn leave(&mut self, session_id: &str, connection_id: &str)
        ensures
            final(self)@ == left(old(self)@, session_id@, connection_id@),
            keyed_by_id(old(self)@) ==> keyed_by_id(final(self)@),
    {
        let empty = match self.sessions.get_mut(session_id) {
            Some(session) => {
                session.set_client_status(connection_id, false);
                let active = session.active_client_set();
                proof {
                    let texts = ref_texts(active@);
                    if active@.len() == 0 {
                        assert(texts.to_set() =~= Set::<Seq<char>>::empty());
                    } else {
                        assert(texts.to_set().contains(texts[0]));
                    }
                }
                active.len() == 0
            },
            None => false,
        };
        if empty {
            self.sessions.remove(session_id);
        }
        assert(self@ =~= left(old(self)@, session_id@, connection_id@));
    }

    /// Stores `session` under its identifier, in place of any session that
    /// was stored there.
    pub fn insert(&mut self, session: Session<Ext>)
        ensures
            final(self)@ == old(self)@.insert(session@.id, session@),
            keyed_by_id(old(self)@) ==> keyed_by_id(final(self)@),
    {
        let key = session.id.clone();
        self.sessions.insert(key, session);
        assert(self@ =~= old(self)@.insert(session@.id, session@));
    }
}

impl<Ext: Default> SessionRegistry<Ext> {
    /// Makes a session that nobody has joined yet and that is not in any
    /// registry. Its identifier is `reserved_id` where one is given, whether
    /// or not a session of that name exists, and else a random one of
    /// `SESSION_ID_LENGTH` capital letters.
    pub fn create(reserved_id: Option<String>) -> (s: Session<Ext>)
        ensures
            match reserved_id {
                Some(id) => s@.id == id@,
                None => is_session_id(s@.id, SESSION_ID_LENGTH as nat),
            },
            s@.clients == Map::<Seq<char>, bool>::empty(),
            call_ensures(Ext::default, (), s@.ext),
    {
        let id = match reserved_id {
            Some(id) => id,
            None => generate_session_id::<SESSION_ID_LENGTH>(),
        };
        Session::new(id)
    }

    /// Attaches `connection_id` to the session named `session_id`, which is
    /// made first if it does not exist. No other member and no other session
    /// changes.
    pub fn join(&mut self, session_id: String, connection_id: &str)
        ensures
            final(self)@ == joined(
                old(self)@,
                session_id@,
                connection_id@,
                final(self)@[session_id@].ext,
            ),
            !old(self)@.contains_key(session_id@) ==> call_ensures(
                Ext::default,
                (),
                final(self)@[session_id@].ext,
            ),
            keyed_by_id(old(self)@) ==> keyed_by_id(final(self)@),
    {
        match self.sessions.get_mut(session_id.as_str()) {
            Some(session) => {
                session.clients.insert(connection_id.to_owned(), true);
            },
            None => {
                let mut session = Session::new(session_id.clone());
                session.clients.insert(connection_id.to_owned(), true);
                self.sessions.insert(session_id, session);
            },
        }
        assert(self@ =~= joined(
            old(self)@,
            session_id@,
            connection_id@,
            self@[session_id@].ext,
        ));
    }
}

/// A live connection as a mathematical value.
pub struct ClientView<Sender> {
    /// The connection's identifier.
    pub id: Seq<char>,
    /// The handle on which messages go out to the connection.
    pub sender: Sender,
}

/// A live connection: its identifier and the handle on which messages go out
/// to it.
#[derive(Debug)]
pub struct Client<Sender> {
    pub id: String,
    pub sender: Sender,
}

impl<Sender> View for Client<Sender> {
    type V = ClientView<Sender>;

    open spec fn view(&self) -> ClientView<Sender> {
        ClientView { id: self.id@, sender: self.sender }
    }
}

/// What a client is told when its connection identifier is in use.
pub open spec fn rejection_text(id: Seq<char>) -> Seq<char> {
    "User ["@ + id + "] Already Connected"@
}

/// The error of a connection whose identifier another live connection holds.
#[derive(Debug, PartialEq, Eq)]
pub struct DuplicateConnection {
    /// The identifier that was asked for.
    pub id: String,
}

impl DuplicateConnection {
    /// The text that rejects the connection.
    pub fn message(&self) -> (text: String)
        ensures
            text@ == rejection_text(self.id@),
    {
        let mut text = "User [".to_owned();
        text.append(self.id.as_str());
        text.append("] Already Connected");
        text
    }
}

/// Tells whether a connection named `id` can be admitted: no live connection
/// may have that name.
pub open spec fn admits<Sender>(clients: Map<Seq<char>, ClientView<Sender>>, id: Seq<char>) -> bool {
    !clients.contains_key(id)
}

/// The connections after one named `id` with handle `sender` asked to be
/// admitted: it is added unless the name is taken.
pub open spec fn registered<Sender>(
    clients: Map<Seq<char>, ClientView<Sender>>,
    id: Seq<char>,
    sender: Sender,
) -> Map<Seq<char>, ClientView<Sender>> {
    if admits(clients, id) {
        clients.insert(id, ClientView { id, sender })
    } else {
        clients
    }
}

/// Every connection is stored under its own identifier.
pub open spec fn clients_by_id<Sender>(clients: Map<Seq<char>, ClientView<Sender>>) -> bool {
    forall|id: Seq<char>| clients.contains_key(id) ==> (#[trigger] clients[id]).id == id
}

/// The live connections of a server, by identifier.
#[derive(Debug)]
pub struct ConnectionRegistry<Sender> {
    clients: Registry<Client<Sender>>,
}

impl<Sender> View for ConnectionRegistry<Sender> {
    type V = Map<Seq<char>, ClientView<Sender>>;

    closed spec fn view(&self) -> Map<Seq<char>, ClientView<Sender>> {
        self.clients@.map_values(|c: Client<Sender>| c@)
    }
}

impl<Sender> ConnectionRegistry<Sender> {
    /// A registry without connections.
    pub fn new() -> (r: Self)
        ensures
            r@ == Map::<Seq<char>, ClientView<Sender>>::empty(),
            clients_by_id(r@),
    {
        let r = ConnectionRegistry { clients: Registry::new() };
        assert(r@ =~= Map::<Seq<char>, ClientView<Sender>>::empty());
        r
    }

    /// The number of live connections, of which there are finitely many.
    pub fn len(&self) -> (n: usize)
        ensures
            n == self@.len(),
            self@.dom().finite(),
    {
        assert(self@.dom() =~= self.clients@.dom());
        self.clients.len()
    }

    /// Tells whether a connection named `id` is live.
    pub fn contains(&self, id: &str) -> (r: bool)
        ensures
            r == self@.contains_key(id@),
    {
        self.clients.contains_key(id)
    }

    /// The live connection named `id`, if there is one.
    pub fn get(&self, id: &str) -> (r: Option<&Client<Sender>>)
        ensures
            match r {
                Some(c) => self@.contains_key(id@) && c@ == self@[id@],
                None => !self@.contains_key(id@),
            },
    {
        self.clients.get(id)
    }

    /// Admits a connection named `id` unless a live connection has that name.
    /// The test and the insertion are one step: of two calls with the same
    /// name on a registry that does not hold it, the first succeeds and the
    /// second fails.
    pub fn register(&mut self, id: String, sender: Sender) -> (r: Result<(), DuplicateConnection>)
        ensures
            r is Ok <==> admits(old(self)@, id@),
            r matches Err(e) ==> e.id@ == id@,
            final(self)@ == registered(old(self)@, id@, sender),
            clients_by_id(old(self)@) ==> clients_by_id(final(self)@),
    {
        if self.clients.contains_key(id.as_str()) {
            Err(DuplicateConnection { id })
        } else {
            let key = id.clone();
            self.clients.insert(key, Client { id, sender });
            assert(self@ =~= registered(old(self)@, id@, sender));
            Ok(())
        }
    }

    /// Forgets the connection named `id`, if there is one.
    pub fn unregister(&mut self, id: &str)
        ensures
            final(self)@ == old(self)@.remove(id@),
            clients_by_id(old(self)@) ==> clients_by_id(final(self)@),
    {
        self.clients.remove(id);
        assert(self@ =~= old(self)@.remove(id@));
    }
}

/// The two registries of a server.
#[derive(Debug)]
pub struct SessionManager<Sender, SessionExt> {
    pub clients: ConnectionRegistry<Sender>,
    pub sessions: SessionRegistry<SessionExt>,
}

impl<Sender, SessionExt> Default for SessionManager<Sender, SessionExt> {
    /// A server without connections and without sessions.
    fn default() -> (m: Self)
        ensures
            m.clients@ == Map::<Seq<char>, ClientView<Sender>>::empty(),
            m.sessions@ == Map::<Seq<char>, SessionView<SessionExt>>::empty(),
    {
        Self { clients: ConnectionRegistry::new(), sessions: SessionRegistry::new() }
    }
}

} // verus!
