use koto::game::Game;
use koto::session::{
    generate_session_id, ConnectionRegistry, DuplicateConnection, Session, SessionManager,
    SessionRegistry, SESSION_ID_LENGTH,
};

fn sorted(names: Vec<&String>) -> Vec<String> {
    let mut owned: Vec<String> = names.into_iter().cloned().collect();
    owned.sort();
    owned
}

fn is_capital_letters(id: &str, len: usize) -> bool {
    id.chars().count() == len && id.chars().all(|c| ('A'..='Z').contains(&c))
}

#[test]
fn new_session_has_no_members() {
    let session: Session<u32> = Session::new("ROOM".to_string());
    assert_eq!(session.id, "ROOM");
    assert_eq!(session.clients.len(), 0);
    assert_eq!(session.ext, 0);
    assert!(session.active_client_set().is_empty());
}

#[test]
fn new_session_carries_a_fresh_game() {
    let session: Session<Game> = Session::new("ROOM".to_string());
    assert_eq!(session.ext.state().get_dim(), (6, 6));
    assert_eq!(session.ext.state().team_health(), 0);
}

#[test]
fn set_client_status_changes_members_only() {
    let mut session: Session<u32> = Session::new("ROOM".to_string());
    session.set_client_status("alice", true);
    assert_eq!(session.clients.len(), 0);
    session.clients.insert("alice".to_string(), true);
    session.clients.insert("bob".to_string(), true);
    session.set_client_status("alice", false);
    assert_eq!(session.clients.get("alice"), Some(&false));
    assert_eq!(session.clients.get("bob"), Some(&true));
    session.set_client_status("alice", true);
    assert_eq!(session.clients.get("alice"), Some(&true));
    session.set_client_status("carol", false);
    assert_eq!(session.clients.len(), 2);
    assert_eq!(session.id, "ROOM");
}

#[test]
fn active_client_set_lists_the_attached_members() {
    let mut session: Session<u32> = Session::new("ROOM".to_string());
    session.clients.insert("alice".to_string(), true);
    session.clients.insert("bob".to_string(), false);
    session.clients.insert("carol".to_string(), true);
    assert_eq!(
        sorted(session.active_client_set()),
        vec!["alice".to_string(), "carol".to_string()]
    );
    session.set_client_status("alice", false);
    session.set_client_status("carol", false);
    assert!(session.active_client_set().is_empty());
}

#[test]
fn generated_ids_are_capital_letters() {
    for _ in 0..200 {
        assert!(is_capital_letters(&generate_session_id::<5>(), 5));
    }
    assert!(is_capital_letters(&generate_session_id::<1>(), 1));
    assert!(is_capital_letters(&generate_session_id::<64>(), 64));
    assert_eq!(generate_session_id::<0>(), "");
}

#[test]
fn generated_ids_differ() {
    let first = generate_session_id::<32>();
    let second = generate_session_id::<32>();
    assert_ne!(first, second);
}

#[test]
fn create_uses_the_reserved_id() {
    let session: Session<u32> = SessionRegistry::create(Some("my room".to_string()));
    assert_eq!(session.id, "my room");
    assert_eq!(session.clients.len(), 0);
    assert_eq!(session.ext, 0);
}

#[test]
fn create_generates_an_id() {
    let session: Session<u32> = SessionRegistry::create(None);
    assert_eq!(SESSION_ID_LENGTH, 5);
    assert!(is_capital_letters(&session.id, 5));
    assert_eq!(session.clients.len(), 0);
}

#[test]
fn join_of_an_unknown_session_creates_it() {
    let mut sessions: SessionRegistry<u32> = SessionRegistry::new();
    sessions.join("ROOM".to_string(), "alice");
    assert_eq!(sessions.len(), 1);
    assert!(sessions.contains("ROOM"));
    let session = sessions.get("ROOM").unwrap();
    assert_eq!(session.id, "ROOM");
    assert_eq!(session.clients.len(), 1);
    assert_eq!(session.clients.get("alice"), Some(&true));
    assert_eq!(sorted(session.active_client_set()), vec!["alice".to_string()]);
}

#[test]
fn join_of_a_known_session_adds_the_caller() {
    let mut sessions: SessionRegistry<u32> = SessionRegistry::new();
    sessions.join("ROOM".to_string(), "alice");
    sessions.join("OTHER".to_string(), "dave");
    sessions.join("ROOM".to_string(), "carol");
    sessions.leave("ROOM", "carol");
    sessions.join("ROOM".to_string(), "bob");
    assert_eq!(sessions.len(), 2);
    let session = sessions.get("ROOM").unwrap();
    assert_eq!(session.clients.len(), 3);
    assert_eq!(session.clients.get("alice"), Some(&true));
    assert_eq!(session.clients.get("carol"), Some(&false));
    assert_eq!(session.clients.get("bob"), Some(&true));
    sessions.join("ROOM".to_string(), "bob");
    sessions.join("ROOM".to_string(), "carol");
    let session = sessions.get("ROOM").unwrap();
    assert_eq!(session.clients.len(), 3);
    assert_eq!(session.clients.get("carol"), Some(&true));
    let other = sessions.get("OTHER").unwrap();
    assert_eq!(other.clients.len(), 1);
    assert_eq!(other.clients.get("dave"), Some(&true));
}

#[test]
fn leave_by_the_last_member_drops_the_session() {
    let mut sessions: SessionRegistry<u32> = SessionRegistry::new();
    sessions.join("ROOM".to_string(), "alice");
    sessions.join("OTHER".to_string(), "bob");
    sessions.leave("ROOM", "alice");
    assert!(!sessions.contains("ROOM"));
    assert!(sessions.contains("OTHER"));
    assert_eq!(sessions.len(), 1);
}

#[test]
fn leave_by_one_of_several_keeps_the_session() {
    let mut sessions: SessionRegistry<u32> = SessionRegistry::new();
    sessions.join("ROOM".to_string(), "alice");
    sessions.join("ROOM".to_string(), "bob");
    sessions.leave("ROOM", "alice");
    let session = sessions.get("ROOM").unwrap();
    assert_eq!(session.clients.get("alice"), Some(&false));
    assert_eq!(session.clients.get("bob"), Some(&true));
    assert_eq!(sorted(session.active_client_set()), vec!["bob".to_string()]);
}

#[test]
fn leave_of_an_unknown_session_does_nothing() {
    let mut sessions: SessionRegistry<u32> = SessionRegistry::new();
    sessions.join("ROOM".to_string(), "alice");
    sessions.leave("NONE", "alice");
    assert_eq!(sessions.len(), 1);
    assert_eq!(
        sessions.get("ROOM").unwrap().clients.get("alice"),
        Some(&true)
    );
}

#[test]
fn leave_by_a_stranger_keeps_an_attended_session() {
    let mut sessions: SessionRegistry<u32> = SessionRegistry::new();
    sessions.join("ROOM".to_string(), "alice");
    sessions.leave("ROOM", "mallory");
    let session = sessions.get("ROOM").unwrap();
    assert_eq!(session.clients.len(), 1);
    assert_eq!(session.clients.get("alice"), Some(&true));
}

#[test]
fn leave_of_a_session_without_members_drops_it() {
    let mut sessions: SessionRegistry<u32> = SessionRegistry::new();
    sessions.insert(SessionRegistry::create(Some("EMPTY".to_string())));
    assert!(sessions.contains("EMPTY"));
    sessions.leave("EMPTY", "alice");
    assert!(!sessions.contains("EMPTY"));
}

#[test]
fn insert_replaces_a_session_of_the_same_name() {
    let mut sessions: SessionRegistry<u32> = SessionRegistry::new();
    sessions.join("ROOM".to_string(), "alice");
    let mut fresh: Session<u32> = SessionRegistry::create(Some("ROOM".to_string()));
    fresh.clients.insert("bob".to_string(), true);
    sessions.insert(fresh);
    assert_eq!(sessions.len(), 1);
    let session = sessions.get("ROOM").unwrap();
    assert_eq!(session.clients.get("alice"), None);
    assert_eq!(session.clients.get("bob"), Some(&true));
}

#[test]
fn register_admits_a_new_identifier() {
    let mut clients: ConnectionRegistry<u32> = ConnectionRegistry::new();
    assert!(!clients.contains("alice"));
    assert_eq!(clients.register("alice".to_string(), 7), Ok(()));
    assert!(clients.contains("alice"));
    assert_eq!(clients.len(), 1);
    let client = clients.get("alice").unwrap();
    assert_eq!(client.id, "alice");
    assert_eq!(client.sender, 7);
    assert!(clients.get("bob").is_none());
}

#[test]
fn register_refuses_a_live_identifier() {
    let mut clients: ConnectionRegistry<u32> = ConnectionRegistry::new();
    assert_eq!(clients.register("alice".to_string(), 7), Ok(()));
    let refused = clients.register("alice".to_string(), 8);
    assert_eq!(
        refused,
        Err(DuplicateConnection {
            id: "alice".to_string()
        })
    );
    assert_eq!(clients.len(), 1);
    assert_eq!(clients.get("alice").unwrap().sender, 7);
}

#[test]
fn of_two_registrations_one_succeeds() {
    for (first, second) in [(1u32, 2u32), (2u32, 1u32)] {
        let mut clients: ConnectionRegistry<u32> = ConnectionRegistry::new();
        let outcomes = [
            clients.register("c".to_string(), first).is_ok(),
            clients.register("c".to_string(), second).is_ok(),
        ];
        assert_eq!(outcomes.iter().filter(|ok| **ok).count(), 1);
        assert_eq!(clients.get("c").unwrap().sender, first);
    }
}

#[test]
fn rejection_names_the_identifier() {
    let error = DuplicateConnection {
        id: "alice".to_string(),
    };
    assert_eq!(error.message(), "User [alice] Already Connected");
    let blank = DuplicateConnection { id: String::new() };
    assert_eq!(blank.message(), "User [] Already Connected");
}

#[test]
fn unregister_frees_the_identifier() {
    let mut clients: ConnectionRegistry<u32> = ConnectionRegistry::new();
    clients.register("alice".to_string(), 7).unwrap();
    clients.register("bob".to_string(), 8).unwrap();
    clients.unregister("alice");
    clients.unregister("nobody");
    assert!(!clients.contains("alice"));
    assert!(clients.contains("bob"));
    assert_eq!(clients.len(), 1);
    assert_eq!(clients.register("alice".to_string(), 9), Ok(()));
    assert_eq!(clients.get("alice").unwrap().sender, 9);
}

#[test]
fn default_manager_is_empty() {
    let manager: SessionManager<u32, Game> = SessionManager::default();
    assert_eq!(manager.clients.len(), 0);
    assert_eq!(manager.sessions.len(), 0);
}
