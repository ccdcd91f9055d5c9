use relay_hub::{AuthError, AuthStore, ConnectionRegistry, Hub, LatencyTracker, NameTable};

fn hub_with_user() -> Hub<u32> {
    let mut auth = AuthStore::new("ADMIN".to_string());
    auth.mint("ADMIN", "user".to_string()).unwrap();
    Hub::new(auth)
}

#[test]
fn register_twice_keeps_last_transport() {
    let mut reg: ConnectionRegistry<u32> = ConnectionRegistry::new();
    assert_eq!(reg.register("A".to_string(), 1), None);
    assert_eq!(reg.register("A".to_string(), 2), Some(1));
    let snap = reg.snapshot();
    assert_eq!(snap, vec![("A".to_string(), 2)]);
    assert_eq!(reg.count(), 1);
}

#[test]
fn deregister_is_idempotent() {
    let mut reg: ConnectionRegistry<u32> = ConnectionRegistry::new();
    reg.register("A".to_string(), 1);
    reg.register("B".to_string(), 2);
    assert_eq!(reg.deregister("A"), Some(1));
    assert_eq!(reg.deregister("A"), None);
    assert!(!reg.contains("A"));
    assert_eq!(reg.names(), vec!["B".to_string()]);
}

#[test]
fn name_table_get_and_remove() {
    let mut t: NameTable<u64> = NameTable::new();
    t.insert("x".to_string(), 5);
    assert_eq!(t.get("x"), Some(&5));
    assert_eq!(t.remove("x"), Some(5));
    assert_eq!(t.get("x"), None);
    assert_eq!(t.len(), 0);
}

#[test]
fn latency_round_measures_and_ignores_spurious_reply() {
    let mut lt = LatencyTracker::new();
    lt.begin_round(&vec!["alice".to_string(), "bob".to_string()], 1000);
    lt.complete("alice", 1050);
    lt.complete("alice", 1090);
    lt.complete("carol", 1100);
    assert_eq!(lt.report(), vec![("alice".to_string(), 50)]);
    assert_eq!(lt.pending_since("bob"), Some(1000));
    assert_eq!(lt.pending_since("alice"), None);
}

#[test]
fn latency_newer_round_supersedes_and_clock_going_back_gives_zero() {
    let mut lt = LatencyTracker::new();
    lt.begin_round(&vec!["a".to_string()], 100);
    lt.begin_round(&vec!["a".to_string()], 200);
    lt.complete("a", 150);
    assert_eq!(lt.report(), vec![("a".to_string(), 0)]);
    lt.forget("a");
    assert!(lt.report().is_empty());
}

#[test]
fn agent_registration_replies_success() {
    let mut hub = hub_with_user();
    let reg = hub.handle_agent_message("name=alice", 7, 0).unwrap();
    assert_eq!(reg.name, "alice");
    assert_eq!(reg.reply, "success=true");
    assert!(hub.is_registered("alice"));
    assert!(hub.handle_agent_message("hello", 8, 0).is_none());
    assert_eq!(hub.count(), 1);
}

#[test]
fn ping_round_scenario() {
    let mut hub = hub_with_user();
    hub.handle_agent_message("name=alice", 1, 0);
    hub.handle_agent_message("name=bob", 2, 0);
    let targets = hub.begin_ping_round(10_000);
    assert_eq!(targets, vec![("alice".to_string(), 1), ("bob".to_string(), 2)]);
    hub.finish_broadcast(&Vec::new());
    assert!(hub.handle_agent_message("username=alice", 1, 10_050).is_none());
    assert_eq!(hub.report(), vec![("alice".to_string(), 50)]);
    assert_eq!(hub.count(), 2);
    assert_eq!(hub.pending_since("bob"), Some(10_000));
    assert_eq!(hub.status_message(), "conns=2;alice=50");
}

#[test]
fn failed_send_prunes_agent_everywhere() {
    let mut hub = hub_with_user();
    hub.register_agent("A".to_string(), 1);
    hub.register_agent("B".to_string(), 2);
    hub.begin_ping_round(0);
    hub.handle_agent_message("username=A", 1, 30);
    hub.begin_ping_round(100);
    hub.finish_broadcast(&vec!["A".to_string()]);
    assert!(!hub.is_registered("A"));
    assert_eq!(hub.pending_since("A"), None);
    assert!(hub.report().iter().all(|(n, _)| n != "A"));
    assert!(hub.is_registered("B"));
    assert_eq!(hub.deregister("A"), None);
    assert_eq!(hub.status_message(), "conns=1");
}

#[test]
fn command_reaches_single_agent_once() {
    let mut hub = hub_with_user();
    hub.register_agent("agent".to_string(), 42);
    let b = hub.prepare_command("user", "do", "caps", "toggle").ok().unwrap();
    let mut received: Vec<(u32, String)> = Vec::new();
    for (_, t) in &b.targets {
        received.push((*t, b.message.clone()));
    }
    assert_eq!(received, vec![(42, "action=do;param=caps;value=toggle".to_string())]);
}

#[test]
fn command_with_invalid_token_is_unauthorized() {
    let mut hub = hub_with_user();
    hub.register_agent("agent".to_string(), 42);
    let r = hub.prepare_command("forged", "do", "caps", "toggle");
    assert!(matches!(r, Err(AuthError::Unauthorized)));
}

#[test]
fn pointer_event_broadcast() {
    let mut hub = hub_with_user();
    hub.register_agent("agent".to_string(), 3);
    let b = hub.prepare_pointer_event("user", "pos=5,6;type=mouse").ok().unwrap().unwrap();
    assert_eq!(b.message, "param=mouse;value=5,6");
    assert_eq!(b.targets, vec![("agent".to_string(), 3)]);
    assert!(hub.prepare_pointer_event("user", "pos=5,6").ok().unwrap().is_none());
    assert!(matches!(hub.prepare_pointer_event("nobody", "pos=5,6;type=mouse"), Err(AuthError::Unauthorized)));
}

#[test]
fn sessions_through_hub() {
    let mut hub = hub_with_user();
    let code = hub.create_session("ADMIN").unwrap();
    assert!(hub.authorize(&code, false));
    assert_eq!(hub.create_session("user"), Err(AuthError::Unauthorized));
    assert_eq!(hub.remove_session(&code), Err(AuthError::Unauthorized));
    assert_eq!(hub.remove_session("ADMIN"), Ok(()));
    assert!(!hub.authorize(&code, false));
    assert!(!hub.authorize("user", false));
    assert!(hub.authorize(hub.auth().admin(), true));
}

#[test]
fn transport_lookup_follows_latest_registration() {
    let mut hub = hub_with_user();
    assert_eq!(hub.transport_of("A"), None);
    hub.register_agent("A".to_string(), 1);
    hub.register_agent("A".to_string(), 2);
    assert_eq!(hub.transport_of("A"), Some(&2));
    hub.deregister("A");
    assert_eq!(hub.transport_of("A"), None);
}
