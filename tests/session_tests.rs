use pgcdc::auth::{auth_decision, AuthCookie, AuthDecision, AuthInfo};
use pgcdc::catalog::TableCatalog;
use pgcdc::config::{default_binding, default_dbtls, default_https, default_maxconn, Config};
use pgcdc::query::parse_ws_query;
use pgcdc::registry::ServerState;
use pgcdc::session::{restart_delay_secs, SessionAction, SessionEvent, SessionPhase, SessionWorker};
use pgcdc::slot::{
    create_slot_command, current_time, drop_slot_command, new_slot_name, pg_micros,
    slot_name_from, start_replication_command,
};

#[test]
fn silent_subscriber_is_closed_and_removed() {
    let mut c = TableCatalog::new();
    c.add_table("accounts");
    let mut state = ServerState::new();
    let id = state
        .insert(parse_ws_query("insert:accounts", &c.logical_tables).unwrap())
        .unwrap();
    let mut w = SessionWorker::new(0);
    assert!(matches!(w.on_event(SessionEvent::Tick { now: 15_000 }), SessionAction::SendPing));
    assert!(matches!(w.on_event(SessionEvent::Tick { now: 40_000 }), SessionAction::SendPing));
    assert!(matches!(w.on_event(SessionEvent::Tick { now: 40_001 }), SessionAction::Close));
    assert_eq!(w.phase, SessionPhase::Closing);
    w.close(&mut state, id);
    assert_eq!(w.phase, SessionPhase::Closed);
    assert!(!state.clients.contains_key(&id));
    let e = r#"{"change":[{"table":"accounts","kind":"insert"}]}"#;
    assert!(state.fan_out(e, &c).is_empty());
}

#[test]
fn pong_postpones_the_timeout() {
    let mut w = SessionWorker::new(0);
    assert!(matches!(w.on_event(SessionEvent::Pong { now: 30_000 }), SessionAction::Nothing));
    assert!(matches!(w.on_event(SessionEvent::Tick { now: 60_000 }), SessionAction::SendPing));
    assert_eq!(w.phase, SessionPhase::Active);
}

#[test]
fn ping_is_answered_with_its_body() {
    let mut w = SessionWorker::new(0);
    match w.on_event(SessionEvent::Ping { body: vec![1, 2] }) {
        SessionAction::SendPong(b) => assert_eq!(b, vec![1, 2]),
        other => panic!("unexpected {:?}", other),
    }
}

#[test]
fn close_and_errors_end_the_session() {
    for ev in [SessionEvent::Close, SessionEvent::ReadError, SessionEvent::SendError] {
        let mut w = SessionWorker::new(0);
        assert!(matches!(w.on_event(ev), SessionAction::Close));
        assert_eq!(w.phase, SessionPhase::Closing);
        assert!(matches!(w.on_event(SessionEvent::Tick { now: 1 }), SessionAction::Nothing));
    }
}

#[test]
fn restart_backoff_is_linear() {
    assert_eq!(restart_delay_secs(0), 0);
    assert_eq!(restart_delay_secs(1), 3);
    assert_eq!(restart_delay_secs(4), 12);
    assert_eq!(restart_delay_secs(u64::MAX), u64::MAX);
}

#[test]
fn slot_names_and_commands() {
    assert_eq!(slot_name_from("Happy Blue Fox"), "happy_blue_fox");
    let name = new_slot_name();
    assert!(!name.is_empty());
    assert!(!name.contains(' '));
    assert_eq!(name, name.to_lowercase());
    assert_eq!(
        create_slot_command("s1"),
        "CREATE_REPLICATION_SLOT s1 TEMPORARY LOGICAL wal2json NOEXPORT_SNAPSHOT"
    );
    assert_eq!(start_replication_command("s1", "0/16B3748"), "START_REPLICATION SLOT s1 LOGICAL 0/16B3748");
    assert_eq!(drop_slot_command("s1"), "DROP_REPLICATION_SLOT s1 WAIT");
}

#[test]
fn clock_since_2000() {
    assert_eq!(pg_micros(0), 0);
    assert_eq!(pg_micros(946_684_800_000_000), 0);
    assert_eq!(pg_micros(946_684_800_000_001), 1);
    assert_eq!(pg_micros(u128::MAX), u64::MAX);
    assert!(current_time() > 700_000_000_000_000);
}

#[test]
fn config_defaults() {
    assert!(!default_dbtls());
    assert!(!default_https());
    assert_eq!(default_maxconn(), 10);
    assert_eq!(default_binding(), "0.0.0.0:8080");
    let c = Config::new("h".to_string(), "d".to_string(), "u".to_string(), "p".to_string());
    assert_eq!(c.binding, "0.0.0.0:8080");
    assert_eq!(c.sslmode(), "disable");
    assert_eq!(c.auth_database_max_connection, 10);
}

fn user(id: &str) -> AuthInfo {
    AuthInfo { is_admin: false, auth_cookie: Some(AuthCookie { user_id: id.to_string() }) }
}

#[test]
fn authorization_gate() {
    let tables = vec!["hosts".to_string()];
    let q = |s: &str| parse_ws_query(s, &tables).unwrap();
    let admin = AuthInfo { is_admin: true, auth_cookie: None };
    assert!(matches!(auth_decision(&admin, &q("insert:hosts")), AuthDecision::Allow));
    assert!(matches!(auth_decision(&user("u1"), &q("insert:hosts")), AuthDecision::Invalid));
    assert!(matches!(auth_decision(&user("u1"), &q("insert:hosts:uuid.in.a,b")), AuthDecision::Invalid));
    match auth_decision(&user("u1"), &q("insert:hosts:host_uuid.eq.h9")) {
        AuthDecision::CheckHost { user_id, value } => {
            assert_eq!(user_id, "u1");
            assert_eq!(value, "h9");
        }
        other => panic!("unexpected {:?}", other),
    }
    assert!(matches!(auth_decision(&user("u1"), &q("insert:hosts:customer_id.eq.u1")), AuthDecision::Allow));
    assert!(matches!(auth_decision(&user("u1"), &q("insert:hosts:customer_id.eq.u2")), AuthDecision::Forbidden));
    assert!(matches!(auth_decision(&user("u1"), &q("insert:hosts:key.eq.k")), AuthDecision::CheckKey { .. }));
    assert!(matches!(auth_decision(&user("u1"), &q("insert:hosts:name.eq.k")), AuthDecision::Forbidden));
}
