use rust_server::session::{
    is_grace_expired, is_timed_out, reconnect_refusal, reconnect_token_from, ConnectionState,
    ReconnectRefusal,
};

#[test]
fn session_times_out_after_the_timeout() {
    assert!(!is_timed_out(0, 30));
    assert!(!is_timed_out(30, 30));
    assert!(is_timed_out(31, 30));
    assert!(is_timed_out(1, 0));
    assert!(!is_timed_out(0, 0));
}

#[test]
fn reconnect_needs_a_disconnect_within_grace() {
    assert_eq!(
        reconnect_refusal(ConnectionState::Connected, None, 60),
        Some(ReconnectRefusal::NotDisconnected)
    );
    assert_eq!(
        reconnect_refusal(ConnectionState::Connected, Some(100), 60),
        Some(ReconnectRefusal::NotDisconnected)
    );
    assert_eq!(reconnect_refusal(ConnectionState::Disconnected, Some(60), 60), None);
    assert_eq!(reconnect_refusal(ConnectionState::Disconnected, None, 60), None);
    assert_eq!(
        reconnect_refusal(ConnectionState::Disconnected, Some(61), 60),
        Some(ReconnectRefusal::GraceExpired)
    );
}

#[test]
fn disconnected_session_is_given_up_after_grace() {
    assert!(!is_grace_expired(ConnectionState::Connected, Some(100), 60));
    assert!(!is_grace_expired(ConnectionState::Disconnected, None, 60));
    assert!(!is_grace_expired(ConnectionState::Disconnected, Some(60), 60));
    assert!(is_grace_expired(ConnectionState::Disconnected, Some(61), 60));
}

#[test]
fn reconnect_token_is_two_hexadecimal_numbers() {
    assert_eq!(reconnect_token_from(0), "00");
    assert_eq!(reconnect_token_from(1), "15851f42d4c957f2d");
    assert_eq!(reconnect_token_from(255), "ff57f9a2391f48e9add3");
    assert_eq!(
        reconnect_token_from(1700000000000000000),
        format!(
            "{:x}{:x}",
            1700000000000000000u128,
            1700000000000000000u128.wrapping_mul(6364136223846793005)
        )
    );
    assert_eq!(
        reconnect_token_from(u128::MAX),
        format!("{:x}{:x}", u128::MAX, u128::MAX.wrapping_mul(6364136223846793005))
    );
    assert_eq!(
        reconnect_token_from(1 << 100),
        format!("{:x}{:x}", 1u128 << 100, (1u128 << 100).wrapping_mul(6364136223846793005))
    );
}

#[test]
fn register_gives_new_players_rising_ids() {
    let mut sessions = rust_server::session::SessionManager::new(30, 60);
    assert!(sessions.can_register("1.2.3.4:5"));
    let first = sessions.register("1.2.3.4:5", "Ann".to_string(), 10, "t1".to_string());
    assert_eq!(first.player_id, 1);
    assert_eq!(first.player_name, "Ann");
    assert_eq!(first.addr, "1.2.3.4:5");
    assert_eq!(first.last_seen, 10);
    assert_eq!(first.reconnect_token, "t1");
    assert_eq!(first.connection_state, ConnectionState::Connected);
    assert_eq!(first.ping_count, 0);
    assert!(first.room_code.is_none());
    let second = sessions.register("1.2.3.4:6", "Bob".to_string(), 20, "t2".to_string());
    assert_eq!(second.player_id, 2);
    let again = sessions.register("1.2.3.4:5", "Anne".to_string(), 30, "t3".to_string());
    assert_eq!(again.player_id, 1);
    assert_eq!(again.player_name, "Anne");
    assert_eq!(again.last_seen, 30);
    assert_eq!(again.reconnect_token, "t1");
    assert!(sessions.has_token("t1"));
    assert!(sessions.has_token("t2"));
    assert!(!sessions.has_token("t3"));
    assert_eq!(sessions.get_by_player_id(2).unwrap().addr, "1.2.3.4:6");
    assert!(sessions.get_by_player_id(3).is_none());
    assert!(sessions.get_by_addr("9.9.9.9:9").is_none());
    assert_eq!(sessions.grace_period_seconds(), 60);
}

#[test]
fn ping_counts_and_touches_the_session() {
    let mut sessions = rust_server::session::SessionManager::new(30, 60);
    sessions.register("a", "Ann".to_string(), 10, "t1".to_string());
    sessions.ping("a", 50);
    sessions.ping("a", 70);
    sessions.ping("b", 80);
    let session = sessions.get_by_addr("a").unwrap();
    assert_eq!(session.ping_count, 2);
    assert_eq!(session.last_ping, Some(70));
    assert_eq!(session.last_seen, 70);
    sessions.update_last_seen("a", 90);
    assert_eq!(sessions.get_by_addr("a").unwrap().last_seen, 90);
    assert_eq!(sessions.get_by_addr("a").unwrap().last_ping, Some(70));
    sessions.get_by_addr_mut("a").unwrap().room_code = Some("ROOM".to_string());
    assert_eq!(sessions.get_by_addr("a").unwrap().room_code, Some("ROOM".to_string()));
}

#[test]
fn timed_out_sessions_are_swept_in_order() {
    let second: u128 = 1_000_000_000;
    let mut sessions = rust_server::session::SessionManager::new(30, 60);
    sessions.register("a", "Ann".to_string(), 0, "t1".to_string());
    sessions.register("b", "Bob".to_string(), 10 * second, "t2".to_string());
    sessions.register("c", "Cid".to_string(), 5 * second, "t3".to_string());
    assert!(sessions.cleanup_timed_out(30 * second).is_empty());
    let gone = sessions.cleanup_timed_out(36 * second);
    let names: Vec<&str> = gone.iter().map(|s| s.player_name.as_str()).collect();
    assert_eq!(names, vec!["Ann", "Cid"]);
    assert!(sessions.get_by_addr("a").is_none());
    assert!(sessions.get_by_player_id(1).is_none());
    assert!(!sessions.has_token("t1"));
    assert!(sessions.get_by_addr("b").is_some());
    assert!(sessions.has_token("t2"));
    assert!(sessions.cleanup_timed_out(5 * second).is_empty());
    assert!(sessions.remove("b").is_some());
    assert!(sessions.remove("b").is_none());
}

#[test]
fn reconnect_moves_the_session_within_grace() {
    let second: u128 = 1_000_000_000;
    let mut sessions = rust_server::session::SessionManager::new(30, 60);
    sessions.register("a", "Ann".to_string(), 0, "t1".to_string());
    sessions.register("b", "Bob".to_string(), 0, "t2".to_string());
    assert!(sessions.reconnected_by_token("t1", "z", "Ann".to_string(), second).is_none());
    assert!(sessions.reconnected_by_token("nope", "z", "Ann".to_string(), second).is_none());
    assert_eq!(sessions.mark_player_disconnected("a", 10 * second), Some(1));
    assert_eq!(sessions.mark_player_disconnected("q", 10 * second), None);
    assert!(sessions
        .reconnected_by_token("t1", "z", "Ann".to_string(), 71 * second)
        .is_none());
    assert!(sessions.get_by_addr("a").is_some());
    let back = sessions.reconnected_by_token("t1", "z", "Anna".to_string(), 70 * second).unwrap();
    assert_eq!(back.player_id, 1);
    assert_eq!(back.addr, "z");
    assert_eq!(back.player_name, "Anna");
    assert_eq!(back.connection_state, ConnectionState::Connected);
    assert_eq!(back.disconnected_at, None);
    assert_eq!(back.last_seen, 70 * second);
    assert!(sessions.get_by_addr("a").is_none());
    assert_eq!(sessions.get_by_player_id(1).unwrap().addr, "z");

    sessions.mark_player_disconnected("b", 0);
    assert!(sessions.cleanup_expired_disconnected(60 * second).is_empty());
    let gone = sessions.cleanup_expired_disconnected(61 * second);
    assert_eq!(gone.len(), 1);
    assert_eq!(gone[0].player_id, 2);
    assert!(sessions.get_by_addr("b").is_none());
}

#[test]
fn reconnect_onto_a_used_address_replaces_its_session() {
    let mut sessions = rust_server::session::SessionManager::new(30, 60);
    sessions.register("a", "Ann".to_string(), 0, "t1".to_string());
    sessions.register("b", "Bob".to_string(), 0, "t2".to_string());
    sessions.mark_player_disconnected("a", 0);
    let back = sessions.reconnected_by_token("t1", "b", "Ann".to_string(), 1).unwrap();
    assert_eq!(back.player_id, 1);
    assert!(sessions.get_by_addr("a").is_none());
    assert_eq!(sessions.get_by_addr("b").unwrap().player_id, 1);
    assert_eq!(sessions.get_by_player_id(2).unwrap().player_id, 1);
    assert!(sessions.has_token("t2"));
}
