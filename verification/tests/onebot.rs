use guche::onebot::{check_handshake, ConnectionPool, Handshake, PendingCalls};

#[test]
fn pool_refuses_beyond_its_limit() {
    let mut p = ConnectionPool::new(2, 1000);
    assert!(p.add_connection("1.1.1.1:1", 0));
    assert!(p.add_connection("1.1.1.1:2", 0));
    assert!(!p.add_connection("1.1.1.1:3", 0));
    assert_eq!(p.connection_count(), 2);
    // A full pool refuses even a peer it already holds.
    assert!(!p.add_connection("1.1.1.1:1", 5));
    p.remove_connection("1.1.1.1:1");
    assert_eq!(p.connection_count(), 1);
    assert!(p.add_connection("1.1.1.1:3", 0));
    assert_eq!(p.connection_count(), 2);
}

#[test]
fn readding_a_peer_does_not_count_twice() {
    let mut p = ConnectionPool::new(3, 1000);
    assert!(p.add_connection("a", 0));
    assert!(p.add_connection("a", 10));
    assert_eq!(p.connection_count(), 1);
}

#[test]
fn cleanup_drops_idle_connections() {
    let mut p = ConnectionPool::new(5, 1000);
    p.add_connection("a", 0);
    p.add_connection("b", 500);
    p.add_connection("c", 100);
    p.update_activity("c", 900);
    p.update_activity("nobody", 900);
    let removed = p.cleanup_expired(1200);
    assert_eq!(removed, vec!["a".to_string()]);
    assert_eq!(p.connection_count(), 2);
    // Exactly the timeout is not yet expired.
    let removed = p.cleanup_expired(1500);
    assert!(removed.is_empty());
    let removed = p.cleanup_expired(2000);
    assert_eq!(removed, vec!["b".to_string(), "c".to_string()]);
    assert_eq!(p.connection_count(), 0);
}

#[test]
fn removing_an_unknown_peer_changes_nothing() {
    let mut p = ConnectionPool::new(1, 10);
    p.add_connection("x", 0);
    p.remove_connection("y");
    assert_eq!(p.connection_count(), 1);
}

#[test]
fn handshake_requires_upgrade() {
    assert_eq!(check_handshake(Some("websocket"), Some("Upgrade"), None, None, None), Handshake::Accept);
    assert_eq!(check_handshake(Some("WebSocket"), Some("keep-alive, UPGRADE"), None, None, None), Handshake::Accept);
    assert_eq!(check_handshake(None, Some("Upgrade"), None, None, None), Handshake::NotWebSocket);
    assert_eq!(check_handshake(Some("websocket"), None, None, None, None), Handshake::NotWebSocket);
    assert_eq!(check_handshake(Some("h2c"), Some("Upgrade"), None, None, None), Handshake::NotWebSocket);
    assert_eq!(check_handshake(Some("websocket"), Some("close"), None, None, None), Handshake::NotWebSocket);
    // Not an upgrade is answered so even with a token configured.
    assert_eq!(check_handshake(None, None, None, None, Some("t")), Handshake::NotWebSocket);
}

#[test]
fn handshake_checks_token() {
    let up = Some("websocket");
    let conn = Some("Upgrade");
    assert_eq!(check_handshake(up, conn, Some("Bearer abc"), None, Some("abc")), Handshake::Accept);
    assert_eq!(check_handshake(up, conn, Some("bearer abc"), None, Some("abc")), Handshake::Unauthorized);
    assert_eq!(check_handshake(up, conn, None, Some("x=1&access_token=abc"), Some("abc")), Handshake::Accept);
    assert_eq!(check_handshake(up, conn, None, Some("access_token=abd"), Some("abc")), Handshake::Unauthorized);
    assert_eq!(
        check_handshake(up, conn, None, Some("access_token=abc&access_token=x"), Some("abc")),
        Handshake::Accept
    );
    // Only the first access_token parameter counts.
    assert_eq!(
        check_handshake(up, conn, None, Some("access_token=x&access_token=abc"), Some("abc")),
        Handshake::Unauthorized
    );
    assert_eq!(check_handshake(up, conn, None, None, Some("abc")), Handshake::Unauthorized);
    assert_eq!(check_handshake(up, conn, Some("Bearer wrong"), Some("access_token=abc"), Some("abc")), Handshake::Accept);
}

#[test]
fn api_calls_are_numbered_and_resolved_by_echo() {
    let mut p = PendingCalls::new();
    assert_eq!(p.last_issued(), 0);
    assert_eq!(p.issue(0), (1, "guche_1".to_string()));
    assert_eq!(p.issue(10), (2, "guche_2".to_string()));
    assert_eq!(p.issue(20), (3, "guche_3".to_string()));
    assert_eq!(p.last_issued(), 3);
    assert_eq!(p.resolve("guche_2"), Some(2));
    assert_eq!(p.resolve("guche_2"), None);
    assert_eq!(p.resolve("guche_02"), None);
    assert_eq!(p.resolve("other"), None);
    // Exactly thirty seconds is not yet stale.
    assert_eq!(p.expire(30_000, 30_000), Vec::<u64>::new());
    assert_eq!(p.expire(30_001, 30_000), vec![1]);
    assert_eq!(p.expire(60_000, 30_000), vec![3]);
    assert_eq!(p.resolve("guche_3"), None);
    // Ids keep counting after calls are gone.
    assert_eq!(p.issue(70_000).0, 4);
}
