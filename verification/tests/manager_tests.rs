use spring_websocket::connection::{ConnectionState, ConnectionStats, RateLimiter};
use spring_websocket::manager::{
    next_loop_step, FrameAction, FrameError, IncomingFrame, LoopEvent, LoopStep, RateLimitConfig,
    WebSocketConfig, WebSocketManager,
};

fn config(max_connections: usize, rate: Option<u32>) -> WebSocketConfig {
    WebSocketConfig {
        max_connections,
        max_message_size: 16,
        rate_limit: rate.map(|m| RateLimitConfig { messages_per_minute: m }),
        ping_interval_secs: 30,
        idle_timeout_secs: 60,
    }
}

#[test]
fn test_connection_state_creation() {
    let connection_id = uuid::Uuid::new_v4().as_u128();
    let addr = "127.0.0.1:8080";
    let state = ConnectionState::new(connection_id, addr.to_string());

    assert_eq!(state.id, connection_id);
    assert_eq!(state.addr, addr.to_string());
    assert!(state.rooms.is_empty());
    assert!(state.user_data_is_empty());
}

#[test]
fn test_connection_stats() {
    let connection_id = uuid::Uuid::new_v4().as_u128();
    let addr = "127.0.0.1:8080";
    let mut state = ConnectionState::new(connection_id, addr.to_string());

    state.stats.add_messages_sent(5);
    state.stats.add_messages_received(3);
    state.stats.add_bytes_sent(100);
    state.stats.add_bytes_received(200);

    assert_eq!(state.stats.messages_sent, 5);
    assert_eq!(state.stats.messages_received, 3);
    assert_eq!(state.stats.bytes_sent, 100);
    assert_eq!(state.stats.bytes_received, 200);
}

#[test]
fn test_websocket_manager_creation() {
    let manager = WebSocketManager::new(config(10, None));

    assert_eq!(manager.get_connection_count(), 0);
    assert!(manager.get_connection_ids().is_empty());
}

#[test]
fn stats_wrap_like_atomics() {
    let mut stats = ConnectionStats::default();
    stats.add_bytes_received(usize::MAX);
    stats.add_bytes_received(2);
    assert_eq!(stats.bytes_received, 1);
}

#[test]
fn connection_rooms_and_user_data() {
    let mut state = ConnectionState::new_at(1, "a".to_string(), 0);
    state.join_room("r".to_string());
    state.join_room("r".to_string());
    state.join_room("s".to_string());
    assert_eq!(state.rooms, vec!["r".to_string(), "s".to_string()]);
    state.leave_room(&"r".to_string());
    assert_eq!(state.rooms, vec!["s".to_string()]);
    state.set_user_data("name".to_string(), "ann".to_string());
    assert_eq!(state.get_user_data("name"), Some("ann".to_string()));
    assert_eq!(state.get_user_data("age"), None);
    assert!(!state.user_data_is_empty());
}

#[test]
fn staleness_follows_last_pong() {
    let mut state = ConnectionState::new_at(1, "a".to_string(), 1_000);
    assert!(!state.is_stale_at(500, 1_500));
    assert!(state.is_stale_at(500, 1_501));
    state.update_pong_at(1_400);
    assert!(!state.is_stale_at(500, 1_900));
    assert!(state.is_stale_at(500, 1_901));
    // a clock that went back counts as no time elapsed
    assert!(!state.is_stale_at(0, 10));
    state.update_ping_at(7);
    assert_eq!(state.last_ping, Some(7));
}

#[test]
fn rate_limiter_window() {
    let mut limiter = RateLimiter::new_at(2, 1_000, 0);
    assert!(limiter.check_at(10));
    assert!(limiter.check_at(20));
    assert!(!limiter.check_at(30));
    assert!(!limiter.check_at(999));
    // the window has elapsed: a new one starts
    assert!(limiter.check_at(1_000));
    assert!(limiter.check_at(1_001));
    assert!(!limiter.check_at(1_002));
    limiter.reset_at(1_003);
    assert!(limiter.check_at(1_004));
}

#[test]
fn zero_budget_limiter_refuses_everything() {
    let mut limiter = RateLimiter::new_at(0, 1_000, 0);
    assert!(!limiter.check_at(1));
    assert!(!limiter.check_at(5_000));
}

#[test]
fn admission_respects_the_limit() {
    let mut m = WebSocketManager::new(config(2, Some(100)));
    assert!(m.admit_connection(1, "a".to_string(), 0));
    assert!(m.admit_connection(2, "b".to_string(), 0));
    assert!(!m.admit_connection(3, "c".to_string(), 0));
    assert_eq!(m.get_connection_count(), 2);
    let mut ids = m.get_connection_ids();
    ids.sort();
    assert_eq!(ids, vec![1, 2]);
    m.close_connection(1);
    assert_eq!(m.get_connection_count(), 1);
    assert!(m.admit_connection(3, "c".to_string(), 0));
    assert!(!m.has_connection(&1));
    assert_eq!(m.get_rate_limit_config(), Some((100, 60_000)));
}

#[test]
fn frames_are_settled() {
    let mut m = WebSocketManager::new(config(5, None));
    assert!(m.admit_connection(1, "a".to_string(), 0));
    assert_eq!(m.process_incoming(1, IncomingFrame::Text { len: 5, parses: true }, 1), Ok(FrameAction::Dispatch));
    assert_eq!(m.process_incoming(1, IncomingFrame::Text { len: 5, parses: false }, 1), Ok(FrameAction::Done));
    assert_eq!(m.process_incoming(1, IncomingFrame::Text { len: 17, parses: true }, 1), Err(FrameError::MessageTooLarge));
    assert_eq!(m.process_incoming(1, IncomingFrame::Binary { len: 16 }, 1), Ok(FrameAction::Done));
    assert_eq!(m.process_incoming(1, IncomingFrame::Binary { len: 17 }, 1), Err(FrameError::MessageTooLarge));
    assert_eq!(m.process_incoming(1, IncomingFrame::Ping, 3), Ok(FrameAction::Done));
    assert_eq!(m.process_incoming(1, IncomingFrame::Pong, 4), Ok(FrameAction::Done));
    assert_eq!(m.process_incoming(1, IncomingFrame::Close, 5), Err(FrameError::ClosedByClient));
    let s = m.get_connection_state(&1).unwrap().state(&m).unwrap();
    assert_eq!(s.stats.messages_received, 8);
    assert_eq!(s.stats.bytes_received, 21);
    assert_eq!(s.last_ping, Some(3));
    assert_eq!(s.last_pong, Some(4));
}

#[test]
fn frames_are_rate_limited() {
    let mut m = WebSocketManager::new(config(5, Some(1)));
    assert!(m.admit_connection(1, "a".to_string(), 0));
    assert_eq!(m.process_incoming(1, IncomingFrame::Ping, 1), Ok(FrameAction::Done));
    assert_eq!(m.process_incoming(1, IncomingFrame::Ping, 2), Err(FrameError::RateLimitExceeded));
    assert_eq!(m.process_incoming(1, IncomingFrame::Ping, 60_000), Ok(FrameAction::Done));
    assert_eq!(m.get_connection_state(&1).unwrap().state(&m).unwrap().last_ping, Some(60_000));
}

#[test]
fn stale_connections_and_broadcast_targets() {
    let mut m = WebSocketManager::new(config(5, None));
    m.admit_connection(1, "a".to_string(), 0);
    m.admit_connection(2, "b".to_string(), 0);
    m.process_incoming(2, IncomingFrame::Pong, 900).unwrap();
    assert_eq!(m.stale_connections(500, 1_000), vec![1]);
    m.room_manager.join_room("r".to_string(), 1).unwrap();
    m.room_manager.join_room("r".to_string(), 2).unwrap();
    m.room_manager.join_room("r".to_string(), 9).unwrap();
    let mut targets = m.broadcast_targets(&"r".to_string());
    targets.sort();
    assert_eq!(targets, vec![1, 2]);
    m.close_connection(1);
    assert_eq!(m.broadcast_targets(&"r".to_string()).len(), 1);
    assert!(m.broadcast_targets(&"none".to_string()).is_empty());
}

#[test]
fn loop_decisions() {
    assert_eq!(next_loop_step(LoopEvent::FrameSettled { ok: true }), LoopStep::Continue);
    assert_eq!(next_loop_step(LoopEvent::FrameSettled { ok: false }), LoopStep::Close);
    assert_eq!(next_loop_step(LoopEvent::Sent { ok: true }), LoopStep::Continue);
    assert_eq!(next_loop_step(LoopEvent::Sent { ok: false }), LoopStep::Close);
    assert_eq!(next_loop_step(LoopEvent::ReceiveFailed), LoopStep::Close);
    assert_eq!(next_loop_step(LoopEvent::ReceiveEnded), LoopStep::Close);
    assert_eq!(next_loop_step(LoopEvent::OutgoingClosed), LoopStep::Close);
}

#[test]
fn manager_join_and_leave_rooms() {
    let mut m = WebSocketManager::new(config(5, None));
    m.admit_connection(1, "a".to_string(), 0);
    assert!(m.join_room("r".to_string(), 1).is_ok());
    assert!(m.join_room("r".to_string(), 1).is_err());
    assert_eq!(m.broadcast_targets(&"r".to_string()), vec![1]);
    assert!(m.leave_room(&"r".to_string(), &2).is_err());
    assert!(m.leave_room(&"r".to_string(), &1).is_ok());
    assert!(!m.room_manager.room_exists(&"r".to_string()));
    assert!(m.leave_room(&"r".to_string(), &1).is_err());
    assert_eq!(m.get_connection_count(), 1);
}

#[test]
fn connection_handles_share_the_state() {
    let mut m = WebSocketManager::new(config(5, None));
    m.admit_connection(1, "a".to_string(), 0);
    assert!(m.get_connection_state(&2).is_none());
    let first = m.get_connection_state(&1).unwrap();
    let second = m.get_connection_state(&1).unwrap();
    assert_eq!(first.id, 1);
    first.join_room(&mut m, "r".to_string());
    first.join_room(&mut m, "r".to_string());
    first.set_user_data(&mut m, "k".to_string(), "v".to_string());
    first.update_ping_at(&mut m, 7);
    second.update_pong_at(&mut m, 9);
    let s = second.state(&m).unwrap();
    assert_eq!(s.rooms, vec!["r".to_string()]);
    assert_eq!(s.get_user_data("k"), Some("v".to_string()));
    assert_eq!(s.last_ping, Some(7));
    assert_eq!(s.last_pong, Some(9));
    second.leave_room(&mut m, "r".to_string());
    assert!(first.state(&m).unwrap().rooms.is_empty());
    m.close_connection(1);
    assert!(first.state(&m).is_none());
    first.update_ping_at(&mut m, 11);
    assert_eq!(m.get_connection_count(), 0);
}

#[test]
fn connection_join_then_leave_restores_rooms() {
    let mut state = ConnectionState::new(1, "a".to_string());
    state.join_room("a".to_string());
    let before = state.rooms.clone();
    state.join_room("b".to_string());
    state.leave_room(&"b".to_string());
    assert_eq!(state.rooms, before);
}
