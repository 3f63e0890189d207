use browser_oauth::coordinator::{
    authorization_url, CallbackResponse, RedirectCoordinator, StartError, REDIRECT_URI,
};
use browser_oauth::registry::{DeliveryError, FlowError, PendingFlowRegistry, RegisterError};
use browser_oauth::server::{client_login, rocket, DEFAULT_FLOW_TIMEOUT_SECS};
use browser_oauth::token::{new_token, token_from_indices, TOKEN_CHARSET, TOKEN_LEN};
use tokio::sync::oneshot::error::TryRecvError;

#[test]
fn start_then_deliver_resolves_code_and_empties_registry() {
    let mut c = RedirectCoordinator::new(600);
    let mut start = c.begin_flow(10).unwrap();
    assert_eq!(c.pending_count(), 1);
    assert!(c.is_pending(&start.token));
    let r = c.handle_callback(&start.token, "abc123".to_string());
    assert_eq!(r, CallbackResponse::Accepted);
    assert_eq!(start.waiter.receiver.try_recv().unwrap(), Ok("abc123".to_string()));
    assert_eq!(c.pending_count(), 0);
}

#[test]
fn unregistered_token_leaves_flow_pending() {
    let mut c = RedirectCoordinator::new(600);
    let mut start = c.begin_flow(10).unwrap();
    let r = c.handle_callback(&"ffff".to_string(), "abc123".to_string());
    assert_eq!(r, CallbackResponse::Accepted);
    assert!(matches!(start.waiter.receiver.try_recv(), Err(TryRecvError::Empty)));
    assert!(c.is_pending(&start.token));
    assert_eq!(c.pending_count(), 1);
}

#[test]
fn out_of_order_deliveries_reach_their_own_flows() {
    let mut c = RedirectCoordinator::new(600);
    let mut a = c.begin_flow(1).unwrap();
    let mut b = c.begin_flow(2).unwrap();
    assert_ne!(a.token, b.token);
    c.handle_callback(&b.token, "code-b".to_string());
    c.handle_callback(&a.token, "code-a".to_string());
    assert_eq!(a.waiter.receiver.try_recv().unwrap(), Ok("code-a".to_string()));
    assert_eq!(b.waiter.receiver.try_recv().unwrap(), Ok("code-b".to_string()));
    assert_eq!(c.pending_count(), 0);
}

#[test]
fn shutdown_resolves_pending_waiter() {
    let mut c = RedirectCoordinator::new(600);
    let mut start = c.begin_flow(5).unwrap();
    c.shutdown();
    assert_eq!(start.waiter.receiver.try_recv().unwrap(), Err(FlowError::ShuttingDown));
    assert_eq!(c.pending_count(), 0);
}

#[test]
fn timed_out_flow_resolves_and_token_becomes_unknown() {
    let mut c = RedirectCoordinator::new(600);
    let mut start = c.begin_flow_with("tok".to_string(), 100).unwrap();
    assert_eq!(c.expire_flows(699), 0);
    assert!(matches!(start.waiter.receiver.try_recv(), Err(TryRecvError::Empty)));
    assert_eq!(c.expire_flows(700), 1);
    assert_eq!(start.waiter.receiver.try_recv().unwrap(), Err(FlowError::TimedOut));
    assert!(!c.is_pending(&"tok".to_string()));

    let mut reg = PendingFlowRegistry::new();
    let _w = reg.register("tok".to_string(), 100).unwrap();
    assert_eq!(reg.expire(700, 600), 1);
    assert_eq!(
        reg.deliver(&"tok".to_string(), "late".to_string()),
        Err(DeliveryError::UnknownToken)
    );
}

#[test]
fn expiry_keeps_young_flows() {
    let mut c = RedirectCoordinator::new(50);
    let mut stale = c.begin_flow_with("old".to_string(), 0).unwrap();
    let mut young = c.begin_flow_with("young".to_string(), 40).unwrap();
    assert_eq!(c.expire_flows(60), 1);
    assert_eq!(stale.waiter.receiver.try_recv().unwrap(), Err(FlowError::TimedOut));
    assert!(matches!(young.waiter.receiver.try_recv(), Err(TryRecvError::Empty)));
    assert!(c.is_pending(&"young".to_string()));
    assert_eq!(c.pending_count(), 1);
}

#[test]
fn second_delivery_is_unknown() {
    let mut reg = PendingFlowRegistry::new();
    let mut w = reg.register("t1".to_string(), 0).unwrap();
    assert_eq!(reg.deliver(&"t1".to_string(), "c".to_string()), Ok(()));
    assert_eq!(
        reg.deliver(&"t1".to_string(), "c".to_string()),
        Err(DeliveryError::UnknownToken)
    );
    assert_eq!(w.receiver.try_recv().unwrap(), Ok("c".to_string()));
}

#[test]
fn delivery_before_registration_is_not_lost() {
    let mut reg = PendingFlowRegistry::new();
    assert_eq!(
        reg.deliver(&"early".to_string(), "c".to_string()),
        Err(DeliveryError::UnknownToken)
    );
    assert_eq!(reg.len(), 0);
    let mut w = reg.register("early".to_string(), 0).unwrap();
    assert!(reg.contains(&"early".to_string()));
    assert_eq!(reg.deliver(&"early".to_string(), "c2".to_string()), Ok(()));
    assert_eq!(w.receiver.try_recv().unwrap(), Ok("c2".to_string()));
}

#[test]
fn duplicate_token_is_refused() {
    let mut reg = PendingFlowRegistry::new();
    let mut w = reg.register("dup".to_string(), 0).unwrap();
    assert!(matches!(
        reg.register("dup".to_string(), 1),
        Err(RegisterError::DuplicateToken)
    ));
    assert_eq!(reg.len(), 1);
    assert!(matches!(w.receiver.try_recv(), Err(TryRecvError::Empty)));

    let mut c = RedirectCoordinator::new(600);
    let _a = c.begin_flow_with("dup".to_string(), 0).unwrap();
    assert!(matches!(
        c.begin_flow_with("dup".to_string(), 0),
        Err(StartError::DuplicateToken)
    ));
    assert_eq!(c.pending_count(), 1);
}

#[test]
fn delivery_to_dropped_waiter_reports_receiver_gone() {
    let mut reg = PendingFlowRegistry::new();
    let w = reg.register("gone".to_string(), 0).unwrap();
    drop(w);
    assert_eq!(
        reg.deliver(&"gone".to_string(), "c".to_string()),
        Err(DeliveryError::ReceiverGone)
    );
    assert_eq!(reg.len(), 0);
}

#[test]
fn cancel_resolves_waiter_with_cancelled() {
    let mut c = RedirectCoordinator::new(600);
    let mut start = c.begin_flow_with("x".to_string(), 0).unwrap();
    assert!(c.cancel_flow(&"x".to_string()));
    assert!(!c.cancel_flow(&"x".to_string()));
    assert_eq!(start.waiter.receiver.try_recv().unwrap(), Err(FlowError::Cancelled));

    let mut reg = PendingFlowRegistry::new();
    let mut w = reg.register("y".to_string(), 0).unwrap();
    assert!(reg.cancel(&"y".to_string(), FlowError::Cancelled));
    assert_eq!(w.receiver.try_recv().unwrap(), Err(FlowError::Cancelled));
}

#[test]
fn drain_resolves_every_waiter() {
    let mut reg = PendingFlowRegistry::new();
    let mut a = reg.register("a".to_string(), 0).unwrap();
    let mut b = reg.register("b".to_string(), 0).unwrap();
    reg.drain(FlowError::ShuttingDown);
    assert_eq!(reg.len(), 0);
    assert_eq!(a.receiver.try_recv().unwrap(), Err(FlowError::ShuttingDown));
    assert_eq!(b.receiver.try_recv().unwrap(), Err(FlowError::ShuttingDown));
}

#[test]
fn generated_tokens_have_token_shape_and_differ() {
    let t1 = new_token().unwrap();
    let t2 = new_token().unwrap();
    assert_eq!(t1.chars().count(), TOKEN_LEN);
    assert!(t1.chars().all(|ch| TOKEN_CHARSET.contains(ch)));
    assert!(t1.chars().all(|ch| ch.is_ascii_alphanumeric() || ch == '_' || ch == '-'));
    assert_ne!(t1, t2);
}

#[test]
fn token_letters_follow_indices() {
    assert_eq!(token_from_indices(&vec![0, 25, 26, 51, 52, 61, 62, 63]), "AZaz09_-");
    assert_eq!(token_from_indices(&vec![]), "");
}

#[test]
fn authorization_url_carries_state() {
    assert_eq!(
        authorization_url("https://accounts.example.com/o/oauth2/auth?x=1", "abc"),
        "https://accounts.example.com/o/oauth2/auth?x=1?state=abc"
    );
    assert_eq!(REDIRECT_URI, "http://localhost:8000/oauth2/client_login");
}

#[test]
fn client_login_rejects_malformed_requests() {
    let mut s = rocket();
    let mut start = s.oauth_handlers.begin_flow_with("st".to_string(), 0).unwrap();
    let r = client_login(&mut s, None, Some("st".to_string()));
    assert_eq!(r, CallbackResponse::BadRequest);
    assert_eq!(r.status_code(), 400);
    let r = client_login(&mut s, Some("c".to_string()), None);
    assert_eq!(r, CallbackResponse::BadRequest);
    assert!(s.oauth_handlers.is_pending(&"st".to_string()));
    let r = client_login(&mut s, Some("c".to_string()), Some("st".to_string()));
    assert_eq!(r, CallbackResponse::Accepted);
    assert_eq!(r.status_code(), 200);
    assert_eq!(start.waiter.receiver.try_recv().unwrap(), Ok("c".to_string()));
    assert_eq!(s.oauth_handlers.pending_count(), 0);
}

#[test]
fn fresh_server_state_is_empty() {
    let s = rocket();
    assert_eq!(s.oauth_handlers.pending_count(), 0);
    assert_eq!(s.oauth_handlers.timeout(), DEFAULT_FLOW_TIMEOUT_SECS);
    assert_eq!(DEFAULT_FLOW_TIMEOUT_SECS, 600);
}
