use cgraph::rpc::{RpcAction, RpcEvent, RpcState};

#[test]
fn requests_get_ids_in_order_and_answers_reach_their_request_once() {
    let mut state = RpcState::new();
    assert!(matches!(state.step(RpcEvent::Request), RpcAction::Send { id: 1 }));
    assert!(matches!(state.step(RpcEvent::Request), RpcAction::Send { id: 2 }));
    assert_eq!(state.pending, vec![1, 2]);
    assert!(matches!(state.step(RpcEvent::Reply { id: 2, error: None }), RpcAction::Deliver { id: 2, error: None }));
    assert!(matches!(state.step(RpcEvent::Reply { id: 2, error: None }), RpcAction::Nothing));
    assert!(matches!(
        state.step(RpcEvent::Reply { id: 1, error: Some("{\"code\":-32601}".to_owned()) }),
        RpcAction::Deliver { id: 1, error: Some(ref e) } if e == "LSP request failed: {\"code\":-32601}"
    ));
    assert!(state.pending.is_empty());
    assert!(matches!(state.step(RpcEvent::Request), RpcAction::Send { id: 3 }));
}

#[test]
fn cancelled_or_abandoned_requests_are_cancelled_at_the_server() {
    let mut state = RpcState::new();
    state.step(RpcEvent::Request);
    state.step(RpcEvent::Request);
    assert!(matches!(state.step(RpcEvent::Cancel { id: 1 }), RpcAction::WriteCancel { id: 1 }));
    assert!(matches!(state.step(RpcEvent::Cancel { id: 1 }), RpcAction::Nothing));
    assert!(matches!(state.step(RpcEvent::CallerGone { id: 2 }), RpcAction::WriteCancel { id: 2 }));
    assert!(matches!(state.step(RpcEvent::Reply { id: 2, error: None }), RpcAction::Nothing));
}

#[test]
fn an_ended_connection_fails_everything_still_waiting() {
    let mut state = RpcState::new();
    state.step(RpcEvent::Request);
    state.step(RpcEvent::Request);
    state.step(RpcEvent::Reply { id: 1, error: None });
    match state.step(RpcEvent::Ended { error: None }) {
        RpcAction::FailAll { ids, message } => {
            assert_eq!(ids, vec![2]);
            assert_eq!(message, "LSP connection closed");
        },
        _ => panic!("the end of the connection must fail the waiting requests"),
    }
    assert!(state.closed);
    assert!(matches!(state.step(RpcEvent::Request), RpcAction::Nothing));
    let mut broken = RpcState::new();
    broken.step(RpcEvent::Request);
    assert!(matches!(
        broken.step(RpcEvent::Ended { error: Some("LSP message reader stopped unexpectedly".to_owned()) }),
        RpcAction::FailAll { ref message, .. } if message == "LSP message reader stopped unexpectedly"
    ));
}
