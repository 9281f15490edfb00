use serde_json::Value;
use trade_stream::dispatch::{
    DispatchOutcome, DispatchPhase, Dispatcher, Inbound, KeepAlive, KeepAliveAction,
    KeepAliveEvent,
};
use trade_stream::frame::RawAggTrade;
use trade_stream::session::{
    SessionAction, SessionController, SessionEvent, SessionPhase, ShutdownSignal, ShutdownSource,
};
use trade_stream::storage::AggTradeStorage;
use trade_stream::subscriptions::UNSUBSCRIBE_ID_OFFSET;

fn streams() -> Vec<String> {
    vec!["btcusdt@aggTrade".to_string(), "ethusdt@trade".to_string()]
}

fn request_parts(text: &str) -> (String, Vec<String>, u64) {
    let v: Value = serde_json::from_str(text).unwrap();
    let method = v["method"].as_str().unwrap().to_string();
    let params = v["params"]
        .as_array()
        .unwrap()
        .iter()
        .map(|p| p.as_str().unwrap().to_string())
        .collect();
    (method, params, v["id"].as_u64().unwrap())
}

fn streaming_session(base_id: u64) -> SessionController {
    let mut s = SessionController::new(streams(), base_id);
    assert!(matches!(s.step(SessionEvent::Start), SessionAction::Connect));
    assert!(matches!(s.step(SessionEvent::Connected), SessionAction::SendSubscribe(_)));
    assert!(matches!(s.step(SessionEvent::SubscribeSent), SessionAction::StartStreaming));
    assert_eq!(s.current_phase(), SessionPhase::Streaming);
    s
}

#[test]
fn client_test_subscribe_to_streams() {
    let mut s = SessionController::new(streams(), 1);
    s.step(SessionEvent::Start);
    match s.step(SessionEvent::Connected) {
        SessionAction::SendSubscribe(text) => {
            assert_eq!(request_parts(&text), ("SUBSCRIBE".to_string(), streams(), 1));
        }
        _ => panic!("Expected text message"),
    }
}

#[test]
fn test_unsubscribe_from_streams() {
    let mut s = streaming_session(1);
    match s.step(SessionEvent::StreamEnded) {
        SessionAction::SendUnsubscribe(text) => {
            assert_eq!(request_parts(&text), ("UNSUBSCRIBE".to_string(), streams(), 1001));
        }
        _ => panic!("Expected text message"),
    }
}

#[test]
fn unsubscribe_mirrors_subscribe_for_any_base_id() {
    for base in [0u64, 7, 123_456] {
        let mut s = SessionController::new(streams(), base);
        s.step(SessionEvent::Start);
        let sub = match s.step(SessionEvent::Connected) {
            SessionAction::SendSubscribe(t) => request_parts(&t),
            _ => panic!("no subscribe"),
        };
        s.step(SessionEvent::SubscribeSent);
        let unsub = match s.step(SessionEvent::Shutdown(ShutdownSource::Operator)) {
            SessionAction::SendUnsubscribe(t) => request_parts(&t),
            _ => panic!("no unsubscribe"),
        };
        assert_eq!(unsub.1, sub.1);
        assert_eq!(unsub.2, sub.2 + UNSUBSCRIBE_ID_OFFSET);
    }
}

#[test]
fn two_shutdowns_give_one_unsubscribe_and_one_close() {
    let mut s = streaming_session(1);
    let mut unsubscribes = 0;
    let mut closes = 0;
    for event in [
        SessionEvent::Shutdown(ShutdownSource::Interrupt),
        SessionEvent::Shutdown(ShutdownSource::Operator),
        SessionEvent::UnsubscribeAttempted,
        SessionEvent::Shutdown(ShutdownSource::PeerClose),
        SessionEvent::UnsubscribeAttempted,
    ] {
        match s.step(event) {
            SessionAction::SendUnsubscribe(_) => unsubscribes += 1,
            SessionAction::Close => closes += 1,
            _ => {}
        }
    }
    assert_eq!((unsubscribes, closes), (1, 1));
    assert_eq!(s.current_phase(), SessionPhase::Closed);
}

#[test]
fn connect_failure_is_reported_without_teardown() {
    let mut s = SessionController::new(streams(), 1);
    s.step(SessionEvent::Start);
    assert!(matches!(s.step(SessionEvent::ConnectFailed), SessionAction::ReportConnectError));
    assert!(matches!(s.step(SessionEvent::StreamEnded), SessionAction::Nothing));
    assert_eq!(s.current_phase(), SessionPhase::Failed);
}

#[test]
fn subscribe_failure_aborts() {
    let mut s = SessionController::new(streams(), 1);
    s.step(SessionEvent::Start);
    s.step(SessionEvent::Connected);
    assert!(matches!(s.step(SessionEvent::SubscribeFailed), SessionAction::Abort));
    assert_eq!(s.current_phase(), SessionPhase::Failed);
}

#[test]
fn shutdown_signal_keeps_the_first_source() {
    let mut signal = ShutdownSignal::new();
    assert_eq!(signal.fired_by(), None);
    assert!(signal.trigger(ShutdownSource::Interrupt));
    assert!(!signal.trigger(ShutdownSource::Operator));
    assert_eq!(signal.fired_by(), Some(ShutdownSource::Interrupt));
}

#[test]
fn test_start_ping() {
    let mut k = KeepAlive::new();
    let mut sent = Vec::new();
    for event in [
        KeepAliveEvent::Tick,
        KeepAliveEvent::Tick,
        KeepAliveEvent::Shutdown,
        KeepAliveEvent::Tick,
        KeepAliveEvent::Shutdown,
    ] {
        sent.push(k.on_event(event));
    }
    assert!(sent.iter().any(|a| *a == KeepAliveAction::SendPing));
    assert!(sent.iter().any(|a| *a == KeepAliveAction::SendClose));
    assert_eq!(
        sent,
        vec![
            KeepAliveAction::SendPing,
            KeepAliveAction::SendPing,
            KeepAliveAction::SendClose,
            KeepAliveAction::Idle,
            KeepAliveAction::Idle,
        ]
    );
}

fn frame(id: u64, price: &str) -> RawAggTrade {
    RawAggTrade {
        symbol: Some("BTCUSDT".to_string()),
        trade_id: Some(id),
        price: Some(price.to_string()),
        quantity: Some("1".to_string()),
        first_trade_id: Some(id),
        last_trade_id: Some(id),
        event_time: Some(1_700_000_000_000),
        is_buyer_maker: Some(false),
    }
}

#[test]
fn dispatcher_delivers_until_a_stop_then_drains() {
    let mut storage = AggTradeStorage::new(3);
    let mut d = Dispatcher::new();
    assert_eq!(d.on_inbound(&mut storage, Inbound::Trade(frame(1, "10.5"))), DispatchOutcome::Delivered);
    assert_eq!(d.on_inbound(&mut storage, Inbound::Trade(frame(2, "bad"))), DispatchOutcome::Skipped);
    assert_eq!(d.on_inbound(&mut storage, Inbound::Malformed), DispatchOutcome::Skipped);
    assert_eq!(d.on_inbound(&mut storage, Inbound::Ignored), DispatchOutcome::Skipped);
    assert_eq!(storage.get_trades().len(), 1);
    assert_eq!(storage.calculate_average_price(), Some(1_050_000_000));
    assert_eq!(d.on_inbound(&mut storage, Inbound::PeerClose), DispatchOutcome::Stop);
    assert_eq!(d.current_phase(), DispatchPhase::Draining);
    assert_eq!(d.on_inbound(&mut storage, Inbound::Trade(frame(3, "11"))), DispatchOutcome::Stop);
    assert_eq!(storage.get_trades().len(), 1);
    d.finish();
    assert_eq!(d.current_phase(), DispatchPhase::Stopped);
}

#[test]
fn dispatcher_stops_on_shutdown_and_read_error() {
    let mut storage = AggTradeStorage::new(3);
    let mut d = Dispatcher::new();
    assert_eq!(d.on_inbound(&mut storage, Inbound::Shutdown), DispatchOutcome::Stop);
    let mut e = Dispatcher::new();
    assert_eq!(e.on_inbound(&mut storage, Inbound::ReadError), DispatchOutcome::Stop);
    assert_eq!(e.current_phase(), DispatchPhase::Draining);
}
