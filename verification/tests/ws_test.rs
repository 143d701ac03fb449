use mutao::ws::{WsHub, WsNotification, CHANNEL_CAPACITY};
use tokio::sync::broadcast::error::TryRecvError;

#[test]
fn test_ws_hub_new() {
    let hub = WsHub::new();
    let _rx = hub.subscribe();
}

#[test]
fn test_ws_hub_default() {
    let hub = WsHub::default();
    let _rx = hub.subscribe();
}

#[test]
fn test_ws_hub_notify_no_subscribers() {
    let hub = WsHub::new();
    hub.notify(&WsNotification { event: "test".into(), data: "{\"key\":\"value\"}".into() });
}

#[test]
fn test_ws_hub_broadcast() {
    let hub = WsHub::new();
    let mut rx = hub.subscribe();

    let notification = WsNotification {
        event: "match_found".into(),
        data: "{\"item_id\":\"abc\",\"cycles_count\":1}".into(),
    };
    hub.notify(&notification);

    let msg = rx.try_recv().unwrap();
    let parsed: serde_json::Value = serde_json::from_str(&msg).unwrap();
    assert_eq!(parsed["event"], "match_found");
    assert_eq!(parsed["data"]["cycles_count"], 1);
}

#[test]
fn test_ws_hub_multiple_subscribers() {
    let hub = WsHub::new();
    let mut rx1 = hub.subscribe();
    let mut rx2 = hub.subscribe();

    hub.notify(&WsNotification { event: "test".into(), data: "null".into() });

    assert!(rx1.try_recv().is_ok());
    assert!(rx2.try_recv().is_ok());
}

#[test]
fn notification_json_matches_serde() {
    let n = WsNotification { event: "a\"b".into(), data: "{\"k\":[1,2]}".into() };
    let expected: serde_json::Value = serde_json::from_str(r#"{"event": "a\"b", "data": {"k": [1, 2]}}"#).unwrap();
    let got: serde_json::Value = serde_json::from_str(&n.to_json()).unwrap();
    assert_eq!(got, expected);
    assert_eq!(n.to_json(), "{\"event\":\"a\\\"b\",\"data\":{\"k\":[1,2]}}");
}

#[test]
fn hub_holds_its_capacity_for_a_slow_subscriber() {
    let hub = WsHub::new();
    let mut full = hub.subscribe();
    let mut lagging = hub.subscribe();
    for i in 0..CHANNEL_CAPACITY {
        hub.notify(&WsNotification { event: format!("e{i}"), data: "null".into() });
    }
    assert!(full.try_recv().unwrap().contains("\"e0\""));

    hub.notify(&WsNotification { event: "one more".into(), data: "null".into() });
    assert!(matches!(lagging.try_recv(), Err(TryRecvError::Lagged(1))));
}
