use mdgateway::adapter::{login_field, AdapterAction, MarketDataActor, MarketDataEvent};
use mdgateway::ids::{normalize_equity, normalize_futures, strip_prefix};
use mdgateway::sources::MarketDataSource;

fn ids(list: &[&str]) -> Vec<String> {
    list.iter().map(|s| s.to_string()).collect()
}

fn sorted(mut v: Vec<String>) -> Vec<String> {
    v.sort();
    v
}

#[test]
fn connect_enqueues_login() {
    let mut a = MarketDataActor::new(MarketDataSource::Ctp);
    let actions = a.on_event(MarketDataEvent::Connected);
    assert_eq!(actions.len(), 1);
    assert!(matches!(actions[0], AdapterAction::Login));
    assert!(a.connected);
}

#[test]
fn login_with_empty_desired_replays_nothing() {
    let mut a = MarketDataActor::new(MarketDataSource::Ctp);
    a.on_event(MarketDataEvent::Connected);
    let actions = a.on_event(MarketDataEvent::LoggedIn);
    assert_eq!(actions.len(), 0);
}

#[test]
fn reconnect_replays_exactly_the_desired_set() {
    let mut a = MarketDataActor::new(MarketDataSource::Ctp);
    // desired grows while still offline: no native call yet
    let none = a.request_subscribe(&ids(&["au2212", "rb2512"]));
    assert!(none.is_none());

    a.on_event(MarketDataEvent::Connected);
    let first = a.on_event(MarketDataEvent::LoggedIn);
    assert_eq!(first.len(), 1);
    match &first[0] {
        AdapterAction::SubscribeMarketData(batch) => {
            assert_eq!(sorted(batch.clone()), ids(&["au2212", "rb2512"]));
        }
        _ => panic!("expected a subscribe call"),
    }
    a.on_event(MarketDataEvent::SubscriptionSuccess("au2212".to_string()));
    a.on_event(MarketDataEvent::SubscriptionSuccess("rb2512".to_string()));

    // disconnect keeps `desired`, clears the confirmed set
    let silent = a.on_event(MarketDataEvent::Disconnected);
    assert_eq!(silent.len(), 0);
    assert!(!a.connected);
    assert!(!a.logged_in);
    assert_eq!(a.subscriptions().len(), 0);

    // reconnect and login: one batched subscribe carrying the whole set again
    a.on_event(MarketDataEvent::Connected);
    let replay = a.on_event(MarketDataEvent::LoggedIn);
    assert_eq!(replay.len(), 1);
    match &replay[0] {
        AdapterAction::SubscribeMarketData(batch) => {
            assert_eq!(sorted(batch.clone()), ids(&["au2212", "rb2512"]));
        }
        _ => panic!("expected a subscribe call"),
    }
}

#[test]
fn login_replay_skips_already_confirmed_codes() {
    let mut a = MarketDataActor::new(MarketDataSource::Ctp);
    a.request_subscribe(&ids(&["au2212", "rb2512"]));
    a.on_event(MarketDataEvent::SubscriptionSuccess("au2212".to_string()));
    a.on_event(MarketDataEvent::Connected);
    let replay = a.on_event(MarketDataEvent::LoggedIn);
    match &replay[0] {
        AdapterAction::SubscribeMarketData(batch) => {
            assert_eq!(batch.clone(), ids(&["rb2512"]));
        }
        _ => panic!("expected a subscribe call"),
    }
}

#[test]
fn subscribe_while_logged_in_normalizes_codes() {
    let mut a = MarketDataActor::new(MarketDataSource::Sina);
    a.on_event(MarketDataEvent::Connected);
    a.on_event(MarketDataEvent::LoggedIn);
    let action = a.request_subscribe(&ids(&["SSE.600000", "1"]));
    match action {
        Some(AdapterAction::SubscribeMarketData(batch)) => {
            assert_eq!(batch, ids(&["600000", "000001"]));
        }
        _ => panic!("expected a subscribe call"),
    }
}

#[test]
fn nack_confirms_nothing() {
    let mut a = MarketDataActor::new(MarketDataSource::Ctp);
    a.on_event(MarketDataEvent::SubscriptionSuccess("au2212".to_string()));
    a.on_event(MarketDataEvent::SubscriptionFailure(
        "rb2512".to_string(),
        "rejected".to_string(),
    ));
    assert_eq!(a.subscriptions(), ids(&["au2212"]));
}

#[test]
fn prefixed_and_plain_codes_normalize_to_one_id() {
    assert_eq!(normalize_equity("SSE.600000"), "600000");
    assert_eq!(normalize_equity("600000"), "600000");
    assert_eq!(normalize_equity("XSHG.1"), "000001");
    assert_eq!(normalize_equity("1"), "000001");
    assert_eq!(normalize_equity("SSE.ETF510050x"), "ETF510050x");
    assert_eq!(normalize_futures("SHFE.au2512"), "au2512");
    assert_eq!(normalize_futures("au2512"), "au2512");
    // the futures feed never zero-pads
    assert_eq!(normalize_futures("1"), "1");
    assert_eq!(strip_prefix("CFFEX.IF2301"), "IF2301");
    assert_eq!(strip_prefix("IF2301"), "IF2301");
}

#[test]
fn unsubscribe_shrinks_desired_and_normalizes() {
    let mut a = MarketDataActor::new(MarketDataSource::QQ);
    a.on_event(MarketDataEvent::Connected);
    a.on_event(MarketDataEvent::LoggedIn);
    a.request_subscribe(&ids(&["600000", "000002"]));
    let action = a.request_unsubscribe(&ids(&["SZSE.2"]));
    match action {
        Some(AdapterAction::UnsubscribeMarketData(batch)) => {
            assert_eq!(batch, ids(&["000002"]));
        }
        _ => panic!("expected an unsubscribe call"),
    }
}

#[test]
fn login_fields_truncate_and_terminate() {
    // short value: copied whole, null-terminated
    assert_eq!(login_field("9999", 11), vec![b'9', b'9', b'9', b'9', 0u8]);
    // long value: truncated to one less than the buffer, null-terminated
    assert_eq!(login_field("abcdefgh", 5), vec![b'a', b'b', b'c', b'd', 0u8]);
    // degenerate one-byte buffer holds only the terminator
    assert_eq!(login_field("x", 1), vec![0u8]);
}

#[test]
fn stop_unsubscribes_everything_confirmed() {
    let mut a = MarketDataActor::new(MarketDataSource::Ctp);
    assert!(a.request_stop().is_none());
    a.on_event(MarketDataEvent::Connected);
    a.on_event(MarketDataEvent::LoggedIn);
    a.request_subscribe(&ids(&["au2212", "rb2512"]));
    a.on_event(MarketDataEvent::SubscriptionSuccess("au2212".to_string()));
    a.on_event(MarketDataEvent::SubscriptionSuccess("rb2512".to_string()));
    match a.request_stop() {
        Some(AdapterAction::UnsubscribeMarketData(batch)) => {
            assert_eq!(sorted(batch), ids(&["au2212", "rb2512"]));
        }
        _ => panic!("expected an unsubscribe call"),
    }
}

#[test]
fn unsubscribe_ack_drops_the_confirmed_code() {
    let mut a = MarketDataActor::new(MarketDataSource::Ctp);
    a.on_event(MarketDataEvent::SubscriptionSuccess("au2212".to_string()));
    a.on_event(MarketDataEvent::SubscriptionSuccess("rb2512".to_string()));
    a.on_event(MarketDataEvent::UnsubscriptionSuccess("au2212".to_string()));
    assert_eq!(a.subscriptions(), ids(&["rb2512"]));
}

#[test]
fn resubscribe_after_unsubscribe_reaches_the_feed_again() {
    let mut a = MarketDataActor::new(MarketDataSource::Ctp);
    a.on_event(MarketDataEvent::Connected);
    a.on_event(MarketDataEvent::LoggedIn);
    a.request_subscribe(&ids(&["au2212"]));
    a.on_event(MarketDataEvent::SubscriptionSuccess("au2212".to_string()));

    a.request_unsubscribe(&ids(&["au2212"]));
    a.on_event(MarketDataEvent::UnsubscriptionSuccess("au2212".to_string()));
    assert_eq!(a.subscriptions().len(), 0);

    // the code is no longer confirmed, so a new request is not filtered out
    match a.request_subscribe(&ids(&["au2212"])) {
        Some(AdapterAction::SubscribeMarketData(batch)) => {
            assert_eq!(batch, ids(&["au2212"]));
        }
        _ => panic!("expected a subscribe call"),
    }
}
