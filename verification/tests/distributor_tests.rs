use mdgateway::distributor::{MarketDataDistributor, UpstreamRequest};
use mdgateway::json::Dec;
use mdgateway::snapshot::{Snapshot, TriVal};
use mdgateway::sources::MarketDataSource;

fn dec(neg: bool, int_part: u64, frac: u64, frac_len: u8) -> Dec {
    Dec { neg, int_part, frac, frac_len }
}

fn sample_snapshot(id: &str, last_price: Dec, volume: i64, open_interest: TriVal) -> Snapshot {
    Snapshot {
        instrument_id: id.to_string(),
        datetime: "2022-11-08 10:30:15".to_string(),
        last_price,
        amount: dec(false, 1000000, 0, 1),
        volume,
        open: dec(false, 370, 0, 1),
        highest: dec(false, 380, 5, 1),
        lowest: dec(false, 369, 0, 1),
        pre_close: dec(false, 371, 2, 1),
        upper_limit: dec(false, 400, 0, 1),
        lower_limit: dec(false, 340, 0, 1),
        average: dec(false, 375, 15, 2),
        bid_price1: dec(false, 378, 39, 2),
        bid_volume1: 10,
        ask_price1: dec(false, 378, 41, 2),
        ask_volume1: 12,
        bid_price2: None,
        bid_volume2: None,
        ask_price2: None,
        ask_volume2: None,
        bid_price3: None,
        bid_volume3: None,
        ask_price3: None,
        ask_volume3: None,
        bid_price4: None,
        bid_volume4: None,
        ask_price4: None,
        ask_volume4: None,
        bid_price5: None,
        bid_volume5: None,
        ask_price5: None,
        ask_volume5: None,
        close: TriVal::Absent,
        settlement: TriVal::Sentinel,
        pre_settlement: TriVal::Sentinel,
        open_interest,
        pre_open_interest: TriVal::Sentinel,
        iopv: TriVal::Absent,
    }
}

fn ids(list: &[&str]) -> Vec<String> {
    list.iter().map(|s| s.to_string()).collect()
}

#[test]
fn update_sets_exact_subscriptions() {
    let mut d = MarketDataDistributor::new();
    d.register_adapter(MarketDataSource::Ctp);
    d.register("c1".to_string());
    let (reqs, replays) = d.update_subscription("c1", &ids(&["au2212", "rb2512"]));
    assert_eq!(reqs.len(), 2);
    assert_eq!(replays.len(), 0);
    let mut subs = d.query_subscription("c1");
    subs.sort();
    assert_eq!(subs, ids(&["au2212", "rb2512"]));
    let mut all = d.get_all_subscriptions();
    all.sort();
    assert_eq!(all, ids(&["au2212", "rb2512"]));
}

#[test]
fn update_for_unknown_client_is_a_no_op() {
    let mut d = MarketDataDistributor::new();
    d.register_adapter(MarketDataSource::Ctp);
    let (reqs, replays) = d.update_subscription("ghost", &ids(&["au2212"]));
    assert_eq!(reqs.len(), 0);
    assert_eq!(replays.len(), 0);
    assert_eq!(d.get_all_subscriptions().len(), 0);
}

#[test]
fn unregister_clears_client_everywhere() {
    let mut d = MarketDataDistributor::new();
    d.register_adapter(MarketDataSource::Ctp);
    d.register("c1".to_string());
    let snap = sample_snapshot("au2212", dec(false, 378, 40, 2), 1024, TriVal::Num(dec(false, 12500, 0, 0)));
    d.on_snapshot(snap, MarketDataSource::Ctp);
    d.update_subscription("c1", &ids(&["au2212"]));
    let reqs = d.unregister("c1");
    assert_eq!(d.query_subscription("c1").len(), 0);
    assert_eq!(d.get_all_subscriptions().len(), 0);
    // the last subscriber left: one unsubscribe, routed to the recorded source
    assert_eq!(reqs.len(), 1);
    match &reqs[0] {
        UpstreamRequest::Unsubscribe { source, instrument } => {
            assert_eq!(*source, MarketDataSource::Ctp);
            assert_eq!(instrument, "au2212");
        }
        _ => panic!("expected an unsubscribe request"),
    }
}

#[test]
fn duplicate_subscribe_is_idempotent() {
    let mut d = MarketDataDistributor::new();
    d.register_adapter(MarketDataSource::Ctp);
    d.register("c1".to_string());
    let (req1, _rep1) = d.add_subscription("c1", "au2212");
    assert!(req1.is_some());
    let (req2, rep2) = d.add_subscription("c1", "au2212");
    assert!(req2.is_none());
    assert!(rep2.is_none());
    assert_eq!(d.query_subscription("c1"), ids(&["au2212"]));
    assert_eq!(d.get_all_subscriptions(), ids(&["au2212"]));
}

#[test]
fn subscribe_then_unsubscribe_restores_state() {
    let mut d = MarketDataDistributor::new();
    d.register_adapter(MarketDataSource::Ctp);
    d.register("c1".to_string());
    d.update_subscription("c1", &ids(&["au2212"]));
    let before_subs = {
        let mut v = d.query_subscription("c1");
        v.sort();
        v
    };
    let before_all = {
        let mut v = d.get_all_subscriptions();
        v.sort();
        v
    };
    // add a fresh set, then drop it again
    d.update_subscription("c1", &ids(&["au2212", "rb2512", "cu2301"]));
    d.update_subscription("c1", &ids(&["au2212"]));
    let after_subs = {
        let mut v = d.query_subscription("c1");
        v.sort();
        v
    };
    let after_all = {
        let mut v = d.get_all_subscriptions();
        v.sort();
        v
    };
    assert_eq!(before_subs, after_subs);
    assert_eq!(before_all, after_all);
}

#[test]
fn resubscribe_issues_one_extra_subscribe_and_one_unsubscribe() {
    // no snapshot ever arrives: the unsubscribe must still go out, routed to
    // the preferred registered adapter kind
    let mut d = MarketDataDistributor::new();
    d.register_adapter(MarketDataSource::Ctp);
    d.register("c1".to_string());

    let (r1, _) = d.update_subscription("c1", &ids(&["au2212"]));
    let subs1 = r1.iter().filter(|r| matches!(r, UpstreamRequest::Subscribe { .. })).count();
    assert_eq!(subs1, 1);

    let (r2, _) = d.update_subscription("c1", &ids(&[]));
    let unsubs = r2
        .iter()
        .filter(|r| matches!(r, UpstreamRequest::Unsubscribe { .. }))
        .count();
    assert_eq!(unsubs, 1);

    let (r3, _) = d.update_subscription("c1", &ids(&["au2212"]));
    let subs2 = r3.iter().filter(|r| matches!(r, UpstreamRequest::Subscribe { .. })).count();
    assert_eq!(subs2, 1);

    assert_eq!(d.query_subscription("c1"), ids(&["au2212"]));
}

#[test]
fn unregister_unsubscribes_without_a_recorded_source() {
    let mut d = MarketDataDistributor::new();
    d.register_adapter(MarketDataSource::QQ);
    d.register("c".to_string());
    d.update_subscription("c", &ids(&["600000"]));
    // the last subscriber leaves before any snapshot recorded a source:
    // the unsubscribe goes to the preferred registered kind
    let reqs = d.unregister("c");
    assert_eq!(reqs.len(), 1);
    match &reqs[0] {
        UpstreamRequest::Unsubscribe { source, instrument } => {
            assert_eq!(*source, MarketDataSource::QQ);
            assert_eq!(instrument, "600000");
        }
        _ => panic!("expected an unsubscribe request"),
    }
}

#[test]
fn fanout_reaches_each_subscriber_exactly_once() {
    let mut d = MarketDataDistributor::new();
    d.register_adapter(MarketDataSource::Ctp);
    d.register("a".to_string());
    d.register("b".to_string());
    d.update_subscription("a", &ids(&["au2212"]));
    d.update_subscription("b", &ids(&["au2212"]));
    let snap = sample_snapshot("au2212", dec(false, 378, 40, 2), 1024, TriVal::Absent);
    let deliveries = d.on_snapshot(snap, MarketDataSource::Ctp);
    assert_eq!(deliveries.len(), 2);
    let mut clients: Vec<String> = deliveries.iter().map(|dv| dv.client_id.clone()).collect();
    clients.sort();
    assert_eq!(clients, ids(&["a", "b"]));
}

#[test]
fn late_subscriber_gets_cached_snapshot() {
    let mut d = MarketDataDistributor::new();
    d.register_adapter(MarketDataSource::Ctp);
    d.register("a".to_string());
    d.update_subscription("a", &ids(&["au2212"]));
    let snap = sample_snapshot("au2212", dec(false, 378, 40, 2), 1024, TriVal::Absent);
    let live = d.on_snapshot(snap, MarketDataSource::Ctp);
    assert_eq!(live.len(), 1);

    // B subscribes after the fact, with no new upstream update
    d.register("b".to_string());
    let (_, replays) = d.update_subscription("b", &ids(&["au2212"]));
    assert_eq!(replays.len(), 1);
    assert_eq!(replays[0].client_id, "b");
    assert_eq!(replays[0].snapshot.instrument_id, "au2212");
    assert_eq!(replays[0].snapshot.last_price, dec(false, 378, 40, 2));
}

#[test]
fn source_map_keeps_first_source_for_routing() {
    let mut d = MarketDataDistributor::new();
    d.register_adapter(MarketDataSource::Ctp);
    d.register_adapter(MarketDataSource::QQ);
    let snap = sample_snapshot("600000", dec(false, 12, 5, 1), 300, TriVal::Absent);
    d.on_snapshot(snap, MarketDataSource::QQ);
    // the instrument was first seen on the equity feed, so it routes there
    assert_eq!(d.find_source_for("600000"), Some(MarketDataSource::QQ));
    // an unseen instrument routes to the preferred kind: futures first
    assert_eq!(d.find_source_for("au2212"), Some(MarketDataSource::Ctp));
    // a later snapshot from another feed does not steal the route
    let snap2 = sample_snapshot("600000", dec(false, 12, 6, 1), 301, TriVal::Absent);
    d.on_snapshot(snap2, MarketDataSource::Ctp);
    assert_eq!(d.find_source_for("600000"), Some(MarketDataSource::QQ));
}

#[test]
fn empty_desired_set_unsubscribes_upstream() {
    // again without any snapshot: clearing the set must still unsubscribe
    let mut d = MarketDataDistributor::new();
    d.register_adapter(MarketDataSource::Ctp);
    d.register("c".to_string());
    d.update_subscription("c", &ids(&["au2212"]));
    assert_eq!(d.get_all_subscriptions(), ids(&["au2212"]));

    let (reqs, _) = d.update_subscription("c", &ids(&[]));
    assert_eq!(d.query_subscription("c").len(), 0);
    assert_eq!(d.get_all_subscriptions().len(), 0);
    assert_eq!(reqs.len(), 1);
    match &reqs[0] {
        UpstreamRequest::Unsubscribe { source, instrument } => {
            assert_eq!(*source, MarketDataSource::Ctp);
            assert_eq!(instrument, "au2212");
        }
        _ => panic!("expected an unsubscribe request"),
    }
}
