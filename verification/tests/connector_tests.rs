use mdgateway::connector::{needs_restart, sync_subscriptions};
use mdgateway::sources::InstrumentType;
use mdgateway::timeutil::{parse_datestamp, parse_fromstr_datestamp};

fn ids(list: &[&str]) -> Vec<String> {
    list.iter().map(|s| s.to_string()).collect()
}

#[test]
fn reconciliation_subscribes_missing_and_unsubscribes_extra() {
    let active = ids(&["au2212", "rb2512", "cu2301"]);
    let current = ids(&["rb2512", "zn2302"]);
    let (to_subscribe, to_unsubscribe) = sync_subscriptions(&active, &current);
    assert_eq!(to_subscribe, ids(&["au2212", "cu2301"]));
    assert_eq!(to_unsubscribe, ids(&["zn2302"]));
}

#[test]
fn reconciliation_of_equal_sets_does_nothing() {
    let active = ids(&["au2212"]);
    let (to_subscribe, to_unsubscribe) = sync_subscriptions(&active, &active);
    assert_eq!(to_subscribe.len(), 0);
    assert_eq!(to_unsubscribe.len(), 0);
}

#[test]
fn restart_prod_acts_only_when_down() {
    assert!(!needs_restart(true, true));
    assert!(needs_restart(false, true));
    assert!(needs_restart(true, false));
    assert!(needs_restart(false, false));
}

#[test]
fn datestamp_renders_in_the_exchange_zone() {
    assert_eq!(parse_datestamp(0), "1970-01-01 08:00:00");
}

#[test]
fn datestamp_text_round_trips_through_the_parser() {
    let ts = parse_fromstr_datestamp("2024-01-01 09:30:00".to_string());
    assert_eq!(parse_datestamp(ts), "2024-01-01 09:30:00");
    let day = parse_fromstr_datestamp("2024-01-01".to_string());
    assert_eq!(parse_datestamp(day), "2024-01-01 00:00:00");
    assert_eq!(parse_fromstr_datestamp("nonsense".to_string()), 0);
}

#[test]
fn instrument_kinds_are_distinct() {
    let kinds = [
        InstrumentType::Stock,
        InstrumentType::Future,
        InstrumentType::Index,
        InstrumentType::Fund,
        InstrumentType::Other,
    ];
    for (i, a) in kinds.iter().enumerate() {
        for (j, b) in kinds.iter().enumerate() {
            assert_eq!(i == j, a == b);
        }
    }
}
