use mdgateway::json::Dec;
use mdgateway::messages::{parse_client_message, LegacyClientMessage, WsClientMessage};
use mdgateway::session::{encode_server_message, LegacyServerMessage};
use mdgateway::session::{Outbox, SESSION_OUTBOX_CAPACITY};
use mdgateway::session::{
    heartbeat_tick, join_ids, HeartbeatAction, WsSession, CLIENT_TIMEOUT_SECS,
    HEARTBEAT_INTERVAL_SECS,
};
use mdgateway::snapshot::{Snapshot, TriVal};

fn dec(neg: bool, int_part: u64, frac: u64, frac_len: u8) -> Dec {
    Dec { neg, int_part, frac, frac_len }
}

fn au_snapshot() -> Snapshot {
    Snapshot {
        instrument_id: "au2212".to_string(),
        datetime: "2022-11-08 10:30:15".to_string(),
        last_price: dec(false, 378, 40, 2),
        amount: dec(false, 1000000, 0, 1),
        volume: 1024,
        open: dec(false, 370, 0, 1),
        highest: dec(false, 380, 5, 1),
        lowest: dec(false, 369, 0, 1),
        pre_close: dec(false, 371, 2, 1),
        upper_limit: dec(false, 400, 0, 1),
        lower_limit: dec(false, 340, 0, 1),
        average: dec(false, 375, 15, 2),
        bid_price1: dec(false, 378, 39, 2),
        bid_volume1: 10,
        ask_price1: dec(false, 378, 41, 2),
        ask_volume1: 12,
        bid_price2: None,
        bid_volume2: None,
        ask_price2: None,
        ask_volume2: None,
        bid_price3: None,
        bid_volume3: None,
        ask_price3: None,
        ask_volume3: None,
        bid_price4: None,
        bid_volume4: None,
        ask_price4: None,
        ask_volume4: None,
        bid_price5: None,
        bid_volume5: None,
        ask_price5: None,
        ask_volume5: None,
        close: TriVal::Absent,
        settlement: TriVal::Sentinel,
        pre_settlement: TriVal::Sentinel,
        open_interest: TriVal::Num(dec(false, 12500, 0, 0)),
        pre_open_interest: TriVal::Sentinel,
        iopv: TriVal::Absent,
    }
}

#[test]
fn platform_subscribe_replaces_the_set() {
    let mut s = WsSession::new("c1".to_string());
    let step = s.on_text("{\"aid\":\"subscribe_quote\",\"ins_list\":\"au2212,rb2512\"}");
    assert_eq!(step.update, Some(vec!["au2212".to_string(), "rb2512".to_string()]));
    assert_eq!(step.frames.len(), 1);
    assert_eq!(
        step.frames[0],
        "{\"aid\":\"rsp_subscribe_quote\",\"ins_list\":\"au2212,rb2512\"}"
    );
    assert!(s.wants("au2212"));
    assert!(s.wants("rb2512"));
}

#[test]
fn empty_ins_list_clears_all_subscriptions() {
    let mut s = WsSession::new("c1".to_string());
    s.on_text("{\"aid\":\"subscribe_quote\",\"ins_list\":\"au2212\"}");
    assert!(s.wants("au2212"));
    let step = s.on_text("{\"aid\":\"subscribe_quote\",\"ins_list\":\"\"}");
    // clear-all: not a no-op and not an error — the distributor sees an empty set
    assert_eq!(step.update, Some(Vec::<String>::new()));
    assert_eq!(step.frames.len(), 1);
    assert_eq!(step.frames[0], "{\"aid\":\"rsp_subscribe_quote\",\"ins_list\":\"\"}");
    assert!(!s.wants("au2212"));
}

#[test]
fn unknown_aid_yields_error_envelope_and_keeps_the_session() {
    let mut s = WsSession::new("c1".to_string());
    s.on_text("{\"aid\":\"subscribe_quote\",\"ins_list\":\"au2212\"}");
    let step = s.on_text("{\"aid\":\"bogus_request\"}");
    assert!(step.update.is_none());
    assert_eq!(step.frames.len(), 1);
    let v: serde_json::Value = serde_json::from_str(step.frames[0].as_str()).expect("valid JSON");
    assert_eq!(v["type"].as_str(), Some("error"));
    assert_eq!(v["payload"]["message"].as_str(), Some("Unknown aid type: bogus_request"));
    // the connection stays: the session still answers and keeps its state
    assert!(s.wants("au2212"));
    let peek = s.on_text("{\"aid\":\"peek_message\"}");
    assert_eq!(peek.frames[0], "{\"aid\":\"rsp_peek_message\",\"ins_list\":\"au2212\"}");
}

#[test]
fn invalid_json_yields_error_envelope() {
    let mut s = WsSession::new("c1".to_string());
    let step = s.on_text("this is not json");
    assert_eq!(step.frames.len(), 1);
    let v: serde_json::Value = serde_json::from_str(step.frames[0].as_str()).expect("valid JSON");
    assert_eq!(v["type"].as_str(), Some("error"));
    assert_eq!(v["payload"]["message"].as_str(), Some("Invalid JSON"));
}

#[test]
fn legacy_subscribe_adds_and_unsubscribe_removes() {
    let mut s = WsSession::new("c1".to_string());
    let step = s.on_text("{\"type\":\"subscribe\",\"payload\":{\"instruments\":[\"au2212\",\"rb2512\"]}}");
    let mut got = step.update.expect("set changed");
    got.sort();
    assert_eq!(got, vec!["au2212".to_string(), "rb2512".to_string()]);
    let v: serde_json::Value = serde_json::from_str(step.frames[0].as_str()).expect("valid JSON");
    assert_eq!(v["payload"]["message"].as_str(), Some("Subscribed to 2 instruments"));

    let step2 = s.on_text("{\"type\":\"unsubscribe\",\"payload\":{\"instruments\":[\"rb2512\"]}}");
    assert_eq!(step2.update, Some(vec!["au2212".to_string()]));
    let v2: serde_json::Value = serde_json::from_str(step2.frames[0].as_str()).expect("valid JSON");
    assert_eq!(v2["payload"]["message"].as_str(), Some("Unsubscribed from 1 instruments"));
}

#[test]
fn legacy_subscribe_of_nothing_is_an_error() {
    let mut s = WsSession::new("c1".to_string());
    let step = s.on_text("{\"type\":\"subscribe\",\"payload\":{\"instruments\":[]}}");
    assert!(step.update.is_none());
    let v: serde_json::Value = serde_json::from_str(step.frames[0].as_str()).expect("valid JSON");
    assert_eq!(v["payload"]["message"].as_str(), Some("No instruments specified"));
}

#[test]
fn ping_pongs_and_auth_is_a_no_op() {
    let mut s = WsSession::new("c1".to_string());
    let pong = s.on_text("{\"type\":\"ping\"}");
    assert_eq!(pong.frames[0], "{\"type\":\"pong\"}");
    let auth = s.on_text("{\"type\":\"auth\",\"payload\":{\"token\":\"SECRET-REDACTED\"}}");
    let v: serde_json::Value = serde_json::from_str(auth.frames[0].as_str()).expect("valid JSON");
    assert_eq!(v["payload"]["message"].as_str(), Some("Authentication not required"));
}

#[test]
fn subscriptions_query_lists_the_set() {
    let mut s = WsSession::new("c1".to_string());
    s.on_text("{\"type\":\"subscribe\",\"payload\":{\"instruments\":[\"au2212\"]}}");
    let step = s.on_text("{\"type\":\"subscriptions\"}");
    let v: serde_json::Value = serde_json::from_str(step.frames[0].as_str()).expect("valid JSON");
    assert_eq!(v["type"].as_str(), Some("subscriptions"));
    assert_eq!(
        v["payload"]["instruments"],
        serde_json::Value::Array(vec![serde_json::Value::String("au2212".to_string())])
    );
}

#[test]
fn both_dialect_frames_carry_the_price() {
    let mut s = WsSession::new("c1".to_string());
    s.on_text("{\"aid\":\"subscribe_quote\",\"ins_list\":\"au2212\"}");
    let frames = s.market_data_frames(&au_snapshot());
    assert_eq!(frames.len(), 2);
    // legacy first
    let legacy: serde_json::Value = serde_json::from_str(frames[0].as_str()).expect("valid JSON");
    assert_eq!(legacy["type"].as_str(), Some("market_data"));
    assert_eq!(legacy["payload"]["data"]["last_price"].as_f64(), Some(378.40));
    assert_eq!(legacy["payload"]["data"]["volume"].as_i64(), Some(1024));
    assert_eq!(legacy["payload"]["data"]["open_interest"].as_i64(), Some(12500));
    // platform second
    let tv: serde_json::Value = serde_json::from_str(frames[1].as_str()).expect("valid JSON");
    assert_eq!(tv["aid"].as_str(), Some("rtn_data"));
    let quote = &tv["data"][0]["quotes"]["au2212"];
    assert_eq!(quote["last_price"].as_f64(), Some(378.40));
    assert_eq!(quote["volume"].as_i64(), Some(1024));
    assert_eq!(quote["open_interest"].as_i64(), Some(12500));
}

#[test]
fn greeting_names_the_session() {
    let s = WsSession::new("abc-123".to_string());
    let v: serde_json::Value =
        serde_json::from_str(s.greeting_frame().as_str()).expect("valid JSON");
    assert_eq!(v["type"].as_str(), Some("system"));
    assert_eq!(
        v["payload"]["message"].as_str(),
        Some("Connected to QAMD Gateway WebSocket. Session ID: abc-123")
    );
}

#[test]
fn heartbeat_closes_only_after_the_timeout() {
    assert_eq!(HEARTBEAT_INTERVAL_SECS, 10);
    assert_eq!(CLIENT_TIMEOUT_SECS, 30);
    assert_eq!(heartbeat_tick(0), HeartbeatAction::SendPing);
    assert_eq!(heartbeat_tick(30), HeartbeatAction::SendPing);
    assert_eq!(heartbeat_tick(31), HeartbeatAction::Close);
}

#[test]
fn join_ids_is_comma_separated() {
    assert_eq!(join_ids(&Vec::new()), "");
    assert_eq!(join_ids(&vec!["a".to_string()]), "a");
    assert_eq!(join_ids(&vec!["a".to_string(), "b".to_string()]), "a,b");
}

#[test]
fn fresh_client_ids_have_uuid_shape() {
    let a = mdgateway::session::fresh_client_id();
    let b = mdgateway::session::fresh_client_id();
    assert_eq!(a.len(), 36);
    assert_eq!(b.len(), 36);
    assert_ne!(a, b);
}

#[test]
fn server_messages_render_in_the_legacy_envelope() {
    let pong = encode_server_message(&LegacyServerMessage::Pong);
    assert_eq!(pong, "{\"type\":\"pong\"}");
    let err = encode_server_message(&LegacyServerMessage::Error {
        message: "nope".to_string(),
    });
    assert_eq!(err, "{\"type\":\"error\",\"payload\":{\"message\":\"nope\"}}");
    let md = encode_server_message(&LegacyServerMessage::MarketData { data: au_snapshot() });
    let v: serde_json::Value = serde_json::from_str(md.as_str()).expect("valid JSON");
    assert_eq!(v["type"].as_str(), Some("market_data"));
    assert_eq!(v["payload"]["data"]["last_price"].as_f64(), Some(378.40));
}

#[test]
fn client_messages_parse_in_both_dialects() {
    match parse_client_message("{\"aid\":\"subscribe_quote\",\"ins_list\":\"a,b\"}") {
        Some(WsClientMessage::TvSubscribeQuote { aid, ins_list }) => {
            assert_eq!(aid, "subscribe_quote");
            assert_eq!(ins_list, "a,b");
        }
        _ => panic!("expected a platform-style subscribe"),
    }
    match parse_client_message("{\"type\":\"ping\"}") {
        Some(WsClientMessage::LegacyMessage(LegacyClientMessage::Ping)) => {}
        _ => panic!("expected a legacy ping"),
    }
    assert!(parse_client_message("{\"type\":\"mystery\"}").is_none());
    assert!(parse_client_message("not json at all").is_none());
}

#[test]
fn full_outbox_drops_the_oldest_frame() {
    assert_eq!(SESSION_OUTBOX_CAPACITY, 1024);
    let mut q = Outbox::new(2);
    q.push("one".to_string());
    q.push("two".to_string());
    assert_eq!(q.len(), 2);
    // full: the oldest pending frame is dropped, the new one kept
    q.push("three".to_string());
    assert_eq!(q.len(), 2);
    assert_eq!(q.pop(), Some("two".to_string()));
    assert_eq!(q.pop(), Some("three".to_string()));
    assert_eq!(q.pop(), None);
}

#[test]
fn whitespace_between_tokens_is_accepted() {
    let mut s = WsSession::new("c1".to_string());
    let step = s.on_text("{ \"aid\": \"subscribe_quote\", \"ins_list\": \"au2212\" }\n");
    assert_eq!(step.update, Some(vec!["au2212".to_string()]));
    assert_eq!(step.frames[0], "{\"aid\":\"rsp_subscribe_quote\",\"ins_list\":\"au2212\"}");
    assert!(s.wants("au2212"));

    // a pretty-printed legacy envelope, as serializers commonly emit
    let pretty = "{\n  \"type\": \"subscribe\",\n  \"payload\": {\n    \"instruments\": [\n      \"rb2512\"\n    ]\n  }\n}\n";
    let step2 = s.on_text(pretty);
    let mut got = step2.update.expect("set changed");
    got.sort();
    assert_eq!(got, vec!["au2212".to_string(), "rb2512".to_string()]);

    let pong = s.on_text("  {\"type\" : \"ping\"}  ");
    assert_eq!(pong.frames[0], "{\"type\":\"pong\"}");
}
