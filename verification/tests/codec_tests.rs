use mdgateway::codec::{jval_to_snapshot, snapshot_to_jval};
use mdgateway::json::{parse_text, to_text, Dec, JVal};
use mdgateway::snapshot::{Snapshot, TriVal};

fn dec(neg: bool, int_part: u64, frac: u64, frac_len: u8) -> Dec {
    Dec { neg, int_part, frac, frac_len }
}

fn full_snapshot() -> Snapshot {
    Snapshot {
        instrument_id: "au2212".to_string(),
        datetime: "2022-11-08 10:30:15".to_string(),
        last_price: dec(false, 378, 40, 2),
        amount: dec(false, 387481600, 0, 1),
        volume: 1024,
        open: dec(false, 370, 0, 1),
        highest: dec(false, 380, 5, 1),
        lowest: dec(false, 369, 0, 1),
        pre_close: dec(false, 371, 2, 1),
        upper_limit: dec(false, 400, 0, 1),
        lower_limit: dec(false, 340, 0, 1),
        average: dec(false, 375, 15, 2),
        bid_price1: dec(false, 378, 39, 2),
        bid_volume1: 10,
        ask_price1: dec(false, 378, 41, 2),
        ask_volume1: 12,
        bid_price2: Some(dec(false, 378, 35, 2)),
        bid_volume2: Some(7),
        ask_price2: Some(dec(false, 378, 45, 2)),
        ask_volume2: Some(9),
        bid_price3: None,
        bid_volume3: None,
        ask_price3: None,
        ask_volume3: None,
        bid_price4: None,
        bid_volume4: None,
        ask_price4: None,
        ask_volume4: None,
        bid_price5: None,
        bid_volume5: None,
        ask_price5: None,
        ask_volume5: None,
        close: TriVal::Num(dec(false, 378, 40, 2)),
        settlement: TriVal::Sentinel,
        pre_settlement: TriVal::Sentinel,
        open_interest: TriVal::Num(dec(false, 12500, 0, 0)),
        pre_open_interest: TriVal::Num(dec(true, 3, 25, 2)),
        iopv: TriVal::Absent,
    }
}

fn assert_snapshots_equal(a: &Snapshot, b: &Snapshot) {
    assert_eq!(a.instrument_id, b.instrument_id);
    assert_eq!(a.datetime, b.datetime);
    assert_eq!(a.last_price, b.last_price);
    assert_eq!(a.amount, b.amount);
    assert_eq!(a.volume, b.volume);
    assert_eq!(a.open, b.open);
    assert_eq!(a.highest, b.highest);
    assert_eq!(a.lowest, b.lowest);
    assert_eq!(a.pre_close, b.pre_close);
    assert_eq!(a.upper_limit, b.upper_limit);
    assert_eq!(a.lower_limit, b.lower_limit);
    assert_eq!(a.average, b.average);
    assert_eq!(a.bid_price1, b.bid_price1);
    assert_eq!(a.bid_volume1, b.bid_volume1);
    assert_eq!(a.ask_price1, b.ask_price1);
    assert_eq!(a.ask_volume1, b.ask_volume1);
    assert_eq!(a.bid_price2, b.bid_price2);
    assert_eq!(a.bid_volume2, b.bid_volume2);
    assert_eq!(a.ask_price2, b.ask_price2);
    assert_eq!(a.ask_volume2, b.ask_volume2);
    assert_eq!(a.bid_price3, b.bid_price3);
    assert_eq!(a.bid_volume3, b.bid_volume3);
    assert_eq!(a.ask_price3, b.ask_price3);
    assert_eq!(a.ask_volume3, b.ask_volume3);
    assert_eq!(a.bid_price4, b.bid_price4);
    assert_eq!(a.bid_volume4, b.bid_volume4);
    assert_eq!(a.ask_price4, b.ask_price4);
    assert_eq!(a.ask_volume4, b.ask_volume4);
    assert_eq!(a.bid_price5, b.bid_price5);
    assert_eq!(a.bid_volume5, b.bid_volume5);
    assert_eq!(a.ask_price5, b.ask_price5);
    assert_eq!(a.ask_volume5, b.ask_volume5);
    assert_eq!(a.close, b.close);
    assert_eq!(a.settlement, b.settlement);
    assert_eq!(a.pre_settlement, b.pre_settlement);
    assert_eq!(a.open_interest, b.open_interest);
    assert_eq!(a.pre_open_interest, b.pre_open_interest);
    assert_eq!(a.iopv, b.iopv);
}

#[test]
fn snapshot_text_round_trip_preserves_all_field_kinds() {
    let snap = full_snapshot();
    let text = to_text(&snapshot_to_jval(&snap));
    let parsed = parse_text(text.as_str()).expect("the encoded snapshot must parse");
    let back = jval_to_snapshot(&parsed).expect("the parsed document must decode");
    assert_snapshots_equal(&snap, &back);
}

#[test]
fn tri_valued_fields_keep_their_shape_on_the_wire() {
    let snap = full_snapshot();
    let text = to_text(&snapshot_to_jval(&snap));
    // numeric stays a number, sentinel stays the string "-", absent stays null
    assert!(text.contains("\"open_interest\":12500"));
    assert!(text.contains("\"settlement\":\"-\""));
    assert!(text.contains("\"iopv\":null"));
    assert!(text.contains("\"last_price\":378.40"));
    assert!(text.contains("\"pre_open_interest\":-3.25"));
}

#[test]
fn encoded_snapshot_is_real_json() {
    let snap = full_snapshot();
    let text = to_text(&snapshot_to_jval(&snap));
    let v: serde_json::Value = serde_json::from_str(text.as_str()).expect("valid JSON");
    assert_eq!(v["instrument_id"], serde_json::Value::String("au2212".to_string()));
    assert_eq!(v["last_price"].as_f64(), Some(378.40));
    assert_eq!(v["volume"].as_i64(), Some(1024));
    assert!(v["iopv"].is_null());
    assert_eq!(v["settlement"].as_str(), Some("-"));
}

#[test]
fn parser_round_trips_plain_documents() {
    let text = "{\"a\":1.50,\"b\":[true,null,\"-\"],\"c\":{\"d\":-7}}";
    let doc = parse_text(text).expect("parses");
    assert_eq!(to_text(&doc), text);
}

#[test]
fn parser_rejects_what_is_not_a_document() {
    assert!(parse_text("").is_none());
    assert!(parse_text("{").is_none());
    assert!(parse_text("{\"a\":}").is_none());
    assert!(parse_text("hello").is_none());
    assert!(parse_text("{\"a\":1}tail").is_none());
}

#[test]
fn decoder_rejects_a_reshaped_document() {
    let doc = parse_text("{\"instrument_id\":\"au2212\"}").expect("parses");
    assert!(jval_to_snapshot(&doc).is_none());
    let not_obj = JVal::Num(dec(false, 1, 0, 0));
    assert!(jval_to_snapshot(&not_obj).is_none());
}

#[test]
fn parser_skips_insignificant_whitespace() {
    let text = "  { \"a\" : 1.50 ,\t\"b\" : [ true , null , \"-\" ] }\r\n";
    let doc = parse_text(text).expect("parses");
    // the reprint is compact: whitespace between tokens carries no content
    assert_eq!(to_text(&doc), "{\"a\":1.50,\"b\":[true,null,\"-\"]}");
    assert!(parse_text("[ ]").is_some());
    assert!(parse_text("{ }").is_some());
    // whitespace alone is still no document
    assert!(parse_text("   ").is_none());
    // whitespace never splits a token
    assert!(parse_text("{\"a\": 1 . 5}").is_none());
}
