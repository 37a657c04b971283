//! Encoding and decoding of snapshots as JSON documents.
//!
//! The encoder lays a snapshot out as one flat object in a fixed field
//! order; the decoder accepts exactly that layout. Tri-valued fields keep
//! their three shapes on the wire: a number, the sentinel string `"-"`, or
//! `null`.

use vstd::prelude::*;
use crate::json::{json_safe, jspec_canon, Dec, JSpec, JVal, deep_fields};
use crate::snapshot::{snap_wf, Snapshot, SnapshotView, TriVal};

verus! {

/// The decimal for a signed integer.
pub open spec fn dec_of_i64(v: int) -> Dec {
    Dec {
        neg: v < 0,
        int_part: (if v < 0 { -v } else { v }) as u64,
        frac: 0,
        frac_len: 0,
    }
}

pub open spec fn i64_jspec(v: i64) -> JSpec {
    JSpec::Num(dec_of_i64(v as int))
}

pub open spec fn opt_dec_jspec(o: Option<Dec>) -> JSpec {
    match o {
        Some(d) => JSpec::Num(d),
        None => JSpec::Null,
    }
}

pub open spec fn opt_i64_jspec(o: Option<i64>) -> JSpec {
    match o {
        Some(v) => i64_jspec(v),
        None => JSpec::Null,
    }
}

pub open spec fn tri_jspec(t: TriVal) -> JSpec {
    match t {
        TriVal::Num(d) => JSpec::Num(d),
        TriVal::Sentinel => JSpec::Str("-"@),
        TriVal::Absent => JSpec::Null,
    }
}

pub open spec fn jspec_as_str(j: JSpec) -> Option<Seq<char>> {
    match j {
        JSpec::Str(t) => Some(t),
        _ => None,
    }
}

pub open spec fn jspec_as_dec(j: JSpec) -> Option<Dec> {
    match j {
        JSpec::Num(d) => Some(d),
        _ => None,
    }
}

pub open spec fn jspec_as_i64(j: JSpec) -> Option<i64> {
    match j {
        JSpec::Num(d) => if d.frac_len == 0 && ((d.neg && d.int_part <= 0x8000000000000000u64)
            || (!d.neg && d.int_part <= 0x7fffffffffffffffu64)) {
            if d.neg {
                Some((-(d.int_part as int)) as i64)
            } else {
                Some(d.int_part as i64)
            }
        } else {
            None
        },
        _ => None,
    }
}

pub open spec fn jspec_as_opt_dec(j: JSpec) -> Option<Option<Dec>> {
    match j {
        JSpec::Null => Some(None),
        JSpec::Num(d) => Some(Some(d)),
        _ => None,
    }
}

pub open spec fn jspec_as_opt_i64(j: JSpec) -> Option<Option<i64>> {
    match j {
        JSpec::Null => Some(None),
        JSpec::Num(d) => match jspec_as_i64(j) {
            Some(v) => Some(Some(v)),
            None => None,
        },
        _ => None,
    }
}

pub open spec fn jspec_as_tri(j: JSpec) -> Option<TriVal> {
    match j {
        JSpec::Null => Some(TriVal::Absent),
        JSpec::Num(d) => Some(TriVal::Num(d)),
        JSpec::Str(t) => if t == "-"@ {
            Some(TriVal::Sentinel)
        } else {
            None
        },
        _ => None,
    }
}

/// The canonical field layout of a snapshot object.
pub open spec fn snap_fields(s: SnapshotView) -> Seq<(Seq<char>, JSpec)> {
    seq![
        ("instrument_id"@, JSpec::Str(s.instrument_id)),
        ("datetime"@, JSpec::Str(s.datetime)),
        ("last_price"@, JSpec::Num(s.last_price)),
        ("amount"@, JSpec::Num(s.amount)),
        ("volume"@, i64_jspec(s.volume)),
        ("open"@, JSpec::Num(s.open)),
        ("highest"@, JSpec::Num(s.highest)),
        ("lowest"@, JSpec::Num(s.lowest)),
        ("pre_close"@, JSpec::Num(s.pre_close)),
        ("upper_limit"@, JSpec::Num(s.upper_limit)),
        ("lower_limit"@, JSpec::Num(s.lower_limit)),
        ("average"@, JSpec::Num(s.average)),
        ("bid_price1"@, JSpec::Num(s.bid_price1)),
        ("bid_volume1"@, i64_jspec(s.bid_volume1)),
        ("ask_price1"@, JSpec::Num(s.ask_price1)),
        ("ask_volume1"@, i64_jspec(s.ask_volume1)),
        ("bid_price2"@, opt_dec_jspec(s.bid_price2)),
        ("bid_volume2"@, opt_i64_jspec(s.bid_volume2)),
        ("ask_price2"@, opt_dec_jspec(s.ask_price2)),
        ("ask_volume2"@, opt_i64_jspec(s.ask_volume2)),
        ("bid_price3"@, opt_dec_jspec(s.bid_price3)),
        ("bid_volume3"@, opt_i64_jspec(s.bid_volume3)),
        ("ask_price3"@, opt_dec_jspec(s.ask_price3)),
        ("ask_volume3"@, opt_i64_jspec(s.ask_volume3)),
        ("bid_price4"@, opt_dec_jspec(s.bid_price4)),
        ("bid_volume4"@, opt_i64_jspec(s.bid_volume4)),
        ("ask_price4"@, opt_dec_jspec(s.ask_price4)),
        ("ask_volume4"@, opt_i64_jspec(s.ask_volume4)),
        ("bid_price5"@, opt_dec_jspec(s.bid_price5)),
        ("bid_volume5"@, opt_i64_jspec(s.bid_volume5)),
        ("ask_price5"@, opt_dec_jspec(s.ask_price5)),
        ("ask_volume5"@, opt_i64_jspec(s.ask_volume5)),
        ("close"@, tri_jspec(s.close)),
        ("settlement"@, tri_jspec(s.settlement)),
        ("pre_settlement"@, tri_jspec(s.pre_settlement)),
        ("open_interest"@, tri_jspec(s.open_interest)),
        ("pre_open_interest"@, tri_jspec(s.pre_open_interest)),
        ("iopv"@, tri_jspec(s.iopv)),
    ]
}

/// A snapshot as a JSON document.
pub open spec fn snap_jspec(s: SnapshotView) -> JSpec {
    JSpec::Obj(snap_fields(s))
}

/// A snapshot read back from a JSON document in the canonical layout.
pub open spec fn jspec_to_snap(j: JSpec) -> Option<SnapshotView> {
    match j {
        JSpec::Obj(fs) => {
            if {
                &&& fs.len() == 38
                &&& fs[0].0 == "instrument_id"@
                &&& jspec_as_str(fs[0].1) is Some
                &&& fs[1].0 == "datetime"@
                &&& jspec_as_str(fs[1].1) is Some
                &&& fs[2].0 == "last_price"@
                &&& jspec_as_dec(fs[2].1) is Some
                &&& fs[3].0 == "amount"@
                &&& jspec_as_dec(fs[3].1) is Some
                &&& fs[4].0 == "volume"@
                &&& jspec_as_i64(fs[4].1) is Some
                &&& fs[5].0 == "open"@
                &&& jspec_as_dec(fs[5].1) is Some
                &&& fs[6].0 == "highest"@
                &&& jspec_as_dec(fs[6].1) is Some
                &&& fs[7].0 == "lowest"@
                &&& jspec_as_dec(fs[7].1) is Some
                &&& fs[8].0 == "pre_close"@
                &&& jspec_as_dec(fs[8].1) is Some
                &&& fs[9].0 == "upper_limit"@
                &&& jspec_as_dec(fs[9].1) is Some
                &&& fs[10].0 == "lower_limit"@
                &&& jspec_as_dec(fs[10].1) is Some
                &&& fs[11].0 == "average"@
                &&& jspec_as_dec(fs[11].1) is Some
                &&& fs[12].0 == "bid_price1"@
                &&& jspec_as_dec(fs[12].1) is Some
                &&& fs[13].0 == "bid_volume1"@
                &&& jspec_as_i64(fs[13].1) is Some
                &&& fs[14].0 == "ask_price1"@
                &&& jspec_as_dec(fs[14].1) is Some
                &&& fs[15].0 == "ask_volume1"@
                &&& jspec_as_i64(fs[15].1) is Some
                &&& fs[16].0 == "bid_price2"@
                &&& jspec_as_opt_dec(fs[16].1) is Some
                &&& fs[17].0 == "bid_volume2"@
                &&& jspec_as_opt_i64(fs[17].1) is Some
                &&& fs[18].0 == "ask_price2"@
                &&& jspec_as_opt_dec(fs[18].1) is Some
                &&& fs[19].0 == "ask_volume2"@
                &&& jspec_as_opt_i64(fs[19].1) is Some
                &&& fs[20].0 == "bid_price3"@
                &&& jspec_as_opt_dec(fs[20].1) is Some
                &&& fs[21].0 == "bid_volume3"@
                &&& jspec_as_opt_i64(fs[21].1) is Some
                &&& fs[22].0 == "ask_price3"@
                &&& jspec_as_opt_dec(fs[22].1) is Some
                &&& fs[23].0 == "ask_volume3"@
                &&& jspec_as_opt_i64(fs[23].1) is Some
                &&& fs[24].0 == "bid_price4"@
                &&& jspec_as_opt_dec(fs[24].1) is Some
                &&& fs[25].0 == "bid_volume4"@
                &&& jspec_as_opt_i64(fs[25].1) is Some
                &&& fs[26].0 == "ask_price4"@
                &&& jspec_as_opt_dec(fs[26].1) is Some
                &&& fs[27].0 == "ask_volume4"@
                &&& jspec_as_opt_i64(fs[27].1) is Some
                &&& fs[28].0 == "bid_price5"@
                &&& jspec_as_opt_dec(fs[28].1) is Some
                &&& fs[29].0 == "bid_volume5"@
                &&& jspec_as_opt_i64(fs[29].1) is Some
                &&& fs[30].0 == "ask_price5"@
                &&& jspec_as_opt_dec(fs[30].1) is Some
                &&& fs[31].0 == "ask_volume5"@
                &&& jspec_as_opt_i64(fs[31].1) is Some
                &&& fs[32].0 == "close"@
                &&& jspec_as_tri(fs[32].1) is Some
                &&& fs[33].0 == "settlement"@
                &&& jspec_as_tri(fs[33].1) is Some
                &&& fs[34].0 == "pre_settlement"@
                &&& jspec_as_tri(fs[34].1) is Some
                &&& fs[35].0 == "open_interest"@
                &&& jspec_as_tri(fs[35].1) is Some
                &&& fs[36].0 == "pre_open_interest"@
                &&& jspec_as_tri(fs[36].1) is Some
                &&& fs[37].0 == "iopv"@
                &&& jspec_as_tri(fs[37].1) is Some
            } {
                Some(
                    SnapshotView {
                        instrument_id: jspec_as_str(fs[0].1)->Some_0,
                        datetime: jspec_as_str(fs[1].1)->Some_0,
                        last_price: jspec_as_dec(fs[2].1)->Some_0,
                        amount: jspec_as_dec(fs[3].1)->Some_0,
                        volume: jspec_as_i64(fs[4].1)->Some_0,
                        open: jspec_as_dec(fs[5].1)->Some_0,
                        highest: jspec_as_dec(fs[6].1)->Some_0,
                        lowest: jspec_as_dec(fs[7].1)->Some_0,
                        pre_close: jspec_as_dec(fs[8].1)->Some_0,
                        upper_limit: jspec_as_dec(fs[9].1)->Some_0,
                        lower_limit: jspec_as_dec(fs[10].1)->Some_0,
                        average: jspec_as_dec(fs[11].1)->Some_0,
                        bid_price1: jspec_as_dec(fs[12].1)->Some_0,
                        bid_volume1: jspec_as_i64(fs[13].1)->Some_0,
                        ask_price1: jspec_as_dec(fs[14].1)->Some_0,
                        ask_volume1: jspec_as_i64(fs[15].1)->Some_0,
                        bid_price2: jspec_as_opt_dec(fs[16].1)->Some_0,
                        bid_volume2: jspec_as_opt_i64(fs[17].1)->Some_0,
                        ask_price2: jspec_as_opt_dec(fs[18].1)->Some_0,
                        ask_volume2: jspec_as_opt_i64(fs[19].1)->Some_0,
                        bid_price3: jspec_as_opt_dec(fs[20].1)->Some_0,
                        bid_volume3: jspec_as_opt_i64(fs[21].1)->Some_0,
                        ask_price3: jspec_as_opt_dec(fs[22].1)->Some_0,
                        ask_volume3: jspec_as_opt_i64(fs[23].1)->Some_0,
                        bid_price4: jspec_as_opt_dec(fs[24].1)->Some_0,
                        bid_volume4: jspec_as_opt_i64(fs[25].1)->Some_0,
                        ask_price4: jspec_as_opt_dec(fs[26].1)->Some_0,
                        ask_volume4: jspec_as_opt_i64(fs[27].1)->Some_0,
                        bid_price5: jspec_as_opt_dec(fs[28].1)->Some_0,
                        bid_volume5: jspec_as_opt_i64(fs[29].1)->Some_0,
                        ask_price5: jspec_as_opt_dec(fs[30].1)->Some_0,
                        ask_volume5: jspec_as_opt_i64(fs[31].1)->Some_0,
                        close: jspec_as_tri(fs[32].1)->Some_0,
                        settlement: jspec_as_tri(fs[33].1)->Some_0,
                        pre_settlement: jspec_as_tri(fs[34].1)->Some_0,
                        open_interest: jspec_as_tri(fs[35].1)->Some_0,
                        pre_open_interest: jspec_as_tri(fs[36].1)->Some_0,
                        iopv: jspec_as_tri(fs[37].1)->Some_0,
                    },
                )
            } else {
                None
            }
        },
        _ => None,
    }
}

/// Decoding an encoded snapshot yields the snapshot back, for every field
/// kind — numeric, sentinel and absent values all round-trip as themselves.
#[verifier::rlimit(100)]
pub proof fn lemma_snapshot_round_trip(s: SnapshotView)
    ensures
        jspec_to_snap(snap_jspec(s)) == Some(s),
{
    let fs = snap_fields(s);
    assert(fs[0].0 == "instrument_id"@);
    assert(jspec_as_str(fs[0].1) == Some(s.instrument_id));
    assert(fs[1].0 == "datetime"@);
    assert(jspec_as_str(fs[1].1) == Some(s.datetime));
    assert(fs[2].0 == "last_price"@);
    assert(jspec_as_dec(fs[2].1) == Some(s.last_price));
    assert(fs[3].0 == "amount"@);
    assert(jspec_as_dec(fs[3].1) == Some(s.amount));
    assert(fs[4].0 == "volume"@);
    lemma_i64_round_trip(s.volume);
    assert(jspec_as_i64(fs[4].1) == Some(s.volume));
    assert(fs[5].0 == "open"@);
    assert(jspec_as_dec(fs[5].1) == Some(s.open));
    assert(fs[6].0 == "highest"@);
    assert(jspec_as_dec(fs[6].1) == Some(s.highest));
    assert(fs[7].0 == "lowest"@);
    assert(jspec_as_dec(fs[7].1) == Some(s.lowest));
    assert(fs[8].0 == "pre_close"@);
    assert(jspec_as_dec(fs[8].1) == Some(s.pre_close));
    assert(fs[9].0 == "upper_limit"@);
    assert(jspec_as_dec(fs[9].1) == Some(s.upper_limit));
    assert(fs[10].0 == "lower_limit"@);
    assert(jspec_as_dec(fs[10].1) == Some(s.lower_limit));
    assert(fs[11].0 == "average"@);
    assert(jspec_as_dec(fs[11].1) == Some(s.average));
    assert(fs[12].0 == "bid_price1"@);
    assert(jspec_as_dec(fs[12].1) == Some(s.bid_price1));
    assert(fs[13].0 == "bid_volume1"@);
    lemma_i64_round_trip(s.bid_volume1);
    assert(jspec_as_i64(fs[13].1) == Some(s.bid_volume1));
    assert(fs[14].0 == "ask_price1"@);
    assert(jspec_as_dec(fs[14].1) == Some(s.ask_price1));
    assert(fs[15].0 == "ask_volume1"@);
    lemma_i64_round_trip(s.ask_volume1);
    assert(jspec_as_i64(fs[15].1) == Some(s.ask_volume1));
    assert(fs[16].0 == "bid_price2"@);
    assert(jspec_as_opt_dec(fs[16].1) == Some(s.bid_price2));
    assert(fs[17].0 == "bid_volume2"@);
    match s.bid_volume2 { Some(v) => lemma_i64_round_trip(v), None => () }
    assert(jspec_as_opt_i64(fs[17].1) == Some(s.bid_volume2));
    assert(fs[18].0 == "ask_price2"@);
    assert(jspec_as_opt_dec(fs[18].1) == Some(s.ask_price2));
    assert(fs[19].0 == "ask_volume2"@);
    match s.ask_volume2 { Some(v) => lemma_i64_round_trip(v), None => () }
    assert(jspec_as_opt_i64(fs[19].1) == Some(s.ask_volume2));
    assert(fs[20].0 == "bid_price3"@);
    assert(jspec_as_opt_dec(fs[20].1) == Some(s.bid_price3));
    assert(fs[21].0 == "bid_volume3"@);
    match s.bid_volume3 { Some(v) => lemma_i64_round_trip(v), None => () }
    assert(jspec_as_opt_i64(fs[21].1) == Some(s.bid_volume3));
    assert(fs[22].0 == "ask_price3"@);
    assert(jspec_as_opt_dec(fs[22].1) == Some(s.ask_price3));
    assert(fs[23].0 == "ask_volume3"@);
    match s.ask_volume3 { Some(v) => lemma_i64_round_trip(v), None => () }
    assert(jspec_as_opt_i64(fs[23].1) == Some(s.ask_volume3));
    assert(fs[24].0 == "bid_price4"@);
    assert(jspec_as_opt_dec(fs[24].1) == Some(s.bid_price4));
    assert(fs[25].0 == "bid_volume4"@);
    match s.bid_volume4 { Some(v) => lemma_i64_round_trip(v), None => () }
    assert(jspec_as_opt_i64(fs[25].1) == Some(s.bid_volume4));
    assert(fs[26].0 == "ask_price4"@);
    assert(jspec_as_opt_dec(fs[26].1) == Some(s.ask_price4));
    assert(fs[27].0 == "ask_volume4"@);
    match s.ask_volume4 { Some(v) => lemma_i64_round_trip(v), None => () }
    assert(jspec_as_opt_i64(fs[27].1) == Some(s.ask_volume4));
    assert(fs[28].0 == "bid_price5"@);
    assert(jspec_as_opt_dec(fs[28].1) == Some(s.bid_price5));
    assert(fs[29].0 == "bid_volume5"@);
    match s.bid_volume5 { Some(v) => lemma_i64_round_trip(v), None => () }
    assert(jspec_as_opt_i64(fs[29].1) == Some(s.bid_volume5));
    assert(fs[30].0 == "ask_price5"@);
    assert(jspec_as_opt_dec(fs[30].1) == Some(s.ask_price5));
    assert(fs[31].0 == "ask_volume5"@);
    match s.ask_volume5 { Some(v) => lemma_i64_round_trip(v), None => () }
    assert(jspec_as_opt_i64(fs[31].1) == Some(s.ask_volume5));
    assert(fs[32].0 == "close"@);
    assert(jspec_as_tri(fs[32].1) == Some(s.close));
    assert(fs[33].0 == "settlement"@);
    assert(jspec_as_tri(fs[33].1) == Some(s.settlement));
    assert(fs[34].0 == "pre_settlement"@);
    assert(jspec_as_tri(fs[34].1) == Some(s.pre_settlement));
    assert(fs[35].0 == "open_interest"@);
    assert(jspec_as_tri(fs[35].1) == Some(s.open_interest));
    assert(fs[36].0 == "pre_open_interest"@);
    assert(jspec_as_tri(fs[36].1) == Some(s.pre_open_interest));
    assert(fs[37].0 == "iopv"@);
    assert(jspec_as_tri(fs[37].1) == Some(s.iopv));
    assert(jspec_to_snap(snap_jspec(s))->Some_0 == s);
}

proof fn lemma_i64_round_trip(v: i64)
    ensures
        jspec_as_i64(i64_jspec(v)) == Some(v),
{
}

fn jv_str(s: &String) -> (r: JVal)
    ensures
        r.deep() == JSpec::Str(s@),
{
    JVal::Str(s.clone())
}

fn jv_dec(d: Dec) -> (r: JVal)
    ensures
        r.deep() == JSpec::Num(d),
{
    JVal::Num(d)
}

fn jv_i64(v: i64) -> (r: JVal)
    ensures
        r.deep() == i64_jspec(v),
{
    if v >= 0 {
        JVal::Num(Dec { neg: false, int_part: v as u64, frac: 0, frac_len: 0 })
    } else {
        let m: i128 = -(v as i128);
        JVal::Num(Dec { neg: true, int_part: m as u64, frac: 0, frac_len: 0 })
    }
}

fn jv_opt_dec(o: &Option<Dec>) -> (r: JVal)
    ensures
        r.deep() == opt_dec_jspec(*o),
{
    match o {
        Some(d) => JVal::Num(*d),
        None => JVal::Null,
    }
}

fn jv_opt_i64(o: &Option<i64>) -> (r: JVal)
    ensures
        r.deep() == opt_i64_jspec(*o),
{
    match o {
        Some(v) => jv_i64(*v),
        None => JVal::Null,
    }
}

fn jv_tri(t: &TriVal) -> (r: JVal)
    ensures
        r.deep() == tri_jspec(*t),
{
    match t {
        TriVal::Num(d) => JVal::Num(*d),
        TriVal::Sentinel => JVal::Str(String::from_str("-")),
        TriVal::Absent => JVal::Null,
    }
}

fn jv_as_str(j: &JVal) -> (r: Option<String>)
    ensures
        match r {
            Some(t) => jspec_as_str(j.deep()) == Some(t@),
            None => jspec_as_str(j.deep()) is None,
        },
{
    match j {
        JVal::Str(t) => Some(t.clone()),
        _ => None,
    }
}

fn jv_as_dec(j: &JVal) -> (r: Option<Dec>)
    ensures
        r == jspec_as_dec(j.deep()),
{
    match j {
        JVal::Num(d) => Some(*d),
        _ => None,
    }
}

fn jv_as_i64(j: &JVal) -> (r: Option<i64>)
    ensures
        r == jspec_as_i64(j.deep()),
{
    match j {
        JVal::Num(d) => {
            if d.frac_len != 0 {
                return None;
            }
            if d.neg {
                if d.int_part <= 0x8000000000000000u64 {
                    let m: i128 = -(d.int_part as i128);
                    Some(m as i64)
                } else {
                    None
                }
            } else {
                if d.int_part <= 0x7fffffffffffffffu64 {
                    Some(d.int_part as i64)
                } else {
                    None
                }
            }
        },
        _ => None,
    }
}

fn jv_as_opt_dec(j: &JVal) -> (r: Option<Option<Dec>>)
    ensures
        r == jspec_as_opt_dec(j.deep()),
{
    match j {
        JVal::Null => Some(None),
        JVal::Num(d) => Some(Some(*d)),
        _ => None,
    }
}

fn jv_as_opt_i64(j: &JVal) -> (r: Option<Option<i64>>)
    ensures
        r == jspec_as_opt_i64(j.deep()),
{
    match j {
        JVal::Null => Some(None),
        JVal::Num(d) => match jv_as_i64(j) {
            Some(v) => Some(Some(v)),
            None => None,
        },
        _ => None,
    }
}

fn jv_as_tri(j: &JVal) -> (r: Option<TriVal>)
    ensures
        r == jspec_as_tri(j.deep()),
{
    match j {
        JVal::Null => Some(TriVal::Absent),
        JVal::Num(d) => Some(TriVal::Num(*d)),
        JVal::Str(t) => {
            if crate::strutil::str_eq(t.as_str(), "-") {
                Some(TriVal::Sentinel)
            } else {
                None
            }
        },
        _ => None,
    }
}

/// The snapshot as a JSON document in the canonical layout.
#[verifier::rlimit(100)]
pub fn snapshot_to_jval(s: &Snapshot) -> (r: JVal)
    ensures
        r.deep() == snap_jspec(s@),
{
    let mut fs: Vec<(String, JVal)> = Vec::new();
    fs.push((String::from_str("instrument_id"), jv_str(&s.instrument_id)));
    fs.push((String::from_str("datetime"), jv_str(&s.datetime)));
    fs.push((String::from_str("last_price"), jv_dec(s.last_price)));
    fs.push((String::from_str("amount"), jv_dec(s.amount)));
    fs.push((String::from_str("volume"), jv_i64(s.volume)));
    fs.push((String::from_str("open"), jv_dec(s.open)));
    fs.push((String::from_str("highest"), jv_dec(s.highest)));
    fs.push((String::from_str("lowest"), jv_dec(s.lowest)));
    fs.push((String::from_str("pre_close"), jv_dec(s.pre_close)));
    fs.push((String::from_str("upper_limit"), jv_dec(s.upper_limit)));
    fs.push((String::from_str("lower_limit"), jv_dec(s.lower_limit)));
    fs.push((String::from_str("average"), jv_dec(s.average)));
    fs.push((String::from_str("bid_price1"), jv_dec(s.bid_price1)));
    fs.push((String::from_str("bid_volume1"), jv_i64(s.bid_volume1)));
    fs.push((String::from_str("ask_price1"), jv_dec(s.ask_price1)));
    fs.push((String::from_str("ask_volume1"), jv_i64(s.ask_volume1)));
    fs.push((String::from_str("bid_price2"), jv_opt_dec(&s.bid_price2)));
    fs.push((String::from_str("bid_volume2"), jv_opt_i64(&s.bid_volume2)));
    fs.push((String::from_str("ask_price2"), jv_opt_dec(&s.ask_price2)));
    fs.push((String::from_str("ask_volume2"), jv_opt_i64(&s.ask_volume2)));
    fs.push((String::from_str("bid_price3"), jv_opt_dec(&s.bid_price3)));
    fs.push((String::from_str("bid_volume3"), jv_opt_i64(&s.bid_volume3)));
    fs.push((String::from_str("ask_price3"), jv_opt_dec(&s.ask_price3)));
    fs.push((String::from_str("ask_volume3"), jv_opt_i64(&s.ask_volume3)));
    fs.push((String::from_str("bid_price4"), jv_opt_dec(&s.bid_price4)));
    fs.push((String::from_str("bid_volume4"), jv_opt_i64(&s.bid_volume4)));
    fs.push((String::from_str("ask_price4"), jv_opt_dec(&s.ask_price4)));
    fs.push((String::from_str("ask_volume4"), jv_opt_i64(&s.ask_volume4)));
    fs.push((String::from_str("bid_price5"), jv_opt_dec(&s.bid_price5)));
    fs.push((String::from_str("bid_volume5"), jv_opt_i64(&s.bid_volume5)));
    fs.push((String::from_str("ask_price5"), jv_opt_dec(&s.ask_price5)));
    fs.push((String::from_str("ask_volume5"), jv_opt_i64(&s.ask_volume5)));
    fs.push((String::from_str("close"), jv_tri(&s.close)));
    fs.push((String::from_str("settlement"), jv_tri(&s.settlement)));
    fs.push((String::from_str("pre_settlement"), jv_tri(&s.pre_settlement)));
    fs.push((String::from_str("open_interest"), jv_tri(&s.open_interest)));
    fs.push((String::from_str("pre_open_interest"), jv_tri(&s.pre_open_interest)));
    fs.push((String::from_str("iopv"), jv_tri(&s.iopv)));
    let r = JVal::Obj(fs);
    proof {
        assert(deep_fields(fs@) =~~= snap_fields(s@));
    }
    r
}

/// Reads a snapshot back from a JSON document in the canonical layout.
#[verifier::rlimit(100)]
pub fn jval_to_snapshot(j: &JVal) -> (r: Option<Snapshot>)
    ensures
        match r {
            Some(sn) => jspec_to_snap(j.deep()) == Some(sn@),
            None => jspec_to_snap(j.deep()) is None,
        },
{
    let fs = match j {
        JVal::Obj(fs) => fs,
        _ => {
            return None;
        },
    };
    if fs.len() != 38 {
        return None;
    }
    if !crate::strutil::str_eq(fs[0].0.as_str(), "instrument_id") {
        return None;
    }
    let f_instrument_id = match jv_as_str(&fs[0].1) {
        Some(x) => x,
        None => {
            return None;
        },
    };
    if !crate::strutil::str_eq(fs[1].0.as_str(), "datetime") {
        return None;
    }
    let f_datetime = match jv_as_str(&fs[1].1) {
        Some(x) => x,
        None => {
            return None;
        },
    };
    if !crate::strutil::str_eq(fs[2].0.as_str(), "last_price") {
        return None;
    }
    let f_last_price = match jv_as_dec(&fs[2].1) {
        Some(x) => x,
        None => {
            return None;
        },
    };
    if !crate::strutil::str_eq(fs[3].0.as_str(), "amount") {
        return None;
    }
    let f_amount = match jv_as_dec(&fs[3].1) {
        Some(x) => x,
        None => {
            return None;
        },
    };
    if !crate::strutil::str_eq(fs[4].0.as_str(), "volume") {
        return None;
    }
    let f_volume = match jv_as_i64(&fs[4].1) {
        Some(x) => x,
        None => {
            return None;
        },
    };
    if !crate::strutil::str_eq(fs[5].0.as_str(), "open") {
        return None;
    }
    let f_open = match jv_as_dec(&fs[5].1) {
        Some(x) => x,
        None => {
            return None;
        },
    };
    if !crate::strutil::str_eq(fs[6].0.as_str(), "highest") {
        return None;
    }
    let f_highest = match jv_as_dec(&fs[6].1) {
        Some(x) => x,
        None => {
            return None;
        },
    };
    if !crate::strutil::str_eq(fs[7].0.as_str(), "lowest") {
        return None;
    }
    let f_lowest = match jv_as_dec(&fs[7].1) {
        Some(x) => x,
        None => {
            return None;
        },
    };
    if !crate::strutil::str_eq(fs[8].0.as_str(), "pre_close") {
        return None;
    }
    let f_pre_close = match jv_as_dec(&fs[8].1) {
        Some(x) => x,
        None => {
            return None;
        },
    };
    if !crate::strutil::str_eq(fs[9].0.as_str(), "upper_limit") {
        return None;
    }
    let f_upper_limit = match jv_as_dec(&fs[9].1) {
        Some(x) => x,
        None => {
            return None;
        },
    };
    if !crate::strutil::str_eq(fs[10].0.as_str(), "lower_limit") {
        return None;
    }
    let f_lower_limit = match jv_as_dec(&fs[10].1) {
        Some(x) => x,
        None => {
            return None;
        },
    };
    if !crate::strutil::str_eq(fs[11].0.as_str(), "average") {
        return None;
    }
    let f_average = match jv_as_dec(&fs[11].1) {
        Some(x) => x,
        None => {
            return None;
        },
    };
    if !crate::strutil::str_eq(fs[12].0.as_str(), "bid_price1") {
        return None;
    }
    let f_bid_price1 = match jv_as_dec(&fs[12].1) {
        Some(x) => x,
        None => {
            return None;
        },
    };
    if !crate::strutil::str_eq(fs[13].0.as_str(), "bid_volume1") {
        return None;
    }
    let f_bid_volume1 = match jv_as_i64(&fs[13].1) {
        Some(x) => x,
        None => {
            return None;
        },
    };
    if !crate::strutil::str_eq(fs[14].0.as_str(), "ask_price1") {
        return None;
    }
    let f_ask_price1 = match jv_as_dec(&fs[14].1) {
        Some(x) => x,
        None => {
            return None;
        },
    };
    if !crate::strutil::str_eq(fs[15].0.as_str(), "ask_volume1") {
        return None;
    }
    let f_ask_volume1 = match jv_as_i64(&fs[15].1) {
        Some(x) => x,
        None => {
            return None;
        },
    };
    if !crate::strutil::str_eq(fs[16].0.as_str(), "bid_price2") {
        return None;
    }
    let f_bid_price2 = match jv_as_opt_dec(&fs[16].1) {
        Some(x) => x,
        None => {
            return None;
        },
    };
    if !crate::strutil::str_eq(fs[17].0.as_str(), "bid_volume2") {
        return None;
    }
    let f_bid_volume2 = match jv_as_opt_i64(&fs[17].1) {
        Some(x) => x,
        None => {
            return None;
        },
    };
    if !crate::strutil::str_eq(fs[18].0.as_str(), "ask_price2") {
        return None;
    }
    let f_ask_price2 = match jv_as_opt_dec(&fs[18].1) {
        Some(x) => x,
        None => {
            return None;
        },
    };
    if !crate::strutil::str_eq(fs[19].0.as_str(), "ask_volume2") {
        return None;
    }
    let f_ask_volume2 = match jv_as_opt_i64(&fs[19].1) {
        Some(x) => x,
        None => {
            return None;
        },
    };
    if !crate::strutil::str_eq(fs[20].0.as_str(), "bid_price3") {
        return None;
    }
    let f_bid_price3 = match jv_as_opt_dec(&fs[20].1) {
        Some(x) => x,
        None => {
            return None;
        },
    };
    if !crate::strutil::str_eq(fs[21].0.as_str(), "bid_volume3") {
        return None;
    }
    let f_bid_volume3 = match jv_as_opt_i64(&fs[21].1) {
        Some(x) => x,
        None => {
            return None;
        },
    };
    if !crate::strutil::str_eq(fs[22].0.as_str(), "ask_price3") {
        return None;
    }
    let f_ask_price3 = match jv_as_opt_dec(&fs[22].1) {
        Some(x) => x,
        None => {
            return None;
        },
    };
    if !crate::strutil::str_eq(fs[23].0.as_str(), "ask_volume3") {
        return None;
    }
    let f_ask_volume3 = match jv_as_opt_i64(&fs[23].1) {
        Some(x) => x,
        None => {
            return None;
        },
    };
    if !crate::strutil::str_eq(fs[24].0.as_str(), "bid_price4") {
        return None;
    }
    let f_bid_price4 = match jv_as_opt_dec(&fs[24].1) {
        Some(x) => x,
        None => {
            return None;
        },
    };
    if !crate::strutil::str_eq(fs[25].0.as_str(), "bid_volume4") {
        return None;
    }
    let f_bid_volume4 = match jv_as_opt_i64(&fs[25].1) {
        Some(x) => x,
        None => {
            return None;
        },
    };
    if !crate::strutil::str_eq(fs[26].0.as_str(), "ask_price4") {
        return None;
    }
    let f_ask_price4 = match jv_as_opt_dec(&fs[26].1) {
        Some(x) => x,
        None => {
            return None;
        },
    };
    if !crate::strutil::str_eq(fs[27].0.as_str(), "ask_volume4") {
        return None;
    }
    let f_ask_volume4 = match jv_as_opt_i64(&fs[27].1) {
        Some(x) => x,
        None => {
            return None;
        },
    };
    if !crate::strutil::str_eq(fs[28].0.as_str(), "bid_price5") {
        return None;
    }
    let f_bid_price5 = match jv_as_opt_dec(&fs[28].1) {
        Some(x) => x,
        None => {
            return None;
        },
    };
    if !crate::strutil::str_eq(fs[29].0.as_str(), "bid_volume5") {
        return None;
    }
    let f_bid_volume5 = match jv_as_opt_i64(&fs[29].1) {
        Some(x) => x,
        None => {
            return None;
        },
    };
    if !crate::strutil::str_eq(fs[30].0.as_str(), "ask_price5") {
        return None;
    }
    let f_ask_price5 = match jv_as_opt_dec(&fs[30].1) {
        Some(x) => x,
        None => {
            return None;
        },
    };
    if !crate::strutil::str_eq(fs[31].0.as_str(), "ask_volume5") {
        return None;
    }
    let f_ask_volume5 = match jv_as_opt_i64(&fs[31].1) {
        Some(x) => x,
        None => {
            return None;
        },
    };
    if !crate::strutil::str_eq(fs[32].0.as_str(), "close") {
        return None;
    }
    let f_close = match jv_as_tri(&fs[32].1) {
        Some(x) => x,
        None => {
            return None;
        },
    };
    if !crate::strutil::str_eq(fs[33].0.as_str(), "settlement") {
        return None;
    }
    let f_settlement = match jv_as_tri(&fs[33].1) {
        Some(x) => x,
        None => {
            return None;
        },
    };
    if !crate::strutil::str_eq(fs[34].0.as_str(), "pre_settlement") {
        return None;
    }
    let f_pre_settlement = match jv_as_tri(&fs[34].1) {
        Some(x) => x,
        None => {
            return None;
        },
    };
    if !crate::strutil::str_eq(fs[35].0.as_str(), "open_interest") {
        return None;
    }
    let f_open_interest = match jv_as_tri(&fs[35].1) {
        Some(x) => x,
        None => {
            return None;
        },
    };
    if !crate::strutil::str_eq(fs[36].0.as_str(), "pre_open_interest") {
        return None;
    }
    let f_pre_open_interest = match jv_as_tri(&fs[36].1) {
        Some(x) => x,
        None => {
            return None;
        },
    };
    if !crate::strutil::str_eq(fs[37].0.as_str(), "iopv") {
        return None;
    }
    let f_iopv = match jv_as_tri(&fs[37].1) {
        Some(x) => x,
        None => {
            return None;
        },
    };
    let sn = Snapshot {
        instrument_id: f_instrument_id,
        datetime: f_datetime,
        last_price: f_last_price,
        amount: f_amount,
        volume: f_volume,
        open: f_open,
        highest: f_highest,
        lowest: f_lowest,
        pre_close: f_pre_close,
        upper_limit: f_upper_limit,
        lower_limit: f_lower_limit,
        average: f_average,
        bid_price1: f_bid_price1,
        bid_volume1: f_bid_volume1,
        ask_price1: f_ask_price1,
        ask_volume1: f_ask_volume1,
        bid_price2: f_bid_price2,
        bid_volume2: f_bid_volume2,
        ask_price2: f_ask_price2,
        ask_volume2: f_ask_volume2,
        bid_price3: f_bid_price3,
        bid_volume3: f_bid_volume3,
        ask_price3: f_ask_price3,
        ask_volume3: f_ask_volume3,
        bid_price4: f_bid_price4,
        bid_volume4: f_bid_volume4,
        ask_price4: f_ask_price4,
        ask_volume4: f_ask_volume4,
        bid_price5: f_bid_price5,
        bid_volume5: f_bid_volume5,
        ask_price5: f_ask_price5,
        ask_volume5: f_ask_volume5,
        close: f_close,
        settlement: f_settlement,
        pre_settlement: f_pre_settlement,
        open_interest: f_open_interest,
        pre_open_interest: f_pre_open_interest,
        iopv: f_iopv,
    };
    Some(sn)
}

/// Every value a canonical snapshot encodes to is itself canonical: keys and
/// strings are embeddable, and every number is a canonical decimal.
#[verifier::rlimit(100)]
proof fn lemma_snap_jspec_canon(s: SnapshotView)
    requires
        snap_wf(s),
    ensures
        jspec_canon(snap_jspec(s)),
{
    let fs = snap_fields(s);
    reveal_strlit("-");
    assert(json_safe("-"@));
    lemma_i64_dec_wf(s.volume);
    lemma_i64_dec_wf(s.bid_volume1);
    lemma_i64_dec_wf(s.ask_volume1);
    match s.bid_volume2 { Some(v) => lemma_i64_dec_wf(v), None => () }
    match s.ask_volume2 { Some(v) => lemma_i64_dec_wf(v), None => () }
    match s.bid_volume3 { Some(v) => lemma_i64_dec_wf(v), None => () }
    match s.ask_volume3 { Some(v) => lemma_i64_dec_wf(v), None => () }
    match s.bid_volume4 { Some(v) => lemma_i64_dec_wf(v), None => () }
    match s.ask_volume4 { Some(v) => lemma_i64_dec_wf(v), None => () }
    match s.bid_volume5 { Some(v) => lemma_i64_dec_wf(v), None => () }
    match s.ask_volume5 { Some(v) => lemma_i64_dec_wf(v), None => () }
    reveal_strlit("instrument_id");
    assert(json_safe("instrument_id"@));
    assert(json_safe(fs[0].0) && jspec_canon(fs[0].1));
    reveal_strlit("datetime");
    assert(json_safe("datetime"@));
    assert(json_safe(fs[1].0) && jspec_canon(fs[1].1));
    reveal_strlit("last_price");
    assert(json_safe("last_price"@));
    assert(json_safe(fs[2].0) && jspec_canon(fs[2].1));
    reveal_strlit("amount");
    assert(json_safe("amount"@));
    assert(json_safe(fs[3].0) && jspec_canon(fs[3].1));
    reveal_strlit("volume");
    assert(json_safe("volume"@));
    assert(json_safe(fs[4].0) && jspec_canon(fs[4].1));
    reveal_strlit("open");
    assert(json_safe("open"@));
    assert(json_safe(fs[5].0) && jspec_canon(fs[5].1));
    reveal_strlit("highest");
    assert(json_safe("highest"@));
    assert(json_safe(fs[6].0) && jspec_canon(fs[6].1));
    reveal_strlit("lowest");
    assert(json_safe("lowest"@));
    assert(json_safe(fs[7].0) && jspec_canon(fs[7].1));
    reveal_strlit("pre_close");
    assert(json_safe("pre_close"@));
    assert(json_safe(fs[8].0) && jspec_canon(fs[8].1));
    reveal_strlit("upper_limit");
    assert(json_safe("upper_limit"@));
    assert(json_safe(fs[9].0) && jspec_canon(fs[9].1));
    reveal_strlit("lower_limit");
    assert(json_safe("lower_limit"@));
    assert(json_safe(fs[10].0) && jspec_canon(fs[10].1));
    reveal_strlit("average");
    assert(json_safe("average"@));
    assert(json_safe(fs[11].0) && jspec_canon(fs[11].1));
    reveal_strlit("bid_price1");
    assert(json_safe("bid_price1"@));
    assert(json_safe(fs[12].0) && jspec_canon(fs[12].1));
    reveal_strlit("bid_volume1");
    assert(json_safe("bid_volume1"@));
    assert(json_safe(fs[13].0) && jspec_canon(fs[13].1));
    reveal_strlit("ask_price1");
    assert(json_safe("ask_price1"@));
    assert(json_safe(fs[14].0) && jspec_canon(fs[14].1));
    reveal_strlit("ask_volume1");
    assert(json_safe("ask_volume1"@));
    assert(json_safe(fs[15].0) && jspec_canon(fs[15].1));
    reveal_strlit("bid_price2");
    assert(json_safe("bid_price2"@));
    assert(json_safe(fs[16].0) && jspec_canon(fs[16].1));
    reveal_strlit("bid_volume2");
    assert(json_safe("bid_volume2"@));
    assert(json_safe(fs[17].0) && jspec_canon(fs[17].1));
    reveal_strlit("ask_price2");
    assert(json_safe("ask_price2"@));
    assert(json_safe(fs[18].0) && jspec_canon(fs[18].1));
    reveal_strlit("ask_volume2");
    assert(json_safe("ask_volume2"@));
    assert(json_safe(fs[19].0) && jspec_canon(fs[19].1));
    reveal_strlit("bid_price3");
    assert(json_safe("bid_price3"@));
    assert(json_safe(fs[20].0) && jspec_canon(fs[20].1));
    reveal_strlit("bid_volume3");
    assert(json_safe("bid_volume3"@));
    assert(json_safe(fs[21].0) && jspec_canon(fs[21].1));
    reveal_strlit("ask_price3");
    assert(json_safe("ask_price3"@));
    assert(json_safe(fs[22].0) && jspec_canon(fs[22].1));
    reveal_strlit("ask_volume3");
    assert(json_safe("ask_volume3"@));
    assert(json_safe(fs[23].0) && jspec_canon(fs[23].1));
    reveal_strlit("bid_price4");
    assert(json_safe("bid_price4"@));
    assert(json_safe(fs[24].0) && jspec_canon(fs[24].1));
    reveal_strlit("bid_volume4");
    assert(json_safe("bid_volume4"@));
    assert(json_safe(fs[25].0) && jspec_canon(fs[25].1));
    reveal_strlit("ask_price4");
    assert(json_safe("ask_price4"@));
    assert(json_safe(fs[26].0) && jspec_canon(fs[26].1));
    reveal_strlit("ask_volume4");
    assert(json_safe("ask_volume4"@));
    assert(json_safe(fs[27].0) && jspec_canon(fs[27].1));
    reveal_strlit("bid_price5");
    assert(json_safe("bid_price5"@));
    assert(json_safe(fs[28].0) && jspec_canon(fs[28].1));
    reveal_strlit("bid_volume5");
    assert(json_safe("bid_volume5"@));
    assert(json_safe(fs[29].0) && jspec_canon(fs[29].1));
    reveal_strlit("ask_price5");
    assert(json_safe("ask_price5"@));
    assert(json_safe(fs[30].0) && jspec_canon(fs[30].1));
    reveal_strlit("ask_volume5");
    assert(json_safe("ask_volume5"@));
    assert(json_safe(fs[31].0) && jspec_canon(fs[31].1));
    reveal_strlit("close");
    assert(json_safe("close"@));
    assert(json_safe(fs[32].0) && jspec_canon(fs[32].1));
    reveal_strlit("settlement");
    assert(json_safe("settlement"@));
    assert(json_safe(fs[33].0) && jspec_canon(fs[33].1));
    reveal_strlit("pre_settlement");
    assert(json_safe("pre_settlement"@));
    assert(json_safe(fs[34].0) && jspec_canon(fs[34].1));
    reveal_strlit("open_interest");
    assert(json_safe("open_interest"@));
    assert(json_safe(fs[35].0) && jspec_canon(fs[35].1));
    reveal_strlit("pre_open_interest");
    assert(json_safe("pre_open_interest"@));
    assert(json_safe(fs[36].0) && jspec_canon(fs[36].1));
    reveal_strlit("iopv");
    assert(json_safe("iopv"@));
    assert(json_safe(fs[37].0) && jspec_canon(fs[37].1));
    assert forall|q: int| 0 <= q < fs.len() implies json_safe((#[trigger] fs[q]).0)
        && jspec_canon(fs[q].1) by {
        if q == 0 {
            assert(json_safe(fs[0].0) && jspec_canon(fs[0].1));
        }
        if q == 1 {
            assert(json_safe(fs[1].0) && jspec_canon(fs[1].1));
        }
        if q == 2 {
            assert(json_safe(fs[2].0) && jspec_canon(fs[2].1));
        }
        if q == 3 {
            assert(json_safe(fs[3].0) && jspec_canon(fs[3].1));
        }
        if q == 4 {
            assert(json_safe(fs[4].0) && jspec_canon(fs[4].1));
        }
        if q == 5 {
            assert(json_safe(fs[5].0) && jspec_canon(fs[5].1));
        }
        if q == 6 {
            assert(json_safe(fs[6].0) && jspec_canon(fs[6].1));
        }
        if q == 7 {
            assert(json_safe(fs[7].0) && jspec_canon(fs[7].1));
        }
        if q == 8 {
            assert(json_safe(fs[8].0) && jspec_canon(fs[8].1));
        }
        if q == 9 {
            assert(json_safe(fs[9].0) && jspec_canon(fs[9].1));
        }
        if q == 10 {
            assert(json_safe(fs[10].0) && jspec_canon(fs[10].1));
        }
        if q == 11 {
            assert(json_safe(fs[11].0) && jspec_canon(fs[11].1));
        }
        if q == 12 {
            assert(json_safe(fs[12].0) && jspec_canon(fs[12].1));
        }
        if q == 13 {
            assert(json_safe(fs[13].0) && jspec_canon(fs[13].1));
        }
        if q == 14 {
            assert(json_safe(fs[14].0) && jspec_canon(fs[14].1));
        }
        if q == 15 {
            assert(json_safe(fs[15].0) && jspec_canon(fs[15].1));
        }
        if q == 16 {
            assert(json_safe(fs[16].0) && jspec_canon(fs[16].1));
        }
        if q == 17 {
            assert(json_safe(fs[17].0) && jspec_canon(fs[17].1));
        }
        if q == 18 {
            assert(json_safe(fs[18].0) && jspec_canon(fs[18].1));
        }
        if q == 19 {
            assert(json_safe(fs[19].0) && jspec_canon(fs[19].1));
        }
        if q == 20 {
            assert(json_safe(fs[20].0) && jspec_canon(fs[20].1));
        }
        if q == 21 {
            assert(json_safe(fs[21].0) && jspec_canon(fs[21].1));
        }
        if q == 22 {
            assert(json_safe(fs[22].0) && jspec_canon(fs[22].1));
        }
        if q == 23 {
            assert(json_safe(fs[23].0) && jspec_canon(fs[23].1));
        }
        if q == 24 {
            assert(json_safe(fs[24].0) && jspec_canon(fs[24].1));
        }
        if q == 25 {
            assert(json_safe(fs[25].0) && jspec_canon(fs[25].1));
        }
        if q == 26 {
            assert(json_safe(fs[26].0) && jspec_canon(fs[26].1));
        }
        if q == 27 {
            assert(json_safe(fs[27].0) && jspec_canon(fs[27].1));
        }
        if q == 28 {
            assert(json_safe(fs[28].0) && jspec_canon(fs[28].1));
        }
        if q == 29 {
            assert(json_safe(fs[29].0) && jspec_canon(fs[29].1));
        }
        if q == 30 {
            assert(json_safe(fs[30].0) && jspec_canon(fs[30].1));
        }
        if q == 31 {
            assert(json_safe(fs[31].0) && jspec_canon(fs[31].1));
        }
        if q == 32 {
            assert(json_safe(fs[32].0) && jspec_canon(fs[32].1));
        }
        if q == 33 {
            assert(json_safe(fs[33].0) && jspec_canon(fs[33].1));
        }
        if q == 34 {
            assert(json_safe(fs[34].0) && jspec_canon(fs[34].1));
        }
        if q == 35 {
            assert(json_safe(fs[35].0) && jspec_canon(fs[35].1));
        }
        if q == 36 {
            assert(json_safe(fs[36].0) && jspec_canon(fs[36].1));
        }
        if q == 37 {
            assert(json_safe(fs[37].0) && jspec_canon(fs[37].1));
        }
    }
}

/// The decimal of a signed integer is canonical.
proof fn lemma_i64_dec_wf(v: i64)
    ensures
        crate::json::dec_wf(dec_of_i64(v as int)),
{
    crate::json::lemma_pow10_19();
}

/// The serialize-then-deserialize identity, on the wire text itself: a
/// canonical snapshot's JSON text parses back to the same document, and that
/// document decodes back to the same snapshot — numeric, sentinel and absent
/// fields all round-trip as themselves.
pub proof fn lemma_snapshot_text_round_trip(s: SnapshotView)
    requires
        snap_wf(s),
    ensures
        crate::json::spec_parse_text(crate::json::jprint(snap_jspec(s))) == Some(snap_jspec(s)),
        jspec_to_snap(snap_jspec(s)) == Some(s),
{
    lemma_snap_jspec_canon(s);
    crate::json::lemma_print_parse_identity(snap_jspec(s));
    lemma_snapshot_round_trip(s);
}

} // verus!
