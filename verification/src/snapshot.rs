//! The quote snapshot: one immutable market-data observation for one
//! instrument at one timestamp.
//!
//! Prices are exact decimals (`Dec`), never floating point. A handful of
//! fields are tri-valued on the wire — a number, the sentinel string `"-"`,
//! or absent — and the distinction must survive every encode/decode.

use vstd::prelude::*;
use crate::json::{Dec, dec_wf, json_safe};

verus! {

/// A field that is a number, the sentinel `"-"`, or absent.
#[derive(Clone, Copy, Debug, PartialEq, Eq, Structural)]
pub enum TriVal {
    Num(Dec),
    Sentinel,
    Absent,
}

impl View for TriVal {
    type V = TriVal;

    open spec fn view(&self) -> TriVal {
        *self
    }
}

/// Canonical tri-valued field: a numeric value is a canonical decimal.
pub open spec fn tri_wf(t: TriVal) -> bool {
    match t {
        TriVal::Num(d) => dec_wf(d),
        _ => true,
    }
}

/// Canonical optional price.
pub open spec fn opt_dec_wf(o: Option<Dec>) -> bool {
    match o {
        Some(d) => dec_wf(d),
        None => true,
    }
}

/// An immutable quote record.
pub struct Snapshot {
    pub instrument_id: String,
    /// Timestamp text exactly as carried on the wire: the feeds and both
    /// outbound dialects use the zone-local `YYYY-MM-DD HH:MM:SS` calendar
    /// form, and the codec embeds it unchanged.
    pub datetime: String,
    pub last_price: Dec,
    pub amount: Dec,
    pub volume: i64,
    pub open: Dec,
    pub highest: Dec,
    pub lowest: Dec,
    pub pre_close: Dec,
    pub upper_limit: Dec,
    pub lower_limit: Dec,
    pub average: Dec,
    pub bid_price1: Dec,
    pub bid_volume1: i64,
    pub ask_price1: Dec,
    pub ask_volume1: i64,
    pub bid_price2: Option<Dec>,
    pub bid_volume2: Option<i64>,
    pub ask_price2: Option<Dec>,
    pub ask_volume2: Option<i64>,
    pub bid_price3: Option<Dec>,
    pub bid_volume3: Option<i64>,
    pub ask_price3: Option<Dec>,
    pub ask_volume3: Option<i64>,
    pub bid_price4: Option<Dec>,
    pub bid_volume4: Option<i64>,
    pub ask_price4: Option<Dec>,
    pub ask_volume4: Option<i64>,
    pub bid_price5: Option<Dec>,
    pub bid_volume5: Option<i64>,
    pub ask_price5: Option<Dec>,
    pub ask_volume5: Option<i64>,
    pub close: TriVal,
    pub settlement: TriVal,
    pub pre_settlement: TriVal,
    pub open_interest: TriVal,
    pub pre_open_interest: TriVal,
    pub iopv: TriVal,
}

/// The mathematical value of a snapshot: strings as character sequences,
/// everything else as itself.
pub struct SnapshotView {
    pub instrument_id: Seq<char>,
    pub datetime: Seq<char>,
    pub last_price: Dec,
    pub amount: Dec,
    pub volume: i64,
    pub open: Dec,
    pub highest: Dec,
    pub lowest: Dec,
    pub pre_close: Dec,
    pub upper_limit: Dec,
    pub lower_limit: Dec,
    pub average: Dec,
    pub bid_price1: Dec,
    pub bid_volume1: i64,
    pub ask_price1: Dec,
    pub ask_volume1: i64,
    pub bid_price2: Option<Dec>,
    pub bid_volume2: Option<i64>,
    pub ask_price2: Option<Dec>,
    pub ask_volume2: Option<i64>,
    pub bid_price3: Option<Dec>,
    pub bid_volume3: Option<i64>,
    pub ask_price3: Option<Dec>,
    pub ask_volume3: Option<i64>,
    pub bid_price4: Option<Dec>,
    pub bid_volume4: Option<i64>,
    pub ask_price4: Option<Dec>,
    pub ask_volume4: Option<i64>,
    pub bid_price5: Option<Dec>,
    pub bid_volume5: Option<i64>,
    pub ask_price5: Option<Dec>,
    pub ask_volume5: Option<i64>,
    pub close: TriVal,
    pub settlement: TriVal,
    pub pre_settlement: TriVal,
    pub open_interest: TriVal,
    pub pre_open_interest: TriVal,
    pub iopv: TriVal,
}

impl View for Snapshot {
    type V = SnapshotView;

    open spec fn view(&self) -> SnapshotView {
        SnapshotView {
            instrument_id: self.instrument_id@,
            datetime: self.datetime@,
            last_price: self.last_price,
            amount: self.amount,
            volume: self.volume,
            open: self.open,
            highest: self.highest,
            lowest: self.lowest,
            pre_close: self.pre_close,
            upper_limit: self.upper_limit,
            lower_limit: self.lower_limit,
            average: self.average,
            bid_price1: self.bid_price1,
            bid_volume1: self.bid_volume1,
            ask_price1: self.ask_price1,
            ask_volume1: self.ask_volume1,
            bid_price2: self.bid_price2,
            bid_volume2: self.bid_volume2,
            ask_price2: self.ask_price2,
            ask_volume2: self.ask_volume2,
            bid_price3: self.bid_price3,
            bid_volume3: self.bid_volume3,
            ask_price3: self.ask_price3,
            ask_volume3: self.ask_volume3,
            bid_price4: self.bid_price4,
            bid_volume4: self.bid_volume4,
            ask_price4: self.ask_price4,
            ask_volume4: self.ask_volume4,
            bid_price5: self.bid_price5,
            bid_volume5: self.bid_volume5,
            ask_price5: self.ask_price5,
            ask_volume5: self.ask_volume5,
            close: self.close,
            settlement: self.settlement,
            pre_settlement: self.pre_settlement,
            open_interest: self.open_interest,
            pre_open_interest: self.pre_open_interest,
            iopv: self.iopv,
        }
    }
}

/// Canonical snapshot: the id is a nonempty embeddable string, the timestamp
/// is embeddable, and every decimal is canonical.
pub open spec fn snap_wf(s: SnapshotView) -> bool {
    &&& s.instrument_id.len() > 0
    &&& json_safe(s.instrument_id)
    &&& json_safe(s.datetime)
    &&& dec_wf(s.last_price)
    &&& dec_wf(s.amount)
    &&& dec_wf(s.open)
    &&& dec_wf(s.highest)
    &&& dec_wf(s.lowest)
    &&& dec_wf(s.pre_close)
    &&& dec_wf(s.upper_limit)
    &&& dec_wf(s.lower_limit)
    &&& dec_wf(s.average)
    &&& dec_wf(s.bid_price1)
    &&& dec_wf(s.ask_price1)
    &&& opt_dec_wf(s.bid_price2)
    &&& opt_dec_wf(s.ask_price2)
    &&& opt_dec_wf(s.bid_price3)
    &&& opt_dec_wf(s.ask_price3)
    &&& opt_dec_wf(s.bid_price4)
    &&& opt_dec_wf(s.ask_price4)
    &&& opt_dec_wf(s.bid_price5)
    &&& opt_dec_wf(s.ask_price5)
    &&& tri_wf(s.close)
    &&& tri_wf(s.settlement)
    &&& tri_wf(s.pre_settlement)
    &&& tri_wf(s.open_interest)
    &&& tri_wf(s.pre_open_interest)
    &&& tri_wf(s.iopv)
}

impl Snapshot {
    /// Well-formedness of the record's value.
    pub open spec fn wf(&self) -> bool {
        snap_wf(self@)
    }

    /// A copy equal to the original.
    pub fn duplicate(&self) -> (r: Snapshot)
        ensures
            r@ == self@,
    {
        Snapshot {
            instrument_id: self.instrument_id.clone(),
            datetime: self.datetime.clone(),
            last_price: self.last_price,
            amount: self.amount,
            volume: self.volume,
            open: self.open,
            highest: self.highest,
            lowest: self.lowest,
            pre_close: self.pre_close,
            upper_limit: self.upper_limit,
            lower_limit: self.lower_limit,
            average: self.average,
            bid_price1: self.bid_price1,
            bid_volume1: self.bid_volume1,
            ask_price1: self.ask_price1,
            ask_volume1: self.ask_volume1,
            bid_price2: self.bid_price2,
            bid_volume2: self.bid_volume2,
            ask_price2: self.ask_price2,
            ask_volume2: self.ask_volume2,
            bid_price3: self.bid_price3,
            bid_volume3: self.bid_volume3,
            ask_price3: self.ask_price3,
            ask_volume3: self.ask_volume3,
            bid_price4: self.bid_price4,
            bid_volume4: self.bid_volume4,
            ask_price4: self.ask_price4,
            ask_volume4: self.ask_volume4,
            bid_price5: self.bid_price5,
            bid_volume5: self.bid_volume5,
            ask_price5: self.ask_price5,
            ask_volume5: self.ask_volume5,
            close: self.close,
            settlement: self.settlement,
            pre_settlement: self.pre_settlement,
            open_interest: self.open_interest,
            pre_open_interest: self.pre_open_interest,
            iopv: self.iopv,
        }
    }
}

} // verus!
