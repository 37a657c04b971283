//! Upstream feed kinds.

use vstd::prelude::*;

verus! {

/// Which upstream feed produced a snapshot or serves a subscription.
///
/// The gateway multiplexes one futures feed and two equity feeds that share a
/// callback interface; routing decisions pick a kind in this fixed priority
/// order: futures first, then the two equity feeds.
#[derive(Clone, Copy, Debug, PartialEq, Eq, Structural, Hash)]
pub enum MarketDataSource {
    Ctp,
    QQ,
    Sina,
}

impl View for MarketDataSource {
    type V = MarketDataSource;

    open spec fn view(&self) -> MarketDataSource {
        *self
    }
}

/// Classification of an instrument by asset kind.
#[derive(Clone, Copy, Debug, PartialEq, Eq, Structural)]
pub enum InstrumentType {
    /// Stock/Equity
    Stock,
    /// Future contract
    Future,
    /// Market index
    Index,
    /// Listed open-ended fund (ETF, LOF)
    Fund,
    /// Other instrument type
    Other,
}

} // verus!
