//! The upstream adapter state machine.
//!
//! One adapter wraps one native feed handle. Feed callbacks arrive as
//! `MarketDataEvent`s; the state machine answers each with the native calls
//! to make and the snapshots to forward, and tracks the connection flags, the
//! confirmed subscriptions, and the desired set — which must survive a
//! disconnect so that a reconnect can replay it.

use vstd::prelude::*;
use vstd::string::StringSliceAdditionalSpecFns;
use crate::ids::{spec_normalize_equity, spec_normalize_futures, normalize_equity, normalize_futures};
use crate::smap::{StrSet, views_of};
use crate::snapshot::Snapshot;
use crate::sources::MarketDataSource;

verus! {

/// Seconds between reconnect attempts while the feed is down.
pub const RECONNECT_INTERVAL_SECS: u64 = 30;

/// A normalized event from the native feed's callback interface.
pub enum MarketDataEvent {
    Connected,
    Disconnected,
    LoggedIn,
    MarketData(Snapshot),
    SubscriptionSuccess(String),
    SubscriptionFailure(String, String),
    UnsubscriptionSuccess(String),
    Error(String),
}

/// What the adapter asks its surroundings to do in response to an event or a
/// request: a call on the native handle, or a snapshot hand-off to the
/// distributor.
pub enum AdapterAction {
    Login,
    SubscribeMarketData(Vec<String>),
    UnsubscribeMarketData(Vec<String>),
    Forward(Snapshot),
}

/// The id normalization each feed kind applies before a native call.
pub open spec fn spec_normalize_for(kind: MarketDataSource, id: Seq<char>) -> Seq<char> {
    match kind {
        MarketDataSource::Ctp => spec_normalize_futures(id),
        MarketDataSource::QQ => spec_normalize_equity(id),
        MarketDataSource::Sina => spec_normalize_equity(id),
    }
}

/// The codes a subscribe call carries: each requested id normalized, with the
/// already-confirmed codes left out.
pub open spec fn spec_sub_batch(
    ids: Seq<Seq<char>>,
    kind: MarketDataSource,
    subscribed: Set<Seq<char>>,
) -> Seq<Seq<char>> {
    ids.map_values(|i: Seq<char>| spec_normalize_for(kind, i)).filter(
        |n: Seq<char>| !subscribed.contains(n),
    )
}

/// The codes an unsubscribe call carries: each id normalized.
pub open spec fn spec_unsub_batch(ids: Seq<Seq<char>>, kind: MarketDataSource) -> Seq<Seq<char>> {
    ids.map_values(|i: Seq<char>| spec_normalize_for(kind, i))
}

/// Reconnect preserves `desired`: a disconnect keeps the desired set and
/// clears the confirmed set, so the replay batch that login produces is
/// exactly the desired set, normalized — nothing is filtered out.
pub proof fn lemma_reconnect_replays_desired(ids: Seq<Seq<char>>, kind: MarketDataSource)
    ensures
        spec_sub_batch(ids, kind, Set::empty()) == ids.map_values(
            |i: Seq<char>| spec_normalize_for(kind, i),
        ),
    decreases ids.len(),
{
    let mapped = ids.map_values(|i: Seq<char>| spec_normalize_for(kind, i));
    lemma_filter_nothing(mapped);
}

proof fn lemma_filter_nothing(s: Seq<Seq<char>>)
    ensures
        s.filter(|n: Seq<char>| !Set::<Seq<char>>::empty().contains(n)) == s,
    decreases s.len(),
{
    reveal(Seq::filter);
    if s.len() > 0 {
        lemma_filter_nothing(s.drop_last());
        assert(s.drop_last().push(s.last()) =~= s);
    }
}

/// Fills one fixed-size login field of the native ABI: the value's bytes,
/// truncated to one less than the buffer length, with a terminating null —
/// so the copy can never overrun the buffer and is always terminated.
pub fn login_field(value: &str, buf_len: usize) -> (r: Vec<u8>)
    requires
        buf_len >= 1,
    ensures
        r@.len() <= buf_len,
        r@.len() == (if value.spec_bytes().len() < buf_len - 1 {
            value.spec_bytes().len() + 1
        } else {
            buf_len as nat
        }),
        r@ == value.spec_bytes().take(r@.len() - 1).push(0u8),
{
    let bytes = value.as_bytes();
    let total = bytes.len();
    let copy_len: usize = if total < buf_len - 1 {
        total
    } else {
        buf_len - 1
    };
    let mut out: Vec<u8> = Vec::new();
    let mut i: usize = 0;
    while i < copy_len
        invariant
            0 <= i <= copy_len,
            copy_len <= bytes@.len(),
            bytes@ == value.spec_bytes(),
            out@ =~= value.spec_bytes().take(i as int),
        decreases copy_len - i,
    {
        let b = bytes[i];
        out.push(b);
        proof {
            assert(out@ =~= value.spec_bytes().take(i + 1 as int));
        }
        i = i + 1;
    }
    out.push(0u8);
    out
}

/// One upstream feed session and its reconciliation state.
pub struct MarketDataActor {
    /// Which feed this adapter drives; fixes the id normalization rule.
    pub kind: MarketDataSource,
    /// Set by the front-connected and front-disconnected callbacks.
    pub connected: bool,
    /// Set by the login response; cleared on disconnect.
    pub logged_in: bool,
    /// Confirmed normalized codes — updated on acks, never optimistically.
    pub subscribed: StrSet,
    /// What the distributor asked for; survives disconnects.
    pub desired: StrSet,
}

impl MarketDataActor {
    pub open spec fn wf(&self) -> bool {
        &&& self.subscribed.wf()
        &&& self.desired.wf()
    }

    pub fn new(kind: MarketDataSource) -> (r: MarketDataActor)
        ensures
            r.wf(),
            r.kind == kind,
            !r.connected,
            !r.logged_in,
            r.subscribed@ =~= Set::<Seq<char>>::empty(),
            r.desired@ =~= Set::<Seq<char>>::empty(),
    {
        MarketDataActor {
            kind,
            connected: false,
            logged_in: false,
            subscribed: StrSet::new(),
            desired: StrSet::new(),
        }
    }

    /// Normalizes one id under this adapter's rule.
    pub fn normalize(&self, id: &str) -> (r: String)
        ensures
            r@ == spec_normalize_for(self.kind, id@),
    {
        match self.kind {
            MarketDataSource::Ctp => normalize_futures(id),
            MarketDataSource::QQ => normalize_equity(id),
            MarketDataSource::Sina => normalize_equity(id),
        }
    }

    /// Handles one feed event.
    ///
    /// Connected enqueues a login; a successful login replays the desired set
    /// as a single batched subscribe; a disconnect clears the flags and the
    /// confirmed set but keeps `desired`; a subscribe ack confirms exactly
    /// its instrument, a nack confirms nothing, and an unsubscribe ack drops
    /// exactly its instrument from the confirmed set; market data is
    /// forwarded unchanged.
    pub fn on_event(&mut self, event: MarketDataEvent) -> (r: Vec<AdapterAction>)
        requires
            old(self).wf(),
        ensures
            final(self).wf(),
            final(self).kind == old(self).kind,
            match event {
                MarketDataEvent::Connected => {
                    &&& final(self).connected
                    &&& final(self).logged_in == old(self).logged_in
                    &&& final(self).subscribed@ == old(self).subscribed@
                    &&& final(self).desired@ == old(self).desired@
                    &&& r@.len() == 1
                    &&& r@[0] is Login
                },
                MarketDataEvent::Disconnected => {
                    &&& !final(self).connected
                    &&& !final(self).logged_in
                    &&& final(self).subscribed@ =~= Set::<Seq<char>>::empty()
                    &&& final(self).desired@ == old(self).desired@
                    &&& final(self).desired.sseq() == old(self).desired.sseq()
                    &&& r@.len() == 0
                },
                MarketDataEvent::LoggedIn => {
                    &&& final(self).logged_in
                    &&& final(self).connected == old(self).connected
                    &&& final(self).subscribed@ == old(self).subscribed@
                    &&& final(self).desired@ == old(self).desired@
                    &&& (if old(self).desired.sseq().len() == 0 {
                        r@.len() == 0
                    } else {
                        r@.len() == 1 && (match r@[0] {
                            AdapterAction::SubscribeMarketData(lst) => views_of(lst@)
                                == spec_sub_batch(
                                old(self).desired.sseq(),
                                old(self).kind,
                                old(self).subscribed@,
                            ),
                            _ => false,
                        })
                    })
                },
                MarketDataEvent::MarketData(snap) => {
                    &&& final(self).connected == old(self).connected
                    &&& final(self).logged_in == old(self).logged_in
                    &&& final(self).subscribed@ == old(self).subscribed@
                    &&& final(self).desired@ == old(self).desired@
                    &&& r@.len() == 1
                    &&& (match r@[0] {
                        AdapterAction::Forward(s) => s@ == snap@,
                        _ => false,
                    })
                },
                MarketDataEvent::SubscriptionSuccess(id) => {
                    &&& final(self).subscribed@ =~= old(self).subscribed@.insert(id@)
                    &&& final(self).desired@ == old(self).desired@
                    &&& final(self).connected == old(self).connected
                    &&& final(self).logged_in == old(self).logged_in
                    &&& r@.len() == 0
                },
                MarketDataEvent::SubscriptionFailure(id, reason) => {
                    &&& final(self).subscribed@ == old(self).subscribed@
                    &&& final(self).desired@ == old(self).desired@
                    &&& final(self).connected == old(self).connected
                    &&& final(self).logged_in == old(self).logged_in
                    &&& r@.len() == 0
                },
                MarketDataEvent::UnsubscriptionSuccess(id) => {
                    &&& final(self).subscribed@ =~= old(self).subscribed@.remove(id@)
                    &&& final(self).desired@ == old(self).desired@
                    &&& final(self).connected == old(self).connected
                    &&& final(self).logged_in == old(self).logged_in
                    &&& r@.len() == 0
                },
                MarketDataEvent::Error(msg) => {
                    &&& final(self).subscribed@ == old(self).subscribed@
                    &&& final(self).desired@ == old(self).desired@
                    &&& final(self).connected == old(self).connected
                    &&& final(self).logged_in == old(self).logged_in
                    &&& r@.len() == 0
                },
            },
    {
        let mut out: Vec<AdapterAction> = Vec::new();
        match event {
            MarketDataEvent::Connected => {
                self.connected = true;
                out.push(AdapterAction::Login);
            },
            MarketDataEvent::Disconnected => {
                self.connected = false;
                self.logged_in = false;
                self.subscribed = StrSet::new();
            },
            MarketDataEvent::LoggedIn => {
                self.logged_in = true;
                if self.desired.count() > 0 {
                    let batch = self.build_sub_batch_all();
                    out.push(AdapterAction::SubscribeMarketData(batch));
                }
            },
            MarketDataEvent::MarketData(snap) => {
                out.push(AdapterAction::Forward(snap));
            },
            MarketDataEvent::SubscriptionSuccess(id) => {
                self.subscribed.insert(id);
            },
            MarketDataEvent::SubscriptionFailure(_id, _reason) => {},
            MarketDataEvent::UnsubscriptionSuccess(id) => {
                self.subscribed.remove(id.as_str());
            },
            MarketDataEvent::Error(_msg) => {},
        }
        out
    }

    /// The batch for replaying every desired id.
    fn build_sub_batch_all(&self) -> (r: Vec<String>)
        requires
            self.wf(),
        ensures
            views_of(r@) == spec_sub_batch(self.desired.sseq(), self.kind, self.subscribed@),
    {
        let n = self.desired.count();
        let mut out: Vec<String> = Vec::new();
        let mut i: usize = 0;
        proof {
            reveal(Seq::filter);
            assert(self.desired.sseq().take(0) =~= Seq::<Seq<char>>::empty());
            assert(spec_sub_batch(self.desired.sseq().take(0), self.kind, self.subscribed@)
                =~= Seq::<Seq<char>>::empty());
        }
        while i < n
            invariant
                0 <= i <= n,
                n == self.desired.sseq().len(),
                self.wf(),
                views_of(out@) == spec_sub_batch(
                    self.desired.sseq().take(i as int),
                    self.kind,
                    self.subscribed@,
                ),
            decreases n - i,
        {
            let id = self.desired.elem_at(i);
            let code = self.normalize(id.as_str());
            let ghost pre = out@;
            let dropped = self.subscribed.contains(code.as_str());
            if !dropped {
                out.push(code);
            }
            proof {
                reveal(Seq::filter);
                let ds = self.desired.sseq();
                let mapped_i = ds.take(i as int).map_values(
                    |x: Seq<char>| spec_normalize_for(self.kind, x),
                );
                let mapped_i1 = ds.take(i + 1 as int).map_values(
                    |x: Seq<char>| spec_normalize_for(self.kind, x),
                );
                assert(ds.take(i + 1 as int) =~= ds.take(i as int).push(ds[i as int]));
                assert(mapped_i1 =~= mapped_i.push(spec_normalize_for(self.kind, ds[i as int])));
                assert(mapped_i1.drop_last() =~= mapped_i);
                assert(mapped_i1.filter(|nm: Seq<char>| !self.subscribed@.contains(nm))
                    == if self.subscribed@.contains(mapped_i1.last()) {
                    mapped_i.filter(|nm: Seq<char>| !self.subscribed@.contains(nm))
                } else {
                    mapped_i.filter(|nm: Seq<char>| !self.subscribed@.contains(nm)).push(
                        mapped_i1.last(),
                    )
                });
                if !dropped {
                    assert(views_of(out@) =~= views_of(pre).push(mapped_i1.last()));
                }
            }
            i = i + 1;
        }
        proof {
            assert(self.desired.sseq().take(n as int) =~= self.desired.sseq());
        }
        out
    }

    /// A request from the distributor to hold these subscriptions too.
    /// The ids join `desired`; while logged in, the not-yet-confirmed codes
    /// go out as one native subscribe call.
    pub fn request_subscribe(&mut self, ids: &Vec<String>) -> (r: Option<AdapterAction>)
        requires
            old(self).wf(),
        ensures
            final(self).wf(),
            final(self).kind == old(self).kind,
            final(self).connected == old(self).connected,
            final(self).logged_in == old(self).logged_in,
            final(self).subscribed@ == old(self).subscribed@,
            final(self).desired@ =~= old(self).desired@.union(views_of(ids@).to_set()),
            match r {
                Some(a) => old(self).logged_in && (match a {
                    AdapterAction::SubscribeMarketData(lst) => views_of(lst@) == spec_sub_batch(
                        views_of(ids@),
                        old(self).kind,
                        old(self).subscribed@,
                    ),
                    _ => false,
                }),
                None => !old(self).logged_in,
            },
    {
        let n = ids.len();
        let mut i: usize = 0;
        while i < n
            invariant
                0 <= i <= n,
                n == ids@.len(),
                self.wf(),
                self.kind == old(self).kind,
                self.connected == old(self).connected,
                self.logged_in == old(self).logged_in,
                self.subscribed@ == old(self).subscribed@,
                self.subscribed == old(self).subscribed,
                self.desired@ =~= old(self).desired@.union(
                    views_of(ids@).take(i as int).to_set(),
                ),
            decreases n - i,
        {
            self.desired.insert(ids[i].clone());
            proof {
                crate::smap::lemma_take_to_set_step(views_of(ids@), i as int);
            }
            i = i + 1;
        }
        proof {
            assert(views_of(ids@).take(n as int) =~= views_of(ids@));
        }
        if self.logged_in {
            let batch = self.build_sub_batch_for(ids);
            Some(AdapterAction::SubscribeMarketData(batch))
        } else {
            None
        }
    }

    /// The batch for a specific list of requested ids.
    fn build_sub_batch_for(&self, ids: &Vec<String>) -> (r: Vec<String>)
        requires
            self.wf(),
        ensures
            views_of(r@) == spec_sub_batch(views_of(ids@), self.kind, self.subscribed@),
    {
        let n = ids.len();
        let mut out: Vec<String> = Vec::new();
        let mut i: usize = 0;
        proof {
            reveal(Seq::filter);
            assert(views_of(ids@).take(0) =~= Seq::<Seq<char>>::empty());
            assert(spec_sub_batch(views_of(ids@).take(0), self.kind, self.subscribed@) =~= Seq::<
                Seq<char>,
            >::empty());
        }
        while i < n
            invariant
                0 <= i <= n,
                n == ids@.len(),
                self.wf(),
                views_of(out@) == spec_sub_batch(
                    views_of(ids@).take(i as int),
                    self.kind,
                    self.subscribed@,
                ),
            decreases n - i,
        {
            let code = self.normalize(ids[i].as_str());
            let ghost pre = out@;
            let dropped = self.subscribed.contains(code.as_str());
            if !dropped {
                out.push(code);
            }
            proof {
                reveal(Seq::filter);
                let vs = views_of(ids@);
                let mapped_i = vs.take(i as int).map_values(
                    |x: Seq<char>| spec_normalize_for(self.kind, x),
                );
                let mapped_i1 = vs.take(i + 1 as int).map_values(
                    |x: Seq<char>| spec_normalize_for(self.kind, x),
                );
                assert(vs.take(i + 1 as int) =~= vs.take(i as int).push(vs[i as int]));
                assert(mapped_i1 =~= mapped_i.push(spec_normalize_for(self.kind, vs[i as int])));
                assert(mapped_i1.drop_last() =~= mapped_i);
                assert(mapped_i1.filter(|nm: Seq<char>| !self.subscribed@.contains(nm))
                    == if self.subscribed@.contains(mapped_i1.last()) {
                    mapped_i.filter(|nm: Seq<char>| !self.subscribed@.contains(nm))
                } else {
                    mapped_i.filter(|nm: Seq<char>| !self.subscribed@.contains(nm)).push(
                        mapped_i1.last(),
                    )
                });
                if !dropped {
                    assert(views_of(out@) =~= views_of(pre).push(mapped_i1.last()));
                }
            }
            i = i + 1;
        }
        proof {
            assert(views_of(ids@).take(n as int) =~= views_of(ids@));
        }
        out
    }

    /// A request from the distributor to drop these subscriptions.
    /// The ids leave `desired`; while logged in, the normalized codes go out
    /// as one native unsubscribe call.
    pub fn request_unsubscribe(&mut self, ids: &Vec<String>) -> (r: Option<AdapterAction>)
        requires
            old(self).wf(),
        ensures
            final(self).wf(),
            final(self).kind == old(self).kind,
            final(self).connected == old(self).connected,
            final(self).logged_in == old(self).logged_in,
            final(self).subscribed@ == old(self).subscribed@,
            final(self).desired@ =~= old(self).desired@.difference(views_of(ids@).to_set()),
            match r {
                Some(a) => old(self).logged_in && (match a {
                    AdapterAction::UnsubscribeMarketData(lst) => views_of(lst@)
                        == spec_unsub_batch(views_of(ids@), old(self).kind),
                    _ => false,
                }),
                None => !old(self).logged_in,
            },
    {
        let n = ids.len();
        let mut i: usize = 0;
        while i < n
            invariant
                0 <= i <= n,
                n == ids@.len(),
                self.wf(),
                self.kind == old(self).kind,
                self.connected == old(self).connected,
                self.logged_in == old(self).logged_in,
                self.subscribed@ == old(self).subscribed@,
                self.subscribed == old(self).subscribed,
                self.desired@ =~= old(self).desired@.difference(
                    views_of(ids@).take(i as int).to_set(),
                ),
            decreases n - i,
        {
            self.desired.remove(ids[i].as_str());
            proof {
                let vs = views_of(ids@);
                crate::smap::lemma_take_to_set_step(vs, i as int);
                assert(self.desired@ =~= old(self).desired@.difference(
                    vs.take(i + 1 as int).to_set(),
                ));
            }
            i = i + 1;
        }
        proof {
            assert(views_of(ids@).take(n as int) =~= views_of(ids@));
        }
        if self.logged_in {
            let batch = self.build_unsub_batch(ids);
            Some(AdapterAction::UnsubscribeMarketData(batch))
        } else {
            None
        }
    }

    /// The normalized codes for an unsubscribe call.
    fn build_unsub_batch(&self, ids: &Vec<String>) -> (r: Vec<String>)
        ensures
            views_of(r@) == spec_unsub_batch(views_of(ids@), self.kind),
    {
        let n = ids.len();
        let mut out: Vec<String> = Vec::new();
        let mut i: usize = 0;
        while i < n
            invariant
                0 <= i <= n,
                n == ids@.len(),
                views_of(out@) =~= views_of(ids@).take(i as int).map_values(
                    |x: Seq<char>| spec_normalize_for(self.kind, x),
                ),
            decreases n - i,
        {
            let code = self.normalize(ids[i].as_str());
            let ghost codev = code@;
            let ghost pre = out@;
            out.push(code);
            proof {
                let vs = views_of(ids@);
                let mapped_i = vs.take(i as int).map_values(
                    |x: Seq<char>| spec_normalize_for(self.kind, x),
                );
                let mapped_i1 = vs.take(i + 1 as int).map_values(
                    |x: Seq<char>| spec_normalize_for(self.kind, x),
                );
                assert(vs.take(i + 1 as int) =~= vs.take(i as int).push(vs[i as int]));
                assert(mapped_i1 =~= mapped_i.push(spec_normalize_for(self.kind, vs[i as int])));
                assert(views_of(out@) =~= views_of(pre).push(codev));
                assert(views_of(out@) =~= mapped_i1);
            }
            i = i + 1;
        }
        proof {
            assert(views_of(ids@).take(n as int) =~= views_of(ids@));
        }
        out
    }

    /// Shutting the adapter down: every confirmed subscription goes out as
    /// one native unsubscribe call. Nothing is dropped from `desired`, so a
    /// later restart can replay it.
    pub fn request_stop(&self) -> (r: Option<AdapterAction>)
        requires
            self.wf(),
        ensures
            match r {
                Some(a) => self.logged_in && self.subscribed.sseq().len() > 0 && (match a {
                    AdapterAction::UnsubscribeMarketData(lst) => views_of(lst@)
                        == self.subscribed.sseq(),
                    _ => false,
                }),
                None => !self.logged_in || self.subscribed.sseq().len() == 0,
            },
    {
        if !self.logged_in {
            return None;
        }
        if self.subscribed.is_empty() {
            return None;
        }
        Some(AdapterAction::UnsubscribeMarketData(self.subscribed.to_vec()))
    }

    /// The confirmed subscriptions, for reconciliation.
    pub fn subscriptions(&self) -> (r: Vec<String>)
        requires
            self.wf(),
        ensures
            views_of(r@) == self.subscribed.sseq(),
            views_of(r@).to_set() =~= self.subscribed@,
    {
        self.subscribed.to_vec()
    }
}

} // verus!
