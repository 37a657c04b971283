//! The distributor: single owner of the client registry, the per-instrument
//! subscriber index, the last-snapshot cache and the source map.
//!
//! Every handler is a total function from the old state to the new state plus
//! the outputs it asks the surroundings to perform: upstream subscribe or
//! unsubscribe requests, and snapshot deliveries to clients. The two
//! subscription maps are reciprocal at every step, and no subscriber set in
//! the index is ever empty.

use vstd::prelude::*;
use crate::smap::{StrMap, StrSet};
use crate::snapshot::{Snapshot, SnapshotView};
use crate::sources::MarketDataSource;

verus! {

/// A call the distributor asks to be made on an upstream adapter.
pub enum UpstreamRequest {
    Subscribe { source: MarketDataSource, instrument: String },
    Unsubscribe { source: MarketDataSource, instrument: String },
}

/// The mathematical value of an upstream request.
pub enum RequestView {
    Subscribe { source: MarketDataSource, instrument: Seq<char> },
    Unsubscribe { source: MarketDataSource, instrument: Seq<char> },
}

impl RequestView {
    pub open spec fn instrument(self) -> Seq<char> {
        match self {
            RequestView::Subscribe { instrument, .. } => instrument,
            RequestView::Unsubscribe { instrument, .. } => instrument,
        }
    }

    pub open spec fn source(self) -> MarketDataSource {
        match self {
            RequestView::Subscribe { source, .. } => source,
            RequestView::Unsubscribe { source, .. } => source,
        }
    }

    pub open spec fn is_subscribe(self) -> bool {
        self is Subscribe
    }
}

impl View for UpstreamRequest {
    type V = RequestView;

    open spec fn view(&self) -> RequestView {
        match self {
            UpstreamRequest::Subscribe { source, instrument } => RequestView::Subscribe {
                source: *source,
                instrument: instrument@,
            },
            UpstreamRequest::Unsubscribe { source, instrument } => RequestView::Unsubscribe {
                source: *source,
                instrument: instrument@,
            },
        }
    }
}

/// One outbound snapshot hand-off: this client is to be sent this snapshot.
pub struct Delivery {
    pub client_id: String,
    pub snapshot: Snapshot,
}

/// The mathematical value of a delivery.
pub struct DeliveryView {
    pub client_id: Seq<char>,
    pub snapshot: SnapshotView,
}

impl View for Delivery {
    type V = DeliveryView;

    open spec fn view(&self) -> DeliveryView {
        DeliveryView { client_id: self.client_id@, snapshot: self.snapshot@ }
    }
}

/// The stored-value invariant carried through the client and index maps.
pub open spec fn set_wf_pred() -> spec_fn(StrSet) -> bool {
    |s: StrSet| s.wf()
}

/// The stored-value invariant carried through the snapshot cache.
pub open spec fn snap_wf_pred() -> spec_fn(Snapshot) -> bool {
    |s: Snapshot| s.wf()
}

/// The two subscription maps mirror each other exactly.
pub open spec fn reciprocal(
    cm: Map<Seq<char>, Set<Seq<char>>>,
    im: Map<Seq<char>, Set<Seq<char>>>,
) -> bool {
    forall|c: Seq<char>, i: Seq<char>|
        #![trigger cm[c].contains(i)]
        #![trigger im[i].contains(c)]
        (cm.contains_key(c) && cm[c].contains(i)) <==> (im.contains_key(i) && im[i].contains(c))
}

/// Every set held by a subscription map is finite.
pub open spec fn all_finite(m: Map<Seq<char>, Set<Seq<char>>>) -> bool {
    forall|k: Seq<char>| #[trigger] m.contains_key(k) ==> m[k].finite()
}

/// No subscriber set in the index is empty.
pub open spec fn no_empty(im: Map<Seq<char>, Set<Seq<char>>>) -> bool {
    forall|i: Seq<char>| #[trigger] im.contains_key(i) ==> im[i].len() > 0
}

/// Every cached snapshot sits under its own instrument id.
pub open spec fn cache_ids_match(cm: Map<Seq<char>, SnapshotView>) -> bool {
    forall|i: Seq<char>| #[trigger] cm.contains_key(i) ==> cm[i].instrument_id == i
}

/// The subscribers of `i`, or the empty set where `i` is unknown.
pub open spec fn base_subscribers(im: Map<Seq<char>, Set<Seq<char>>>, i: Seq<char>) -> Set<
    Seq<char>,
> {
    if im.contains_key(i) {
        im[i]
    } else {
        Set::empty()
    }
}

/// The index after client `c` stops subscribing to everything: `c` leaves
/// every subscriber set, and sets that become empty leave the index.
pub open spec fn index_after_unregister(
    im: Map<Seq<char>, Set<Seq<char>>>,
    c: Seq<char>,
) -> Map<Seq<char>, Set<Seq<char>>> {
    Map::new(
        |i: Seq<char>| im.contains_key(i) && im[i].remove(c).len() != 0,
        |i: Seq<char>| im[i].remove(c),
    )
}

/// The index after client `c`'s subscription set becomes exactly `d`.
pub open spec fn index_after_update(
    im: Map<Seq<char>, Set<Seq<char>>>,
    c: Seq<char>,
    d: Set<Seq<char>>,
) -> Map<Seq<char>, Set<Seq<char>>> {
    Map::new(
        |i: Seq<char>| (im.contains_key(i) && im[i].remove(c).len() != 0) || d.contains(i),
        |i: Seq<char>|
            if d.contains(i) {
                base_subscribers(im, i).insert(c)
            } else {
                im[i].remove(c)
            },
    )
}

/// The index after client `c` subscribes to instrument `i`.
pub open spec fn index_after_add(
    im: Map<Seq<char>, Set<Seq<char>>>,
    i: Seq<char>,
    c: Seq<char>,
) -> Map<Seq<char>, Set<Seq<char>>> {
    im.insert(i, base_subscribers(im, i).insert(c))
}

/// The index after client `c` drops instrument `i`: the set shrinks, and an
/// emptied set leaves the index.
pub open spec fn index_after_drop(
    im: Map<Seq<char>, Set<Seq<char>>>,
    i: Seq<char>,
    c: Seq<char>,
) -> Map<Seq<char>, Set<Seq<char>>> {
    if im.contains_key(i) {
        if im[i].remove(c).len() == 0 {
            im.remove(i)
        } else {
            im.insert(i, im[i].remove(c))
        }
    } else {
        im
    }
}

/// The source map after a snapshot for `i` from `src`: the first snapshot for
/// an instrument fixes its source; later ones change nothing.
pub open spec fn sources_after_snapshot(
    sm: Map<Seq<char>, MarketDataSource>,
    i: Seq<char>,
    src: MarketDataSource,
) -> Map<Seq<char>, MarketDataSource> {
    if sm.contains_key(i) {
        sm
    } else {
        sm.insert(i, src)
    }
}

/// The adapter kind preferred when an instrument has no recorded source:
/// the futures feed first, then the two equity feeds.
pub open spec fn preferred_kind(ads: Seq<MarketDataSource>) -> Option<MarketDataSource> {
    if ads.contains(MarketDataSource::Ctp) {
        Some(MarketDataSource::Ctp)
    } else if ads.contains(MarketDataSource::QQ) {
        Some(MarketDataSource::QQ)
    } else if ads.contains(MarketDataSource::Sina) {
        Some(MarketDataSource::Sina)
    } else {
        None
    }
}

/// Routing policy: the recorded source of `i` when an adapter of that kind is
/// registered, else the preferred registered kind.
pub open spec fn spec_route(
    sm: Map<Seq<char>, MarketDataSource>,
    ads: Seq<MarketDataSource>,
    i: Seq<char>,
) -> Option<MarketDataSource> {
    if sm.contains_key(i) && ads.contains(sm[i]) {
        Some(sm[i])
    } else {
        preferred_kind(ads)
    }
}

/// For every client `c` and instrument `i`: `i` is in `c`'s subscription set
/// exactly when `c` is in `i`'s subscriber set. The two maps are reciprocal
/// in every reachable distributor state.
pub proof fn lemma_reciprocal_subscriptions(
    d: &MarketDataDistributor,
    c: Seq<char>,
    i: Seq<char>,
)
    requires
        d.wf(),
    ensures
        (d.subs_map().contains_key(c) && d.subs_map()[c].contains(i)) <==> (
        d.index_map().contains_key(i) && d.index_map()[i].contains(c)),
{
    assert(reciprocal(d.subs_map(), d.index_map()));
}

/// Every instrument in the index has at least one subscriber: empty sets are
/// removed rather than kept.
pub proof fn lemma_no_empty_subscriber_set(d: &MarketDataDistributor, i: Seq<char>)
    requires
        d.wf(),
        d.index_map().contains_key(i),
    ensures
        d.index_map()[i].len() > 0,
        exists|c: Seq<char>| d.index_map()[i].contains(c),
{
    if !(exists|c: Seq<char>| d.index_map()[i].contains(c)) {
        assert(d.index_map()[i] =~= Set::<Seq<char>>::empty());
    }
}

/// After a client is unregistered, no subscriber set mentions it, and its own
/// subscription set is gone.
pub proof fn lemma_unregister_removes_client(
    im: Map<Seq<char>, Set<Seq<char>>>,
    cm: Map<Seq<char>, Set<Seq<char>>>,
    c: Seq<char>,
)
    ensures
        !cm.remove(c).contains_key(c),
        forall|i: Seq<char>|
            #[trigger] index_after_unregister(im, c).contains_key(i) ==> !index_after_unregister(
                im,
                c,
            )[i].contains(c),
{
}

/// After a client's subscription set is replaced with `d`, its subscription
/// set is exactly `d`.
pub proof fn lemma_update_sets_subscriptions(
    cm: Map<Seq<char>, Set<Seq<char>>>,
    c: Seq<char>,
    d: Set<Seq<char>>,
)
    ensures
        cm.insert(c, d).contains_key(c),
        cm.insert(c, d)[c] == d,
{
}

/// A duplicate subscribe — the client already holds the instrument — changes
/// neither map: subscription is idempotent.
pub proof fn lemma_duplicate_subscribe_idempotent(
    cm: Map<Seq<char>, Set<Seq<char>>>,
    im: Map<Seq<char>, Set<Seq<char>>>,
    c: Seq<char>,
    i: Seq<char>,
)
    requires
        reciprocal(cm, im),
        cm.contains_key(c),
        cm[c].contains(i),
    ensures
        cm.insert(c, cm[c].insert(i)) =~= cm,
        index_after_add(im, i, c) =~= im,
{
    assert(cm[c].insert(i) =~= cm[c]);
    assert(im.contains_key(i) && im[i].contains(c));
    assert(base_subscribers(im, i).insert(c) =~= im[i]);
}

/// Subscribing a client to a set of fresh instruments and then replacing its
/// subscriptions with the original set returns both maps to exactly their
/// pre-subscribe value: a subscribe of `s` followed by an unsubscribe of `s`
/// leaves the distributor state identical.
pub proof fn lemma_subscribe_then_unsubscribe(
    cm: Map<Seq<char>, Set<Seq<char>>>,
    im: Map<Seq<char>, Set<Seq<char>>>,
    c: Seq<char>,
    s: Set<Seq<char>>,
)
    requires
        reciprocal(cm, im),
        all_finite(im),
        no_empty(im),
        cm.contains_key(c),
        cm[c].disjoint(s),
    ensures
        cm.insert(c, cm[c].union(s)).insert(c, cm[c]) =~= cm,
        index_after_update(index_after_update(im, c, cm[c].union(s)), c, cm[c]) =~= im,
{
    let d0 = cm[c];
    let d1 = cm[c].union(s);
    let im1 = index_after_update(im, c, d1);
    let im2 = index_after_update(im1, c, d0);
    assert(cm.insert(c, d1).insert(c, d0) =~= cm);
    assert forall|i: Seq<char>|
        #![auto]
        true implies (im2.contains_key(i) == im.contains_key(i)) && (im.contains_key(i)
        ==> im2[i] =~= im[i]) by {
        if d0.contains(i) {
            assert(im.contains_key(i) && im[i].contains(c));
            assert(d1.contains(i));
            assert(im1.contains_key(i) && im1[i] == base_subscribers(im, i).insert(c));
            assert(im2.contains_key(i));
            assert(im2[i] == base_subscribers(im1, i).insert(c));
            assert(im2[i] =~= im[i]);
        } else if s.contains(i) {
            assert(!d0.contains(i));
            assert(d1.contains(i));
            assert(im1.contains_key(i) && im1[i] == base_subscribers(im, i).insert(c));
            if im.contains_key(i) {
                assert(!im[i].contains(c)) by {
                    if im[i].contains(c) {
                        assert(cm.contains_key(c) && cm[c].contains(i));
                    }
                }
                assert(im1[i].remove(c) =~= im[i]);
                assert(im[i].len() > 0);
                assert(im1[i].remove(c).len() != 0);
                assert(im2.contains_key(i));
                assert(im2[i] == im1[i].remove(c));
            } else {
                assert(base_subscribers(im, i) =~= Set::<Seq<char>>::empty());
                assert(im1[i].remove(c) =~= Set::<Seq<char>>::empty());
                assert(im1[i].remove(c).len() == 0);
                assert(!im2.contains_key(i));
            }
        } else {
            assert(!d1.contains(i));
            if im.contains_key(i) {
                assert(!im[i].contains(c)) by {
                    if im[i].contains(c) {
                        assert(cm.contains_key(c) && cm[c].contains(i));
                    }
                }
                assert(im[i].remove(c) =~= im[i]);
                assert(im[i].len() > 0);
                assert(im1.contains_key(i));
                assert(im1[i] == im[i].remove(c));
                assert(im1[i].remove(c) =~= im[i]);
                assert(im2.contains_key(i));
                assert(im2[i] == im1[i].remove(c));
            } else {
                assert(!im1.contains_key(i));
                assert(!im2.contains_key(i));
            }
        }
    }
}

/// The round trip of the previous lemma, stated on a reachable distributor
/// state: from any well-formed state, subscribing a client to a set of fresh
/// instruments and then replacing its subscriptions with the original set
/// returns both subscription maps to exactly their prior value. The cache,
/// the source map and the adapter list are untouched by subscription updates
/// (their ensures say so), so the whole state returns.
pub proof fn lemma_subscribe_then_unsubscribe_state(
    d: &MarketDataDistributor,
    c: Seq<char>,
    s: Set<Seq<char>>,
)
    requires
        d.wf(),
        d.subs_map().contains_key(c),
        d.subs_map()[c].disjoint(s),
    ensures
        d.subs_map().insert(c, d.subs_map()[c].union(s)).insert(c, d.subs_map()[c])
            =~= d.subs_map(),
        index_after_update(
            index_after_update(d.index_map(), c, d.subs_map()[c].union(s)),
            c,
            d.subs_map()[c],
        ) =~= d.index_map(),
{
    lemma_subscribe_then_unsubscribe(d.subs_map(), d.index_map(), c, s);
}

/// The central fan-out actor's state.
pub struct MarketDataDistributor {
    clients: StrMap<StrSet>,
    index: StrMap<StrSet>,
    cache: StrMap<Snapshot>,
    sources: StrMap<MarketDataSource>,
    adapters: Vec<MarketDataSource>,
}

impl MarketDataDistributor {
    /// Per-client subscription sets.
    pub closed spec fn subs_map(&self) -> Map<Seq<char>, Set<Seq<char>>> {
        self.clients@
    }

    /// Per-instrument subscriber sets.
    pub closed spec fn index_map(&self) -> Map<Seq<char>, Set<Seq<char>>> {
        self.index@
    }

    /// Last snapshot per instrument.
    pub closed spec fn cache_map(&self) -> Map<Seq<char>, SnapshotView> {
        self.cache@
    }

    /// Which feed kind first delivered each instrument.
    pub closed spec fn sources_map(&self) -> Map<Seq<char>, MarketDataSource> {
        self.sources@
    }

    /// Registered adapter kinds, in registration order.
    pub closed spec fn adapter_kinds(&self) -> Seq<MarketDataSource> {
        self.adapters@
    }

    /// The state invariant: well-formed containers, reciprocal maps, no empty
    /// subscriber set, and every cached snapshot under its own id.
    pub closed spec fn wf(&self) -> bool {
        &&& self.clients.wf()
        &&& self.index.wf()
        &&& self.cache.wf()
        &&& self.sources.wf()
        &&& self.clients.all_vals(set_wf_pred())
        &&& self.index.all_vals(set_wf_pred())
        &&& self.cache.all_vals(snap_wf_pred())
        &&& reciprocal(self.subs_map(), self.index_map())
        &&& all_finite(self.subs_map())
        &&& all_finite(self.index_map())
        &&& no_empty(self.index_map())
        &&& cache_ids_match(self.cache_map())
    }

    pub fn new() -> (r: MarketDataDistributor)
        ensures
            r.wf(),
            r.subs_map() =~= Map::<Seq<char>, Set<Seq<char>>>::empty(),
            r.index_map() =~= Map::<Seq<char>, Set<Seq<char>>>::empty(),
            r.cache_map() =~= Map::<Seq<char>, SnapshotView>::empty(),
            r.sources_map() =~= Map::<Seq<char>, MarketDataSource>::empty(),
            r.adapter_kinds() =~= Seq::<MarketDataSource>::empty(),
    {
        MarketDataDistributor {
            clients: StrMap::new(),
            index: StrMap::new(),
            cache: StrMap::new(),
            sources: StrMap::new(),
            adapters: Vec::new(),
        }
    }

    /// Records an upstream adapter of the given kind.
    pub fn register_adapter(&mut self, source: MarketDataSource)
        requires
            old(self).wf(),
        ensures
            final(self).wf(),
            final(self).adapter_kinds() == old(self).adapter_kinds().push(source),
            final(self).subs_map() == old(self).subs_map(),
            final(self).index_map() == old(self).index_map(),
            final(self).cache_map() == old(self).cache_map(),
            final(self).sources_map() == old(self).sources_map(),
    {
        self.adapters.push(source);
    }

    /// True when an adapter of this kind is registered.
    fn has_kind(&self, kind: MarketDataSource) -> (r: bool)
        ensures
            r == self.adapter_kinds().contains(kind),
    {
        let n = self.adapters.len();
        let mut i: usize = 0;
        while i < n
            invariant
                0 <= i <= n,
                n == self.adapters@.len(),
                forall|j: int| 0 <= j < i ==> self.adapters@[j] != kind,
            decreases n - i,
        {
            if self.adapters[i] == kind {
                proof {
                    assert(self.adapters@.contains(kind)) by {
                        assert(self.adapters@[i as int] == kind);
                    }
                }
                return true;
            }
            i = i + 1;
        }
        false
    }

    /// The adapter kind that should serve `instrument`.
    pub fn find_source_for(&self, instrument: &str) -> (r: Option<MarketDataSource>)
        requires
            self.wf(),
        ensures
            r == spec_route(self.sources_map(), self.adapter_kinds(), instrument@),
    {
        match self.sources.get(instrument) {
            Some(src) => {
                let s = *src;
                if self.has_kind(s) {
                    return Some(s);
                }
            },
            None => {},
        }
        if self.has_kind(MarketDataSource::Ctp) {
            Some(MarketDataSource::Ctp)
        } else if self.has_kind(MarketDataSource::QQ) {
            Some(MarketDataSource::QQ)
        } else if self.has_kind(MarketDataSource::Sina) {
            Some(MarketDataSource::Sina)
        } else {
            None
        }
    }

    /// Subscribes one client to one instrument. Unknown clients and duplicate
    /// subscriptions change nothing; a genuinely new subscription updates both
    /// maps, asks the routed adapter to subscribe, and replays the cached
    /// snapshot to the client if one exists.
    pub fn add_subscription(&mut self, client_id: &str, instrument: &str) -> (r: (
        Option<UpstreamRequest>,
        Option<Delivery>,
    ))
        requires
            old(self).wf(),
        ensures
            final(self).wf(),
            final(self).cache_map() == old(self).cache_map(),
            final(self).sources_map() == old(self).sources_map(),
            final(self).adapter_kinds() == old(self).adapter_kinds(),
            !(old(self).subs_map().contains_key(client_id@) && !old(
                self,
            ).subs_map()[client_id@].contains(instrument@)) ==> {
                &&& final(self).subs_map() =~= old(self).subs_map()
                &&& final(self).index_map() =~= old(self).index_map()
                &&& r.0 is None
                &&& r.1 is None
            },
            (old(self).subs_map().contains_key(client_id@) && !old(
                self,
            ).subs_map()[client_id@].contains(instrument@)) ==> {
                &&& final(self).subs_map() =~= old(self).subs_map().insert(
                    client_id@,
                    old(self).subs_map()[client_id@].insert(instrument@),
                )
                &&& final(self).index_map() =~= index_after_add(
                    old(self).index_map(),
                    instrument@,
                    client_id@,
                )
                &&& (match r.0 {
                    Some(u) => spec_route(
                        old(self).sources_map(),
                        old(self).adapter_kinds(),
                        instrument@,
                    ) == Some(u@.source()) && u@.is_subscribe() && u@.instrument()
                        == instrument@,
                    None => spec_route(
                        old(self).sources_map(),
                        old(self).adapter_kinds(),
                        instrument@,
                    ) is None,
                })
                &&& (match r.1 {
                    Some(d) => old(self).cache_map().contains_key(instrument@) && d@.client_id
                        == client_id@ && d@.snapshot == old(self).cache_map()[instrument@],
                    None => !old(self).cache_map().contains_key(instrument@),
                })
            },
    {
        let ghost c = client_id@;
        let ghost iv = instrument@;
        let ghost cm0 = self.subs_map();
        let ghost im0 = self.index_map();
        let taken = self.clients.remove(client_id);
        match taken {
            None => {
                proof {
                    assert(self.subs_map() =~= old(self).subs_map());
                }
                (None, None)
            },
            Some(mut subs_set) => {
                proof {
                    assert(set_wf_pred()(subs_set));
                    assert(subs_set@ == cm0[c]);
                }
                let had = subs_set.contains(instrument);
                subs_set.insert(instrument.to_owned());
                self.clients.insert(client_id.to_owned(), subs_set);
                proof {
                    if had {
                        assert(cm0[c].insert(iv) =~= cm0[c]);
                        assert(self.subs_map() =~= cm0.remove(c).insert(c, cm0[c]));
                        assert(self.subs_map() =~= cm0);
                    } else {
                        assert(self.subs_map() =~= cm0.insert(c, cm0[c].insert(iv)));
                    }
                }
                if had {
                    proof {
                        assert(reciprocal(self.subs_map(), self.index_map()));
                    }
                    return (None, None);
                }
                let base_taken = self.index.remove(instrument);
                let mut base = match base_taken {
                    Some(s) => {
                        proof {
                            assert(set_wf_pred()(s));
                        }
                        s
                    },
                    None => StrSet::new(),
                };
                proof {
                    assert(base@ =~= base_subscribers(im0, iv));
                }
                base.insert(client_id.to_owned());
                self.index.insert(instrument.to_owned(), base);
                proof {
                    assert(self.index_map() =~= index_after_add(im0, iv, c)) by {
                        assert(self.index_map() =~= im0.remove(iv).insert(
                            iv,
                            base_subscribers(im0, iv).insert(c),
                        ));
                    }
                    assert(reciprocal(self.subs_map(), self.index_map())) by {
                        assert forall|c2: Seq<char>, i2: Seq<char>|
                            self.subs_map().contains_key(c2) && #[trigger] self.subs_map()[c2].contains(i2) implies self.index_map().contains_key(i2) && #[trigger] self.index_map()[i2].contains(c2) by {
                            if c2 == c && i2 == iv {
                                assert(self.index_map()[iv].contains(c));
                            } else if c2 == c {
                                assert(cm0[c].contains(i2));
                                assert(im0.contains_key(i2) && im0[i2].contains(c));
                                if i2 == iv {
                                } else {
                                    assert(self.index_map()[i2] == im0[i2]);
                                }
                            } else {
                                assert(cm0.contains_key(c2) && cm0[c2].contains(i2));
                                assert(im0.contains_key(i2) && im0[i2].contains(c2));
                                if i2 == iv {
                                    assert(base_subscribers(im0, iv).contains(c2));
                                    assert(self.index_map()[i2].contains(c2));
                                } else {
                                    assert(self.index_map()[i2] == im0[i2]);
                                }
                            }
                        }
                        assert forall|c2: Seq<char>, i2: Seq<char>|
                            self.index_map().contains_key(i2) && #[trigger] self.index_map()[i2].contains(c2) implies self.subs_map().contains_key(c2) && #[trigger] self.subs_map()[c2].contains(i2) by {
                            if i2 == iv {
                                if c2 == c {
                                    assert(self.subs_map()[c].contains(iv));
                                } else {
                                    assert(base_subscribers(im0, iv).contains(c2));
                                    assert(im0.contains_key(iv) && im0[iv].contains(c2));
                                    assert(cm0.contains_key(c2) && cm0[c2].contains(iv));
                                    assert(self.subs_map()[c2].contains(i2));
                                }
                            } else {
                                assert(im0.contains_key(i2) && im0[i2].contains(c2));
                                assert(cm0.contains_key(c2) && cm0[c2].contains(i2));
                                if c2 == c {
                                    assert(self.subs_map()[c].contains(i2));
                                } else {
                                    assert(self.subs_map()[c2].contains(i2));
                                }
                            }
                        }
                    }
                    assert(no_empty(self.index_map())) by {
                        assert forall|i2: Seq<char>| #[trigger]
                            self.index_map().contains_key(i2) implies self.index_map()[i2].len() > 0 by {
                            if i2 == iv {
                                let ns = base_subscribers(im0, iv).insert(c);
                                assert(ns.contains(c));
                                assert(ns.finite());
                                if ns.len() == 0 {
                                    assert(ns =~= Set::<Seq<char>>::empty());
                                }
                            } else {
                                assert(im0.contains_key(i2));
                            }
                        }
                    }
                    assert(all_finite(self.index_map())) by {
                        assert forall|i2: Seq<char>| #[trigger]
                            self.index_map().contains_key(i2) implies self.index_map()[i2].finite() by {
                            if i2 != iv {
                                assert(im0.contains_key(i2));
                            }
                        }
                    }
                    assert(all_finite(self.subs_map())) by {
                        assert forall|c2: Seq<char>| #[trigger]
                            self.subs_map().contains_key(c2) implies self.subs_map()[c2].finite() by {
                            if c2 != c {
                                assert(cm0.contains_key(c2));
                            }
                        }
                    }
                }
                let req = match self.find_source_for_inner(instrument) {
                    Some(src) => Some(
                        UpstreamRequest::Subscribe {
                            source: src,
                            instrument: instrument.to_owned(),
                        },
                    ),
                    None => None,
                };
                let rep = match self.cache.get(instrument) {
                    Some(sn) => {
                        proof {
                            assert(snap_wf_pred()(*sn));
                        }
                        Some(
                            Delivery {
                                client_id: client_id.to_owned(),
                                snapshot: sn.duplicate(),
                            },
                        )
                    },
                    None => None,
                };
                (req, rep)
            },
        }
    }

    /// Routing lookup usable while the subscription maps are mid-change: it
    /// reads only the source map and the adapter list.
    fn find_source_for_inner(&self, instrument: &str) -> (r: Option<MarketDataSource>)
        requires
            self.sources.wf(),
        ensures
            r == spec_route(self.sources_map(), self.adapter_kinds(), instrument@),
    {
        match self.sources.get(instrument) {
            Some(src) => {
                let s = *src;
                if self.has_kind(s) {
                    return Some(s);
                }
            },
            None => {},
        }
        if self.has_kind(MarketDataSource::Ctp) {
            Some(MarketDataSource::Ctp)
        } else if self.has_kind(MarketDataSource::QQ) {
            Some(MarketDataSource::QQ)
        } else if self.has_kind(MarketDataSource::Sina) {
            Some(MarketDataSource::Sina)
        } else {
            None
        }
    }

    /// Drops one instrument from one client. Unknown clients and instruments
    /// the client does not hold change nothing; dropping the last subscriber
    /// of an instrument produces an unsubscribe request, routed by the full
    /// policy — the recorded source when one exists, else the preferred
    /// registered adapter kind.
    pub fn remove_subscription(&mut self, client_id: &str, instrument: &str) -> (r: Option<
        UpstreamRequest,
    >)
        requires
            old(self).wf(),
        ensures
            final(self).wf(),
            final(self).cache_map() == old(self).cache_map(),
            final(self).sources_map() == old(self).sources_map(),
            final(self).adapter_kinds() == old(self).adapter_kinds(),
            !(old(self).subs_map().contains_key(client_id@) && old(
                self,
            ).subs_map()[client_id@].contains(instrument@)) ==> {
                &&& final(self).subs_map() =~= old(self).subs_map()
                &&& final(self).index_map() =~= old(self).index_map()
                &&& r is None
            },
            (old(self).subs_map().contains_key(client_id@) && old(
                self,
            ).subs_map()[client_id@].contains(instrument@)) ==> {
                &&& final(self).subs_map() =~= old(self).subs_map().insert(
                    client_id@,
                    old(self).subs_map()[client_id@].remove(instrument@),
                )
                &&& final(self).index_map() =~= index_after_drop(
                    old(self).index_map(),
                    instrument@,
                    client_id@,
                )
                &&& (match r {
                    Some(u) => old(self).index_map()[instrument@].remove(client_id@).len() == 0
                        && !u@.is_subscribe() && spec_route(
                        old(self).sources_map(),
                        old(self).adapter_kinds(),
                        instrument@,
                    ) == Some(u@.source()) && u@.instrument() == instrument@,
                    None => !(old(self).index_map()[instrument@].remove(client_id@).len() == 0
                        && spec_route(
                        old(self).sources_map(),
                        old(self).adapter_kinds(),
                        instrument@,
                    ) is Some),
                })
            },
    {
        let ghost c = client_id@;
        let ghost iv = instrument@;
        let ghost cm0 = self.subs_map();
        let ghost im0 = self.index_map();
        let taken = self.clients.remove(client_id);
        match taken {
            None => {
                proof {
                    assert(self.subs_map() =~= old(self).subs_map());
                }
                None
            },
            Some(mut subs_set) => {
                proof {
                    assert(set_wf_pred()(subs_set));
                    assert(subs_set@ == cm0[c]);
                }
                let had = subs_set.contains(instrument);
                subs_set.remove(instrument);
                self.clients.insert(client_id.to_owned(), subs_set);
                proof {
                    if !had {
                        assert(cm0[c].remove(iv) =~= cm0[c]);
                        assert(self.subs_map() =~= cm0);
                    } else {
                        assert(self.subs_map() =~= cm0.insert(c, cm0[c].remove(iv)));
                    }
                }
                if !had {
                    proof {
                        assert(reciprocal(self.subs_map(), self.index_map()));
                    }
                    return None;
                }
                proof {
                    assert(im0.contains_key(iv) && im0[iv].contains(c));
                }
                let base_taken = self.index.remove(instrument);
                let mut base = match base_taken {
                    Some(s) => {
                        proof {
                            assert(set_wf_pred()(s));
                        }
                        s
                    },
                    None => {
                        proof {
                            assert(false);
                        }
                        StrSet::new()
                    },
                };
                proof {
                    assert(base@ =~= im0[iv]);
                }
                base.remove(client_id);
                proof {
                    assert(base@ =~= im0[iv].remove(c));
                }
                let emptied = base.is_empty();
                proof {
                    base.sseq().unique_seq_to_set();
                    assert(emptied == (im0[iv].remove(c).len() == 0));
                }
                if !emptied {
                    self.index.insert(instrument.to_owned(), base);
                    proof {
                        assert(self.index_map() =~= index_after_drop(im0, iv, c)) by {
                            assert(self.index_map() =~= im0.remove(iv).insert(
                                iv,
                                im0[iv].remove(c),
                            ));
                        }
                    }
                } else {
                    proof {
                        assert(self.index_map() =~= index_after_drop(im0, iv, c));
                    }
                }
                proof {
                    assert(reciprocal(self.subs_map(), self.index_map())) by {
                        assert forall|c2: Seq<char>, i2: Seq<char>|
                            self.subs_map().contains_key(c2) && #[trigger] self.subs_map()[c2].contains(i2) implies self.index_map().contains_key(i2) && #[trigger] self.index_map()[i2].contains(c2) by {
                            assert(cm0.contains_key(c2) && cm0[c2].contains(i2));
                            assert(!(c2 == c && i2 == iv));
                            assert(im0.contains_key(i2) && im0[i2].contains(c2));
                            if i2 == iv {
                                assert(im0[iv].remove(c).contains(c2));
                                assert(im0[iv].remove(c).len() != 0) by {
                                    if im0[iv].remove(c).len() == 0 {
                                        assert(im0[iv].remove(c) =~= Set::<Seq<char>>::empty());
                                    }
                                }
                            }
                        }
                        assert forall|c2: Seq<char>, i2: Seq<char>|
                            self.index_map().contains_key(i2) && #[trigger] self.index_map()[i2].contains(c2) implies self.subs_map().contains_key(c2) && #[trigger] self.subs_map()[c2].contains(i2) by {
                            if i2 == iv {
                                assert(im0[iv].remove(c).contains(c2));
                                assert(c2 != c);
                            }
                            assert(im0.contains_key(i2) && im0[i2].contains(c2));
                            assert(cm0.contains_key(c2) && cm0[c2].contains(i2));
                        }
                    }
                    assert(no_empty(self.index_map())) by {
                        assert forall|i2: Seq<char>| #[trigger]
                            self.index_map().contains_key(i2) implies self.index_map()[i2].len() > 0 by {
                            if i2 != iv {
                                assert(im0.contains_key(i2));
                            }
                        }
                    }
                    assert(all_finite(self.index_map())) by {
                        assert forall|i2: Seq<char>| #[trigger]
                            self.index_map().contains_key(i2) implies self.index_map()[i2].finite() by {
                            if i2 != iv {
                                assert(im0.contains_key(i2));
                            }
                        }
                    }
                    assert(all_finite(self.subs_map())) by {
                        assert forall|c2: Seq<char>| #[trigger]
                            self.subs_map().contains_key(c2) implies self.subs_map()[c2].finite() by {
                            if c2 != c {
                                assert(cm0.contains_key(c2));
                            }
                        }
                    }
                }
                if emptied {
                    match self.find_source_for_inner(instrument) {
                        Some(source) => Some(
                            UpstreamRequest::Unsubscribe {
                                source,
                                instrument: instrument.to_owned(),
                            },
                        ),
                        None => None,
                    }
                } else {
                    None
                }
            },
        }
    }

    /// Replaces one client's subscription set with exactly `desired`.
    ///
    /// Newly added instruments are subscribed upstream via the routing policy
    /// and replayed from the cache; instruments the client drops leave its
    /// subscriber sets, and sets that become empty trigger an unsubscribe
    /// request routed by the same policy. An unknown client changes nothing.
    #[verifier::rlimit(100)]
    pub fn update_subscription(&mut self, client_id: &str, desired: &Vec<String>) -> (r: (
        Vec<UpstreamRequest>,
        Vec<Delivery>,
    ))
        requires
            old(self).wf(),
        ensures
            final(self).wf(),
            final(self).cache_map() == old(self).cache_map(),
            final(self).sources_map() == old(self).sources_map(),
            final(self).adapter_kinds() == old(self).adapter_kinds(),
            !old(self).subs_map().contains_key(client_id@) ==> {
                &&& final(self).subs_map() =~= old(self).subs_map()
                &&& final(self).index_map() =~= old(self).index_map()
                &&& r.0@.len() == 0
                &&& r.1@.len() == 0
            },
            old(self).subs_map().contains_key(client_id@) ==> {
                let c = client_id@;
                let d = crate::smap::views_of(desired@).to_set();
                let cm0 = old(self).subs_map();
                let im0 = old(self).index_map();
                let sm0 = old(self).sources_map();
                let ads0 = old(self).adapter_kinds();
                let cache0 = old(self).cache_map();
                &&& final(self).subs_map() =~= cm0.insert(c, d)
                &&& final(self).index_map() =~= index_after_update(im0, c, d)
                &&& (forall|q: int|
                    0 <= q < r.0@.len() ==> {
                        let u = #[trigger] r.0@[q]@;
                        if u.is_subscribe() {
                            &&& d.contains(u.instrument())
                            &&& !cm0[c].contains(u.instrument())
                            &&& spec_route(sm0, ads0, u.instrument()) == Some(u.source())
                        } else {
                            &&& cm0[c].contains(u.instrument())
                            &&& !d.contains(u.instrument())
                            &&& im0[u.instrument()].remove(c).len() == 0
                            &&& spec_route(sm0, ads0, u.instrument()) == Some(u.source())
                        }
                    })
                &&& (forall|i: Seq<char>|
                    #![trigger d.contains(i), cm0[c].contains(i)]
                    (d.contains(i) && !cm0[c].contains(i) && spec_route(sm0, ads0, i) is Some)
                        ==> exists|q: int|
                        0 <= q < r.0@.len() && r.0@[q]@.is_subscribe() && r.0@[q]@.instrument()
                            == i)
                &&& (forall|i: Seq<char>|
                    #![trigger cm0[c].contains(i), d.contains(i)]
                    (cm0[c].contains(i) && !d.contains(i) && im0[i].remove(c).len() == 0
                        && spec_route(sm0, ads0, i) is Some) ==> exists|q: int|
                        0 <= q < r.0@.len() && !r.0@[q]@.is_subscribe() && r.0@[q]@.instrument()
                            == i)
                &&& (forall|q1: int, q2: int|
                    0 <= q1 < q2 < r.0@.len() ==> r.0@[q1]@.instrument() != r.0@[q2]@.instrument())
                &&& (forall|q: int|
                    0 <= q < r.1@.len() ==> {
                        let dv = #[trigger] r.1@[q]@;
                        &&& dv.client_id == c
                        &&& d.contains(dv.snapshot.instrument_id)
                        &&& !cm0[c].contains(dv.snapshot.instrument_id)
                        &&& cache0.contains_key(dv.snapshot.instrument_id)
                        &&& dv.snapshot == cache0[dv.snapshot.instrument_id]
                    })
                &&& (forall|i: Seq<char>|
                    #![trigger cache0.contains_key(i), d.contains(i)]
                    (d.contains(i) && !cm0[c].contains(i) && cache0.contains_key(i)) ==> exists|
                        q: int|
                        0 <= q < r.1@.len() && r.1@[q]@.snapshot.instrument_id == i)
                &&& (forall|q1: int, q2: int|
                    0 <= q1 < q2 < r.1@.len() ==> r.1@[q1]@.snapshot.instrument_id != r.1@[q2]@.snapshot.instrument_id)
            },
    {
        let ghost c = client_id@;
        let ghost cm0 = self.subs_map();
        let ghost im0 = self.index_map();
        let ghost sm0 = self.sources_map();
        let ghost ads0 = self.adapter_kinds();
        let ghost cache0 = self.cache_map();
        if !self.clients.contains_key(client_id) {
            return (Vec::new(), Vec::new());
        }
        // Deduplicate the desired list into a set.
        let mut newset = StrSet::new();
        let nk = desired.len();
        let mut k: usize = 0;
        while k < nk
            invariant
                0 <= k <= nk,
                nk == desired@.len(),
                newset.wf(),
                newset@ =~= crate::smap::views_of(desired@).take(k as int).to_set(),
            decreases nk - k,
        {
            newset.insert(desired[k].clone());
            proof {
                let vs = crate::smap::views_of(desired@);
                assert(vs[k as int] == desired@[k as int]@);
                crate::smap::lemma_take_to_set_step(vs, k as int);
            }
            k = k + 1;
        }
        proof {
            assert(crate::smap::views_of(desired@).take(nk as int) =~= crate::smap::views_of(
                desired@,
            ));
        }
        let ghost d = crate::smap::views_of(desired@).to_set();
        let ghost ns = newset.sseq();
        proof {
            assert(ns.to_set() =~= d);
        }
        // Current subscriptions of the client.
        let cur = match self.clients.get(client_id) {
            Some(stored) => {
                proof {
                    assert(set_wf_pred()(*stored));
                }
                stored.duplicate()
            },
            None => {
                proof {
                    assert(false);
                }
                StrSet::new()
            },
        };
        proof {
            assert(cur@ == cm0[c]);
        }
        let mut requests: Vec<UpstreamRequest> = Vec::new();
        let mut replays: Vec<Delivery> = Vec::new();
        // Phase one: subscribe what is new.
        let na = newset.count();
        proof {
            assert(ns.take(0).to_set() =~= Set::<Seq<char>>::empty());
            assert(cm0[c].union(ns.take(0).to_set()) =~= cm0[c]);
            assert(self.subs_map() =~= cm0.insert(c, cm0[c].union(ns.take(0).to_set())));
        }
        let mut j: usize = 0;
        while j < na
            invariant
                0 <= j <= na,
                na == ns.len(),
                newset.wf(),
                newset.sseq() == ns,
                cur.wf(),
                cur@ == cm0[c],
                cm0.contains_key(c),
                self.wf(),
                self.cache_map() == cache0,
                self.sources_map() == sm0,
                self.adapter_kinds() == ads0,
                self.subs_map() =~= cm0.insert(c, cm0[c].union(ns.take(j as int).to_set())),
                forall|i: Seq<char>|
                    #![trigger self.index_map().contains_key(i)]
                    #![trigger self.index_map()[i]]
                    {
                        if ns.take(j as int).contains(i) && !cm0[c].contains(i) {
                            self.index_map().contains_key(i) && self.index_map()[i]
                                =~= base_subscribers(im0, i).insert(c)
                        } else {
                            (self.index_map().contains_key(i) == im0.contains_key(i)) && (
                            im0.contains_key(i) ==> self.index_map()[i] == im0[i])
                        }
                    },
                forall|q: int|
                    0 <= q < requests@.len() ==> {
                        let u = #[trigger] requests@[q]@;
                        &&& u.is_subscribe()
                        &&& ns.take(j as int).contains(u.instrument())
                        &&& !cm0[c].contains(u.instrument())
                        &&& spec_route(sm0, ads0, u.instrument()) == Some(u.source())
                    },
                forall|i: Seq<char>|
                    (#[trigger] ns.take(j as int).contains(i) && !cm0[c].contains(i)
                        && spec_route(sm0, ads0, i) is Some) ==> exists|q: int|
                        0 <= q < requests@.len() && requests@[q]@.is_subscribe() && requests@[q]@.instrument() == i,
                forall|q1: int, q2: int|
                    0 <= q1 < q2 < requests@.len() ==> requests@[q1]@.instrument() != requests@[q2]@.instrument(),
                forall|q: int|
                    0 <= q < replays@.len() ==> {
                        let dv = #[trigger] replays@[q]@;
                        &&& dv.client_id == c
                        &&& ns.take(j as int).contains(dv.snapshot.instrument_id)
                        &&& !cm0[c].contains(dv.snapshot.instrument_id)
                        &&& cache0.contains_key(dv.snapshot.instrument_id)
                        &&& dv.snapshot == cache0[dv.snapshot.instrument_id]
                    },
                forall|i: Seq<char>|
                    (#[trigger] ns.take(j as int).contains(i) && !cm0[c].contains(i)
                        && cache0.contains_key(i)) ==> exists|q: int|
                        0 <= q < replays@.len() && replays@[q]@.snapshot.instrument_id == i,
                forall|q1: int, q2: int|
                    0 <= q1 < q2 < replays@.len() ==> replays@[q1]@.snapshot.instrument_id
                        != replays@[q2]@.snapshot.instrument_id,
            decreases na - j,
        {
            let inst = newset.elem_at(j).clone();
            let ghost iv = inst@;
            proof {
                assert(ns[j as int] == iv);
                assert(!ns.take(j as int).contains(iv)) by {
                    newset.sseq().unique_seq_to_set();
                    if ns.take(j as int).contains(iv) {
                        let w = choose|w: int|
                            0 <= w < j && #[trigger] ns.take(j as int)[w] == iv;
                        assert(ns[w] == iv);
                    }
                }
                assert(self.subs_map()[c].contains(iv) == cm0[c].union(ns.take(
                    j as int,
                ).to_set()).contains(iv));
            }
            if !cur.contains(inst.as_str()) {
                let ghost pre_reqs = requests@;
                let ghost pre_reps = replays@;
                proof {
                    assert(!self.subs_map()[c].contains(iv)) by {
                        assert(!cm0[c].contains(iv));
                        assert(!ns.take(j as int).to_set().contains(iv));
                    }
                    assert(self.subs_map().contains_key(c));
                }
                let (req, rep) = self.add_subscription(client_id, inst.as_str());
                proof {
                    assert(self.subs_map() =~= cm0.insert(
                        c,
                        cm0[c].union(ns.take(j + 1 as int).to_set()),
                    )) by {
                        assert(ns.take(j + 1 as int) =~= ns.take(j as int).push(iv));
                        assert forall|y: Seq<char>| #[trigger]
                            ns.take(j + 1 as int).contains(y) implies ns.take(
                            j as int).contains(y) || y == iv by {
                            let w = choose|w: int|
                                0 <= w < j + 1 && #[trigger] ns.take(j + 1 as int)[w] == y;
                            if w < j {
                                assert(ns.take(j as int)[w] == y);
                            }
                        }
                        assert forall|y: Seq<char>|
                            ns.take(j as int).contains(y) implies #[trigger] ns.take(
                            j + 1 as int).contains(y) by {
                            let w = choose|w: int|
                                0 <= w < j && #[trigger] ns.take(j as int)[w] == y;
                            assert(ns.take(j + 1 as int)[w] == y);
                        }
                        assert(ns.take(j + 1 as int)[j as int] == iv);
                        assert(ns.take(j + 1 as int).contains(iv));
                        assert(cm0[c].union(ns.take(j as int).to_set()).insert(iv) =~= cm0[
                            c].union(ns.take(j + 1 as int).to_set()));
                    }
                }
                match req {
                    Some(u) => {
                        requests.push(u);
                        proof {
                            assert(requests@[pre_reqs.len() as int]@.instrument() == iv);
                            assert forall|q1: int, q2: int|
                                0 <= q1 < q2 < requests@.len() implies requests@[
                                q1]@.instrument() != requests@[q2]@.instrument() by {
                                if q2 == pre_reqs.len() {
                                    assert(ns.take(j as int).contains(requests@[
                                        q1]@.instrument()));
                                }
                            }
                        }
                    },
                    None => {},
                }
                match rep {
                    Some(dv) => {
                        replays.push(dv);
                        proof {
                            assert(replays@[pre_reps.len() as int]@.snapshot.instrument_id
                                == iv) by {
                                assert(cache_ids_match(cache0));
                            }
                            assert forall|q1: int, q2: int|
                                0 <= q1 < q2 < replays@.len() implies replays@[
                                q1]@.snapshot.instrument_id != replays@[
                                q2]@.snapshot.instrument_id by {
                                if q2 == pre_reps.len() {
                                    assert(ns.take(j as int).contains(replays@[
                                        q1]@.snapshot.instrument_id));
                                }
                            }
                        }
                    },
                    None => {},
                }
                proof {
                    assert forall|i2: Seq<char>|
                        (#[trigger] ns.take(j as int).contains(i2) && !cm0[c].contains(i2)
                            && spec_route(sm0, ads0, i2) is Some) implies exists|q: int|
                        0 <= q < requests@.len() && requests@[q]@.is_subscribe() && requests@[q]@.instrument() == i2 by {
                        let q0 = choose|q: int|
                            0 <= q < pre_reqs.len() && pre_reqs[q]@.is_subscribe() && pre_reqs[
                            q]@.instrument() == i2;
                        assert(requests@[q0]@.instrument() == i2);
                    }
                    assert forall|i2: Seq<char>|
                        (#[trigger] ns.take(j as int).contains(i2) && !cm0[c].contains(i2)
                            && cache0.contains_key(i2)) implies exists|q: int|
                        0 <= q < replays@.len() && replays@[q]@.snapshot.instrument_id == i2 by {
                        let q0 = choose|q: int|
                            0 <= q < pre_reps.len() && pre_reps[q]@.snapshot.instrument_id
                                == i2;
                        assert(replays@[q0]@.snapshot.instrument_id == i2);
                    }
                }
            } else {
                proof {
                    assert(ns.take(j + 1 as int) =~= ns.take(j as int).push(iv));
                    assert forall|y: Seq<char>| #[trigger]
                        ns.take(j + 1 as int).contains(y) implies ns.take(j as int).contains(y)
                        || y == iv by {
                        let w = choose|w: int|
                            0 <= w < j + 1 && #[trigger] ns.take(j + 1 as int)[w] == y;
                        if w < j {
                            assert(ns.take(j as int)[w] == y);
                        }
                    }
                    assert forall|y: Seq<char>|
                        ns.take(j as int).contains(y) implies #[trigger] ns.take(
                        j + 1 as int).contains(y) by {
                        let w = choose|w: int| 0 <= w < j && #[trigger] ns.take(j as int)[w] == y;
                        assert(ns.take(j + 1 as int)[w] == y);
                    }
                    assert(self.subs_map() =~= cm0.insert(
                        c,
                        cm0[c].union(ns.take(j + 1 as int).to_set()),
                    )) by {
                        assert(cm0[c].union(ns.take(j as int).to_set()) =~= cm0[c].union(
                            ns.take(j + 1 as int).to_set(),
                        ));
                    }
                }
            }
            proof {
                assert(ns.take(j + 1 as int).contains(ns[j as int])) by {
                    assert(ns.take(j + 1 as int)[j as int] == ns[j as int]);
                }
                assert forall|y: Seq<char>| #[trigger]
                    ns.take(j + 1 as int).contains(y) implies ns.take(j as int).contains(y) || y
                    == iv by {
                    let w = choose|w: int|
                        0 <= w < j + 1 && #[trigger] ns.take(j + 1 as int)[w] == y;
                    if w < j {
                        assert(ns.take(j as int)[w] == y);
                    }
                }
                assert forall|y: Seq<char>|
                    ns.take(j as int).contains(y) implies #[trigger] ns.take(
                    j + 1 as int).contains(y) by {
                    let w = choose|w: int| 0 <= w < j && #[trigger] ns.take(j as int)[w] == y;
                    assert(ns.take(j + 1 as int)[w] == y);
                }
            }
            j = j + 1;
        }
        proof {
            assert(ns.take(na as int) =~= ns);
        }
        // Phase two: drop what the client no longer wants.
        let ghost cs = cur.sseq();
        let nr = cur.count();
        proof {
            assert(cs.take(0).to_set() =~= Set::<Seq<char>>::empty());
            assert(cs.take(0).to_set().difference(d) =~= Set::<Seq<char>>::empty());
            assert(cm0[c].union(d).difference(cs.take(0).to_set().difference(d)) =~= cm0[
                c].union(d));
            assert(cm0[c].union(ns.take(na as int).to_set()) =~= cm0[c].union(d));
            assert(self.subs_map() =~= cm0.insert(
                c,
                cm0[c].union(d).difference(cs.take(0).to_set().difference(d)),
            ));
        }
        let mut j2: usize = 0;
        while j2 < nr
            invariant
                0 <= j2 <= nr,
                nr == cs.len(),
                cur.wf(),
                cur.sseq() == cs,
                cur@ == cm0[c],
                cm0.contains_key(c),
                newset.wf(),
                newset@ =~= d,
                self.wf(),
                self.cache_map() == cache0,
                self.sources_map() == sm0,
                self.adapter_kinds() == ads0,
                self.subs_map() =~= cm0.insert(
                    c,
                    cm0[c].union(d).difference(cs.take(j2 as int).to_set().difference(d)),
                ),
                forall|i: Seq<char>|
                    #![trigger self.index_map().contains_key(i)]
                    #![trigger self.index_map()[i]]
                    {
                        if cs.take(j2 as int).contains(i) && !d.contains(i) {
                            if im0[i].remove(c).len() == 0 {
                                !self.index_map().contains_key(i)
                            } else {
                                self.index_map().contains_key(i) && self.index_map()[i] =~= im0[i].remove(c)
                            }
                        } else if d.contains(i) && !cm0[c].contains(i) {
                            self.index_map().contains_key(i) && self.index_map()[i]
                                =~= base_subscribers(im0, i).insert(c)
                        } else {
                            (self.index_map().contains_key(i) == im0.contains_key(i)) && (
                            im0.contains_key(i) ==> self.index_map()[i] == im0[i])
                        }
                    },
                forall|q: int|
                    0 <= q < requests@.len() ==> {
                        let u = #[trigger] requests@[q]@;
                        if u.is_subscribe() {
                            &&& d.contains(u.instrument())
                            &&& !cm0[c].contains(u.instrument())
                            &&& spec_route(sm0, ads0, u.instrument()) == Some(u.source())
                        } else {
                            &&& cs.take(j2 as int).contains(u.instrument())
                            &&& cm0[c].contains(u.instrument())
                            &&& !d.contains(u.instrument())
                            &&& im0[u.instrument()].remove(c).len() == 0
                            &&& spec_route(sm0, ads0, u.instrument()) == Some(u.source())
                        }
                    },
                forall|i: Seq<char>|
                    #![trigger d.contains(i), cm0[c].contains(i)]
                    (d.contains(i) && !cm0[c].contains(i) && spec_route(sm0, ads0, i) is Some)
                        ==> exists|q: int|
                        0 <= q < requests@.len() && requests@[q]@.is_subscribe() && requests@[q]@.instrument() == i,
                forall|i: Seq<char>|
                    (#[trigger] cs.take(j2 as int).contains(i) && !d.contains(i) && im0[i].remove(c).len() == 0 && spec_route(sm0, ads0, i) is Some) ==> exists|q: int|
                        0 <= q < requests@.len() && !requests@[q]@.is_subscribe() && requests@[q]@.instrument() == i,
                forall|q1: int, q2: int|
                    0 <= q1 < q2 < requests@.len() ==> requests@[q1]@.instrument() != requests@[q2]@.instrument(),
                forall|q: int|
                    0 <= q < replays@.len() ==> {
                        let dv = #[trigger] replays@[q]@;
                        &&& dv.client_id == c
                        &&& d.contains(dv.snapshot.instrument_id)
                        &&& !cm0[c].contains(dv.snapshot.instrument_id)
                        &&& cache0.contains_key(dv.snapshot.instrument_id)
                        &&& dv.snapshot == cache0[dv.snapshot.instrument_id]
                    },
                forall|i: Seq<char>|
                    #![trigger cache0.contains_key(i), d.contains(i)]
                    (d.contains(i) && !cm0[c].contains(i) && cache0.contains_key(i)) ==> exists|
                        q: int|
                        0 <= q < replays@.len() && replays@[q]@.snapshot.instrument_id == i,
                forall|q1: int, q2: int|
                    0 <= q1 < q2 < replays@.len() ==> replays@[q1]@.snapshot.instrument_id
                        != replays@[q2]@.snapshot.instrument_id,
            decreases nr - j2,
        {
            let inst = cur.elem_at(j2).clone();
            let ghost iv = inst@;
            proof {
                assert(cs[j2 as int] == iv);
                assert(cm0[c].contains(iv)) by {
                    assert(cs.contains(iv));
                }
                assert(!cs.take(j2 as int).contains(iv)) by {
                    cur.sseq().unique_seq_to_set();
                    if cs.take(j2 as int).contains(iv) {
                        let w = choose|w: int|
                            0 <= w < j2 && #[trigger] cs.take(j2 as int)[w] == iv;
                        assert(cs[w] == iv);
                    }
                }
            }
            if !newset.contains(inst.as_str()) {
                let ghost pre_reqs = requests@;
                proof {
                    assert(!d.contains(iv));
                    assert(self.subs_map().contains_key(c));
                    assert(self.subs_map()[c].contains(iv)) by {
                        assert(cm0[c].union(d).contains(iv));
                        assert(!cs.take(j2 as int).to_set().difference(d).contains(iv));
                    }
                    // this instrument was untouched by phase one
                    assert(self.index_map().contains_key(iv) == im0.contains_key(iv) && (
                    im0.contains_key(iv) ==> self.index_map()[iv] == im0[iv]));
                    assert(im0.contains_key(iv) && im0[iv].contains(c)) by {
                        assert(cm0.contains_key(c) && cm0[c].contains(iv));
                    }
                }
                let req = self.remove_subscription(client_id, inst.as_str());
                proof {
                    assert(cs.take(j2 + 1 as int) =~= cs.take(j2 as int).push(iv));
                    assert forall|y: Seq<char>| #[trigger]
                        cs.take(j2 + 1 as int).contains(y) implies cs.take(j2 as int).contains(
                        y) || y == iv by {
                        let w = choose|w: int|
                            0 <= w < j2 + 1 && #[trigger] cs.take(j2 + 1 as int)[w] == y;
                        if w < j2 {
                            assert(cs.take(j2 as int)[w] == y);
                        }
                    }
                    assert forall|y: Seq<char>|
                        cs.take(j2 as int).contains(y) implies #[trigger] cs.take(
                        j2 + 1 as int).contains(y) by {
                        let w = choose|w: int|
                            0 <= w < j2 && #[trigger] cs.take(j2 as int)[w] == y;
                        assert(cs.take(j2 + 1 as int)[w] == y);
                    }
                    assert(cs.take(j2 + 1 as int).contains(iv)) by {
                        assert(cs.take(j2 + 1 as int)[j2 as int] == iv);
                    }
                    assert(cs.take(j2 + 1 as int).to_set() =~= cs.take(
                        j2 as int,
                    ).to_set().insert(iv));
                    assert(cs.take(j2 + 1 as int).to_set().difference(d) =~= cs.take(
                        j2 as int,
                    ).to_set().difference(d).insert(iv));
                    assert(cm0[c].union(d).difference(cs.take(j2 as int).to_set().difference(
                        d,
                    )).remove(iv) =~= cm0[c].union(d).difference(cs.take(
                        j2 + 1 as int,
                    ).to_set().difference(d)));
                    assert(self.subs_map() =~= cm0.insert(
                        c,
                        cm0[c].union(d).difference(cs.take(j2 + 1 as int).to_set().difference(
                            d,
                        )),
                    ));
                }
                match req {
                    Some(u) => {
                        requests.push(u);
                        proof {
                            assert(requests@[pre_reqs.len() as int]@.instrument() == iv);
                            assert(!requests@[pre_reqs.len() as int]@.is_subscribe());
                            assert forall|q1: int, q2: int|
                                0 <= q1 < q2 < requests@.len() implies requests@[
                                q1]@.instrument() != requests@[q2]@.instrument() by {
                                if q2 == pre_reqs.len() {
                                    let u1 = requests@[q1]@;
                                    if u1.is_subscribe() {
                                        assert(d.contains(u1.instrument()));
                                    } else {
                                        assert(cs.take(j2 as int).contains(u1.instrument()));
                                    }
                                }
                            }
                            assert forall|i2: Seq<char>|
                                (#[trigger] cs.take(j2 as int).contains(i2) && !d.contains(i2)
                                    && im0[i2].remove(c).len() == 0 && spec_route(
                                    sm0,
                                    ads0,
                                    i2,
                                ) is Some) implies exists|q: int|
                                0 <= q < requests@.len() && !requests@[q]@.is_subscribe()
                                    && requests@[q]@.instrument() == i2 by {
                                let q0 = choose|q: int|
                                    0 <= q < pre_reqs.len() && !pre_reqs[q]@.is_subscribe()
                                        && pre_reqs[q]@.instrument() == i2;
                                assert(requests@[q0]@.instrument() == i2);
                            }
                            assert forall|i2: Seq<char>|
                                #![trigger d.contains(i2), cm0[c].contains(i2)]
                                (d.contains(i2) && !cm0[c].contains(i2) && spec_route(
                                    sm0,
                                    ads0,
                                    i2,
                                ) is Some) implies exists|q: int|
                                0 <= q < requests@.len() && requests@[q]@.is_subscribe()
                                    && requests@[q]@.instrument() == i2 by {
                                let q0 = choose|q: int|
                                    0 <= q < pre_reqs.len() && pre_reqs[q]@.is_subscribe()
                                        && pre_reqs[q]@.instrument() == i2;
                                assert(requests@[q0]@.instrument() == i2);
                                assert(requests@[q0]@.is_subscribe());
                            }
                        }
                    },
                    None => {},
                }
            } else {
                proof {
                    assert(d.contains(iv));
                    assert(cs.take(j2 + 1 as int) =~= cs.take(j2 as int).push(iv));
                    assert forall|y: Seq<char>| #[trigger]
                        cs.take(j2 + 1 as int).contains(y) implies cs.take(j2 as int).contains(
                        y) || y == iv by {
                        let w = choose|w: int|
                            0 <= w < j2 + 1 && #[trigger] cs.take(j2 + 1 as int)[w] == y;
                        if w < j2 {
                            assert(cs.take(j2 as int)[w] == y);
                        }
                    }
                    assert forall|y: Seq<char>|
                        cs.take(j2 as int).contains(y) implies #[trigger] cs.take(
                        j2 + 1 as int).contains(y) by {
                        let w = choose|w: int|
                            0 <= w < j2 && #[trigger] cs.take(j2 as int)[w] == y;
                        assert(cs.take(j2 + 1 as int)[w] == y);
                    }
                    assert(cs.take(j2 as int).to_set().difference(d) =~= cs.take(
                        j2 + 1 as int,
                    ).to_set().difference(d));
                    assert(self.subs_map() =~= cm0.insert(
                        c,
                        cm0[c].union(d).difference(cs.take(j2 + 1 as int).to_set().difference(
                            d,
                        )),
                    ));
                }
            }
            j2 = j2 + 1;
        }
        proof {
            assert(cs.take(nr as int) =~= cs);
            assert(self.subs_map() =~= cm0.insert(c, d)) by {
                assert(cm0[c].union(d).difference(cs.to_set().difference(d)) =~= d) by {
                    assert forall|y: Seq<char>|
                        cm0[c].union(d).difference(cs.to_set().difference(d)).contains(
                            y,
                        ) implies #[trigger] d.contains(y) by {
                        if cm0[c].contains(y) && !d.contains(y) {
                            assert(cur@.contains(y));
                            assert(cs.to_set().contains(y));
                            assert(cs.to_set().difference(d).contains(y));
                        }
                    }
                    assert forall|y: Seq<char>| #[trigger]
                        d.contains(y) implies cm0[c].union(d).difference(
                            cs.to_set().difference(d),
                        ).contains(y) by {
                        assert(cm0[c].union(d).contains(y));
                        assert(!cs.to_set().difference(d).contains(y));
                    }
                }
            }
            assert(self.index_map() =~= index_after_update(im0, c, d)) by {
                assert forall|i: Seq<char>|
                    #![auto]
                    true implies (self.index_map().contains_key(i) == index_after_update(
                        im0,
                        c,
                        d,
                    ).contains_key(i)) && (self.index_map().contains_key(i)
                        ==> self.index_map()[i] =~= index_after_update(im0, c, d)[i]) by {
                    if d.contains(i) && !cm0[c].contains(i) {
                        assert(self.index_map()[i] =~= base_subscribers(im0, i).insert(c));
                        assert(im0.contains_key(i) ==> im0[i].remove(c).len() != 0) by {
                            if im0.contains_key(i) {
                                assert(!im0[i].contains(c));
                                assert(im0[i].remove(c) =~= im0[i]);
                            }
                        }
                    } else if d.contains(i) && cm0[c].contains(i) {
                        assert(cs.to_set().contains(i));
                        assert(!(cs.contains(i) && !d.contains(i)));
                        assert(self.index_map().contains_key(i) == im0.contains_key(i) && (
                        im0.contains_key(i) ==> self.index_map()[i] == im0[i]));
                        assert(im0.contains_key(i) && im0[i].contains(c));
                        assert(base_subscribers(im0, i).insert(c) =~= im0[i]);
                    } else if !d.contains(i) && cm0[c].contains(i) {
                        assert(cs.to_set().contains(i));
                        assert(cs.contains(i));
                    } else {
                        assert(!cs.to_set().contains(i)) by {
                            if cs.to_set().contains(i) {
                                assert(cm0[c].contains(i));
                            }
                        }
                        assert(!cs.contains(i));
                        assert(self.index_map().contains_key(i) == im0.contains_key(i) && (
                        im0.contains_key(i) ==> self.index_map()[i] == im0[i]));
                        if im0.contains_key(i) {
                            assert(!im0[i].contains(c)) by {
                                if im0[i].contains(c) {
                                    assert(cm0.contains_key(c) && cm0[c].contains(i));
                                }
                            }
                            assert(im0[i].remove(c) =~= im0[i]);
                            assert(im0[i].len() > 0);
                        }
                    }
                }
            }
        }
        (requests, replays)
    }

    /// Registers a client with an empty subscription set. Registering an
    /// already-known client changes nothing.
    pub fn register(&mut self, client_id: String)
        requires
            old(self).wf(),
        ensures
            final(self).wf(),
            final(self).subs_map() =~= if old(self).subs_map().contains_key(client_id@) {
                old(self).subs_map()
            } else {
                old(self).subs_map().insert(client_id@, Set::empty())
            },
            final(self).index_map() == old(self).index_map(),
            final(self).cache_map() == old(self).cache_map(),
            final(self).sources_map() == old(self).sources_map(),
            final(self).adapter_kinds() == old(self).adapter_kinds(),
    {
        if !self.clients.contains_key(client_id.as_str()) {
            let empty = StrSet::new();
            proof {
                assert(set_wf_pred()(empty));
            }
            self.clients.insert(client_id, empty);
            proof {
                assert(reciprocal(self.subs_map(), self.index_map())) by {
                    assert forall|c: Seq<char>, i: Seq<char>|
                        self.subs_map().contains_key(c) && #[trigger] self.subs_map()[c].contains(
                        i) implies self.index_map().contains_key(i)
                        && #[trigger] self.index_map()[i].contains(c) by {
                        if c == client_id@ {
                            assert(!old(self).subs_map().contains_key(c));
                            assert(self.subs_map()[c] =~= Set::<Seq<char>>::empty());
                        } else {
                            assert(old(self).subs_map().contains_key(c) && old(
                                self).subs_map()[c].contains(i));
                        }
                    }
                    assert forall|c: Seq<char>, i: Seq<char>|
                        self.index_map().contains_key(i) && #[trigger] self.index_map()[
                        i].contains(c) implies self.subs_map().contains_key(c)
                        && #[trigger] self.subs_map()[c].contains(i) by {
                        assert(old(self).subs_map().contains_key(c) && old(
                            self).subs_map()[c].contains(i));
                        assert(c != client_id@);
                    }
                }
            }
        }
    }

    /// Handles one upstream snapshot: writes the cache, records the source of
    /// a first-seen instrument, and hands back one delivery per subscriber of
    /// the snapshot's instrument — each subscriber exactly once.
    pub fn on_snapshot(&mut self, snap: Snapshot, source: MarketDataSource) -> (r: Vec<Delivery>)
        requires
            old(self).wf(),
            snap.wf(),
        ensures
            final(self).wf(),
            final(self).cache_map() =~= old(self).cache_map().insert(snap@.instrument_id, snap@),
            final(self).sources_map() =~= sources_after_snapshot(
                old(self).sources_map(),
                snap@.instrument_id,
                source,
            ),
            final(self).subs_map() == old(self).subs_map(),
            final(self).index_map() == old(self).index_map(),
            final(self).adapter_kinds() == old(self).adapter_kinds(),
            r@.len() == base_subscribers(old(self).index_map(), snap@.instrument_id).len(),
            forall|j: int|
                0 <= j < r@.len() ==> #[trigger] r@[j]@.snapshot == snap@ && base_subscribers(
                    old(self).index_map(),
                    snap@.instrument_id,
                ).contains(r@[j]@.client_id),
            forall|c: Seq<char>|
                #[trigger] base_subscribers(old(self).index_map(), snap@.instrument_id).contains(
                    c,
                ) ==> exists|j: int| 0 <= j < r@.len() && r@[j]@.client_id == c,
            forall|j1: int, j2: int|
                0 <= j1 < j2 < r@.len() ==> r@[j1]@.client_id != r@[j2]@.client_id,
    {
        let ghost id = snap@.instrument_id;
        let mut out: Vec<Delivery> = Vec::new();
        match self.index.get(snap.instrument_id.as_str()) {
            Some(stored) => {
                proof {
                    assert(set_wf_pred()(*stored));
                }
                let subs = stored.duplicate();
                let n = subs.count();
                let mut j: usize = 0;
                while j < n
                    invariant
                        0 <= j <= n,
                        n == subs.sseq().len(),
                        subs.wf(),
                        out@.len() == j,
                        forall|q: int|
                            #![trigger out@[q]]
                            0 <= q < j ==> out@[q]@.snapshot == snap@ && out@[q]@.client_id
                                == subs.sseq()[q],
                    decreases n - j,
                {
                    let d = Delivery {
                        client_id: subs.elem_at(j).clone(),
                        snapshot: snap.duplicate(),
                    };
                    out.push(d);
                    j = j + 1;
                }
                proof {
                    subs.sseq().unique_seq_to_set();
                    assert(subs@ == base_subscribers(old(self).index_map(), id));
                    assert forall|c: Seq<char>| #[trigger]
                        base_subscribers(old(self).index_map(), id).contains(c) implies exists|
                        q: int| 0 <= q < out@.len() && out@[q]@.client_id == c by {
                        assert(subs.sseq().contains(c));
                        let w = choose|w: int|
                            0 <= w < subs.sseq().len() && subs.sseq()[w] == c;
                        assert(out@[w]@.client_id == c);
                    }
                    assert forall|q: int|
                        0 <= q < out@.len() implies #[trigger] out@[q]@.snapshot == snap@
                        && base_subscribers(old(self).index_map(), id).contains(out@[
                        q]@.client_id) by {
                        assert(subs.sseq().contains(subs.sseq()[q]));
                    }
                }
            },
            None => {
                proof {
                    assert(base_subscribers(old(self).index_map(), id) =~= Set::<
                        Seq<char>,
                    >::empty());
                }
            },
        }
        if !self.sources.contains_key(snap.instrument_id.as_str()) {
            self.sources.insert(snap.instrument_id.clone(), source);
        }
        let key = snap.instrument_id.clone();
        proof {
            assert(snap_wf_pred()(snap));
        }
        self.cache.insert(key, snap);
        out
    }

    /// Removes a client entirely: its subscription set is dropped, it leaves
    /// every subscriber set, and for every instrument whose subscriber set
    /// becomes empty an unsubscribe request is produced, routed by the full
    /// policy — the recorded source when one exists, else the preferred
    /// registered adapter kind.
    pub fn unregister(&mut self, client_id: &str) -> (r: Vec<UpstreamRequest>)
        requires
            old(self).wf(),
        ensures
            final(self).wf(),
            final(self).subs_map() =~= old(self).subs_map().remove(client_id@),
            final(self).index_map() =~= index_after_unregister(
                old(self).index_map(),
                client_id@,
            ),
            final(self).cache_map() == old(self).cache_map(),
            final(self).sources_map() == old(self).sources_map(),
            final(self).adapter_kinds() == old(self).adapter_kinds(),
            forall|i: Seq<char>|
                #[trigger] final(self).index_map().contains_key(i) ==> !final(self).index_map()[i].contains(client_id@),
            forall|q: int|
                0 <= q < r@.len() ==> {
                    let i = #[trigger] r@[q]@.instrument();
                    &&& !r@[q]@.is_subscribe()
                    &&& old(self).subs_map().contains_key(client_id@)
                    &&& old(self).subs_map()[client_id@].contains(i)
                    &&& old(self).index_map()[i].remove(client_id@).len() == 0
                    &&& spec_route(old(self).sources_map(), old(self).adapter_kinds(), i)
                        == Some(r@[q]@.source())
                },
            forall|i: Seq<char>|
                (old(self).subs_map().contains_key(client_id@) && #[trigger] old(self).subs_map()[client_id@].contains(i) && old(self).index_map()[i].remove(
                    client_id@,
                ).len() == 0 && spec_route(
                    old(self).sources_map(),
                    old(self).adapter_kinds(),
                    i,
                ) is Some) ==> exists|q: int| 0 <= q < r@.len() && r@[q]@.instrument() == i,
            forall|q1: int, q2: int|
                0 <= q1 < q2 < r@.len() ==> r@[q1]@.instrument() != r@[q2]@.instrument(),
    {
        let ghost c = client_id@;
        let ghost im0 = self.index_map();
        let mut reqs: Vec<UpstreamRequest> = Vec::new();
        let removed = self.clients.remove(client_id);
        match removed {
            None => {
                proof {
                    assert(self.subs_map() =~= old(self).subs_map().remove(c));
                    assert(self.index_map() =~= index_after_unregister(im0, c)) by {
                        assert forall|i: Seq<char>| #[trigger]
                            im0.contains_key(i) implies im0[i].remove(c) =~= im0[i] by {
                            assert(!(old(self).subs_map().contains_key(c) && old(
                                self).subs_map()[c].contains(i)));
                            assert(!im0[i].contains(c));
                        }
                    }
                    assert forall|i: Seq<char>| #[trigger]
                        self.index_map().contains_key(i) implies !self.index_map()[i].contains(c) by {
                        assert(!(old(self).subs_map().contains_key(c) && old(
                            self).subs_map()[c].contains(i)));
                    }
                }
                reqs
            },
            Some(set) => {
                proof {
                    assert(set_wf_pred()(set));
                    assert(set@ == old(self).subs_map()[c]);
                }
                let n = set.count();
                let mut j: usize = 0;
                while j < n
                    invariant
                        0 <= j <= n,
                        n == set.sseq().len(),
                        set.wf(),
                        set@ == old(self).subs_map()[c],
                        old(self).subs_map().contains_key(c),
                        self.clients@ == old(self).subs_map().remove(c),
                        self.clients.wf(),
                        self.clients.all_vals(set_wf_pred()),
                        self.index.wf(),
                        self.index.all_vals(set_wf_pred()),
                        self.cache@ == old(self).cache_map(),
                        self.sources@ == old(self).sources_map(),
                        self.adapters@ == old(self).adapter_kinds(),
                        self.cache.wf(),
                        self.sources.wf(),
                        self.cache.all_vals(snap_wf_pred()),
                        // index pointwise: processed prefix rewritten, rest untouched
                        forall|i: Seq<char>|
                            #![trigger self.index_map().contains_key(i)]
                            #![trigger self.index_map()[i]]
                            {
                                if set.sseq().take(j as int).contains(i) {
                                    if im0[i].remove(c).len() == 0 {
                                        !self.index_map().contains_key(i)
                                    } else {
                                        self.index_map().contains_key(i)
                                            && self.index_map()[i] == im0[i].remove(c)
                                    }
                                } else {
                                    if im0.contains_key(i) {
                                        self.index_map().contains_key(i)
                                            && self.index_map()[i] == im0[i]
                                    } else {
                                        !self.index_map().contains_key(i)
                                    }
                                }
                            },
                        // requests so far
                        forall|q: int|
                            0 <= q < reqs@.len() ==> {
                                let i = #[trigger] reqs@[q]@.instrument();
                                &&& !reqs@[q]@.is_subscribe()
                                &&& set.sseq().take(j as int).contains(i)
                                &&& im0[i].remove(c).len() == 0
                                &&& spec_route(
                                    old(self).sources_map(),
                                    old(self).adapter_kinds(),
                                    i,
                                ) == Some(reqs@[q]@.source())
                            },
                        forall|i: Seq<char>|
                            (#[trigger] set.sseq().take(j as int).contains(i) && im0[i].remove(
                                c,
                            ).len() == 0 && spec_route(
                                old(self).sources_map(),
                                old(self).adapter_kinds(),
                                i,
                            ) is Some) ==> exists|q: int|
                                0 <= q < reqs@.len() && reqs@[q]@.instrument() == i,
                        forall|q1: int, q2: int|
                            0 <= q1 < q2 < reqs@.len() ==> reqs@[q1]@.instrument() != reqs@[q2]@.instrument(),
                    decreases n - j,
                {
                    let inst = set.elem_at(j).clone();
                    let ghost iv = inst@;
                    proof {
                        assert(set.sseq()[j as int] == iv);
                        assert(set@.contains(iv));
                        assert(old(self).subs_map()[c].contains(iv));
                        assert(im0.contains_key(iv) && im0[iv].contains(c));
                        assert(!set.sseq().take(j as int).contains(iv)) by {
                            if set.sseq().take(j as int).contains(iv) {
                                let w = choose|w: int|
                                    0 <= w < j && #[trigger] set.sseq().take(j as int)[w] == iv;
                                assert(set.sseq()[w] == iv);
                            }
                        }
                        assert(self.index_map().contains_key(iv) && self.index_map()[iv]
                            == im0[iv]);
                    }
                    let taken = self.index.remove(inst.as_str());
                    match taken {
                        Some(mut s) => {
                            proof {
                                assert(set_wf_pred()(s));
                            }
                            s.remove(client_id);
                            proof {
                                assert(s@ =~= im0[iv].remove(c));
                            }
                            if s.is_empty() {
                                proof {
                                    s.sseq().unique_seq_to_set();
                                    assert(im0[iv].remove(c).len() == 0);
                                }
                                match self.find_source_for_inner(inst.as_str()) {
                                    Some(source) => {
                                        let ghost pre_reqs = reqs@;
                                        reqs.push(
                                            UpstreamRequest::Unsubscribe {
                                                source,
                                                instrument: inst,
                                            },
                                        );
                                        proof {
                                            assert(reqs@[pre_reqs.len() as int]@.instrument()
                                                == iv);
                                            assert forall|i2: Seq<char>|
                                                (#[trigger] set.sseq().take(j as int).contains(
                                                    i2,
                                                ) && im0[i2].remove(c).len() == 0 && spec_route(
                                                    old(self).sources_map(),
                                                    old(self).adapter_kinds(),
                                                    i2,
                                                ) is Some) implies exists|q: int|
                                                0 <= q < reqs@.len() && reqs@[q]@.instrument()
                                                    == i2 by {
                                                let q0 = choose|q: int|
                                                    0 <= q < pre_reqs.len() && pre_reqs[
                                                    q]@.instrument() == i2;
                                                assert(reqs@[q0]@.instrument() == i2);
                                            }
                                            assert forall|q1: int, q2: int|
                                                0 <= q1 < q2 < reqs@.len() implies reqs@[
                                                q1]@.instrument() != reqs@[q2]@.instrument() by {
                                                if q2 == pre_reqs.len() {
                                                    assert(set.sseq().take(j as int).contains(
                                                        reqs@[q1]@.instrument()));
                                                }
                                            }
                                        }
                                    },
                                    None => {},
                                }
                            } else {
                                proof {
                                    s.sseq().unique_seq_to_set();
                                    assert(im0[iv].remove(c).len() != 0);
                                }
                                self.index.insert(inst, s);
                            }
                        },
                        None => {
                            proof {
                                assert(false);
                            }
                        },
                    }
                    proof {
                        assert(set.sseq().take(j + 1 as int) =~= set.sseq().take(
                            j as int,
                        ).push(iv));
                        assert forall|i: Seq<char>| #[trigger]
                            set.sseq().take(j + 1 as int).contains(i) implies set.sseq().take(
                            j as int).contains(i) || i == iv by {
                            let w = choose|w: int|
                                0 <= w < j + 1 && #[trigger] set.sseq().take(j + 1 as int)[w]
                                    == i;
                            if w < j {
                                assert(set.sseq().take(j as int)[w] == i);
                            }
                        }
                        assert forall|i: Seq<char>|
                            set.sseq().take(j as int).contains(i) implies #[trigger]
                            set.sseq().take(j + 1 as int).contains(i) by {
                            let w = choose|w: int|
                                0 <= w < j && #[trigger] set.sseq().take(j as int)[w] == i;
                            assert(set.sseq().take(j + 1 as int)[w] == i);
                        }
                        assert(set.sseq().take(j + 1 as int).contains(iv)) by {
                            assert(set.sseq().take(j + 1 as int)[j as int] == iv);
                        }
                    }
                    j = j + 1;
                }
                proof {
                    assert(set.sseq().take(n as int) =~= set.sseq());
                    assert forall|i: Seq<char>|
                        im0.contains_key(i) && !set.sseq().contains(i) implies im0[i].remove(c)
                        =~= im0[i] by {
                        assert(!set@.contains(i));
                        assert(!(old(self).subs_map().contains_key(c) && old(
                            self).subs_map()[c].contains(i)));
                        assert(!im0[i].contains(c));
                    }
                    assert(self.index_map() =~= index_after_unregister(im0, c)) by {
                        assert forall|i: Seq<char>|
                            #![auto]
                            true implies (self.index_map().contains_key(i)
                            == index_after_unregister(im0, c).contains_key(i)) && (self.index_map().contains_key(i) ==> self.index_map()[i]
                            == index_after_unregister(im0, c)[i]) by {
                            if set.sseq().contains(i) {
                            } else if im0.contains_key(i) {
                                assert(im0[i].remove(c) =~= im0[i]);
                                assert(im0[i].len() != 0);
                            }
                        }
                    }
                    assert(reciprocal(self.subs_map(), self.index_map())) by {
                        assert forall|c2: Seq<char>, i: Seq<char>|
                            self.subs_map().contains_key(c2) && #[trigger] self.subs_map()[c2].contains(i) implies self.index_map().contains_key(i) && #[trigger] self.index_map()[i].contains(c2) by {
                            assert(c2 != c);
                            assert(old(self).subs_map().contains_key(c2) && old(
                                self).subs_map()[c2].contains(i));
                            assert(im0.contains_key(i) && im0[i].contains(c2));
                            assert(im0[i].remove(c).contains(c2));
                            assert(im0[i].remove(c).len() != 0) by {
                                if im0[i].remove(c).len() == 0 {
                                    assert(im0[i].remove(c) =~= Set::<Seq<char>>::empty());
                                }
                            }
                        }
                        assert forall|c2: Seq<char>, i: Seq<char>|
                            self.index_map().contains_key(i) && #[trigger] self.index_map()[i].contains(c2) implies self.subs_map().contains_key(c2) && #[trigger] self.subs_map()[c2].contains(i) by {
                            assert(im0.contains_key(i));
                            assert(im0[i].remove(c).contains(c2));
                            assert(im0[i].contains(c2) && c2 != c);
                            assert(old(self).subs_map().contains_key(c2) && old(
                                self).subs_map()[c2].contains(i));
                        }
                    }
                    assert(no_empty(self.index_map()));
                    assert(all_finite(self.index_map())) by {
                        assert forall|k: Seq<char>| #[trigger]
                            self.index_map().contains_key(k) implies self.index_map()[k].finite() by {
                            assert(im0.contains_key(k));
                        }
                    }
                    assert forall|i: Seq<char>| #[trigger]
                        self.index_map().contains_key(i) implies !self.index_map()[i].contains(c) by {
                        assert(self.index_map()[i] == im0[i].remove(c));
                    }
                }
                reqs
            },
        }
    }

    /// All instruments any client subscribes to, in index order.
    pub fn get_all_subscriptions(&self) -> (r: Vec<String>)
        requires
            self.wf(),
        ensures
            crate::smap::views_of(r@).to_set() =~= self.index_map().dom(),
            crate::smap::views_of(r@).no_duplicates(),
    {
        proof {
            self.index.lemma_dom();
            self.index.lemma_wf_distinct();
        }
        self.index.keys_list()
    }

    /// The subscription set of one client, or empty for an unknown client.
    pub fn query_subscription(&self, client_id: &str) -> (r: Vec<String>)
        requires
            self.wf(),
        ensures
            crate::smap::views_of(r@).to_set() =~= if self.subs_map().contains_key(client_id@) {
                self.subs_map()[client_id@]
            } else {
                Set::<Seq<char>>::empty()
            },
            crate::smap::views_of(r@).no_duplicates(),
    {
        match self.clients.get(client_id) {
            Some(set) => {
                proof {
                    assert(set_wf_pred()(*set));
                }
                let r = set.to_vec();
                proof {
                    set.sseq().unique_seq_to_set();
                }
                r
            },
            None => Vec::new(),
        }
    }
}

} // verus!
