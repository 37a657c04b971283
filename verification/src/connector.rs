//! The connector's periodic reconciliation logic.
//!
//! On a timer the connector asks the distributor for every actively
//! subscribed instrument and reconciles each adapter against that set:
//! subscribe what is missing, unsubscribe what is extra. On a slower timer it
//! prods disconnected adapters to restart.

use vstd::prelude::*;
use crate::smap::views_of;

verus! {

/// Seconds between subscription reconciliations.
pub const SYNC_INTERVAL_SECS: u64 = 30;

/// Seconds between adapter restart checks.
pub const RESTART_CHECK_INTERVAL_SECS: u64 = 60;

/// The elements of `xs` that do not occur in `ys`.
pub open spec fn missing_from(xs: Seq<Seq<char>>, ys: Seq<Seq<char>>) -> Seq<Seq<char>> {
    xs.filter(|x: Seq<char>| !ys.contains(x))
}

/// True when the list holds the id.
fn list_contains(v: &Vec<String>, s: &str) -> (r: bool)
    ensures
        r == views_of(v@).contains(s@),
{
    let n = v.len();
    let mut i: usize = 0;
    while i < n
        invariant
            0 <= i <= n,
            n == v@.len(),
            forall|j: int| 0 <= j < i ==> views_of(v@)[j] != s@,
        decreases n - i,
    {
        if crate::strutil::str_eq(v[i].as_str(), s) {
            proof {
                assert(views_of(v@)[i as int] == s@);
                assert(views_of(v@).contains(s@));
            }
            return true;
        }
        i = i + 1;
    }
    proof {
        assert(!views_of(v@).contains(s@));
    }
    false
}

/// The elements of `xs` not in `ys`, in order.
fn difference_list(xs: &Vec<String>, ys: &Vec<String>) -> (r: Vec<String>)
    ensures
        views_of(r@) == missing_from(views_of(xs@), views_of(ys@)),
{
    let n = xs.len();
    let mut out: Vec<String> = Vec::new();
    let mut i: usize = 0;
    proof {
        reveal(Seq::filter);
        assert(views_of(xs@).take(0) =~= Seq::<Seq<char>>::empty());
        assert(missing_from(views_of(xs@).take(0), views_of(ys@)) =~= Seq::<Seq<char>>::empty());
    }
    while i < n
        invariant
            0 <= i <= n,
            n == xs@.len(),
            views_of(out@) == missing_from(views_of(xs@).take(i as int), views_of(ys@)),
        decreases n - i,
    {
        let keep = !list_contains(ys, xs[i].as_str());
        let ghost pre = out@;
        if keep {
            out.push(xs[i].clone());
        }
        proof {
            reveal(Seq::filter);
            let vx = views_of(xs@);
            let pfx = vx.take(i as int);
            let pfx1 = vx.take(i + 1 as int);
            assert(pfx1 =~= pfx.push(vx[i as int]));
            assert(pfx1.drop_last() =~= pfx);
            assert(missing_from(pfx1, views_of(ys@)) == if views_of(ys@).contains(pfx1.last()) {
                missing_from(pfx, views_of(ys@))
            } else {
                missing_from(pfx, views_of(ys@)).push(pfx1.last())
            });
            if keep {
                assert(views_of(out@) =~= views_of(pre).push(vx[i as int]));
            }
        }
        i = i + 1;
    }
    proof {
        assert(views_of(xs@).take(n as int) =~= views_of(xs@));
    }
    out
}

/// One reconciliation step for one adapter: given the instruments clients
/// actively want and the adapter's confirmed subscriptions, the instruments
/// to subscribe and the instruments to unsubscribe.
pub fn sync_subscriptions(active: &Vec<String>, current: &Vec<String>) -> (r: (
    Vec<String>,
    Vec<String>,
))
    ensures
        views_of(r.0@) == missing_from(views_of(active@), views_of(current@)),
        views_of(r.1@) == missing_from(views_of(current@), views_of(active@)),
{
    let to_subscribe = difference_list(active, current);
    let to_unsubscribe = difference_list(current, active);
    (to_subscribe, to_unsubscribe)
}

/// The restart rule: a restart prod acts only on an adapter that is
/// disconnected or not logged in.
pub fn needs_restart(connected: bool, logged_in: bool) -> (r: bool)
    ensures
        r == (!connected || !logged_in),
{
    !connected || !logged_in
}

} // verus!
