//! Verified string-keyed collections.
//!
//! `StrSet` is a set of instrument or client ids; `StrMap` is a map keyed by
//! such ids. Both are backed by vectors with distinct entries, and both are
//! specified against mathematical `Set` and `Map` views, which is what the
//! distributor's contracts are written over.

use vstd::prelude::*;

verus! {

/// The views of a sequence of strings.
pub open spec fn views_of(ss: Seq<String>) -> Seq<Seq<char>> {
    ss.map_values(|s: String| s@)
}

/// Index of the first occurrence of `k` in `s`, or `s.len()` if absent.
pub open spec fn find_key(s: Seq<Seq<char>>, k: Seq<char>) -> int
    decreases s.len(),
{
    if s.len() == 0 {
        0
    } else if s[0] == k {
        0
    } else {
        1 + find_key(s.drop_first(), k)
    }
}

pub proof fn lemma_find_key_props(s: Seq<Seq<char>>, k: Seq<char>)
    ensures
        0 <= find_key(s, k) <= s.len(),
        find_key(s, k) < s.len() ==> s[find_key(s, k)] == k,
        find_key(s, k) < s.len() <==> s.contains(k),
        forall|j: int| 0 <= j < find_key(s, k) ==> s[j] != k,
    decreases s.len(),
{
    if s.len() > 0 && s[0] != k {
        lemma_find_key_props(s.drop_first(), k);
        assert forall|j: int| 0 <= j < find_key(s, k) implies s[j] != k by {
            if j > 0 {
                assert(s.drop_first()[j - 1] == s[j]);
            }
        }
        if find_key(s, k) < s.len() {
            assert(s.contains(k)) by {
                assert(s[find_key(s, k)] == k);
            }
        }
        if s.contains(k) {
            let w = choose|w: int| 0 <= w < s.len() && s[w] == k;
            assert(s.drop_first()[w - 1] == k);
            assert(s.drop_first().contains(k));
        }
    } else if s.len() > 0 {
        assert(s.contains(k)) by {
            assert(s[0] == k);
        }
    }
}

/// Taking one more element grows the prefix's set by exactly that element.
pub proof fn lemma_take_to_set_step(vs: Seq<Seq<char>>, k: int)
    requires
        0 <= k < vs.len(),
    ensures
        vs.take(k + 1).to_set() =~= vs.take(k).to_set().insert(vs[k]),
{
    assert forall|y: Seq<char>| #[trigger]
        vs.take(k + 1).to_set().contains(y) implies vs.take(k).to_set().insert(
        vs[k]).contains(y) by {
        let w = choose|w: int| 0 <= w < k + 1 && #[trigger] vs.take(k + 1)[w] == y;
        if w < k {
            assert(vs.take(k)[w] == y);
            assert(vs.take(k).contains(y));
        }
    }
    assert forall|y: Seq<char>|
        vs.take(k).to_set().insert(vs[k]).contains(y) implies #[trigger] vs.take(
        k + 1).to_set().contains(y) by {
        if y == vs[k] {
            assert(vs.take(k + 1)[k] == y);
            assert(vs.take(k + 1).contains(y));
        } else {
            let w = choose|w: int| 0 <= w < k && #[trigger] vs.take(k)[w] == y;
            assert(vs.take(k + 1)[w] == y);
            assert(vs.take(k + 1).contains(y));
        }
    }
}

/// Removing one position keeps the remaining entries distinct.
proof fn lemma_remove_keeps_distinct(s: Seq<Seq<char>>, i: int)
    requires
        0 <= i < s.len(),
        s.no_duplicates(),
    ensures
        s.remove(i).no_duplicates(),
{
    let t = s.remove(i);
    assert forall|a: int, b: int| 0 <= a < b < t.len() implies t[a] != t[b] by {
        let a0 = if a < i { a } else { a + 1 };
        let b0 = if b < i { b } else { b + 1 };
        assert(t[a] == s[a0]);
        assert(t[b] == s[b0]);
    }
}

/// Removing the only occurrence of a member removes exactly it from the set.
proof fn lemma_remove_set(s: Seq<Seq<char>>, i: int)
    requires
        0 <= i < s.len(),
        s.no_duplicates(),
    ensures
        s.remove(i).to_set() =~= s.to_set().remove(s[i]),
{
    let t = s.remove(i);
    assert forall|y: Seq<char>| #[trigger] t.to_set().contains(y) implies s.to_set().remove(
        s[i],
    ).contains(y) by {
        let w = choose|w: int| 0 <= w < t.len() && t[w] == y;
        let w0 = if w < i { w } else { w + 1 };
        assert(s[w0] == y);
        assert(s.contains(y));
        assert(y != s[i]);
    }
    assert forall|y: Seq<char>| s.to_set().remove(s[i]).contains(y) implies t.to_set().contains(
        y,
    ) by {
        let w = choose|w: int| 0 <= w < s.len() && s[w] == y;
        assert(w != i);
        let w1 = if w < i { w } else { w - 1 };
        assert(t[w1] == y);
        assert(t.contains(y));
    }
}

// ---------------------------------------------------------------------------
// StrSet
// ---------------------------------------------------------------------------

/// A set of ids, backed by a vector of distinct strings.
pub struct StrSet {
    items: Vec<String>,
}

impl View for StrSet {
    type V = Set<Seq<char>>;

    open spec fn view(&self) -> Set<Seq<char>> {
        self.sseq().to_set()
    }
}

impl StrSet {
    /// The members in insertion order.
    pub closed spec fn sseq(&self) -> Seq<Seq<char>> {
        views_of(self.items@)
    }

    /// Well-formed: no member occurs twice.
    pub open spec fn wf(&self) -> bool {
        self.sseq().no_duplicates()
    }

    pub fn new() -> (r: StrSet)
        ensures
            r.wf(),
            r@ =~= Set::<Seq<char>>::empty(),
            r.sseq() =~= Seq::<Seq<char>>::empty(),
    {
        StrSet { items: Vec::new() }
    }

    /// Number of members.
    pub fn count(&self) -> (r: usize)
        requires
            self.wf(),
        ensures
            r == self.sseq().len(),
            r == self@.len(),
    {
        proof {
            self.sseq().unique_seq_to_set();
        }
        self.items.len()
    }

    pub fn is_empty(&self) -> (r: bool)
        requires
            self.wf(),
        ensures
            r == (self@.len() == 0),
            r == (self.sseq().len() == 0),
    {
        proof {
            self.sseq().unique_seq_to_set();
        }
        self.items.len() == 0
    }

    /// The member at position `i`, in insertion order.
    pub fn elem_at(&self, i: usize) -> (r: &String)
        requires
            i < self.sseq().len(),
        ensures
            r@ == self.sseq()[i as int],
            self@.contains(r@),
    {
        proof {
            assert(self.sseq().contains(self.sseq()[i as int]));
        }
        &self.items[i]
    }

    pub fn contains(&self, k: &str) -> (r: bool)
        ensures
            r == self@.contains(k@),
    {
        let n = self.items.len();
        let mut i: usize = 0;
        while i < n
            invariant
                0 <= i <= n,
                n == self.sseq().len(),
                forall|j: int| 0 <= j < i ==> self.sseq()[j] != k@,
            decreases n - i,
        {
            if crate::strutil::str_eq(self.items[i].as_str(), k) {
                proof {
                    assert(self.sseq()[i as int] == k@);
                    assert(self.sseq().contains(k@));
                }
                return true;
            }
            i = i + 1;
        }
        proof {
            assert(!self.sseq().contains(k@));
        }
        false
    }

    /// Inserts a member; inserting a member already present changes nothing.
    pub fn insert(&mut self, k: String)
        requires
            old(self).wf(),
        ensures
            final(self).wf(),
            final(self)@ =~= old(self)@.insert(k@),
            final(self).sseq() == if old(self)@.contains(k@) {
                old(self).sseq()
            } else {
                old(self).sseq().push(k@)
            },
    {
        if !self.contains(k.as_str()) {
            let ghost pre = self.sseq();
            self.items.push(k);
            proof {
                assert(self.sseq() =~= pre.push(k@));
                assert forall|i: int, j: int|
                    0 <= i < j < self.sseq().len() implies self.sseq()[i] != self.sseq()[j] by {
                    if j == pre.len() {
                        assert(!pre.contains(k@));
                        assert(pre[i] != k@);
                    }
                }
                assert(final(self)@ =~= old(self)@.insert(k@)) by {
                    assert forall|y: Seq<char>| #[trigger]
                        final(self)@.contains(y) implies old(self)@.insert(k@).contains(y) by {
                        let w = choose|w: int|
                            0 <= w < self.sseq().len() && self.sseq()[w] == y;
                        if w < pre.len() {
                            assert(pre[w] == y);
                            assert(pre.contains(y));
                        }
                    }
                    assert forall|y: Seq<char>|
                        old(self)@.insert(k@).contains(y) implies final(self)@.contains(y) by {
                        if y == k@ {
                            assert(self.sseq()[pre.len() as int] == y);
                            assert(self.sseq().contains(y));
                        } else {
                            let w = choose|w: int| 0 <= w < pre.len() && pre[w] == y;
                            assert(self.sseq()[w] == y);
                            assert(self.sseq().contains(y));
                        }
                    }
                }
            }
        } else {
            proof {
                assert(final(self)@ =~= old(self)@.insert(k@));
            }
        }
    }

    /// Removes a member; removing an absent member changes nothing.
    pub fn remove(&mut self, k: &str)
        requires
            old(self).wf(),
        ensures
            final(self).wf(),
            final(self)@ =~= old(self)@.remove(k@),
            old(self)@.contains(k@) ==> final(self).sseq() == old(self).sseq().remove(
                find_key(old(self).sseq(), k@),
            ),
            !old(self)@.contains(k@) ==> final(self).sseq() == old(self).sseq(),
    {
        let ghost pre = self.sseq();
        let n = self.items.len();
        let mut i: usize = 0;
        while i < n
            invariant
                0 <= i <= n,
                n == self.sseq().len(),
                self.sseq() == pre,
                self.wf(),
                forall|j: int| 0 <= j < i ==> self.sseq()[j] != k@,
            decreases n - i,
        {
            if crate::strutil::str_eq(self.items[i].as_str(), k) {
                proof {
                    lemma_find_key_props(pre, k@);
                    assert(pre[i as int] == k@);
                    assert(find_key(pre, k@) == i);
                }
                self.items.remove(i);
                proof {
                    assert(self.sseq() =~= pre.remove(i as int));
                    lemma_remove_keeps_distinct(pre, i as int);
                    lemma_remove_set(pre, i as int);
                    assert(pre.contains(k@)) by {
                        assert(pre[i as int] == k@);
                    }
                }
                return ;
            }
            i = i + 1;
        }
        proof {
            assert(!pre.contains(k@));
            assert(final(self)@ =~= old(self)@.remove(k@));
        }
    }

    /// An order-preserving copy.
    pub fn duplicate(&self) -> (r: StrSet)
        requires
            self.wf(),
        ensures
            r.wf(),
            r.sseq() == self.sseq(),
            r@ == self@,
    {
        let n = self.items.len();
        let mut out: Vec<String> = Vec::new();
        let mut i: usize = 0;
        while i < n
            invariant
                0 <= i <= n,
                n == self.items@.len(),
                views_of(out@) =~= self.sseq().take(i as int),
            decreases n - i,
        {
            out.push(self.items[i].clone());
            proof {
                assert(views_of(out@) =~= self.sseq().take(i + 1 as int));
            }
            i = i + 1;
        }
        let r = StrSet { items: out };
        proof {
            assert(r.sseq() =~= self.sseq());
        }
        r
    }

    /// The members as a vector of fresh strings, in insertion order.
    pub fn to_vec(&self) -> (r: Vec<String>)
        requires
            self.wf(),
        ensures
            views_of(r@) == self.sseq(),
    {
        let d = self.duplicate();
        let StrSet { items } = d;
        items
    }
}

// ---------------------------------------------------------------------------
// StrMap
// ---------------------------------------------------------------------------

/// A map keyed by ids, backed by parallel vectors with distinct keys.
pub struct StrMap<V> {
    keys: Vec<String>,
    vals: Vec<V>,
}

impl<V: View> View for StrMap<V> {
    type V = Map<Seq<char>, V::V>;

    closed spec fn view(&self) -> Map<Seq<char>, V::V> {
        Map::new(
            |k: Seq<char>| self.kseq().contains(k),
            |k: Seq<char>| self.vals@[find_key(self.kseq(), k)]@,
        )
    }
}

impl<V: View> StrMap<V> {
    /// The keys in insertion order.
    pub closed spec fn kseq(&self) -> Seq<Seq<char>> {
        views_of(self.keys@)
    }

    /// Well-formed: keys are distinct and each key has a value.
    pub closed spec fn wf(&self) -> bool {
        &&& self.kseq().no_duplicates()
        &&& self.keys@.len() == self.vals@.len()
    }

    /// Every stored value satisfies `p`. Stored values are exec-level data
    /// (a `StrSet` has an internal shape its view does not show), so the
    /// methods carry this predicate through insertions and removals.
    pub closed spec fn all_vals(&self, p: spec_fn(V) -> bool) -> bool {
        forall|j: int| 0 <= j < self.vals@.len() ==> p(#[trigger] self.vals@[j])
    }

    pub proof fn lemma_dom(&self)
        ensures
            self@.dom() =~= self.kseq().to_set(),
    {
    }

    /// A well-formed map's key sequence has no duplicates.
    pub proof fn lemma_wf_distinct(&self)
        requires
            self.wf(),
        ensures
            self.kseq().no_duplicates(),
    {
    }

    pub fn new() -> (r: StrMap<V>)
        ensures
            r.wf(),
            r@ =~= Map::<Seq<char>, V::V>::empty(),
            r.kseq() =~= Seq::<Seq<char>>::empty(),
            forall|p: spec_fn(V) -> bool| #[trigger] r.all_vals(p),
    {
        let r = StrMap { keys: Vec::new(), vals: Vec::new() };
        proof {
            assert(r@ =~= Map::<Seq<char>, V::V>::empty());
        }
        r
    }

    /// Number of entries.
    pub fn len(&self) -> (r: usize)
        requires
            self.wf(),
        ensures
            r == self.kseq().len(),
            r == self@.dom().len(),
    {
        proof {
            self.kseq().unique_seq_to_set();
            self.lemma_dom();
        }
        self.keys.len()
    }

    /// The key at position `i`, in insertion order.
    pub fn key_at(&self, i: usize) -> (r: &String)
        requires
            self.wf(),
            i < self.kseq().len(),
        ensures
            r@ == self.kseq()[i as int],
            self@.contains_key(r@),
    {
        proof {
            assert(self.kseq().contains(self.kseq()[i as int]));
        }
        &self.keys[i]
    }

    pub fn contains_key(&self, k: &str) -> (r: bool)
        requires
            self.wf(),
        ensures
            r == self@.contains_key(k@),
    {
        let n = self.keys.len();
        let mut i: usize = 0;
        while i < n
            invariant
                0 <= i <= n,
                n == self.kseq().len(),
                forall|j: int| 0 <= j < i ==> self.kseq()[j] != k@,
            decreases n - i,
        {
            if crate::strutil::str_eq(self.keys[i].as_str(), k) {
                proof {
                    assert(self.kseq()[i as int] == k@);
                    assert(self.kseq().contains(k@));
                }
                return true;
            }
            i = i + 1;
        }
        proof {
            assert(!self.kseq().contains(k@));
        }
        false
    }

    /// Looks a key up.
    pub fn get(&self, k: &str) -> (r: Option<&V>)
        requires
            self.wf(),
        ensures
            match r {
                Some(v) => self@.contains_key(k@) && v@ == self@[k@],
                None => !self@.contains_key(k@),
            },
            forall|p: spec_fn(V) -> bool| #[trigger] self.all_vals(p) ==> match r {
                Some(v) => p(*v),
                None => true,
            },
    {
        let n = self.keys.len();
        let mut i: usize = 0;
        while i < n
            invariant
                0 <= i <= n,
                n == self.kseq().len(),
                self.wf(),
                forall|j: int| 0 <= j < i ==> self.kseq()[j] != k@,
            decreases n - i,
        {
            if crate::strutil::str_eq(self.keys[i].as_str(), k) {
                proof {
                    lemma_find_key_props(self.kseq(), k@);
                    assert(self.kseq()[i as int] == k@);
                    assert(find_key(self.kseq(), k@) == i);
                    assert(self.kseq().contains(k@));
                }
                return Some(&self.vals[i]);
            }
            i = i + 1;
        }
        proof {
            assert(!self.kseq().contains(k@));
        }
        None
    }

    /// Inserts or replaces the value under a key.
    pub fn insert(&mut self, k: String, v: V)
        requires
            old(self).wf(),
        ensures
            final(self).wf(),
            final(self)@ =~= old(self)@.insert(k@, v@),
            final(self).kseq() == if old(self)@.contains_key(k@) {
                old(self).kseq()
            } else {
                old(self).kseq().push(k@)
            },
            forall|p: spec_fn(V) -> bool|
                old(self).all_vals(p) && p(v) ==> #[trigger] final(self).all_vals(p),
    {
        let ghost ks = self.kseq();
        let ghost vs = self.vals@;
        let ghost kk = k@;
        let ghost vv = v@;
        let n = self.keys.len();
        let mut i: usize = 0;
        while i < n
            invariant
                0 <= i <= n,
                n == self.kseq().len(),
                self.wf(),
                self.kseq() == ks,
                self.vals@ == vs,
                forall|j: int| 0 <= j < i ==> self.kseq()[j] != k@,
            decreases n - i,
        {
            if crate::strutil::str_eq(self.keys[i].as_str(), k.as_str()) {
                proof {
                    lemma_find_key_props(ks, kk);
                    assert(ks[i as int] == kk);
                    assert(find_key(ks, kk) == i);
                    assert(ks.contains(kk));
                }
                self.vals[i] = v;
                proof {
                    let i0 = i as int;
                    assert(self.vals@ == vs.update(i0, self.vals@[i0]));
                    assert forall|q: Seq<char>|
                        ks.contains(q) && q != kk implies #[trigger] find_key(ks, q) != i0 by {
                        lemma_find_key_props(ks, q);
                        assert(ks[find_key(ks, q)] == q);
                    }
                    assert(final(self)@ =~= old(self)@.insert(kk, vv)) by {
                        assert forall|q: Seq<char>|
                            #[trigger] ks.contains(q) && q != kk implies final(self)@[q] == old(
                            self)@[q] by {
                            lemma_find_key_props(ks, q);
                            assert(ks[find_key(ks, q)] == q);
                            assert(find_key(ks, q) != i0);
                        }
                        assert(final(self)@[kk] == vv);
                    }
                }
                return ;
            }
            i = i + 1;
        }
        proof {
            assert(!ks.contains(kk));
        }
        self.keys.push(k);
        self.vals.push(v);
        proof {
            let ks2 = self.kseq();
            let vs2 = self.vals@;
            assert(ks2 =~= ks.push(kk));
            assert forall|a: int, b: int| 0 <= a < b < ks2.len() implies ks2[a] != ks2[b] by {
                if b == ks.len() {
                    assert(ks[a] != kk);
                }
            }
            assert(ks2[ks.len() as int] == kk);
            assert(ks2.contains(kk));
            assert(find_key(ks2, kk) == ks.len()) by {
                lemma_find_key_props(ks2, kk);
                let f2 = find_key(ks2, kk);
                assert(ks2[f2] == kk);
                if f2 < ks.len() {
                    assert(ks[f2] == kk);
                    assert(ks.contains(kk));
                }
            }
            assert(final(self)@ =~= old(self)@.insert(kk, vv)) by {
                assert forall|q: Seq<char>| #[trigger]
                    ks2.contains(q) implies q == kk || ks.contains(q) by {
                    let w = choose|w: int| 0 <= w < ks2.len() && ks2[w] == q;
                    if w < ks.len() {
                        assert(ks[w] == q);
                    }
                }
                assert forall|q: Seq<char>| #[trigger]
                    ks.contains(q) implies ks2.contains(q) && vs2[find_key(ks2, q)]@ == vs[
                    find_key(ks, q)]@ by {
                    let w = choose|w: int| 0 <= w < ks.len() && ks[w] == q;
                    assert(ks2[w] == q);
                    assert(ks2.contains(q));
                    lemma_find_key_props(ks2, q);
                    lemma_find_key_props(ks, q);
                    let f2 = find_key(ks2, q);
                    let f1 = find_key(ks, q);
                    assert(ks2[f2] == q);
                    assert(ks[f1] == q);
                    assert(ks2[f1] == q);
                    assert(f2 <= f1);
                    assert(ks[f2] == q) by {
                        assert(f2 < ks.len());
                    }
                    assert(f1 <= f2);
                    assert(vs2[f2] == vs[f1]);
                }
                assert(vs2[find_key(ks2, kk)]@ == vv);
            }
        }
    }

    /// Removes a key, handing its value back.
    pub fn remove(&mut self, k: &str) -> (r: Option<V>)
        requires
            old(self).wf(),
        ensures
            final(self).wf(),
            final(self)@ =~= old(self)@.remove(k@),
            match r {
                Some(v) => old(self)@.contains_key(k@) && v@ == old(self)@[k@],
                None => !old(self)@.contains_key(k@),
            },
            !old(self)@.contains_key(k@) ==> final(self).kseq() == old(self).kseq(),
            forall|p: spec_fn(V) -> bool|
                old(self).all_vals(p) ==> #[trigger] final(self).all_vals(p),
            forall|p: spec_fn(V) -> bool| #[trigger] old(self).all_vals(p) ==> match r {
                Some(v) => p(v),
                None => true,
            },
    {
        let ghost ks = self.kseq();
        let ghost vs = self.vals@;
        let n = self.keys.len();
        let mut i: usize = 0;
        while i < n
            invariant
                0 <= i <= n,
                n == self.kseq().len(),
                self.wf(),
                self.kseq() == ks,
                self.vals@ == vs,
                forall|j: int| 0 <= j < i ==> self.kseq()[j] != k@,
            decreases n - i,
        {
            if crate::strutil::str_eq(self.keys[i].as_str(), k) {
                proof {
                    lemma_find_key_props(ks, k@);
                    assert(ks[i as int] == k@);
                    assert(find_key(ks, k@) == i);
                    assert(ks.contains(k@));
                    assert(old(self)@[k@] == vs[i as int]@);
                }
                self.keys.remove(i);
                let v = self.vals.remove(i);
                proof {
                    let i0 = i as int;
                    let ks2 = self.kseq();
                    let vs2 = self.vals@;
                    assert(ks2 =~= ks.remove(i0));
                    assert(vs2 == vs.remove(i0));
                    lemma_remove_keeps_distinct(ks, i0);
                    lemma_remove_set(ks, i0);
                    assert forall|q: Seq<char>| #[trigger]
                        ks2.contains(q) implies ks.contains(q) && q != k@ by {
                        assert(ks2.to_set().contains(q));
                        assert(ks.to_set().remove(ks[i0]).contains(q));
                    }
                    assert forall|q: Seq<char>|
                        ks.contains(q) && q != k@ implies #[trigger] ks2.contains(q) by {
                        assert(ks.to_set().remove(ks[i0]).contains(q));
                        assert(ks2.to_set().contains(q));
                    }
                    assert forall|q: Seq<char>| #[trigger]
                        ks2.contains(q) implies vs2[find_key(ks2, q)]@ == vs[find_key(ks, q)]@ by {
                        lemma_find_key_props(ks2, q);
                        lemma_find_key_props(ks, q);
                        let f2 = find_key(ks2, q);
                        let f1 = find_key(ks, q);
                        let f0 = if f2 < i0 { f2 } else { f2 + 1 };
                        assert(ks2[f2] == q);
                        assert(ks[f0] == q);
                        assert(ks.contains(q)) by {
                            assert(ks[f0] == q);
                        }
                        assert(ks[f1] == q);
                        assert(f0 == f1) by {
                            if f0 < f1 {
                                assert(ks[f0] != ks[f1]);
                            } else if f1 < f0 {
                                assert(ks[f1] != ks[f0]);
                            }
                        }
                        assert(vs2[f2] == vs[f0]);
                    }
                    assert(final(self)@ =~= old(self)@.remove(k@));
                }
                return Some(v);
            }
            i = i + 1;
        }
        proof {
            assert(!ks.contains(k@));
            assert(final(self)@ =~= old(self)@.remove(k@));
        }
        None
    }

    /// The keys as a vector of fresh strings, in insertion order.
    pub fn keys_list(&self) -> (r: Vec<String>)
        requires
            self.wf(),
        ensures
            views_of(r@) == self.kseq(),
            views_of(r@).to_set() =~= self@.dom(),
    {
        let n = self.keys.len();
        let mut out: Vec<String> = Vec::new();
        let mut i: usize = 0;
        while i < n
            invariant
                0 <= i <= n,
                n == self.keys@.len(),
                views_of(out@) =~= self.kseq().take(i as int),
            decreases n - i,
        {
            out.push(self.keys[i].clone());
            proof {
                assert(views_of(out@) =~= self.kseq().take(i + 1 as int));
            }
            i = i + 1;
        }
        proof {
            assert(views_of(out@) =~= self.kseq());
            self.lemma_dom();
        }
        out
    }
}

} // verus!
