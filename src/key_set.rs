//! A set of owned keys, kept in key order, that answers lookups made with a
//! key of either shape.
use crate::compare::{
    key_cmp, key_order, lemma_key_order_antisymmetric, lemma_key_order_equal,
    lemma_key_order_transitive,
};
use crate::key::{BorrowedKey, Key, KeyView, OwnedKey};
use std::cmp::Ordering;
use vstd::prelude::*;

verus! {

/// What a set holds after the keys of `ks` were inserted into an empty set,
/// one after the other.
pub open spec fn inserted(ks: Seq<OwnedKey>) -> Set<KeyView>
    decreases ks.len(),
{
    if ks.len() == 0 {
        Set::empty()
    } else {
        inserted(ks.drop_last()).insert(ks.last()@)
    }
}

/// A lookup made with a borrowed key after a run of inserts finds it exactly
/// when one of the inserted owned keys has the same text and bytes: a key
/// that was inserted is found, and a key that differs from every inserted
/// one is not.
pub proof fn lemma_lookup_after_inserts(ks: Seq<OwnedKey>, b: BorrowedKey)
    ensures
        inserted(ks).contains(b.key_view()) == (exists|i: int|
            0 <= i < ks.len() && (#[trigger] ks[i])@ == b@),
    decreases ks.len(),
{
    if ks.len() > 0 {
        let rest = ks.drop_last();
        lemma_lookup_after_inserts(rest, b);
        if exists|i: int| 0 <= i < rest.len() && (#[trigger] rest[i])@ == b@ {
            let i = choose|i: int| 0 <= i < rest.len() && (#[trigger] rest[i])@ == b@;
            assert(ks[i] == rest[i]);
        }
        if exists|i: int| 0 <= i < ks.len() && (#[trigger] ks[i])@ == b@ {
            let i = choose|i: int| 0 <= i < ks.len() && (#[trigger] ks[i])@ == b@;
            if i < rest.len() {
                assert(rest[i] == ks[i]);
            }
        }
    }
}

/// Inserting an owned key and then looking up a borrowed key with the same
/// text and bytes finds it, whatever the set held before.
pub proof fn lemma_insert_then_find(s: Set<KeyView>, o: OwnedKey, b: BorrowedKey)
    requires
        b@ == o@,
    ensures
        s.insert(o@).contains(b.key_view()),
{
}

/// A set of owned keys.
pub struct KeySet {
    keys: Vec<OwnedKey>,
}

impl View for KeySet {
    type V = Set<KeyView>;

    closed spec fn view(&self) -> Set<KeyView> {
        self.entries().to_set()
    }
}

impl KeySet {
    /// The keys held, in the order in which they are stored.
    closed spec fn entries(&self) -> Seq<KeyView> {
        self.keys@.map_values(|k: OwnedKey| k@)
    }

    /// The stored keys are in strictly increasing key order.
    pub closed spec fn wf(&self) -> bool {
        forall|i: int, j: int|
            0 <= i < j < self.entries().len() ==> key_order(
                #[trigger] self.entries()[i],
                #[trigger] self.entries()[j],
            ) == Ordering::Less
    }

    /// An empty set.
    pub fn new() -> (r: KeySet)
        ensures
            r.wf(),
            r@ == Set::<KeyView>::empty(),
    {
        let r = KeySet { keys: Vec::new() };
        assert(r@ =~= Set::<KeyView>::empty());
        r
    }

    /// Where `q` stands among the stored keys: `Ok` with its index if it is
    /// held, else `Err` with the index at which it would be inserted.
    fn find<K: Key>(&self, q: &K) -> (r: Result<usize, usize>)
        requires
            self.wf(),
        ensures
            match r {
                Ok(i) => i < self.entries().len() && self.entries()[i as int] == q.key_view(),
                Err(p) => {
                    &&& p <= self.entries().len()
                    &&& forall|i: int|
                        0 <= i < p ==> key_order(#[trigger] self.entries()[i], q.key_view())
                            == Ordering::Less
                    &&& forall|j: int|
                        p <= j < self.entries().len() ==> key_order(
                            #[trigger] self.entries()[j],
                            q.key_view(),
                        ) == Ordering::Greater
                },
            },
    {
        let ghost e = self.entries();
        let ghost v = q.key_view();
        let mut lo: usize = 0;
        let mut hi: usize = self.keys.len();
        while lo < hi
            invariant
                self.wf(),
                e == self.entries(),
                v == q.key_view(),
                lo <= hi <= e.len(),
                e.len() == self.keys@.len(),
                forall|i: int| 0 <= i < lo ==> key_order(#[trigger] e[i], v) == Ordering::Less,
                forall|j: int|
                    hi <= j < e.len() ==> key_order(#[trigger] e[j], v) == Ordering::Greater,
            decreases hi - lo,
        {
            let mid: usize = lo + (hi - lo) / 2;
            let c = key_cmp(&self.keys[mid], q);
            assert(self.keys@[mid as int]@ == e[mid as int]);
            match c {
                Ordering::Less => {
                    assert forall|i: int| 0 <= i <= mid implies key_order(
                        #[trigger] e[i],
                        v,
                    ) == Ordering::Less by {
                        if i < mid {
                            lemma_key_order_transitive(e[i], e[mid as int], v);
                        }
                    }
                    lo = mid + 1;
                },
                Ordering::Greater => {
                    assert forall|j: int| mid <= j < e.len() implies key_order(
                        #[trigger] e[j],
                        v,
                    ) == Ordering::Greater by {
                        if j > mid {
                            lemma_key_order_antisymmetric(e[mid as int], v);
                            lemma_key_order_transitive(v, e[mid as int], e[j]);
                            lemma_key_order_antisymmetric(v, e[j]);
                        }
                    }
                    hi = mid;
                },
                Ordering::Equal => {
                    proof {
                        lemma_key_order_equal(e[mid as int], v);
                    }
                    return Ok(mid);
                },
            }
        }
        Err(lo)
    }

    /// Tells whether the set holds the key that `q` stands for; `q` may be an
    /// owned or a borrowed key.
    pub fn contains<K: Key>(&self, q: &K) -> (r: bool)
        requires
            self.wf(),
        ensures
            r == self@.contains(q.key_view()),
    {
        match self.find(q) {
            Ok(_) => true,
            Err(_) => {
                assert forall|i: int| 0 <= i < self.entries().len() implies #[trigger] self.entries()[i]
                    != q.key_view() by {
                    lemma_key_order_equal(self.entries()[i], q.key_view());
                }
                false
            },
        }
    }

    /// Adds `k` to the set; tells whether it was not held before.
    pub fn insert(&mut self, k: OwnedKey) -> (r: bool)
        requires
            old(self).wf(),
        ensures
            final(self).wf(),
            final(self)@ == old(self)@.insert(k@),
            r == !old(self)@.contains(k@),
    {
        match self.find(&k) {
            Ok(_) => {
                assert(old(self)@.insert(k@) =~= old(self)@);
                false
            },
            Err(p) => {
                let ghost e = self.entries();
                let ghost v = k@;
                assert forall|i: int| 0 <= i < e.len() implies #[trigger] e[i] != v by {
                    lemma_key_order_equal(e[i], v);
                }
                self.keys.insert(p, k);
                let ghost e2 = self.entries();
                assert(e2 =~= e.insert(p as int, v));
                assert forall|i: int, j: int|
                    0 <= i < j < e2.len() implies key_order(
                    #[trigger] e2[i],
                    #[trigger] e2[j],
                ) == Ordering::Less by {
                    if j == p {
                    } else if i == p {
                        lemma_key_order_antisymmetric(e[j - 1], v);
                    } else {
                    }
                }
                assert forall|x: KeyView| #[trigger] e2.contains(x) <==> (e.contains(x) || x == v) by {
                    if e.contains(x) {
                        let i = choose|i: int| 0 <= i < e.len() && e[i] == x;
                        if i < p {
                            assert(e2[i] == x);
                        } else {
                            assert(e2[i + 1] == x);
                        }
                    }
                    if x == v {
                        assert(e2[p as int] == x);
                    }
                    if e2.contains(x) {
                        let i = choose|i: int| 0 <= i < e2.len() && e2[i] == x;
                        if i < p {
                            assert(e[i] == x);
                        } else if i > p {
                            assert(e[i - 1] == x);
                        }
                    }
                }
                assert(self@ =~= old(self)@.insert(v));
                true
            },
        }
    }
}

} // verus!
