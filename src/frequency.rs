use vstd::prelude::*;
use std::collections::HashMap;
use vstd::arithmetic::div_mod::lemma_fundamental_div_mod_converse;

use crate::model::HeatmapEntry;

verus! {

broadcast use vstd::std_specs::hash::group_hash_axioms;

/// `2^64`, the spread between two consecutive latitudes in a packed key.
pub open spec fn key_base() -> int {
    0x1_0000_0000_0000_0000int
}

pub open spec fn is_i64(v: int) -> bool {
    i64::MIN <= v <= i64::MAX
}

pub open spec fn valid_key(k: (int, int)) -> bool {
    is_i64(k.0) && is_i64(k.1)
}

/// A key pair packed into one integer, latitude first.
pub open spec fn pack(k: (int, int)) -> int {
    (k.0 - i64::MIN) * key_base() + (k.1 - i64::MIN)
}

proof fn lemma_pack_range(k: (int, int))
    requires
        valid_key(k),
    ensures
        0 <= pack(k) <= u128::MAX,
{
    let a = k.0 - i64::MIN;
    let b = k.1 - i64::MIN;
    assert(0 <= a * key_base() <= (key_base() - 1) * key_base()) by (nonlinear_arith)
        requires
            0 <= a < key_base(),
            key_base() == 0x1_0000_0000_0000_0000int,
    ;
}

proof fn lemma_pack_injective(k1: (int, int), k2: (int, int))
    requires
        valid_key(k1),
        valid_key(k2),
        pack(k1) == pack(k2),
    ensures
        k1 == k2,
{
    let a1 = k1.0 - i64::MIN;
    let b1 = k1.1 - i64::MIN;
    let a2 = k2.0 - i64::MIN;
    let b2 = k2.1 - i64::MIN;
    let base = key_base();
    assert(a1 == a2) by (nonlinear_arith)
        requires
            a1 * base + b1 == a2 * base + b2,
            0 <= b1 < base,
            0 <= b2 < base,
    ;
}

/// Visit counts keyed by a quantized coordinate pair.
///
/// The pairs are packed into `u128` keys of a hash map; `order` lists each key
/// once, in the order of first insertion.
pub struct FrequencyMap {
    counts: HashMap<u128, u64>,
    order: Vec<u128>,
}

impl FrequencyMap {
    pub closed spec fn view(&self) -> Map<(int, int), nat> {
        Map::new(
            |k: (int, int)| valid_key(k) && self.counts@.contains_key(pack(k) as u128),
            |k: (int, int)| self.counts@[pack(k) as u128] as nat,
        )
    }

    pub closed spec fn wf(&self) -> bool {
        &&& self.order@.no_duplicates()
        &&& forall|i: int|
            0 <= i < self.order@.len() ==> self.counts@.contains_key(#[trigger] self.order@[i])
        &&& forall|k: u128| #[trigger] self.counts@.contains_key(k) ==> self.order@.contains(k)
    }

    pub fn new() -> (r: FrequencyMap)
        ensures
            r.wf(),
            r@ == Map::<(int, int), nat>::empty(),
    {
        let r = FrequencyMap { counts: HashMap::new(), order: Vec::new() };
        assert(r@ =~= Map::<(int, int), nat>::empty());
        r
    }

    /// The count of a key, zero where absent.
    pub fn get(&self, latitude: i64, longitude: i64) -> (r: u64)
        ensures
            r == get_or_zero(self@, (latitude as int, longitude as int)),
    {
        proof {
            lemma_pack_range((latitude as int, longitude as int));
        }
        let key = pack_exec(latitude, longitude);
        match self.counts.get(&key) {
            Some(c) => *c,
            None => 0,
        }
    }

    pub fn is_empty(&self) -> (r: bool)
        requires
            self.wf(),
        ensures
            r <==> self@ == Map::<(int, int), nat>::empty(),
    {
        if self.order.len() == 0 {
            proof {
                assert forall|k: (int, int)| !self@.contains_key(k) by {
                    if self@.contains_key(k) {
                        assert(self.order@.contains(pack(k) as u128));
                    }
                }
                assert(self@ =~= Map::<(int, int), nat>::empty());
            }
            true
        } else {
            proof {
                let x = self.order@[0];
                assert(self.counts@.contains_key(x));
                let xi = x as int;
                let k = (xi / key_base() + i64::MIN, xi % key_base() + i64::MIN);
                lemma_fundamental_div_mod_converse(
                    xi,
                    key_base(),
                    xi / key_base(),
                    xi % key_base(),
                );
                assert(pack(k) == x);
                assert(valid_key(k));
                assert(self@.contains_key(k));
                assert(!Map::<(int, int), nat>::empty().contains_key(k));
            }
            false
        }
    }

    /// Every key with its count, each key once, in the order of first insertion.
    pub fn entries(&self) -> (r: Vec<HeatmapEntry>)
        requires
            self.wf(),
        ensures
            lists_map(r@, self@),
    {
        let mut out: Vec<HeatmapEntry> = Vec::new();
        let n = self.order.len();
        let mut i: usize = 0;
        while i < n
            invariant
                self.wf(),
                n == self.order@.len(),
                i <= n,
                out@.len() == i,
                forall|j: int|
                    0 <= j < i ==> {
                        &&& valid_key((#[trigger] out@[j]).key())
                        &&& pack(out@[j].key()) == self.order@[j] as int
                        &&& self.counts@.contains_key(self.order@[j])
                        &&& out@[j].frequency == self.counts@[self.order@[j]]
                    },
            decreases n - i,
        {
            let x = self.order[i];
            proof {
                assert(self.counts@.contains_key(self.order@[i as int]));
                let xi = x as int;
                lemma_fundamental_div_mod_converse(
                    xi,
                    key_base(),
                    xi / key_base(),
                    xi % key_base(),
                );
            }
            let hi = x / 0x1_0000_0000_0000_0000u128;
            let lo = x % 0x1_0000_0000_0000_0000u128;
            let latitude = (hi as i128 + i64::MIN as i128) as i64;
            let longitude = (lo as i128 + i64::MIN as i128) as i64;
            let frequency = match self.counts.get(&x) {
                Some(c) => *c,
                None => 0,
            };
            out.push(HeatmapEntry { latitude, longitude, frequency });
            i = i + 1;
        }
        proof {
            assert forall|a: int, b: int| 0 <= a < b < out@.len() implies (#[trigger] out@[a]).key()
                != (#[trigger] out@[b]).key() by {
                assert(self.order@[a] != self.order@[b]);
            }
            assert forall|k: (int, int)| #[trigger] self@.contains_key(k) implies exists|j: int|
                0 <= j < out@.len() && out@[j].key() == k by {
                lemma_pack_range(k);
                let x = pack(k) as u128;
                assert(self.order@.contains(x));
                let j = choose|j: int| 0 <= j < self.order@.len() && self.order@[j] == x;
                assert(pack(out@[j].key()) == pack(k));
                lemma_pack_injective(out@[j].key(), k);
            }
            assert forall|j: int| 0 <= j < out@.len() implies self@.contains_key(
                (#[trigger] out@[j]).key(),
            ) && self@[out@[j].key()] == out@[j].frequency by {
                assert(pack(out@[j].key()) as u128 == self.order@[j]);
            }
        }
        out
    }

    /// Adds every frequency of `delta` to its key's count.
    pub fn merge(&mut self, delta: &Vec<HeatmapEntry>)
        requires
            old(self).wf(),
            merge_fits(old(self)@, delta@),
        ensures
            final(self).wf(),
            is_merge(old(self)@, delta@, final(self)@),
    {
        let n = delta.len();
        let mut i: usize = 0;
        proof {
            assert(delta@.subrange(0, 0) =~= Seq::<HeatmapEntry>::empty());
        }
        while i < n
            invariant
                n == delta@.len(),
                i <= n,
                self.wf(),
                merge_fits(old(self)@, delta@),
                is_merge(old(self)@, delta@.subrange(0, i as int), self@),
            decreases n - i,
        {
            let e = delta[i];
            let ghost k = e.key();
            let ghost cur = self@;
            let ghost prefix = delta@.subrange(0, i as int);
            let ghost next = delta@.subrange(0, i as int + 1);
            proof {
                assert(next.drop_last() =~= prefix);
                assert(next.last() == e);
                lemma_delta_sum_prefix(delta@, i as int + 1, k);
                assert(get_or_zero(old(self)@, k) + delta_sum(delta@, k) <= u64::MAX);
            }
            self.add(e.latitude, e.longitude, e.frequency);
            proof {
                assert forall|q: (int, int)| #[trigger]
                    self@.contains_key(q) <==> old(self)@.contains_key(q) || delta_has(next, q) by {
                    if delta_has(prefix, q) {
                        let j = choose|j: int| 0 <= j < prefix.len() && prefix[j].key() == q;
                        assert(next[j] == prefix[j]);
                    }
                    if q == k {
                        assert(next[i as int] == e);
                    }
                    if delta_has(next, q) && q != k {
                        let j = choose|j: int| 0 <= j < next.len() && next[j].key() == q;
                        assert(j < i);
                        assert(prefix[j] == next[j]);
                    }
                }
                if !cur.contains_key(k) {
                    lemma_delta_sum_absent(prefix, k);
                }
                assert forall|q: (int, int)| #[trigger] self@.contains_key(q) implies self@[q]
                    == get_or_zero(old(self)@, q) + delta_sum(next, q) by {
                    if q != k && !cur.contains_key(q) {
                        assert(cur.contains_key(q));
                    }
                }
            }
            i = i + 1;
        }
        proof {
            assert(delta@.subrange(0, n as int) =~= delta@);
        }
    }

    /// Adds `amount` to the count of `k`, inserting `k` first where absent.
    pub fn add(&mut self, latitude: i64, longitude: i64, amount: u64)
        requires
            old(self).wf(),
            old(self)@.contains_key((latitude as int, longitude as int)) ==> old(self)@[(
                latitude as int,
                longitude as int,
            )] + amount <= u64::MAX,
        ensures
            final(self).wf(),
            final(self)@ == old(self)@.insert(
                (latitude as int, longitude as int),
                (get_or_zero(old(self)@, (latitude as int, longitude as int)) + amount) as nat,
            ),
    {
        let ghost k = (latitude as int, longitude as int);
        proof {
            lemma_pack_range(k);
        }
        let key = pack_exec(latitude, longitude);
        let current = self.counts.get(&key);
        let old_count: u64 = match current {
            Some(c) => *c,
            None => 0,
        };
        let ghost present = self.counts@.contains_key(key);
        proof {
            assert(present ==> old(self)@.contains_key(k));
        }
        if current.is_none() {
            self.order.push(key);
        }
        self.counts.insert(key, old_count + amount);
        proof {
            assert forall|i: int| 0 <= i < self.order@.len() implies self.counts@.contains_key(
                #[trigger] self.order@[i],
            ) by {
                if i < old(self).order@.len() {
                    assert(old(self).counts@.contains_key(old(self).order@[i]));
                }
            }
            assert forall|x: u128| #[trigger] self.counts@.contains_key(x) implies self.order@.contains(x) by {
                if x != key {
                    assert(old(self).counts@.contains_key(x));
                    let j = choose|j: int| 0 <= j < old(self).order@.len() && old(self).order@[j] == x;
                    assert(self.order@[j] == x);
                } else {
                    if !present {
                        assert(self.order@[self.order@.len() - 1] == x);
                    } else {
                        let j = choose|j: int| 0 <= j < old(self).order@.len() && old(self).order@[j] == x;
                        assert(self.order@[j] == x);
                    }
                }
            }
            if !present {
                assert(!old(self).order@.contains(key));
            }
            let expected = old(self)@.insert(k, (get_or_zero(old(self)@, k) + amount) as nat);
            assert forall|q: (int, int)| #[trigger] self@.contains_key(q) == expected.contains_key(q) by {
                if valid_key(q) && q != k {
                    lemma_pack_range(q);
                    if pack(q) == pack(k) {
                        lemma_pack_injective(q, k);
                    }
                }
            }
            assert forall|q: (int, int)| #[trigger] self@.contains_key(q) implies self@[q] == expected[q] by {
                if q != k {
                    lemma_pack_range(q);
                    if pack(q) == pack(k) {
                        lemma_pack_injective(q, k);
                    }
                }
            }
            assert(self@ =~= expected);
        }
    }
}

/// `entries` lists each key of `m` exactly once, with its count.
pub open spec fn lists_map(entries: Seq<HeatmapEntry>, m: Map<(int, int), nat>) -> bool {
    &&& forall|i: int, j: int|
        0 <= i < j < entries.len() ==> (#[trigger] entries[i]).key() != (#[trigger] entries[j]).key()
    &&& forall|i: int|
        0 <= i < entries.len() ==> m.contains_key((#[trigger] entries[i]).key()) && m[entries[i].key()]
            == entries[i].frequency
    &&& forall|k: (int, int)|
        #[trigger] m.contains_key(k) ==> exists|i: int| 0 <= i < entries.len() && entries[i].key() == k
}

/// Sum of the frequencies that `delta` holds for `k`.
pub open spec fn delta_sum(delta: Seq<HeatmapEntry>, k: (int, int)) -> nat
    decreases delta.len(),
{
    if delta.len() == 0 {
        0
    } else {
        let last = delta.last();
        delta_sum(delta.drop_last(), k) + if last.key() == k {
            last.frequency as nat
        } else {
            0
        }
    }
}

/// Whether `delta` names `k` at all.
pub open spec fn delta_has(delta: Seq<HeatmapEntry>, k: (int, int)) -> bool {
    exists|i: int| 0 <= i < delta.len() && delta[i].key() == k
}

/// `after` is `before` with every frequency of `delta` added to its key's count;
/// a key first named by `delta` starts from zero.
pub open spec fn is_merge(
    before: Map<(int, int), nat>,
    delta: Seq<HeatmapEntry>,
    after: Map<(int, int), nat>,
) -> bool {
    &&& forall|k: (int, int)| #[trigger]
        after.contains_key(k) <==> before.contains_key(k) || delta_has(delta, k)
    &&& forall|k: (int, int)| #[trigger]
        after.contains_key(k) ==> after[k] == get_or_zero(before, k) + delta_sum(delta, k)
}

/// Every key of a merge fits a `u64` count.
pub open spec fn merge_fits(before: Map<(int, int), nat>, delta: Seq<HeatmapEntry>) -> bool {
    forall|k: (int, int)| get_or_zero(before, k) + #[trigger] delta_sum(delta, k) <= u64::MAX
}

pub proof fn lemma_delta_sum_prefix(delta: Seq<HeatmapEntry>, i: int, k: (int, int))
    requires
        0 <= i <= delta.len(),
    ensures
        delta_sum(delta.subrange(0, i), k) <= delta_sum(delta, k),
    decreases delta.len(),
{
    if i < delta.len() {
        assert(delta.drop_last().subrange(0, i) =~= delta.subrange(0, i));
        lemma_delta_sum_prefix(delta.drop_last(), i, k);
    } else {
        assert(delta.subrange(0, i) =~= delta);
    }
}

pub proof fn lemma_delta_sum_absent(delta: Seq<HeatmapEntry>, k: (int, int))
    requires
        !delta_has(delta, k),
    ensures
        delta_sum(delta, k) == 0,
    decreases delta.len(),
{
    if delta.len() > 0 {
        assert forall|j: int| 0 <= j < delta.drop_last().len() implies delta.drop_last()[j].key()
            != k by {
            assert(delta[j] == delta.drop_last()[j]);
        }
        lemma_delta_sum_absent(delta.drop_last(), k);
        assert(delta[delta.len() - 1] == delta.last());
    }
}

pub open spec fn get_or_zero(m: Map<(int, int), nat>, k: (int, int)) -> nat {
    if m.contains_key(k) {
        m[k]
    } else {
        0
    }
}

fn pack_exec(latitude: i64, longitude: i64) -> (r: u128)
    ensures
        r == pack((latitude as int, longitude as int)),
{
    proof {
        lemma_pack_range((latitude as int, longitude as int));
    }
    let a = (latitude as i128 - i64::MIN as i128) as u128;
    let b = (longitude as i128 - i64::MIN as i128) as u128;
    proof {
        assert(0 <= a * key_base() <= (key_base() - 1) * key_base()) by (nonlinear_arith)
            requires
                0 <= a < key_base(),
                key_base() == 0x1_0000_0000_0000_0000int,
        ;
    }
    a * 0x1_0000_0000_0000_0000u128 + b
}

} // verus!
