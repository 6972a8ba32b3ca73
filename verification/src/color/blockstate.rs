//! The bitmask condition engine.
//!
//! Each distinct `key=value` predicate is assigned one fresh bit; a stored
//! value sits under the OR of its predicates' bits, and a query ORs the bits
//! of the predicates it presents. [`BlockState`] wraps the engine in the
//! three shapes a block state table can take.

use vstd::prelude::*;

use crate::text::bytes_eq;
use crate::text::clone_bytes;

verus! {

use vstd::pervasive::VecAdditionalExecFns;

/// The map an association list denotes; later entries override earlier ones.
pub open spec fn assoc_map<K, V>(s: Seq<(K, V)>) -> Map<K, V>
    decreases s.len(),
{
    if s.len() == 0 {
        Map::empty()
    } else {
        assoc_map(s.drop_last()).insert(s.last().0, s.last().1)
    }
}

/// No two entries share a key.
pub open spec fn distinct_keys<K, V>(s: Seq<(K, V)>) -> bool {
    forall|i: int, j: int| 0 <= i < j < s.len() ==> (#[trigger] s[i]).0 != (#[trigger] s[j]).0
}

/// Each entry of a duplicate-free association list is what the map returns.
pub proof fn lemma_assoc_map_index<K, V>(s: Seq<(K, V)>, i: int)
    requires
        distinct_keys(s),
        0 <= i < s.len(),
    ensures
        assoc_map(s).dom().contains(s[i].0),
        assoc_map(s)[s[i].0] == s[i].1,
    decreases s.len(),
{
    if i < s.len() - 1 {
        assert(distinct_keys(s.drop_last())) by {
            assert(forall|x: int, y: int|
                0 <= x < y < s.len() - 1 ==> s.drop_last()[x] == s[x] && s.drop_last()[y] == s[y]);
        }
        assert(s.drop_last()[i] == s[i]);
        lemma_assoc_map_index(s.drop_last(), i);
        assert(s[i].0 != s.last().0);
    }
}

/// A key no entry holds is not in the map.
pub proof fn lemma_assoc_map_absent<K, V>(s: Seq<(K, V)>, k: K)
    requires
        forall|i: int| 0 <= i < s.len() ==> (#[trigger] s[i]).0 != k,
    ensures
        !assoc_map(s).dom().contains(k),
    decreases s.len(),
{
    if s.len() > 0 {
        assert(forall|i: int|
            0 <= i < s.len() - 1 ==> (#[trigger] s.drop_last()[i]).0 == s[i].0);
        lemma_assoc_map_absent(s.drop_last(), k);
    }
}

/// Overwriting the value at one entry updates the map at that entry's key.
proof fn lemma_assoc_map_update<K, V>(s: Seq<(K, V)>, i: int, v: V)
    requires
        distinct_keys(s),
        0 <= i < s.len(),
    ensures
        assoc_map(s.update(i, (s[i].0, v))) == assoc_map(s).insert(s[i].0, v),
    decreases s.len(),
{
    let s2 = s.update(i, (s[i].0, v));
    if i == s.len() - 1 {
        assert(s2.drop_last() =~= s.drop_last());
        assert(assoc_map(s2) =~= assoc_map(s).insert(s[i].0, v));
    } else {
        assert(distinct_keys(s.drop_last())) by {
            assert(forall|x: int, y: int|
                0 <= x < y < s.len() - 1 ==> s.drop_last()[x] == s[x] && s.drop_last()[y] == s[y]);
        }
        assert(s.drop_last()[i] == s[i]);
        lemma_assoc_map_update(s.drop_last(), i, v);
        assert(s2.drop_last() =~= s.drop_last().update(i, (s[i].0, v)));
        assert(s2.last() == s.last());
        assert(s[i].0 != s.last().0);
        assert(assoc_map(s2) =~= assoc_map(s).insert(s[i].0, v));
    }
}

/// Splicing a fresh key into the list inserts it into the map.
pub proof fn lemma_assoc_map_insert_at<K, V>(s: Seq<(K, V)>, i: int, k: K, v: V)
    requires
        forall|j: int| 0 <= j < s.len() ==> (#[trigger] s[j]).0 != k,
        0 <= i <= s.len(),
    ensures
        assoc_map(s.insert(i, (k, v))) == assoc_map(s).insert(k, v),
    decreases s.len(),
{
    let s2 = s.insert(i, (k, v));
    if i == s.len() {
        assert(s2.drop_last() =~= s);
        assert(s2.last() == (k, v));
        assert(assoc_map(s2) =~= assoc_map(s).insert(k, v));
    } else {
        assert(forall|j: int|
            0 <= j < s.len() - 1 ==> (#[trigger] s.drop_last()[j]).0 == s[j].0);
        lemma_assoc_map_insert_at(s.drop_last(), i, k, v);
        assert(s2.drop_last() =~= s.drop_last().insert(i, (k, v)));
        assert(s2.last() == s.last());
        assert(s.last().0 != k);
        assert(assoc_map(s2) =~= assoc_map(s).insert(k, v));
    }
}

/// Dropping one entry of a duplicate-free association list removes exactly
/// its key from the map.
pub proof fn lemma_assoc_map_remove_at<K, V>(s: Seq<(K, V)>, i: int)
    requires
        distinct_keys(s),
        0 <= i < s.len(),
    ensures
        assoc_map(s.remove(i)) == assoc_map(s).remove(s[i].0),
        distinct_keys(s.remove(i)),
    decreases s.len(),
{
    let s2 = s.remove(i);
    assert(distinct_keys(s2)) by {
        assert(forall|x: int|
            0 <= x < s2.len() ==> #[trigger] s2[x] == (if x < i {
                s[x]
            } else {
                s[x + 1]
            }));
    }
    if i == s.len() - 1 {
        assert(s2 =~= s.drop_last());
        assert(forall|j: int|
            0 <= j < s.len() - 1 ==> (#[trigger] s.drop_last()[j]).0 == s[j].0);
        lemma_assoc_map_absent(s.drop_last(), s.last().0);
        assert(assoc_map(s.remove(i)) =~= assoc_map(s).remove(s[i].0));
    } else {
        assert(distinct_keys(s.drop_last())) by {
            assert(forall|x: int, y: int|
                0 <= x < y < s.len() - 1 ==> s.drop_last()[x] == s[x] && s.drop_last()[y] == s[y]);
        }
        assert(s.drop_last()[i] == s[i]);
        lemma_assoc_map_remove_at(s.drop_last(), i);
        assert(s2.drop_last() =~= s.drop_last().remove(i));
        assert(s2.last() == s.last());
        assert(s[i].0 != s.last().0);
        assert(assoc_map(s2) =~= assoc_map(s).remove(s[i].0));
    }
}

/// A duplicate-free association list and its map have the same size.
proof fn lemma_assoc_map_len<K, V>(s: Seq<(K, V)>)
    requires
        distinct_keys(s),
    ensures
        assoc_map(s).dom().finite(),
        assoc_map(s).dom().len() == s.len(),
    decreases s.len(),
{
    if s.len() > 0 {
        assert(distinct_keys(s.drop_last())) by {
            assert(forall|x: int, y: int|
                0 <= x < y < s.len() - 1 ==> s.drop_last()[x] == s[x] && s.drop_last()[y] == s[y]);
        }
        lemma_assoc_map_len(s.drop_last());
        assert(forall|j: int|
            0 <= j < s.len() - 1 ==> (#[trigger] s.drop_last()[j]).0 == s[j].0);
        lemma_assoc_map_absent(s.drop_last(), s.last().0);
    }
}

/// The mask a query earns: the OR of the bits of every predicate that the
/// key table knows; unknown predicates contribute nothing.
pub open spec fn query_mask(km: Map<Seq<u8>, usize>, q: Seq<Seq<u8>>) -> usize
    decreases q.len(),
{
    if q.len() == 0 {
        0
    } else {
        query_mask(km, q.drop_last()) | (if km.dom().contains(q.last()) {
            km[q.last()]
        } else {
            0
        })
    }
}

/// Whether the key table knows every predicate of the query.
pub open spec fn all_known(km: Map<Seq<u8>, usize>, q: Seq<Seq<u8>>) -> bool {
    forall|i: int| 0 <= i < q.len() ==> km.dom().contains(#[trigger] q[i])
}

/// With no key registered at all, every query collapses to the ground mask 0.
pub proof fn lemma_empty_keys_query_mask(km: Map<Seq<u8>, usize>, q: Seq<Seq<u8>>)
    requires
        km.dom() =~= Set::empty(),
    ensures
        query_mask(km, q) == 0,
    decreases q.len(),
{
    if q.len() > 0 {
        lemma_empty_keys_query_mask(km, q.drop_last());
        assert(0usize | 0usize == 0usize) by (bit_vector);
    }
}

/// One step of predicate registration: an existing predicate hands back its
/// bit; a new one takes the lowest bit above every bit handed out so far, or
/// fails once the word is full.
pub open spec fn key_step(km: Map<Seq<u8>, usize>, mask: usize, k: Seq<u8>) -> (
    Map<Seq<u8>, usize>,
    usize,
    Option<usize>,
) {
    if km.dom().contains(k) {
        (km, mask, Some(km[k]))
    } else if mask == usize::MAX {
        (km, mask, None)
    } else {
        (km.insert(k, (mask + 1) as usize), ((mask + 1) as usize) | mask, Some((mask + 1) as usize))
    }
}

/// Registering a whole predicate list, left to right, accumulating the OR of
/// the bits; the boolean reports whether every step succeeded.
pub open spec fn ins_chain(km: Map<Seq<u8>, usize>, mask: usize, acc: usize, q: Seq<Seq<u8>>) -> (
    Map<Seq<u8>, usize>,
    usize,
    usize,
    bool,
)
    decreases q.len(),
{
    if q.len() == 0 {
        (km, mask, acc, true)
    } else {
        let (km2, mask2, r) = key_step(km, mask, q.first());
        match r {
            Some(n) => ins_chain(km2, mask2, acc | n, q.drop_first()),
            None => (km2, mask2, acc, false),
        }
    }
}

/// The bitmask condition engine: predicates mapped to bits, values stored
/// under bit masks, and the OR of every bit handed out so far.
#[derive(Debug)]
pub struct Expression {
    keys: Vec<(Vec<u8>, usize)>,
    values: Vec<(usize, usize)>,
    mask: usize,
}

impl Expression {
    /// The predicate table as an association sequence of byte-string views.
    pub closed spec fn keys_seq(self) -> Seq<(Seq<u8>, usize)> {
        self.keys@.map_values(|p: (Vec<u8>, usize)| (p.0@, p.1))
    }

    /// The value table as an association sequence, ascending by mask.
    pub closed spec fn vals_seq(self) -> Seq<(usize, usize)> {
        self.values@
    }

    /// Predicate-to-bit map.
    pub open spec fn key_map(self) -> Map<Seq<u8>, usize> {
        assoc_map(self.keys_seq())
    }

    /// Mask-to-value map.
    pub open spec fn val_map(self) -> Map<usize, usize> {
        assoc_map(self.vals_seq())
    }

    /// The OR of every predicate bit handed out.
    pub closed spec fn spec_mask(self) -> usize {
        self.mask
    }

    /// Well-formedness: predicates are unique and the value table is sorted
    /// strictly by mask.
    pub closed spec fn wf(self) -> bool {
        &&& distinct_keys(self.keys_seq())
        &&& forall|i: int, j: int|
            0 <= i < j < self.values@.len() ==> (#[trigger] self.values@[i]).0 < (
            #[trigger] self.values@[j]).0
    }

    /// Looks a predicate up in the key table.
    #[verifier::loop_isolation(false)]
    fn find_key(&self, k: &[u8]) -> (r: Option<usize>)
        ensures
            match r {
                Some(n) => self.key_map().dom().contains(k@) && (!distinct_keys(self.keys_seq())
                    || self.key_map()[k@] == n),
                None => !self.key_map().dom().contains(k@) && forall|i: int|
                    0 <= i < self.keys_seq().len() ==> (#[trigger] self.keys_seq()[i]).0 != k@,
            },
    {
        let mut i: usize = 0;
        while i < self.keys.len()
            invariant
                0 <= i <= self.keys@.len(),
                forall|j: int| 0 <= j < i ==> (#[trigger] self.keys_seq()[j]).0 != k@,
            decreases self.keys@.len() - i,
        {
            if bytes_eq(self.keys[i].0.as_slice(), k) {
                proof {
                    assert(self.keys_seq()[i as int].0 == k@);
                    if distinct_keys(self.keys_seq()) {
                        lemma_assoc_map_index(self.keys_seq(), i as int);
                    } else {
                        lemma_assoc_contains_of_index(self.keys_seq(), i as int);
                    }
                }
                return Some(self.keys[i].1);
            }
            i = i + 1;
        }
        proof {
            lemma_assoc_map_absent(self.keys_seq(), k@);
        }
        None
    }

    /// Looks a mask up in the value table.
    #[verifier::loop_isolation(false)]
    fn find_value(&self, m: usize) -> (r: Option<usize>)
        requires
            self.wf(),
        ensures
            match r {
                Some(v) => self.val_map().dom().contains(m) && self.val_map()[m] == v,
                None => !self.val_map().dom().contains(m),
            },
    {
        let mut i: usize = 0;
        while i < self.values.len()
            invariant
                0 <= i <= self.values@.len(),
                forall|j: int| 0 <= j < i ==> (#[trigger] self.values@[j]).0 != m,
            decreases self.values@.len() - i,
        {
            if self.values[i].0 == m {
                proof {
                    lemma_assoc_map_index(self.values@, i as int);
                }
                return Some(self.values[i].1);
            }
            i = i + 1;
        }
        proof {
            lemma_assoc_map_absent(self.values@, m);
        }
        None
    }

    /// Stores `v` under mask `m`, keeping the table sorted; hands back the
    /// value previously stored there, as a map insert would.
    #[verifier::loop_isolation(false)]
    fn set_value(&mut self, m: usize, v: usize) -> (r: Option<usize>)
        requires
            old(self).wf(),
        ensures
            final(self).wf(),
            final(self).keys_seq() == old(self).keys_seq(),
            final(self).spec_mask() == old(self).spec_mask(),
            final(self).val_map() == old(self).val_map().insert(m, v),
            r == (if old(self).val_map().dom().contains(m) {
                Some(old(self).val_map()[m])
            } else {
                None::<usize>
            }),
    {
        let mut i: usize = 0;
        while i < self.values.len() && self.values[i].0 < m
            invariant
                0 <= i <= self.values@.len(),
                forall|j: int| 0 <= j < i ==> (#[trigger] self.values@[j]).0 < m,
            decreases self.values@.len() - i,
        {
            i = i + 1;
        }
        if i < self.values.len() && self.values[i].0 == m {
            let old_v = self.values[i].1;
            proof {
                lemma_assoc_map_index(self.values@, i as int);
                lemma_assoc_map_update(self.values@, i as int, v);
            }
            let node = (m, v);
            self.values.set(i, node);
            proof {
                assert(self.values@ =~= old(self).values@.update(i as int, (m, v)));
            }
            Some(old_v)
        } else {
            proof {
                assert(forall|j: int|
                    0 <= j < self.values@.len() ==> (#[trigger] self.values@[j]).0 != m) by {
                    assert(forall|j: int|
                        i <= j < self.values@.len() ==> (#[trigger] self.values@[j]).0 >= self.values@[i as int].0
                            || j == i);
                }
                lemma_assoc_map_absent(self.values@, m);
                lemma_assoc_map_insert_at(self.values@, i as int, m, v);
            }
            self.values.insert(i, (m, v));
            proof {
                assert(forall|x: int, y: int|
                    0 <= x < y < self.values@.len() ==> (#[trigger] self.values@[x]).0 < (
                    #[trigger] self.values@[y]).0) by {
                    assert(forall|x: int|
                        0 <= x < self.values@.len() ==> self.values@[x] == (if x < i {
                            old(self).values@[x]
                        } else if x == i {
                            (m, v)
                        } else {
                            old(self).values@[x - 1]
                        }));
                }
            }
            None
        }
    }

    /// The mask every registration starts from: no predicate bits yet.
    pub fn get_initial_link(&self) -> (r: usize)
        ensures
            r == 0,
    {
        0
    }

    /// How many predicates and how many stored values the engine holds.
    pub fn size(&self) -> (r: (usize, usize))
        requires
            self.wf(),
        ensures
            r.0 == self.key_map().dom().len(),
            r.1 == self.val_map().dom().len(),
    {
        proof {
            lemma_assoc_map_len(self.keys_seq());
            lemma_assoc_map_len(self.vals_seq());
        }
        (self.keys.len(), self.values.len())
    }

    /// Registers one predicate: a known one ORs its bit into `m` and returns
    /// it; a new one is assigned the word's next fresh bit, or `None` when
    /// the bit space is exhausted.
    pub fn insert_key(&mut self, k: &Vec<u8>, m: &mut usize) -> (r: Option<usize>)
        requires
            old(self).wf(),
        ensures
            final(self).wf(),
            final(self).vals_seq() == old(self).vals_seq(),
            ({
                let (km2, mask2, rr) = key_step(old(self).key_map(), old(self).spec_mask(), k@);
                &&& final(self).key_map() == km2
                &&& final(self).spec_mask() == mask2
                &&& r == rr
                &&& match rr {
                    Some(n) => *final(m) == (*old(m) | n),
                    None => *final(m) == *old(m),
                }
            }),
    {
        match self.find_key(k.as_slice()) {
            Some(n) => {
                *m = *m | n;
                Some(n)
            },
            None => {
                if self.mask == usize::MAX {
                    return None;
                }
                let n = self.mask + 1;
                self.mask = n | self.mask;
                let entry = (clone_bytes(k), n);
                proof {
                    let s = self.keys_seq();
                    lemma_assoc_map_insert_at(s, s.len() as int, k@, n);
                    assert(s.insert(s.len() as int, (k@, n)) =~= s.push((k@, n)));
                }
                self.keys.push(entry);
                proof {
                    assert(self.keys_seq() =~= old(self).keys_seq().push((k@, n)));
                }
                *m = *m | n;
                Some(n)
            },
        }
    }

    /// Registers every predicate of `key`, then stores `value` under the
    /// resulting mask; `None` (with the predicates registered so far kept)
    /// when the bit space runs out.
    #[verifier::loop_isolation(false)]
    pub fn insert(&mut self, key: &Vec<Vec<u8>>, value: usize) -> (r: Option<usize>)
        requires
            old(self).wf(),
        ensures
            final(self).wf(),
            ({
                let (km2, mask2, acc, ok) = ins_chain(
                    old(self).key_map(),
                    old(self).spec_mask(),
                    0,
                    key.deep_view(),
                );
                &&& final(self).key_map() == km2
                &&& final(self).spec_mask() == mask2
                &&& if ok {
                    r == Some(acc) && final(self).val_map() == old(self).val_map().insert(
                        acc,
                        value,
                    )
                } else {
                    r is None && final(self).val_map() == old(self).val_map()
                }
            }),
    {
        let ghost q = key.deep_view();
        let mut m: usize = self.get_initial_link();
        let mut i: usize = 0;
        proof {
            assert(q.skip(0) =~= q);
        }
        while i < key.len()
            invariant
                0 <= i <= key@.len(),
                self.wf(),
                self.vals_seq() == old(self).vals_seq(),
                ins_chain(old(self).key_map(), old(self).spec_mask(), 0, q) == ins_chain(
                    self.key_map(),
                    self.spec_mask(),
                    m,
                    q.skip(i as int),
                ),
            decreases key@.len() - i,
        {
            let ghost pre = *self;
            let ghost m_pre = m;
            proof {
                assert(q[i as int] =~= key@[i as int]@);
            }
            let r = self.insert_key(&key[i], &mut m);
            proof {
                let rest = q.skip(i as int);
                assert(rest.first() == q[i as int]);
                assert(rest.drop_first() =~= q.skip(i + 1));
                assert(ins_chain(pre.key_map(), pre.spec_mask(), m_pre, rest) == (if r is Some {
                    ins_chain(self.key_map(), self.spec_mask(), m, q.skip(i + 1))
                } else {
                    (self.key_map(), self.spec_mask(), m_pre, false)
                }));
            }
            if r.is_none() {
                return None;
            }
            i = i + 1;
        }
        proof {
            assert(q.skip(i as int) =~= Seq::<Seq<u8>>::empty());
        }
        self.set_value(m, value);
        Some(m)
    }

    /// Stores `v` directly under mask `m`, handing back what was there.
    pub fn insert_value_unchecked(&mut self, m: usize, v: usize) -> (r: Option<usize>)
        requires
            old(self).wf(),
        ensures
            final(self).wf(),
            final(self).keys_seq() == old(self).keys_seq(),
            final(self).spec_mask() == old(self).spec_mask(),
            final(self).val_map() == old(self).val_map().insert(m, v),
            r == (if old(self).val_map().dom().contains(m) {
                Some(old(self).val_map()[m])
            } else {
                None::<usize>
            }),
    {
        self.set_value(m, v)
    }

    /// Retrieves the value stored under the query's mask. With `strict`, an
    /// unrecognized predicate aborts the lookup; otherwise unknown
    /// predicates are ignored. An engine with no keys at all serves the
    /// ground-state value at mask 0 to every query.
    #[verifier::loop_isolation(false)]
    pub fn get(&self, key: &Vec<Vec<u8>>, strict: bool) -> (r: Option<usize>)
        requires
            self.wf(),
        ensures
            strict && !all_known(self.key_map(), key.deep_view()) ==> r is None,
            (!strict || all_known(self.key_map(), key.deep_view())) ==> r == (if self.val_map().dom().contains(
                query_mask(self.key_map(), key.deep_view()),
            ) {
                Some(self.val_map()[query_mask(self.key_map(), key.deep_view())])
            } else {
                None::<usize>
            }),
    {
        let ghost q = key.deep_view();
        if !strict && self.keys.len() == 0 {
            proof {
                lemma_empty_keys_query_mask(self.key_map(), q);
            }
            return self.find_value(0);
        }
        let mut m: usize = 0;
        let mut i: usize = 0;
        while i < key.len()
            invariant
                0 <= i <= key@.len(),
                m == query_mask(self.key_map(), q.take(i as int)),
                strict ==> all_known(self.key_map(), q.take(i as int)),
            decreases key@.len() - i,
        {
            proof {
                assert(q[i as int] =~= key@[i as int]@);
            }
            match self.find_key(key[i].as_slice()) {
                Some(n) => {
                    m = m | n;
                },
                None => {
                    if strict {
                        proof {
                            assert(!all_known(self.key_map(), q));
                        }
                        return None;
                    }
                    proof {
                        assert((m | 0usize) == m) by (bit_vector);
                    }
                },
            }
            proof {
                assert(q.take(i + 1).drop_last() =~= q.take(i as int));
                assert(q.take(i + 1).last() == q[i as int]);
            }
            i = i + 1;
        }
        proof {
            assert(q.take(i as int) =~= q);
        }
        self.find_value(m)
    }

    /// Every stored value, in ascending order of its mask.
    #[verifier::loop_isolation(false)]
    pub fn all(&self) -> (r: Vec<usize>)
        ensures
            r@ == self.vals_seq().map_values(|p: (usize, usize)| p.1),
    {
        let mut r: Vec<usize> = Vec::new();
        let mut i: usize = 0;
        while i < self.values.len()
            invariant
                0 <= i <= self.values@.len(),
                r@ =~= self.vals_seq().take(i as int).map_values(|p: (usize, usize)| p.1),
            decreases self.values@.len() - i,
        {
            r.push(self.values[i].1);
            proof {
                assert(self.vals_seq().take(i + 1) =~= self.vals_seq().take(i as int).push(
                    self.vals_seq()[i as int],
                ));
            }
            i = i + 1;
        }
        proof {
            assert(self.vals_seq().take(i as int) =~= self.vals_seq());
        }
        r
    }
}

impl Default for Expression {
    /// The empty engine: no predicates, no values, no bits handed out.
    fn default() -> (r: Self)
        ensures
            r.wf(),
            r.key_map() == Map::<Seq<u8>, usize>::empty(),
            r.val_map() == Map::<usize, usize>::empty(),
            r.spec_mask() == 0,
            r.keys_seq().len() == 0,
            r.vals_seq().len() == 0,
    {
        let r = Expression { keys: Vec::new(), values: Vec::new(), mask: 0 };
        proof {
            assert(r.keys_seq() =~= Seq::<(Seq<u8>, usize)>::empty());
        }
        r
    }
}

/// The OR of every mask in a predicate table.
pub open spec fn or_masks(s: Seq<(Seq<u8>, usize)>) -> usize
    decreases s.len(),
{
    if s.len() == 0 {
        0
    } else {
        or_masks(s.drop_last()) | s.last().1
    }
}

/// Registering one multipart group: every mask of `when` stores `val`, and
/// the group's own mask is their OR.
pub open spec fn group_fold(vm: Map<usize, usize>, conds: Seq<usize>, val: usize) -> (
    Map<usize, usize>,
    usize,
)
    decreases conds.len(),
{
    if conds.len() == 0 {
        (vm, 0)
    } else {
        let (vm2, gm) = group_fold(vm, conds.drop_last(), val);
        (vm2.insert(conds.last(), val), gm | conds.last())
    }
}

/// Registering every multipart group in order.
pub open spec fn mp_fold(vm: Map<usize, usize>, entries: Seq<(Seq<usize>, usize)>) -> (
    Map<usize, usize>,
    Seq<usize>,
)
    decreases entries.len(),
{
    if entries.len() == 0 {
        (vm, Seq::empty())
    } else {
        let (vm2, gs) = mp_fold(vm, entries.drop_last());
        let (vm3, gm) = group_fold(vm2, entries.last().0, entries.last().1);
        (vm3, gs.push(gm))
    }
}

/// The values a multipart query collects: for every group whose mask
/// intersected with the query mask stores a value, that value, in group
/// registration order.
pub open spec fn mp_hits(vm: Map<usize, usize>, groups: Seq<usize>, qm: usize) -> Seq<usize>
    decreases groups.len(),
{
    if groups.len() == 0 {
        Seq::empty()
    } else {
        let n = groups.last() & qm;
        mp_hits(vm, groups.drop_last(), qm) + (if vm.dom().contains(n) {
            seq![vm[n]]
        } else {
            Seq::empty()
        })
    }
}

/// A block state table in one of its three shapes: one fixed value, a strict
/// variants table, or a union of independently enabled condition groups.
#[derive(Debug)]
pub enum BlockState {
    Single(usize),
    Variants(Expression),
    MultiPart(Expression, Vec<usize>),
}

impl BlockState {
    /// Well-formedness of the wrapped engine.
    pub open spec fn wf(self) -> bool {
        match self {
            BlockState::Single(_) => true,
            BlockState::Variants(e) => e.wf(),
            BlockState::MultiPart(e, _) => e.wf(),
        }
    }

    /// The shape that always serves one value.
    pub fn build_single(m: usize) -> (r: Self)
        ensures
            r == BlockState::Single(m),
            r.wf(),
    {
        BlockState::Single(m)
    }

    /// Builds the variants shape from a predicate table and a value table;
    /// the engine's mask is the OR of every predicate bit.
    #[verifier::loop_isolation(false)]
    pub fn build_variants(keys: Vec<(Vec<u8>, usize)>, values: Vec<(usize, usize)>) -> (r: Self)
        requires
            distinct_keys(keys@.map_values(|p: (Vec<u8>, usize)| (p.0@, p.1))),
            forall|i: int, j: int|
                0 <= i < j < values@.len() ==> (#[trigger] values@[i]).0 < (#[trigger] values@[j]).0,
        ensures
            r is Variants,
            r.wf(),
            r->Variants_0.keys_seq() == keys@.map_values(|p: (Vec<u8>, usize)| (p.0@, p.1)),
            r->Variants_0.vals_seq() == values@,
            r->Variants_0.spec_mask() == or_masks(keys@.map_values(|p: (Vec<u8>, usize)| (p.0@, p.1))),
    {
        let ghost ks = keys@.map_values(|p: (Vec<u8>, usize)| (p.0@, p.1));
        let mut mask: usize = 0;
        let mut i: usize = 0;
        while i < keys.len()
            invariant
                0 <= i <= keys@.len(),
                mask == or_masks(ks.take(i as int)),
            decreases keys@.len() - i,
        {
            mask = mask | keys[i].1;
            proof {
                assert(ks.take(i + 1).drop_last() =~= ks.take(i as int));
                assert(ks.take(i + 1).last() == ks[i as int]);
            }
            i = i + 1;
        }
        proof {
            assert(ks.take(i as int) =~= ks);
        }
        let e = Expression { keys, values, mask };
        proof {
            assert(e.keys_seq() == ks);
        }
        BlockState::Variants(e)
    }

    /// Builds the multipart shape: every group's masks store that group's
    /// value, and the group list keeps each group's OR mask in registration
    /// order.
    #[verifier::loop_isolation(false)]
    pub fn build_multipart(keys: Vec<(Vec<u8>, usize)>, values: Vec<(Vec<usize>, usize)>) -> (r:
        Self)
        requires
            distinct_keys(keys@.map_values(|p: (Vec<u8>, usize)| (p.0@, p.1))),
        ensures
            r is MultiPart,
            r.wf(),
            r->MultiPart_0.keys_seq() == keys@.map_values(|p: (Vec<u8>, usize)| (p.0@, p.1)),
            r->MultiPart_0.spec_mask() == or_masks(
                keys@.map_values(|p: (Vec<u8>, usize)| (p.0@, p.1)),
            ),
            ({
                let (vm, gs) = mp_fold(
                    Map::empty(),
                    values@.map_values(|p: (Vec<usize>, usize)| (p.0@, p.1)),
                );
                r->MultiPart_0.val_map() == vm && r->MultiPart_1@ == gs
            }),
    {
        let ghost ks = keys@.map_values(|p: (Vec<u8>, usize)| (p.0@, p.1));
        let ghost entries = values@.map_values(|p: (Vec<usize>, usize)| (p.0@, p.1));
        let mut mask: usize = 0;
        let mut i: usize = 0;
        while i < keys.len()
            invariant
                0 <= i <= keys@.len(),
                mask == or_masks(ks.take(i as int)),
            decreases keys@.len() - i,
        {
            mask = mask | keys[i].1;
            proof {
                assert(ks.take(i + 1).drop_last() =~= ks.take(i as int));
                assert(ks.take(i + 1).last() == ks[i as int]);
            }
            i = i + 1;
        }
        proof {
            assert(ks.take(i as int) =~= ks);
        }
        let mut expr = Expression { keys, values: Vec::new(), mask };
        proof {
            assert(expr.keys_seq() == ks);
            assert(expr.vals_seq() =~= Seq::<(usize, usize)>::empty());
            assert(expr.val_map() =~= Map::<usize, usize>::empty());
        }
        let mut masks: Vec<usize> = Vec::new();
        let mut j: usize = 0;
        while j < values.len()
            invariant
                0 <= j <= values@.len(),
                expr.wf(),
                expr.keys_seq() == ks,
                expr.spec_mask() == or_masks(ks),
                (expr.val_map(), masks@) == mp_fold(
                    Map::<usize, usize>::empty(),
                    entries.take(j as int),
                ),
            decreases values@.len() - j,
        {
            let when_len = values[j].0.len();
            let val = values[j].1;
            let mut groupmask: usize = 0;
            let mut k: usize = 0;
            let ghost vm0 = expr.val_map();
            while k < when_len
                invariant
                    0 <= k <= values@[j as int].0@.len(),
                    when_len == values@[j as int].0@.len(),
                    0 <= j < values@.len(),
                    val == values@[j as int].1,
                    expr.wf(),
                    expr.keys_seq() == ks,
                    expr.spec_mask() == or_masks(ks),
                    (expr.val_map(), groupmask) == group_fold(
                        vm0,
                        values@[j as int].0@.take(k as int),
                        val,
                    ),
                decreases values@[j as int].0@.len() - k,
            {
                let ghost conds = values@[j as int].0@;
                let kk = values[j].0[k];
                expr.set_value(kk, val);
                groupmask = groupmask | kk;
                proof {
                    assert(conds.take(k + 1).drop_last() =~= conds.take(k as int));
                    assert(conds.take(k + 1).last() == conds[k as int]);
                }
                k = k + 1;
            }
            masks.push(groupmask);
            proof {
                assert(values@[j as int].0@.take(when_len as int) =~= values@[j as int].0@);
                assert(entries.take(j + 1).drop_last() =~= entries.take(j as int));
                assert(entries.take(j + 1).last() == entries[j as int]);
                assert(entries[j as int].0 == values@[j as int].0@);
            }
            j = j + 1;
        }
        proof {
            assert(entries.take(j as int) =~= entries);
        }
        BlockState::MultiPart(expr, masks)
    }

    /// Retrieves every value the query enables: one for the single shape,
    /// at most one exact match for variants, and one per satisfied group for
    /// multipart.
    #[verifier::loop_isolation(false)]
    pub fn get(&self, key: &Vec<Vec<u8>>) -> (r: Vec<usize>)
        requires
            self.wf(),
        ensures
            ({
                let q = key.deep_view();
                match *self {
                    BlockState::Single(m) => r@ == seq![m],
                    BlockState::Variants(e) => {
                        let qm = query_mask(e.key_map(), q);
                        r@ == (if e.val_map().dom().contains(qm) {
                            seq![e.val_map()[qm]]
                        } else {
                            Seq::<usize>::empty()
                        })
                    },
                    BlockState::MultiPart(e, g) => r@ == mp_hits(
                        e.val_map(),
                        g@,
                        query_mask(e.key_map(), q),
                    ),
                }
            }),
    {
        let ghost q = key.deep_view();
        match self {
            BlockState::Single(m) => {
                let mut r: Vec<usize> = Vec::new();
                r.push(*m);
                proof {
                    assert(r@ =~= seq![*m]);
                }
                r
            },
            BlockState::Variants(expr) => {
                let m = Self::accumulate_mask(expr, key);
                let mut r: Vec<usize> = Vec::new();
                match expr.find_value(m) {
                    Some(v) => {
                        r.push(v);
                        proof {
                            assert(r@ =~= seq![expr.val_map()[m]]);
                        }
                    },
                    None => {
                        proof {
                            assert(r@ =~= Seq::<usize>::empty());
                        }
                    },
                }
                r
            },
            BlockState::MultiPart(expr, group) => {
                let m = Self::accumulate_mask(expr, key);
                let mut r: Vec<usize> = Vec::new();
                let mut i: usize = 0;
                while i < group.len()
                    invariant
                        0 <= i <= group@.len(),
                        r@ == mp_hits(expr.val_map(), group@.take(i as int), m),
                    decreases group@.len() - i,
                {
                    let n = group[i] & m;
                    match expr.find_value(n) {
                        Some(v) => {
                            r.push(v);
                        },
                        None => {
                        },
                    }
                    proof {
                        assert(group@.take(i + 1).drop_last() =~= group@.take(i as int));
                        assert(group@.take(i + 1).last() == group@[i as int]);
                    }
                    i = i + 1;
                }
                proof {
                    assert(group@.take(i as int) =~= group@);
                }
                r
            },
        }
    }

    /// ORs the bits of every known predicate of the query, ignoring unknown
    /// ones, as every non-strict lookup does.
    #[verifier::loop_isolation(false)]
    fn accumulate_mask(expr: &Expression, key: &Vec<Vec<u8>>) -> (m: usize)
        requires
            expr.wf(),
        ensures
            m == query_mask(expr.key_map(), key.deep_view()),
    {
        let ghost q = key.deep_view();
        let mut m: usize = 0;
        let mut i: usize = 0;
        while i < key.len()
            invariant
                0 <= i <= key@.len(),
                m == query_mask(expr.key_map(), q.take(i as int)),
            decreases key@.len() - i,
        {
            proof {
                assert(q[i as int] =~= key@[i as int]@);
            }
            match expr.find_key(key[i].as_slice()) {
                Some(n) => {
                    m = m | n;
                },
                None => {
                    proof {
                        assert((m | 0usize) == m) by (bit_vector);
                    }
                },
            }
            proof {
                assert(q.take(i + 1).drop_last() =~= q.take(i as int));
                assert(q.take(i + 1).last() == q[i as int]);
            }
            i = i + 1;
        }
        proof {
            assert(q.take(i as int) =~= q);
        }
        m
    }

    /// Opens a fresh, empty condition group at the end of the group list.
    pub fn start_group(&mut self)
        requires
            *old(self) is MultiPart,
        ensures
            *final(self) is MultiPart,
            (*final(self))->MultiPart_0 == (*old(self))->MultiPart_0,
            (*final(self))->MultiPart_1@ == (*old(self))->MultiPart_1@.push(0),
    {
        match self {
            BlockState::MultiPart(expr, group) => {
                let z = expr.get_initial_link();
                group.push(z);
            },
            _ => {
                proof {
                    assert(false);
                }
            },
        }
    }

    /// Registers the query's predicates and stores `value` under their mask:
    /// into the open group for multipart, directly for variants. `None` when
    /// the bit space is exhausted or no group is open.
    pub fn insert_group(&mut self, key: &Vec<Vec<u8>>, value: usize) -> (r: Option<usize>)
        requires
            !(*old(self) is Single),
            old(self).wf(),
        ensures
            final(self).wf(),
            *old(self) is Variants ==> *final(self) is Variants && ({
                let e = (*old(self))->Variants_0;
                let e2 = (*final(self))->Variants_0;
                let (km2, mask2, acc, ok) = ins_chain(e.key_map(), e.spec_mask(), 0, key.deep_view());
                &&& e2.key_map() == km2
                &&& e2.spec_mask() == mask2
                &&& if ok {
                    r == Some(acc) && e2.val_map() == e.val_map().insert(acc, value)
                } else {
                    r is None && e2.val_map() == e.val_map()
                }
            }),
            *old(self) is MultiPart ==> *final(self) is MultiPart && ({
                let e = (*old(self))->MultiPart_0;
                let g = (*old(self))->MultiPart_1@;
                let e2 = (*final(self))->MultiPart_0;
                let g2 = (*final(self))->MultiPart_1@;
                let (km2, mask2, acc, ok) = ins_chain(e.key_map(), e.spec_mask(), 0, key.deep_view());
                &&& e2.key_map() == km2
                &&& e2.spec_mask() == mask2
                &&& if !ok {
                    r is None && e2.val_map() == e.val_map() && g2 == g
                } else if g.len() == 0 {
                    r is None && e2.val_map() == e.val_map() && g2 == g
                } else {
                    r == Some(acc) && e2.val_map() == e.val_map().insert(acc, value) && g2
                        == g.update(g.len() - 1, (g.last() | acc) as usize)
                }
            }),
    {
        match self {
            BlockState::MultiPart(expr, group) => {
                let m = match Self::chain_keys(expr, key) {
                    Some(m) => m,
                    None => {
                        return None;
                    },
                };
                if group.len() == 0 {
                    return None;
                }
                let gi = group.len() - 1;
                let gm = group[gi];
                expr.set_value(m, value);
                let node = gm | m;
                group.set(gi, node);
                Some(m)
            },
            BlockState::Variants(expr) => {
                let m = match Self::chain_keys(expr, key) {
                    Some(m) => m,
                    None => {
                        return None;
                    },
                };
                expr.set_value(m, value);
                Some(m)
            },
            BlockState::Single(_) => {
                proof {
                    assert(false);
                }
                None
            },
        }
    }

    /// Runs the registration chain for every predicate of `key`.
    #[verifier::loop_isolation(false)]
    fn chain_keys(expr: &mut Expression, key: &Vec<Vec<u8>>) -> (r: Option<usize>)
        requires
            old(expr).wf(),
        ensures
            final(expr).wf(),
            final(expr).vals_seq() == old(expr).vals_seq(),
            ({
                let (km2, mask2, acc, ok) = ins_chain(
                    old(expr).key_map(),
                    old(expr).spec_mask(),
                    0,
                    key.deep_view(),
                );
                &&& final(expr).key_map() == km2
                &&& final(expr).spec_mask() == mask2
                &&& if ok {
                    r == Some(acc)
                } else {
                    r is None
                }
            }),
    {
        let ghost q = key.deep_view();
        let mut m: usize = expr.get_initial_link();
        let mut i: usize = 0;
        proof {
            assert(q.skip(0) =~= q);
        }
        while i < key.len()
            invariant
                0 <= i <= key@.len(),
                expr.wf(),
                expr.vals_seq() == old(expr).vals_seq(),
                ins_chain(old(expr).key_map(), old(expr).spec_mask(), 0, q) == ins_chain(
                    expr.key_map(),
                    expr.spec_mask(),
                    m,
                    q.skip(i as int),
                ),
            decreases key@.len() - i,
        {
            let ghost pre = *expr;
            let ghost m_pre = m;
            proof {
                assert(q[i as int] =~= key@[i as int]@);
            }
            let r = expr.insert_key(&key[i], &mut m);
            proof {
                let rest = q.skip(i as int);
                assert(rest.first() == q[i as int]);
                assert(rest.drop_first() =~= q.skip(i + 1));
                assert(ins_chain(pre.key_map(), pre.spec_mask(), m_pre, rest) == (if r is Some {
                    ins_chain(expr.key_map(), expr.spec_mask(), m, q.skip(i + 1))
                } else {
                    (expr.key_map(), expr.spec_mask(), m_pre, false)
                }));
            }
            if r.is_none() {
                return None;
            }
            i = i + 1;
        }
        proof {
            assert(q.skip(i as int) =~= Seq::<Seq<u8>>::empty());
        }
        Some(m)
    }

    /// Collapses a variants table holding only the ground-state entry into
    /// the single shape.
    pub fn try_simplify_variant(self) -> (r: Self)
        requires
            self is Variants,
            self.wf(),
        ensures
            r.wf(),
            ({
                let e = self->Variants_0;
                if e.vals_seq().len() == 1 && e.val_map().dom().contains(0) {
                    r == BlockState::Single(e.val_map()[0])
                } else {
                    r == self
                }
            }),
    {
        match self {
            BlockState::Variants(expr) => {
                proof {
                    lemma_assoc_map_len(expr.vals_seq());
                }
                if expr.size().1 == 1 {
                    match expr.find_value(0) {
                        Some(v) => {
                            proof {
                                lemma_assoc_map_len(expr.vals_seq());
                            }
                            return BlockState::Single(v);
                        },
                        None => {
                        },
                    }
                }
                BlockState::Variants(expr)
            },
            _ => {
                proof {
                    assert(false);
                }
                self
            },
        }
    }
}

/// With no key registered, a non-strict lookup earns mask 0 whatever its
/// predicates are: the engine always serves the ground-state value.
pub proof fn lemma_ground_state(e: Expression, q: Seq<Seq<u8>>)
    requires
        e.key_map().dom() =~= Set::empty(),
    ensures
        query_mask(e.key_map(), q) == 0,
{
    lemma_empty_keys_query_mask(e.key_map(), q);
}

/// One `key=value` predicate, split at its first equals sign.
#[derive(Debug, PartialEq, Eq)]
pub struct KVPair {
    pub key: Vec<u8>,
    pub val: Vec<u8>,
}

impl KVPair {
    /// Splits a predicate at its first `'='`; `None` without one.
    pub fn parse(s: &[u8]) -> (r: Option<KVPair>)
        ensures
            ({
                let i = crate::text::first_index(s@, 61);
                match r {
                    Some(kv) => i >= 0 && kv.key@ == s@.take(i) && kv.val@ == s@.skip(i + 1),
                    None => i < 0,
                }
            }),
    {
        let n = s.len();
        match crate::text::find_byte(s, 61) {
            Some(i) => {
                proof {
                    crate::text::lemma_first_index(s@, 61);
                }
                let key = crate::text::slice_to_vec(crate::text::slice_subrange(s, 0, i));
                let val = crate::text::slice_to_vec(crate::text::slice_subrange(s, i + 1, n));
                proof {
                    assert(key@ =~= s@.take(i as int));
                    assert(val@ =~= s@.skip(i + 1));
                }
                Some(KVPair { key, val })
            },
            None => None,
        }
    }
}

/// Entries of a duplicate-free association list are in its map, whether or
/// not the whole list is duplicate-free.
proof fn lemma_assoc_contains_of_index<K, V>(s: Seq<(K, V)>, i: int)
    requires
        0 <= i < s.len(),
    ensures
        assoc_map(s).dom().contains(s[i].0),
    decreases s.len(),
{
    if i < s.len() - 1 {
        assert(s.drop_last()[i] == s[i]);
        lemma_assoc_contains_of_index(s.drop_last(), i);
    }
}

} // verus!
