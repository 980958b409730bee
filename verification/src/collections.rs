//! Collection types of the game's serialization: a key-value dictionary
//! and a pair.
use crate::bits::{BitReader, BitWriter, DecodeError, Decoded};
use crate::wire::{
    decoded_as, decode_seq, lemma_decode_seq_encoded, lemma_split_at, spec_decode_seq, spec_encode_seq, views, BitCodec, PlainView,
    Varint,
};
use std::collections::HashMap;
use std::hash::Hash;
use vstd::prelude::*;
use vstd::std_specs::hash::{obeys_key_model, spec_hash_map_iter};
use vstd::std_specs::iter::IteratorSpec;

verus! {

broadcast use vstd::std_specs::hash::group_hash_axioms;

/// A dictionary of the game's serialization. The key type's `Hash` and
/// `Eq` must behave as a key type should (`obeys_key_model`) for the
/// dictionary to act as a map; the contracts say what holds then.
#[derive(Debug, Clone, PartialEq)]
pub struct VarMap<K: Hash + Eq, V>(pub HashMap<K, V>);

impl<K: Hash + Eq, V> View for VarMap<K, V> {
    type V = Map<K, V>;

    open spec fn view(&self) -> Map<K, V> {
        self.0@
    }
}

impl<K: Hash + Eq, V> Default for VarMap<K, V> {
    fn default() -> (m: Self)
        ensures
            m@ == Map::<K, V>::empty(),
    {
        VarMap(HashMap::new())
    }
}

impl<K: Hash + Eq, V> VarMap<K, V> {
    /// An empty dictionary.
    pub fn new() -> (m: Self)
        ensures
            m@ == Map::<K, V>::empty(),
    {
        Self::default()
    }

    /// Insert a value under a key; gives back the value the key held.
    pub fn insert(&mut self, key: K, value: V) -> (r: Option<V>)
        ensures
            obeys_key_model::<K>() ==> {
                &&& final(self)@ == old(self)@.insert(key, value)
                &&& match r {
                    Some(v) => old(self)@.contains_key(key) && v == old(self)@[key],
                    None => !old(self)@.contains_key(key),
                }
            },
    {
        self.0.insert(key, value)
    }

    /// The value under a key.
    pub fn get(&self, key: &K) -> (r: Option<&V>)
        ensures
            obeys_key_model::<K>() ==> match r {
                Some(v) => self@.contains_key(*key) && *v == self@[*key],
                None => !self@.contains_key(*key),
            },
    {
        self.0.get(key)
    }

    /// The number of entries.
    pub fn len(&self) -> (n: usize)
        ensures
            obeys_key_model::<K>() ==> n == self@.len(),
    {
        self.0.len()
    }

    /// Whether the dictionary has no entry.
    pub fn is_empty(&self) -> (b: bool)
        ensures
            b == self@.is_empty(),
    {
        self.0.is_empty()
    }
}

impl<K: Hash + Eq, V> core::ops::Deref for VarMap<K, V> {
    type Target = HashMap<K, V>;

    fn deref(&self) -> (r: &HashMap<K, V>)
        ensures
            r@ == self@,
    {
        &self.0
    }
}

impl<K: Hash + Eq, V> From<HashMap<K, V>> for VarMap<K, V> {
    fn from(map: HashMap<K, V>) -> (m: VarMap<K, V>) {
        VarMap(map)
    }
}

impl<K: Hash + Eq, V> vstd::std_specs::convert::FromSpecImpl<HashMap<K, V>> for VarMap<K, V> {
    open spec fn obeys_from_spec() -> bool {
        true
    }

    open spec fn from_spec(map: HashMap<K, V>) -> VarMap<K, V> {
        VarMap(map)
    }
}

impl<K: Hash + Eq, V> From<VarMap<K, V>> for HashMap<K, V> {
    fn from(var_map: VarMap<K, V>) -> (m: HashMap<K, V>) {
        var_map.0
    }
}

impl<K: Hash + Eq, V> vstd::std_specs::convert::FromSpecImpl<VarMap<K, V>> for HashMap<K, V> {
    open spec fn obeys_from_spec() -> bool {
        true
    }

    open spec fn from_spec(var_map: VarMap<K, V>) -> HashMap<K, V> {
        var_map.0
    }
}

/// A pair of the game's serialization (`MyTuple`).
#[derive(Debug, Default, Clone, PartialEq)]
pub struct Tuple<K, V> {
    pub item1: K,
    pub item2: V,
}

impl<K, V> Tuple<K, V> {
    pub fn new(item1: K, item2: V) -> (t: Self)
        ensures
            t.item1 == item1,
            t.item2 == item2,
    {
        Tuple { item1, item2 }
    }
}

impl<K, V> From<(K, V)> for Tuple<K, V> {
    fn from(pair: (K, V)) -> (t: Tuple<K, V>) {
        let (item1, item2) = pair;
        Tuple { item1, item2 }
    }
}

impl<K, V> vstd::std_specs::convert::FromSpecImpl<(K, V)> for Tuple<K, V> {
    open spec fn obeys_from_spec() -> bool {
        true
    }

    open spec fn from_spec(pair: (K, V)) -> Tuple<K, V> {
        Tuple { item1: pair.0, item2: pair.1 }
    }
}

impl<K, V> From<Tuple<K, V>> for (K, V) {
    fn from(tuple: Tuple<K, V>) -> (p: (K, V)) {
        (tuple.item1, tuple.item2)
    }
}

impl<K, V> vstd::std_specs::convert::FromSpecImpl<Tuple<K, V>> for (K, V) {
    open spec fn obeys_from_spec() -> bool {
        true
    }

    open spec fn from_spec(tuple: Tuple<K, V>) -> (K, V) {
        (tuple.item1, tuple.item2)
    }
}

impl<K: View, V: View> View for Tuple<K, V> {
    type V = (K::V, V::V);

    open spec fn view(&self) -> (K::V, V::V) {
        (self.item1@, self.item2@)
    }
}

impl<K: BitCodec, V: BitCodec> BitCodec for Tuple<K, V> {
    /// The first item, then the second.
    open spec fn spec_decode(s: Seq<bool>, pos: int) -> Decoded<(K::V, V::V)> {
        K::spec_decode(s, pos).and_then(
            |a: K::V, p: int| V::spec_decode(s, p).map(|b: V::V| (a, b)),
        )
    }

    open spec fn spec_encode(v: (K::V, V::V)) -> Seq<bool> {
        K::spec_encode(v.0) + V::spec_encode(v.1)
    }

    open spec fn spec_encodable(v: (K::V, V::V)) -> bool {
        K::spec_encodable(v.0) && V::spec_encodable(v.1)
    }

    proof fn lemma_decode_encode(v: (K::V, V::V), s: Seq<bool>, pos: int) {
        lemma_split_at(s, pos, K::spec_encode(v.0), V::spec_encode(v.1));
        K::lemma_decode_encode(v.0, s, pos);
        V::lemma_decode_encode(v.1, s, pos + K::spec_encode(v.0).len());
    }

    fn decode(r: &mut BitReader) -> (res: Result<Tuple<K, V>, DecodeError>) {
        let item1 = match K::decode(r) {
            Ok(v) => v,
            Err(e) => {
                return Err(e);
            },
        };
        match V::decode(r) {
            Ok(item2) => Ok(Tuple { item1, item2 }),
            Err(e) => Err(e),
        }
    }

    fn encode(&self, w: &mut BitWriter) {
        self.item1.encode(w);
        self.item2.encode(w);
        assert(w.bits@ =~= old(w).bits@ + Self::spec_encode(self@));
    }
}

/// The map that key-value pairs build in order: a later pair replaces an
/// earlier one with the same key.
pub open spec fn map_of_pairs<K, V>(ps: Seq<(K, V)>) -> Map<K, V>
    decreases ps.len(),
{
    if ps.len() == 0 {
        Map::empty()
    } else {
        map_of_pairs(ps.drop_last()).insert(ps.last().0, ps.last().1)
    }
}

/// No two pairs share a key.
pub open spec fn distinct_keys<K, V>(ps: Seq<(K, V)>) -> bool {
    forall|i: int, j: int| 0 <= i < j < ps.len() ==> #[trigger] ps[i].0 != #[trigger] ps[j].0
}

/// Decoding a dictionary: a 32-bit variable-length count, then that many
/// key-value pairs, put into a map in order.
pub open spec fn spec_decode_var_map<K: BitCodec + View<V = K>, V: BitCodec + View<V = V>>(
    s: Seq<bool>,
    pos: int,
) -> Decoded<Map<K, V>> {
    Varint::<u32>::spec_decode(s, pos).and_then(
        |n: Varint<u32>, p: int|
            spec_decode_seq::<Tuple<K, V>>(s, p, n.0 as nat).map(|ps: Seq<(K, V)>| map_of_pairs(ps)),
    )
}

/// The bits of a dictionary written as these pairs: the count, then each
/// key and value.
pub open spec fn spec_encode_var_map<K: BitCodec + View<V = K>, V: BitCodec + View<V = V>>(
    ps: Seq<(K, V)>,
) -> Seq<bool> {
    Varint::<u32>::spec_encode(Varint(ps.len() as u32)) + spec_encode_seq::<Tuple<K, V>>(ps)
}

/// The pairs that a walk of a map yields, as values.
pub open spec fn pairs_of<K, V>(s: Seq<(&K, &V)>) -> Seq<(K, V)> {
    s.map_values(|p: (&K, &V)| (*p.0, *p.1))
}

/// A key is in the map that pairs build just when some pair has it, and
/// then the map holds the value of some pair with that key.
proof fn lemma_map_of_pairs_keys<K, V>(ps: Seq<(K, V)>)
    ensures
        forall|k: K|
            #[trigger] map_of_pairs(ps).contains_key(k) <==> exists|i: int| 0 <= i < ps.len() && ps[i].0 == k,
        forall|k: K|
            #[trigger] map_of_pairs(ps).contains_key(k) ==> exists|i: int|
                0 <= i < ps.len() && ps[i].0 == k && ps[i].1 == map_of_pairs(ps)[k],
    decreases ps.len(),
{
    if ps.len() > 0 {
        let prev = ps.drop_last();
        lemma_map_of_pairs_keys(prev);
        assert forall|k: K| #[trigger] map_of_pairs(ps).contains_key(k) implies exists|i: int|
            0 <= i < ps.len() && ps[i].0 == k by {
            if k == ps.last().0 {
                assert(ps[ps.len() - 1].0 == k);
            } else {
                assert(map_of_pairs(prev).contains_key(k));
                let i = choose|i: int| 0 <= i < prev.len() && prev[i].0 == k;
                assert(ps[i] == prev[i]);
            }
        }
        assert forall|k: K| (exists|i: int| 0 <= i < ps.len() && ps[i].0 == k) implies #[trigger] map_of_pairs(
            ps,
        ).contains_key(k) by {
            let i = choose|i: int| 0 <= i < ps.len() && ps[i].0 == k;
            if i < ps.len() - 1 {
                assert(prev[i] == ps[i]);
                assert(map_of_pairs(prev).contains_key(k));
            }
        }
        assert forall|k: K| #[trigger] map_of_pairs(ps).contains_key(k) implies exists|i: int|
            0 <= i < ps.len() && ps[i].0 == k && ps[i].1 == map_of_pairs(ps)[k] by {
            if k == ps.last().0 {
                assert(ps[ps.len() - 1].0 == k);
            } else {
                assert(map_of_pairs(prev).contains_key(k));
                let i = choose|i: int| 0 <= i < prev.len() && prev[i].0 == k && prev[i].1 == map_of_pairs(prev)[k];
                assert(ps[i] == prev[i]);
            }
        }
    }
}

/// Pairs that list a map, each once, have distinct keys and build the map.
proof fn lemma_pairs_list_map<K, V>(ps: Seq<(K, V)>, m: Map<K, V>)
    requires
        forall|i: int| 0 <= i < ps.len() ==> m.contains_key(#[trigger] ps[i].0) && m[ps[i].0] == ps[i].1,
        forall|k: K| #[trigger] m.contains_key(k) ==> exists|i: int| 0 <= i < ps.len() && ps[i].0 == k,
        ps.no_duplicates(),
    ensures
        distinct_keys(ps),
        map_of_pairs(ps) == m,
{
    assert forall|i: int, j: int| 0 <= i < j < ps.len() implies #[trigger] ps[i].0 != #[trigger] ps[j].0 by {
        if ps[i].0 == ps[j].0 {
            assert(ps[i] == ps[j]);
        }
    }
    lemma_map_of_pairs_keys(ps);
    assert forall|k: K| #[trigger] map_of_pairs(ps).contains_key(k) implies map_of_pairs(ps)[k] == m[k] by {
        let i = choose|i: int| 0 <= i < ps.len() && ps[i].0 == k && ps[i].1 == map_of_pairs(ps)[k];
    }
    assert(map_of_pairs(ps) =~= m);
}

impl<K: BitCodec + PlainView + Hash + Eq, V: BitCodec + PlainView> VarMap<K, V> {
    /// Read a dictionary: the count, then the pairs; a later pair with the
    /// same key replaces an earlier one.
    pub fn decode(r: &mut BitReader) -> (res: Result<VarMap<K, V>, DecodeError>)
        requires
            old(r).wf(),
        ensures
            obeys_key_model::<K>() ==> decoded_as(
                *old(r),
                *final(r),
                res,
                spec_decode_var_map::<K, V>(old(r).bits@, old(r).pos as int),
            ),
    {
        let n = match Varint::<u32>::decode(r) {
            Ok(n) => n,
            Err(e) => {
                return Err(e);
            },
        };
        let mut items: Vec<Tuple<K, V>> = match decode_seq::<Tuple<K, V>>(r, n.0 as usize) {
            Ok(items) => items,
            Err(e) => {
                return Err(e);
            },
        };
        let ghost ps = views(items);
        let mut map: HashMap<K, V> = HashMap::new();
        let mut i: usize = 0;
        let count = items.len();
        while i < count
            invariant
                count == ps.len(),
                i <= count,
                views(items) =~= ps.skip(i as int),
                obeys_key_model::<K>() ==> map@ == map_of_pairs(ps.take(i as int)),
            decreases count - i,
        {
            assert(views(items).len() == items@.len());
            assert(views(items)[0] == items@[0]@);
            assert(ps.skip(i as int)[0] == ps[i as int]);
            let ghost before = views(items);
            let item = items.remove(0);
            assert(item@ == ps[i as int]);
            proof {
                K::lemma_view_is_self(item.item1);
                V::lemma_view_is_self(item.item2);
            }
            assert(views(items) =~= before.drop_first());
            assert(ps.take(i + 1).drop_last() =~= ps.take(i as int));
            map.insert(item.item1, item.item2);
            i = i + 1;
        }
        assert(ps.take(count as int) =~= ps);
        Ok(VarMap(map))
    }

    /// Write a dictionary: the count (cut to 32 bits), then each key and
    /// value, in the order in which the map is walked. The keys' `Hash` and
    /// `Eq` must behave as a key type's should (as they do for integers):
    /// otherwise the map has no contents to speak of.
    pub fn encode(&self, w: &mut BitWriter)
        requires
            obeys_key_model::<K>(),
        ensures
            exists|ps: Seq<(K, V)>|
                #[trigger] map_of_pairs(ps) == self@ && distinct_keys(ps) && ps.len() == self@.len()
                    && final(w).bits@ == old(w).bits@ + spec_encode_var_map::<K, V>(ps),
    {
        let n = self.0.len();
        Varint(n as u32).encode(w);
        let ghost start = w.bits@;
        let ghost head = old(w).bits@;
        let ghost all = spec_hash_map_iter(&self.0).remaining();
        let ghost mut count: int = 0;
        for kv in it: self.0.iter()
            invariant
                count == it.index(),
                obeys_key_model::<K>(),
                it.seq() == all,
                w.bits@ == start + spec_encode_seq::<Tuple<K, V>>(pairs_of(all.take(count))),
        {
            let (k, v) = kv;
            let ghost before = w.bits@;
            k.encode(w);
            v.encode(w);
            proof {
                K::lemma_view_is_self(*k);
                V::lemma_view_is_self(*v);
                let done = pairs_of(all.take(count));
                let next = pairs_of(all.take(count + 1));
                assert(next.drop_last() =~= done);
                assert(next.last() == (*k, *v));
                count = count + 1;
            }
        }
        proof {
            {
                let ps = pairs_of(all);
                assert(all.take(count) =~= all);
                assert forall|i: int| 0 <= i < ps.len() implies self@.contains_key(#[trigger] ps[i].0)
                    && self@[ps[i].0] == ps[i].1 by {
                    assert(ps[i] == (*all[i].0, *all[i].1));
                }
                assert forall|key: K| #[trigger] self@.contains_key(key) implies exists|i: int|
                    0 <= i < ps.len() && ps[i].0 == key by {
                    assert(all.contains((&key, &self@[key])));
                    let i = choose|i: int| 0 <= i < all.len() && all[i] == (&key, &self@[key]);
                    assert(ps[i].0 == key);
                }
                assert(ps.no_duplicates()) by {
                    assert forall|i: int, j: int| 0 <= i < ps.len() && 0 <= j < ps.len() && i != j implies ps[i]
                        != ps[j] by {
                        assert(ps[i] == (*all[i].0, *all[i].1));
                        assert(ps[j] == (*all[j].0, *all[j].1));
                    }
                }
                lemma_pairs_list_map(ps, self@);
                assert(w.bits@ =~= head + spec_encode_var_map::<K, V>(ps));
            }
        }
    }
}

/// A dictionary written as distinct-key pairs reads back as the map those
/// pairs make, wherever it stands in a stream.
pub proof fn lemma_var_map_decode_encode<K: BitCodec + View<V = K>, V: BitCodec + View<V = V>>(
    ps: Seq<(K, V)>,
    s: Seq<bool>,
    pos: int,
)
    requires
        ps.len() <= u32::MAX,
        forall|i: int| 0 <= i < ps.len() ==> Tuple::<K, V>::spec_encodable(#[trigger] ps[i]),
        0 <= pos,
        pos + spec_encode_var_map::<K, V>(ps).len() <= s.len(),
        s.subrange(pos, pos + spec_encode_var_map::<K, V>(ps).len()) == spec_encode_var_map::<K, V>(ps),
    ensures
        spec_decode_var_map::<K, V>(s, pos) == Decoded::Value(
            map_of_pairs(ps),
            pos + spec_encode_var_map::<K, V>(ps).len(),
        ),
{
    let e0 = Varint::<u32>::spec_encode(Varint(ps.len() as u32));
    let e1 = spec_encode_seq::<Tuple<K, V>>(ps);
    lemma_split_at(s, pos, e0, e1);
    Varint::<u32>::lemma_decode_encode(Varint(ps.len() as u32), s, pos);
    lemma_decode_seq_encoded::<Tuple<K, V>>(ps, s, pos + e0.len());
}

} // verus!
