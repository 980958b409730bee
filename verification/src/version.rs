//! Version-specific lookup tables for type indices and event IDs.
//!
//! Space Engineers assigns numeric indices to types and events at runtime,
//! and these indices change between game versions. A [`Version`] maps them
//! to stable hashes and back, built from a schema of `(index, hash)`
//! entries.
use std::collections::HashMap;
use vstd::prelude::*;

verus! {

broadcast use vstd::std_specs::hash::group_hash_axioms;

/// Error of a schema lookup.
#[derive(Debug, Clone, Copy, PartialEq, Eq, Structural)]
pub enum SchemaError {
    /// No type has this version-specific index.
    UnknownTypeIndex(u16),
    /// No type has this stable hash.
    UnknownTypeHash(i32),
    /// No event has this ID on the type with this hash (0 for static events).
    UnknownEventId { type_hash: i32, event_id: u16 },
}

/// A type entry of a schema.
#[derive(Debug, Clone)]
pub struct RawTypeEntry {
    pub index: u16,
    pub hash: i32,
    pub name: String,
    pub is_replicated: bool,
}

/// A static event entry of a schema.
#[derive(Debug, Clone)]
pub struct RawStaticEventEntry {
    pub id: u16,
    pub hash: i32,
    pub name: String,
    pub declaring_type_hash: i32,
    pub is_reliable: bool,
}

/// An instance event entry of a schema.
#[derive(Debug, Clone)]
pub struct RawInstanceEventEntry {
    pub id: u16,
    pub hash: i32,
    pub name: String,
    pub is_reliable: bool,
}

/// The instance events of one type.
#[derive(Debug, Clone)]
pub struct RawInstanceEventGroup {
    pub type_hash: i32,
    pub type_label: String,
    pub events: Vec<RawInstanceEventEntry>,
}

/// A schema as the game's codegen writes it.
#[derive(Debug, Clone)]
pub struct RawSchema {
    pub game_version: String,
    pub generated_at: String,
    pub types: Vec<RawTypeEntry>,
    pub static_events: Vec<RawStaticEventEntry>,
    pub instance_events: Vec<RawInstanceEventGroup>,
}

/// `t` extended with zeros to at least `n` entries.
pub open spec fn padded_table(t: Seq<i32>, n: int) -> Seq<i32> {
    if t.len() >= n {
        t
    } else {
        t + Seq::new((n - t.len()) as nat, |i: int| 0i32)
    }
}

/// The ID-to-hash table that `(id, hash)` entries build in order: each
/// entry extends the table with zeros up to its ID and puts its hash there.
pub open spec fn id_table(ps: Seq<(u16, i32)>) -> Seq<i32>
    decreases ps.len(),
{
    if ps.len() == 0 {
        Seq::empty()
    } else {
        let (id, hash) = ps.last();
        padded_table(id_table(ps.drop_last()), id + 1).update(id as int, hash)
    }
}

/// The hash-to-ID map that `(id, hash)` entries build in order: a later
/// entry with the same hash replaces an earlier one.
pub open spec fn hash_index(ps: Seq<(u16, i32)>) -> Map<i32, u16>
    decreases ps.len(),
{
    if ps.len() == 0 {
        Map::empty()
    } else {
        let (id, hash) = ps.last();
        hash_index(ps.drop_last()).insert(hash, id)
    }
}

/// The hash at `i` of a table, where the table has one other than 0.
pub open spec fn nonzero_at(t: Seq<i32>, i: int) -> Option<i32> {
    if 0 <= i < t.len() && t[i] != 0 {
        Some(t[i])
    } else {
        None
    }
}

/// The number of entries of a table that hold a hash, 0 marking a gap.
pub open spec fn known_count(t: Seq<i32>) -> nat
    decreases t.len(),
{
    if t.len() == 0 {
        0
    } else {
        known_count(t.drop_last()) + if t.last() != 0 {
            1nat
        } else {
            0nat
        }
    }
}

/// The number of entries of a table that hold a hash, counted.
fn count_known(t: &Vec<i32>) -> (n: usize)
    ensures
        n == known_count(t@),
{
    let mut n: usize = 0;
    let mut i: usize = 0;
    while i < t.len()
        invariant
            i <= t.len(),
            n <= i,
            n == known_count(t@.take(i as int)),
        decreases t.len() - i,
    {
        assert(t@.take(i + 1).drop_last() =~= t@.take(i as int));
        if t[i] != 0 {
            n = n + 1;
        }
        i = i + 1;
    }
    assert(t@.take(i as int) =~= t@);
    n
}

/// The ID a map holds for a hash.
pub open spec fn id_of(m: Map<i32, u16>, h: i32) -> Option<u16> {
    if m.contains_key(h) {
        Some(m[h])
    } else {
        None
    }
}

pub open spec fn type_pairs(ts: Seq<RawTypeEntry>) -> Seq<(u16, i32)> {
    Seq::new(ts.len(), |i: int| (ts[i].index, ts[i].hash))
}

pub open spec fn static_pairs(es: Seq<RawStaticEventEntry>) -> Seq<(u16, i32)> {
    Seq::new(es.len(), |i: int| (es[i].id, es[i].hash))
}

pub open spec fn instance_pairs(es: Seq<RawInstanceEventEntry>) -> Seq<(u16, i32)> {
    Seq::new(es.len(), |i: int| (es[i].id, es[i].hash))
}

/// Instance event lookup tables for a single type.
#[derive(Debug)]
pub struct InstanceEventSchema {
    /// Maps event ID (version-specific) to event hash (stable).
    event_id_to_hash: Vec<i32>,
    /// Maps event hash (stable) to event ID (version-specific).
    event_hash_to_id: HashMap<i32, u16>,
}

/// The view of an [`InstanceEventSchema`].
pub struct InstanceEventSchemaView {
    pub event_ids: Seq<i32>,
    pub event_hashes: Map<i32, u16>,
}

impl View for InstanceEventSchema {
    type V = InstanceEventSchemaView;

    closed spec fn view(&self) -> InstanceEventSchemaView {
        InstanceEventSchemaView { event_ids: self.event_id_to_hash@, event_hashes: self.event_hash_to_id@ }
    }
}

/// The tables that a type's instance events build.
pub open spec fn instance_schema_of(es: Seq<RawInstanceEventEntry>) -> InstanceEventSchemaView {
    InstanceEventSchemaView {
        event_ids: id_table(instance_pairs(es)),
        event_hashes: hash_index(instance_pairs(es)),
    }
}

/// The instance event tables of the groups in order, keyed by type hash;
/// a later group of the same type replaces an earlier one.
pub open spec fn instance_map(gs: Seq<RawInstanceEventGroup>) -> Map<i32, InstanceEventSchemaView>
    decreases gs.len(),
{
    if gs.len() == 0 {
        Map::empty()
    } else {
        instance_map(gs.drop_last()).insert(gs.last().type_hash, instance_schema_of(gs.last().events@))
    }
}

impl InstanceEventSchema {
    /// Decode a version-specific event ID to its stable hash, `None` for
    /// an ID that no event took.
    pub fn decode_event_id(&self, event_id: u16) -> (r: Option<i32>)
        ensures
            r == nonzero_at(self@.event_ids, event_id as int),
    {
        if (event_id as usize) < self.event_id_to_hash.len() && self.event_id_to_hash[event_id as usize] != 0 {
            Some(self.event_id_to_hash[event_id as usize])
        } else {
            None
        }
    }

    /// Encode a stable event hash to its version-specific ID.
    pub fn encode_event_hash(&self, hash: i32) -> (r: Option<u16>)
        ensures
            r == id_of(self@.event_hashes, hash),
    {
        match self.event_hash_to_id.get(&hash) {
            Some(id) => Some(*id),
            None => None,
        }
    }
}

/// Runtime schema for a specific game version: lookup between
/// version-specific indices and stable hashes, both ways.
#[derive(Debug)]
pub struct Version {
    /// Game version string.
    pub game_version: String,
    type_index_to_hash: Vec<i32>,
    type_hash_to_index: HashMap<i32, u16>,
    static_event_id_to_hash: Vec<i32>,
    static_event_hash_to_id: HashMap<i32, u16>,
    instance_events: HashMap<i32, InstanceEventSchema>,
}

/// The view of a [`Version`].
pub struct VersionView {
    pub game_version: Seq<char>,
    pub type_ids: Seq<i32>,
    pub type_hashes: Map<i32, u16>,
    pub static_ids: Seq<i32>,
    pub static_hashes: Map<i32, u16>,
    pub instance_events: Map<i32, InstanceEventSchemaView>,
}

impl View for Version {
    type V = VersionView;

    closed spec fn view(&self) -> VersionView {
        VersionView {
            game_version: self.game_version@,
            type_ids: self.type_index_to_hash@,
            type_hashes: self.type_hash_to_index@,
            static_ids: self.static_event_id_to_hash@,
            static_hashes: self.static_event_hash_to_id@,
            instance_events: self.instance_events@.map_values(|s: InstanceEventSchema| s@),
        }
    }
}

/// The tables a schema builds.
pub open spec fn version_of(raw: RawSchema) -> VersionView {
    VersionView {
        game_version: raw.game_version@,
        type_ids: id_table(type_pairs(raw.types@)),
        type_hashes: hash_index(type_pairs(raw.types@)),
        static_ids: id_table(static_pairs(raw.static_events@)),
        static_hashes: hash_index(static_pairs(raw.static_events@)),
        instance_events: instance_map(raw.instance_events@),
    }
}

/// Put `hash` at `id` of the table, extending it with zeros first.
fn place(table: &mut Vec<i32>, id: u16, hash: i32)
    ensures
        final(table)@ == padded_table(old(table)@, id + 1).update(id as int, hash),
{
    let ghost before = table@;
    let target: usize = id as usize + 1;
    while table.len() < target
        invariant
            before.len() <= table@.len(),
            table@.len() <= if before.len() >= target { before.len() as int } else { target as int },
            table@ =~= before + Seq::new((table@.len() - before.len()) as nat, |i: int| 0i32),
        decreases target - table.len(),
    {
        table.push(0);
    }
    assert(table@ =~= padded_table(before, id + 1));
    table.set(id as usize, hash);
}

/// The ID table and hash map that entries build.
fn build_lookup(pairs: &Vec<(u16, i32)>) -> (r: (Vec<i32>, HashMap<i32, u16>))
    ensures
        r.0@ == id_table(pairs@),
        r.1@ == hash_index(pairs@),
{
    let mut ids: Vec<i32> = Vec::new();
    let mut hashes: HashMap<i32, u16> = HashMap::new();
    let mut i: usize = 0;
    while i < pairs.len()
        invariant
            i <= pairs.len(),
            ids@ == id_table(pairs@.take(i as int)),
            hashes@ == hash_index(pairs@.take(i as int)),
        decreases pairs.len() - i,
    {
        let (id, hash) = pairs[i];
        assert(pairs@.take(i + 1).drop_last() =~= pairs@.take(i as int));
        place(&mut ids, id, hash);
        hashes.insert(hash, id);
        i = i + 1;
    }
    assert(pairs@.take(i as int) =~= pairs@);
    (ids, hashes)
}

fn type_entry_pairs(ts: &Vec<RawTypeEntry>) -> (r: Vec<(u16, i32)>)
    ensures
        r@ == type_pairs(ts@),
{
    let mut r: Vec<(u16, i32)> = Vec::new();
    let mut i: usize = 0;
    while i < ts.len()
        invariant
            i <= ts.len(),
            r@ =~= type_pairs(ts@).take(i as int),
        decreases ts.len() - i,
    {
        r.push((ts[i].index, ts[i].hash));
        i = i + 1;
    }
    r
}

fn static_entry_pairs(es: &Vec<RawStaticEventEntry>) -> (r: Vec<(u16, i32)>)
    ensures
        r@ == static_pairs(es@),
{
    let mut r: Vec<(u16, i32)> = Vec::new();
    let mut i: usize = 0;
    while i < es.len()
        invariant
            i <= es.len(),
            r@ =~= static_pairs(es@).take(i as int),
        decreases es.len() - i,
    {
        r.push((es[i].id, es[i].hash));
        i = i + 1;
    }
    r
}

fn instance_entry_pairs(es: &Vec<RawInstanceEventEntry>) -> (r: Vec<(u16, i32)>)
    ensures
        r@ == instance_pairs(es@),
{
    let mut r: Vec<(u16, i32)> = Vec::new();
    let mut i: usize = 0;
    while i < es.len()
        invariant
            i <= es.len(),
            r@ =~= instance_pairs(es@).take(i as int),
        decreases es.len() - i,
    {
        r.push((es[i].id, es[i].hash));
        i = i + 1;
    }
    r
}

impl Version {
    /// Build the lookup tables of a schema. Entries are taken in order;
    /// an index or ID past the end of its table extends it with zeros, and
    /// a later entry replaces an earlier one with the same index or hash.
    pub fn from_raw(raw: RawSchema) -> (v: Version)
        ensures
            v@ == version_of(raw),
    {
        let (type_index_to_hash, type_hash_to_index) = build_lookup(&type_entry_pairs(&raw.types));
        let (static_event_id_to_hash, static_event_hash_to_id) = build_lookup(
            &static_entry_pairs(&raw.static_events),
        );
        let mut instance_events: HashMap<i32, InstanceEventSchema> = HashMap::new();
        let groups = &raw.instance_events;
        let mut i: usize = 0;
        while i < groups.len()
            invariant
                i <= groups.len(),
                instance_events@.map_values(|s: InstanceEventSchema| s@) =~= instance_map(
                    groups@.take(i as int),
                ),
            decreases groups.len() - i,
        {
            let group = &groups[i];
            let (event_id_to_hash, event_hash_to_id) = build_lookup(&instance_entry_pairs(&group.events));
            let schema = InstanceEventSchema { event_id_to_hash, event_hash_to_id };
            assert(groups@.take(i + 1).drop_last() =~= groups@.take(i as int));
            let ghost before = instance_events@;
            instance_events.insert(group.type_hash, schema);
            assert(instance_events@.map_values(|s: InstanceEventSchema| s@) =~= before.map_values(
                |s: InstanceEventSchema| s@,
            ).insert(group.type_hash, instance_schema_of(group.events@)));
            i = i + 1;
        }
        assert(groups@.take(i as int) =~= groups@);
        Version {
            game_version: raw.game_version,
            type_index_to_hash,
            type_hash_to_index,
            static_event_id_to_hash,
            static_event_hash_to_id,
            instance_events,
        }
    }

    /// The game version string of the schema.
    pub fn game_version(&self) -> (r: &String)
        ensures
            r@ == self@.game_version,
    {
        &self.game_version
    }

    /// Decode a version-specific type index to its stable type hash.
    pub fn decode_type_index(&self, index: u16) -> (r: Result<i32, SchemaError>)
        ensures
            r == match nonzero_at(self@.type_ids, index as int) {
                Some(h) => Ok::<i32, SchemaError>(h),
                None => Err(SchemaError::UnknownTypeIndex(index)),
            },
    {
        match self.try_decode_type_index(index) {
            Some(h) => Ok(h),
            None => Err(SchemaError::UnknownTypeIndex(index)),
        }
    }

    /// Decode a type index, `None` for an unknown one.
    pub fn try_decode_type_index(&self, index: u16) -> (r: Option<i32>)
        ensures
            r == nonzero_at(self@.type_ids, index as int),
    {
        if (index as usize) < self.type_index_to_hash.len() && self.type_index_to_hash[index as usize] != 0 {
            Some(self.type_index_to_hash[index as usize])
        } else {
            None
        }
    }

    /// Encode a stable type hash to its version-specific index.
    pub fn encode_type_hash(&self, hash: i32) -> (r: Result<u16, SchemaError>)
        ensures
            r == match id_of(self@.type_hashes, hash) {
                Some(i) => Ok::<u16, SchemaError>(i),
                None => Err(SchemaError::UnknownTypeHash(hash)),
            },
    {
        match self.try_encode_type_hash(hash) {
            Some(i) => Ok(i),
            None => Err(SchemaError::UnknownTypeHash(hash)),
        }
    }

    /// Encode a type hash, `None` for an unknown one.
    pub fn try_encode_type_hash(&self, hash: i32) -> (r: Option<u16>)
        ensures
            r == id_of(self@.type_hashes, hash),
    {
        match self.type_hash_to_index.get(&hash) {
            Some(i) => Some(*i),
            None => None,
        }
    }

    /// The number of types in the schema: the indices that decode to a
    /// type.
    pub fn type_count(&self) -> (n: usize)
        ensures
            n == known_count(self@.type_ids),
    {
        count_known(&self.type_index_to_hash)
    }

    /// Decode a version-specific static event ID to its stable hash.
    pub fn decode_static_event_id(&self, event_id: u16) -> (r: Result<i32, SchemaError>)
        ensures
            r == match nonzero_at(self@.static_ids, event_id as int) {
                Some(h) => Ok::<i32, SchemaError>(h),
                None => Err(SchemaError::UnknownEventId { type_hash: 0, event_id }),
            },
    {
        match self.try_decode_static_event_id(event_id) {
            Some(h) => Ok(h),
            None => Err(SchemaError::UnknownEventId { type_hash: 0, event_id }),
        }
    }

    /// Decode a static event ID, `None` for an unknown one.
    pub fn try_decode_static_event_id(&self, event_id: u16) -> (r: Option<i32>)
        ensures
            r == nonzero_at(self@.static_ids, event_id as int),
    {
        if (event_id as usize) < self.static_event_id_to_hash.len()
            && self.static_event_id_to_hash[event_id as usize] != 0 {
            Some(self.static_event_id_to_hash[event_id as usize])
        } else {
            None
        }
    }

    /// Encode a stable static event hash to its version-specific ID.
    pub fn encode_static_event_hash(&self, hash: i32) -> (r: Option<u16>)
        ensures
            r == id_of(self@.static_hashes, hash),
    {
        match self.static_event_hash_to_id.get(&hash) {
            Some(i) => Some(*i),
            None => None,
        }
    }

    /// The number of static events in the schema: the IDs that decode to
    /// an event.
    pub fn static_event_count(&self) -> (n: usize)
        ensures
            n == known_count(self@.static_ids),
    {
        count_known(&self.static_event_id_to_hash)
    }

    /// The instance event tables of the type with this hash.
    pub fn instance_events(&self, type_hash: i32) -> (r: Option<&InstanceEventSchema>)
        ensures
            match r {
                Some(s) => self@.instance_events.contains_key(type_hash) && s@ == self@.instance_events[type_hash],
                None => !self@.instance_events.contains_key(type_hash),
            },
    {
        self.instance_events.get(&type_hash)
    }

    /// Decode an instance event ID of the type with this hash.
    pub fn decode_instance_event_id(&self, type_hash: i32, event_id: u16) -> (r: Result<i32, SchemaError>)
        ensures
            r == match instance_decode(self@, type_hash, event_id) {
                Some(h) => Ok::<i32, SchemaError>(h),
                None => Err(SchemaError::UnknownEventId { type_hash, event_id }),
            },
    {
        match self.try_decode_instance_event_id(type_hash, event_id) {
            Some(h) => Ok(h),
            None => Err(SchemaError::UnknownEventId { type_hash, event_id }),
        }
    }

    /// Decode an instance event ID, `None` for an unknown type or ID.
    pub fn try_decode_instance_event_id(&self, type_hash: i32, event_id: u16) -> (r: Option<i32>)
        ensures
            r == instance_decode(self@, type_hash, event_id),
    {
        match self.instance_events.get(&type_hash) {
            Some(schema) => schema.decode_event_id(event_id),
            None => None,
        }
    }

    /// Encode an instance event hash of the type with this hash to its ID.
    pub fn encode_instance_event_hash(&self, type_hash: i32, event_hash: i32) -> (r: Option<u16>)
        ensures
            r == instance_encode(self@, type_hash, event_hash),
    {
        match self.instance_events.get(&type_hash) {
            Some(schema) => schema.encode_event_hash(event_hash),
            None => None,
        }
    }
}

/// The hash of an instance event ID of a type, where the type is known
/// and an event of it took the ID.
pub open spec fn instance_decode(v: VersionView, type_hash: i32, event_id: u16) -> Option<i32> {
    if v.instance_events.contains_key(type_hash) {
        nonzero_at(v.instance_events[type_hash].event_ids, event_id as int)
    } else {
        None
    }
}

/// The ID of an instance event hash of a type, where both are known.
pub open spec fn instance_encode(v: VersionView, type_hash: i32, event_hash: i32) -> Option<u16> {
    if v.instance_events.contains_key(type_hash) {
        id_of(v.instance_events[type_hash].event_hashes, event_hash)
    } else {
        None
    }
}

/// No two entries share an ID, no two share a hash, and no hash is 0.
pub open spec fn consistent_entries(ps: Seq<(u16, i32)>) -> bool {
    &&& forall|i: int, j: int| 0 <= i < j < ps.len() ==> #[trigger] ps[i].0 != #[trigger] ps[j].0
    &&& forall|i: int, j: int| 0 <= i < j < ps.len() ==> ps[i].1 != ps[j].1
    &&& forall|k: int| 0 <= k < ps.len() ==> #[trigger] ps[k].1 != 0
}

/// Every entry's ID lies inside the table, and extending a table keeps
/// what it held.
proof fn lemma_id_table_covers(ps: Seq<(u16, i32)>)
    ensures
        forall|k: int| 0 <= k < ps.len() ==> (#[trigger] ps[k]).0 < id_table(ps).len(),
    decreases ps.len(),
{
    if ps.len() > 0 {
        lemma_id_table_covers(ps.drop_last());
        assert forall|k: int| 0 <= k < ps.len() implies (#[trigger] ps[k]).0 < id_table(ps).len() by {
            if k < ps.len() - 1 {
                assert(ps.drop_last()[k] == ps[k]);
            }
        }
    }
}

/// The table holds, at an entry's ID, the hash of the last entry with
/// that ID.
proof fn lemma_id_table_last(ps: Seq<(u16, i32)>, k: int)
    requires
        0 <= k < ps.len(),
        forall|j: int| k < j < ps.len() ==> (#[trigger] ps[j]).0 != ps[k].0,
    ensures
        ps[k].0 < id_table(ps).len(),
        id_table(ps)[ps[k].0 as int] == ps[k].1,
    decreases ps.len(),
{
    lemma_id_table_covers(ps);
    if k < ps.len() - 1 {
        let prev = ps.drop_last();
        assert(prev[k] == ps[k]);
        assert forall|j: int| k < j < prev.len() implies (#[trigger] prev[j]).0 != prev[k].0 by {
            assert(prev[j] == ps[j]);
        }
        lemma_id_table_last(prev, k);
    }
}

/// A hash other than 0 in the table was put there by an entry with that
/// ID and hash.
proof fn lemma_id_table_source(ps: Seq<(u16, i32)>, i: int)
    requires
        0 <= i < id_table(ps).len(),
        id_table(ps)[i] != 0,
    ensures
        exists|k: int| 0 <= k < ps.len() && (#[trigger] ps[k]).0 == i && ps[k].1 == id_table(ps)[i],
    decreases ps.len(),
{
    let prev = ps.drop_last();
    let (id, hash) = ps.last();
    if i == id {
        assert(ps[ps.len() - 1].0 == i);
    } else {
        assert(i < id_table(prev).len());
        lemma_id_table_source(prev, i);
        let k = choose|k: int| 0 <= k < prev.len() && (#[trigger] prev[k]).0 == i && prev[k].1 == id_table(prev)[i];
        assert(ps[k] == prev[k]);
    }
}

/// The map holds, for an entry's hash, the ID of the last entry with that
/// hash.
proof fn lemma_hash_index_last(ps: Seq<(u16, i32)>, k: int)
    requires
        0 <= k < ps.len(),
        forall|j: int| k < j < ps.len() ==> (#[trigger] ps[j]).1 != ps[k].1,
    ensures
        hash_index(ps).contains_key(ps[k].1),
        hash_index(ps)[ps[k].1] == ps[k].0,
    decreases ps.len(),
{
    if k < ps.len() - 1 {
        let prev = ps.drop_last();
        assert(prev[k] == ps[k]);
        assert forall|j: int| k < j < prev.len() implies (#[trigger] prev[j]).1 != prev[k].1 by {
            assert(prev[j] == ps[j]);
        }
        lemma_hash_index_last(prev, k);
    }
}

/// A hash in the map was put there by an entry with that hash and ID.
proof fn lemma_hash_index_source(ps: Seq<(u16, i32)>, h: i32)
    requires
        hash_index(ps).contains_key(h),
    ensures
        exists|k: int| 0 <= k < ps.len() && (#[trigger] ps[k]).1 == h && ps[k].0 == hash_index(ps)[h],
    decreases ps.len(),
{
    let prev = ps.drop_last();
    let (id, hash) = ps.last();
    if h == hash {
        assert(ps[ps.len() - 1].1 == h);
    } else {
        lemma_hash_index_source(prev, h);
        let k = choose|k: int| 0 <= k < prev.len() && (#[trigger] prev[k]).1 == h && prev[k].0 == hash_index(prev)[h];
        assert(ps[k] == prev[k]);
    }
}

/// For consistent entries the two lookups are inverse: every entry is
/// found both ways, an index decodes to a hash exactly when that hash
/// encodes to the index.
pub proof fn lemma_lookup_inverse(ps: Seq<(u16, i32)>)
    requires
        consistent_entries(ps),
    ensures
        forall|k: int| 0 <= k < ps.len() ==> nonzero_at(id_table(ps), (#[trigger] ps[k]).0 as int) == Some(ps[k].1),
        forall|k: int| 0 <= k < ps.len() ==> id_of(hash_index(ps), (#[trigger] ps[k]).1) == Some(ps[k].0),
        forall|h: i32, i: u16| id_of(hash_index(ps), h) == Some(i) <==> nonzero_at(id_table(ps), i as int) == Some(h),
{
    assert forall|k: int| 0 <= k < ps.len() implies nonzero_at(id_table(ps), (#[trigger] ps[k]).0 as int) == Some(ps[k].1)
        && id_of(hash_index(ps), ps[k].1) == Some(ps[k].0) by {
        assert forall|j: int| k < j < ps.len() implies (#[trigger] ps[j]).0 != ps[k].0 by {
            assert(ps[k].0 != ps[j].0);
        }
        assert forall|j: int| k < j < ps.len() implies (#[trigger] ps[j]).1 != ps[k].1 by {
            assert(ps[k].0 != ps[j].0);
        }
        lemma_id_table_last(ps, k);
        lemma_hash_index_last(ps, k);
    }
    assert forall|h: i32, i: u16| id_of(hash_index(ps), h) == Some(i) <==> nonzero_at(id_table(ps), i as int) == Some(h) by {
        if id_of(hash_index(ps), h) == Some(i) {
            lemma_hash_index_source(ps, h);
            let k = choose|k: int| 0 <= k < ps.len() && (#[trigger] ps[k]).1 == h && ps[k].0 == hash_index(ps)[h];
            assert(nonzero_at(id_table(ps), ps[k].0 as int) == Some(ps[k].1));
        }
        if nonzero_at(id_table(ps), i as int) == Some(h) {
            lemma_id_table_source(ps, i as int);
            let k = choose|k: int| 0 <= k < ps.len() && (#[trigger] ps[k]).0 == i && ps[k].1 == id_table(ps)[i as int];
            assert(id_of(hash_index(ps), ps[k].1) == Some(ps[k].0));
        }
    }
}

/// In a version built from a schema whose types have distinct indices,
/// distinct hashes and no hash 0, every type is found both ways, and an
/// index decodes to a hash exactly when the hash encodes to the index.
pub proof fn lemma_version_type_lookup(raw: RawSchema)
    requires
        consistent_entries(type_pairs(raw.types@)),
    ensures
        forall|k: int|
            0 <= k < raw.types@.len() ==> nonzero_at(version_of(raw).type_ids, (#[trigger] raw.types@[k]).index as int)
                == Some(raw.types@[k].hash) && id_of(version_of(raw).type_hashes, raw.types@[k].hash) == Some(
                raw.types@[k].index,
            ),
        forall|h: i32, i: u16|
            id_of(version_of(raw).type_hashes, h) == Some(i) <==> nonzero_at(version_of(raw).type_ids, i as int)
                == Some(h),
{
    let ps = type_pairs(raw.types@);
    lemma_lookup_inverse(ps);
    assert forall|k: int| 0 <= k < raw.types@.len() implies nonzero_at(
        version_of(raw).type_ids,
        (#[trigger] raw.types@[k]).index as int,
    ) == Some(raw.types@[k].hash) && id_of(version_of(raw).type_hashes, raw.types@[k].hash) == Some(
        raw.types@[k].index,
    ) by {
        assert(ps[k] == (raw.types@[k].index, raw.types@[k].hash));
    }
}

/// In a version built from a schema whose static events have distinct
/// IDs, distinct hashes and no hash 0, every static event is found both
/// ways, and an ID decodes to a hash exactly when the hash encodes to it.
pub proof fn lemma_version_static_event_lookup(raw: RawSchema)
    requires
        consistent_entries(static_pairs(raw.static_events@)),
    ensures
        forall|k: int|
            0 <= k < raw.static_events@.len() ==> nonzero_at(
                version_of(raw).static_ids,
                (#[trigger] raw.static_events@[k]).id as int,
            ) == Some(raw.static_events@[k].hash) && id_of(
                version_of(raw).static_hashes,
                raw.static_events@[k].hash,
            ) == Some(raw.static_events@[k].id),
        forall|h: i32, i: u16|
            id_of(version_of(raw).static_hashes, h) == Some(i) <==> nonzero_at(version_of(raw).static_ids, i as int)
                == Some(h),
{
    let ps = static_pairs(raw.static_events@);
    lemma_lookup_inverse(ps);
    assert forall|k: int| 0 <= k < raw.static_events@.len() implies nonzero_at(
        version_of(raw).static_ids,
        (#[trigger] raw.static_events@[k]).id as int,
    ) == Some(raw.static_events@[k].hash) && id_of(version_of(raw).static_hashes, raw.static_events@[k].hash)
        == Some(raw.static_events@[k].id) by {
        assert(ps[k] == (raw.static_events@[k].id, raw.static_events@[k].hash));
    }
}

/// The instance events of the last group of a type are what the version
/// holds for that type.
proof fn lemma_instance_map_last(gs: Seq<RawInstanceEventGroup>, g: int)
    requires
        0 <= g < gs.len(),
        forall|j: int| g < j < gs.len() ==> (#[trigger] gs[j]).type_hash != gs[g].type_hash,
    ensures
        instance_map(gs).contains_key(gs[g].type_hash),
        instance_map(gs)[gs[g].type_hash] == instance_schema_of(gs[g].events@),
    decreases gs.len(),
{
    if g < gs.len() - 1 {
        let prev = gs.drop_last();
        assert(prev[g] == gs[g]);
        assert forall|j: int| g < j < prev.len() implies (#[trigger] prev[j]).type_hash != prev[g].type_hash by {
            assert(prev[j] == gs[j]);
        }
        lemma_instance_map_last(prev, g);
    }
}

/// For the last group of a type in a schema, whose events have distinct
/// IDs, distinct hashes and no hash 0: every event of the group is found
/// both ways through the version, and a hash encodes to an ID exactly when
/// that ID decodes to the hash.
pub proof fn lemma_version_instance_event_lookup(raw: RawSchema, g: int)
    requires
        0 <= g < raw.instance_events@.len(),
        forall|j: int|
            g < j < raw.instance_events@.len() ==> (#[trigger] raw.instance_events@[j]).type_hash
                != raw.instance_events@[g].type_hash,
        consistent_entries(instance_pairs(raw.instance_events@[g].events@)),
    ensures
        ({
            let group = raw.instance_events@[g];
            &&& forall|k: int|
                0 <= k < group.events@.len() ==> instance_decode(
                    version_of(raw),
                    group.type_hash,
                    (#[trigger] group.events@[k]).id,
                ) == Some(group.events@[k].hash) && instance_encode(
                    version_of(raw),
                    group.type_hash,
                    group.events@[k].hash,
                ) == Some(group.events@[k].id)
            &&& forall|h: i32, i: u16|
                instance_encode(version_of(raw), group.type_hash, h) == Some(i) <==> instance_decode(
                    version_of(raw),
                    group.type_hash,
                    i,
                ) == Some(h)
        }),
{
    let group = raw.instance_events@[g];
    let ps = instance_pairs(group.events@);
    lemma_instance_map_last(raw.instance_events@, g);
    lemma_lookup_inverse(ps);
    assert forall|k: int| 0 <= k < group.events@.len() implies instance_decode(
        version_of(raw),
        group.type_hash,
        (#[trigger] group.events@[k]).id,
    ) == Some(group.events@[k].hash) && instance_encode(version_of(raw), group.type_hash, group.events@[k].hash)
        == Some(group.events@[k].id) by {
        assert(ps[k] == (group.events@[k].id, group.events@[k].hash));
    }
    assert forall|h: i32, i: u16| (instance_encode(version_of(raw), group.type_hash, h) == Some(i)
        <==> instance_decode(version_of(raw), group.type_hash, i) == Some(h)) by {
        assert(id_of(hash_index(ps), h) == Some(i) <==> nonzero_at(id_table(ps), i as int) == Some(h));
    }
}

} // verus!
