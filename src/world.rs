//! The world that requests are answered against: a registry of types, the entities
//! with their components, and the stored assets.
//!
//! Values are held in canonical JSON form: the text that `serde_json` writes for
//! a parsed value, whose object keys come out sorted. Two values are structurally
//! equal exactly when their canonical texts are equal.

use vstd::prelude::*;

use crate::brp::Entity;
use crate::data::{json5_read, json_read, read_json, ron_read};
use crate::names::{cache_wf, NameCache};

verus! {

/// What the registry knows of one type.
#[derive(Debug, Clone)]
pub struct TypeInfo {
    /// The fully qualified type path, unique in the registry.
    pub type_path: String,
    /// The type path without module prefixes; may be shared by several types.
    pub short_type_path: String,
    /// The type has reflection data registered.
    pub registered: bool,
    /// The type's values can be serialized.
    pub serializable: bool,
    /// The type's default value, in canonical form, if the type has one.
    pub default_value: Option<String>,
    /// The type supports structural equality.
    pub partial_eq: bool,
    /// The type is a component that entities can hold.
    pub is_component: bool,
    /// For a handle type: the index of the asset type it points into.
    pub handle_of: Option<usize>,
    /// The type is an asset type.
    pub is_asset: bool,
}

/// One component of an entity: its type's index in the registry and its value.
#[derive(Debug, Clone)]
pub struct ComponentValue {
    pub type_index: usize,
    pub value: String,
}

/// An entity and its components.
#[derive(Debug)]
pub struct EntityRecord {
    pub entity: Entity,
    pub components: Vec<ComponentValue>,
}

/// A stored asset: its type's index, the canonical form of its handle, its value.
#[derive(Debug, Clone)]
pub struct AssetRecord {
    pub asset_type: usize,
    pub handle: String,
    pub value: String,
}

/// The world.
#[derive(Debug)]
pub struct World {
    pub types: Vec<TypeInfo>,
    pub entities: Vec<EntityRecord>,
    pub assets: Vec<AssetRecord>,
    pub next_entity: u64,
    /// The name lookup tables of `types`.
    pub names: NameCache,
}

/// Whether the entity holds a component of type `t`.
pub open spec fn has_component(rec: EntityRecord, t: int) -> bool {
    exists|j: int| 0 <= j < rec.components@.len() && rec.components@[j].type_index == t
}

/// The value of the entity's component of type `t` (meaningful where it has one).
pub open spec fn component_value(rec: EntityRecord, t: int) -> String {
    rec.components@[choose|j: int| 0 <= j < rec.components@.len() && rec.components@[j].type_index == t].value
}

/// An entity record's components are of registered types, one of each type at most.
pub open spec fn record_wf(rec: EntityRecord, n_types: int) -> bool {
    &&& forall|j: int| 0 <= j < rec.components@.len() ==> rec.components@[j].type_index < n_types
    &&& forall|j: int, k: int|
        0 <= j < rec.components@.len() && 0 <= k < rec.components@.len() && j != k
            ==> rec.components@[j].type_index != rec.components@[k].type_index
}

/// `v` is the canonical form of a value: the text that one of the readers gives
/// for some input (`serde_json`'s compact writing of the value read).
pub open spec fn canonical(v: Seq<char>) -> bool {
    ||| exists|t: Seq<char>| json_read(t) == Ok::<Seq<char>, Seq<char>>(v)
    ||| exists|t: Seq<char>| json5_read(t) == Ok::<Seq<char>, Seq<char>>(v)
    ||| exists|t: Seq<char>| ron_read(t) == Ok::<Seq<char>, Seq<char>>(v)
}

/// A type's default value, where it has one, is its own canonical reading.
pub open spec fn default_canonical(info: TypeInfo) -> bool {
    match info.default_value {
        Some(d) => json_read(d@) == Ok::<Seq<char>, Seq<char>>(d@),
        None => true,
    }
}

/// No two types of the registry share a type path.
pub open spec fn paths_unique(types: Seq<TypeInfo>) -> bool {
    forall|i: int, j: int|
        #![trigger types[i], types[j]]
        0 <= i < types.len() && 0 <= j < types.len() && i != j
            ==> types[i].type_path@ != types[j].type_path@
}

/// Whether some entity record is the given entity.
pub open spec fn has_entity(w: World, e: Entity) -> bool {
    exists|k: int| 0 <= k < w.entities@.len() && w.entities@[k].entity == e
}

/// The record `a` is the asset of type `t` under the handle `h`.
pub open spec fn same_asset(a: AssetRecord, t: int, h: Seq<char>) -> bool {
    a.asset_type == t && a.handle@ == h
}

/// Whether an asset of type `t` is stored under the handle `h`.
pub open spec fn has_asset(w: World, t: int, h: Seq<char>) -> bool {
    exists|k: int| 0 <= k < w.assets@.len() && same_asset(w.assets@[k], t, h)
}

/// The asset of type `t` stored under the handle `h` (meaningful where there is one).
pub open spec fn asset_value(w: World, t: int, h: Seq<char>) -> String {
    w.assets@[choose|k: int| 0 <= k < w.assets@.len() && same_asset(w.assets@[k], t, h)].value
}

/// `w1` is `w0` with the asset of type `t` under the handle `h` set to `v`;
/// nothing else changes.
pub open spec fn asset_set(w0: World, w1: World, t: int, h: Seq<char>, v: Seq<char>) -> bool {
    &&& w1.types == w0.types
    &&& w1.entities == w0.entities
    &&& w1.next_entity == w0.next_entity
    &&& has_asset(w1, t, h)
    &&& asset_value(w1, t, h)@ == v
    &&& forall|u: int, g: Seq<char>| !(u == t && g == h) ==> (has_asset(w1, u, g) == has_asset(w0, u, g))
    &&& forall|u: int, g: Seq<char>| !(u == t && g == h) && has_asset(w0, u, g)
        ==> asset_value(w1, u, g) == asset_value(w0, u, g)
}

/// `w1` is `w0` with the component of type `t` of the entity at index `k` set to
/// the value `v`; nothing else changes.
pub open spec fn component_set(w0: World, w1: World, k: int, t: int, v: Seq<char>) -> bool {
    &&& w1.types == w0.types
    &&& w1.assets == w0.assets
    &&& w1.next_entity == w0.next_entity
    &&& w1.entities@.len() == w0.entities@.len()
    &&& forall|l: int| 0 <= l < w0.entities@.len() && l != k ==> w1.entities@[l] == w0.entities@[l]
    &&& w1.entities@[k].entity == w0.entities@[k].entity
    &&& has_component(w1.entities@[k], t)
    &&& component_value(w1.entities@[k], t)@ == v
    &&& forall|u: int| u != t ==> (has_component(w1.entities@[k], u) == has_component(w0.entities@[k], u))
    &&& forall|u: int| u != t && has_component(w0.entities@[k], u)
        ==> component_value(w1.entities@[k], u) == component_value(w0.entities@[k], u)
}

impl World {
    /// The world's invariant: type paths are unique, references between types and
    /// from entities and assets to types are in range, entities are distinct and
    /// were all handed out before `next_entity`.
    pub open spec fn wf(&self) -> bool {
        &&& paths_unique(self.types@)
        &&& cache_wf(self.names, self.types@)
        &&& forall|i: int| 0 <= i < self.types@.len() ==> default_canonical(#[trigger] self.types@[i])
        &&& forall|k: int, j: int|
            0 <= k < self.entities@.len() && 0 <= j < self.entities@[k].components@.len()
                ==> canonical((#[trigger] self.entities@[k].components@[j]).value@)
        &&& forall|k: int| 0 <= k < self.assets@.len()
            ==> canonical((#[trigger] self.assets@[k]).handle@) && canonical(self.assets@[k].value@)
        &&& forall|i: int|
            0 <= i < self.types@.len() && (#[trigger] self.types@[i]).handle_of.is_some()
                ==> self.types@[i].handle_of.unwrap() < self.types@.len()
        &&& forall|k: int|
            0 <= k < self.entities@.len() ==> record_wf(#[trigger] self.entities@[k], self.types@.len() as int)
        &&& forall|k: int, j: int|
            0 <= k < self.entities@.len() && 0 <= j < self.entities@[k].components@.len()
                ==> self.types@[(#[trigger] self.entities@[k].components@[j]).type_index as int].is_component
        &&& forall|k: int, l: int|
            0 <= k < self.entities@.len() && 0 <= l < self.entities@.len() && k != l
                ==> self.entities@[k].entity != self.entities@[l].entity
        &&& forall|k: int| 0 <= k < self.entities@.len() ==> (#[trigger] self.entities@[k]).entity.0 < self.next_entity
        &&& forall|k: int| 0 <= k < self.assets@.len() ==> (#[trigger] self.assets@[k]).asset_type < self.types@.len()
        &&& forall|k: int, l: int|
            #![trigger self.assets@[k], self.assets@[l]]
            0 <= k < self.assets@.len() && 0 <= l < self.assets@.len() && k != l
                ==> !same_asset(self.assets@[k], self.assets@[l].asset_type as int, self.assets@[l].handle@)
    }

    /// An empty world.
    pub fn new() -> (r: World)
        ensures
            r.wf(),
            r.types@.len() == 0,
            r.entities@.len() == 0,
            r.assets@.len() == 0,
    {
        World { types: Vec::new(), entities: Vec::new(), assets: Vec::new(), next_entity: 0, names: NameCache::new() }
    }

    /// Registers a type and returns its index. Refused (`None`, the world unchanged)
    /// when its type path is already registered, its handle target is out of
    /// range, or its default value is not in canonical form.
    pub fn register_type(&mut self, info: TypeInfo) -> (r: Option<usize>)
        requires
            old(self).wf(),
        ensures
            final(self).wf(),
            final(self).entities == old(self).entities,
            final(self).assets == old(self).assets,
            final(self).next_entity == old(self).next_entity,
            r.is_some() <==> ((forall|i: int| 0 <= i < old(self).types@.len()
                ==> old(self).types@[i].type_path@ != info.type_path@)
                && (info.handle_of.is_some() ==> info.handle_of.unwrap() < old(self).types@.len())
                && default_canonical(info)
                && old(self).types@.len() < usize::MAX),
            r.is_some() ==> r.unwrap() == old(self).types@.len()
                && final(self).types@ == old(self).types@.push(info),
            r.is_none() ==> final(self).types@ == old(self).types@,
    {
        let n = self.types.len();
        if n == usize::MAX {
            return None;
        }
        match info.handle_of {
            Some(h) => {
                if h >= n {
                    return None;
                }
            },
            None => {},
        }
        match &info.default_value {
            Some(d) => match read_json(d) {
                Ok(c) => {
                    if c != *d {
                        return None;
                    }
                },
                Err(_) => return None,
            },
            None => {},
        }
        let mut i: usize = 0;
        while i < n
            invariant
                self.wf(),
                *self == *old(self),
                n == self.types@.len(),
                i <= n,
                forall|j: int| 0 <= j < i ==> self.types@[j].type_path@ != info.type_path@,
            decreases n - i,
        {
            if self.types[i].type_path == info.type_path {
                return None;
            }
            i = i + 1;
        }
        self.names.record(&self.types, &info);
        self.types.push(info);
        Some(n)
    }

    /// Spawns an entity with no components. `None` once every entity bit
    /// pattern has been handed out.
    pub fn spawn(&mut self) -> (r: Option<Entity>)
        requires
            old(self).wf(),
        ensures
            final(self).wf(),
            final(self).types == old(self).types,
            final(self).assets == old(self).assets,
            r.is_some() <==> old(self).next_entity < u64::MAX,
            r.is_some() ==> r.unwrap() == Entity(old(self).next_entity)
                && final(self).next_entity == old(self).next_entity + 1
                && !has_entity(*old(self), r.unwrap())
                && final(self).entities@.len() == old(self).entities@.len() + 1
                && final(self).entities@.last().entity == r.unwrap()
                && final(self).entities@.last().components@.len() == 0
                && final(self).entities@.drop_last() == old(self).entities@,
            r.is_none() ==> *final(self) == *old(self),
    {
        if self.next_entity == u64::MAX {
            return None;
        }
        let e = Entity(self.next_entity);
        self.entities.push(EntityRecord { entity: e, components: Vec::new() });
        self.next_entity = self.next_entity + 1;
        assert(self.entities@.drop_last() =~= old(self).entities@);
        Some(e)
    }

    /// The index of the entity's record, if the entity exists.
    pub fn find_entity(&self, e: Entity) -> (r: Option<usize>)
        requires
            self.wf(),
        ensures
            r.is_some() <==> has_entity(*self, e),
            r.is_some() ==> r.unwrap() < self.entities@.len() && self.entities@[r.unwrap() as int].entity == e,
    {
        let mut k: usize = 0;
        while k < self.entities.len()
            invariant
                k <= self.entities@.len(),
                forall|l: int| 0 <= l < k ==> self.entities@[l].entity != e,
            decreases self.entities@.len() - k,
        {
            if self.entities[k].entity == e {
                return Some(k);
            }
            k = k + 1;
        }
        None
    }

    /// Sets the value of the component of type `t` on the entity at index `k`,
    /// adding the component if the entity lacks it.
    pub fn set_component(&mut self, k: usize, t: usize, value: String)
        requires
            old(self).wf(),
            k < old(self).entities@.len(),
            t < old(self).types@.len(),
            old(self).types@[t as int].is_component,
            canonical(value@),
        ensures
            final(self).wf(),
            component_set(*old(self), *final(self), k as int, t as int, value@),
    {
        let slot = self.entities[k].find_component(t);
        let ghost old_rec = self.entities@[k as int];
        let mut rec = EntityRecord { entity: self.entities[k].entity, components: Vec::new() };
        std::mem::swap(&mut rec, &mut self.entities[k]);
        assert(rec == old_rec);
        match slot {
            Some(j) => {
                rec.components.set(j, ComponentValue { type_index: t, value });
                assert(rec.components@[j as int].type_index == t);
                assert forall|u: int| u != t implies (has_component(rec, u) == has_component(old_rec, u)) by {
                    if has_component(old_rec, u) {
                        let m = choose|m: int| 0 <= m < old_rec.components@.len() && old_rec.components@[m].type_index == u;
                        assert(rec.components@[m].type_index == u);
                    }
                    if has_component(rec, u) {
                        let m = choose|m: int| 0 <= m < rec.components@.len() && rec.components@[m].type_index == u;
                        assert(old_rec.components@[m].type_index == u);
                    }
                }
            },
            None => {
                rec.components.push(ComponentValue { type_index: t, value });
                let ghost n = old_rec.components@.len() as int;
                assert(rec.components@[n].type_index == t);
                assert forall|u: int| u != t implies (has_component(rec, u) == has_component(old_rec, u)) by {
                    if has_component(old_rec, u) {
                        let m = choose|m: int| 0 <= m < old_rec.components@.len() && old_rec.components@[m].type_index == u;
                        assert(rec.components@[m].type_index == u);
                    }
                    if has_component(rec, u) {
                        let m = choose|m: int| 0 <= m < rec.components@.len() && rec.components@[m].type_index == u;
                        assert(old_rec.components@[m].type_index == u);
                    }
                }
            },
        }
        std::mem::swap(&mut rec, &mut self.entities[k]);
        assert(record_wf(self.entities@[k as int], self.types@.len() as int));
    }
}

impl EntityRecord {
    /// The position of the component of type `t` among the entity's components.
    pub fn find_component(&self, t: usize) -> (r: Option<usize>)
        ensures
            r.is_some() <==> has_component(*self, t as int),
            r.is_some() ==> r.unwrap() < self.components@.len()
                && self.components@[r.unwrap() as int].type_index == t,
    {
        let mut j: usize = 0;
        while j < self.components.len()
            invariant
                j <= self.components@.len(),
                forall|m: int| 0 <= m < j ==> self.components@[m].type_index != t,
            decreases self.components@.len() - j,
        {
            if self.components[j].type_index == t {
                return Some(j);
            }
            j = j + 1;
        }
        None
    }

    /// Whether the entity holds a component of type `t`.
    pub fn contains_id(&self, t: usize) -> (r: bool)
        ensures
            r == has_component(*self, t as int),
    {
        self.find_component(t).is_some()
    }
}

impl World {
    /// The index of the asset of type `t` stored under the handle `h`.
    pub fn find_asset(&self, t: usize, h: &String) -> (r: Option<usize>)
        requires
            self.wf(),
        ensures
            r.is_some() <==> has_asset(*self, t as int, h@),
            r.is_some() ==> r.unwrap() < self.assets@.len() && same_asset(self.assets@[r.unwrap() as int], t as int, h@)
                && asset_value(*self, t as int, h@) == self.assets@[r.unwrap() as int].value,
    {
        let mut k: usize = 0;
        while k < self.assets.len()
            invariant
                self.wf(),
                k <= self.assets@.len(),
                forall|l: int| 0 <= l < k ==> !same_asset(self.assets@[l], t as int, h@),
            decreases self.assets@.len() - k,
        {
            if self.assets[k].asset_type == t && self.assets[k].handle == *h {
                proof {
                    let c = choose|c: int| 0 <= c < self.assets@.len() && same_asset(self.assets@[c], t as int, h@);
                    if c != k {
                        assert(!same_asset(self.assets@[c], self.assets@[k as int].asset_type as int, self.assets@[k as int].handle@));
                    }
                }
                return Some(k);
            }
            k = k + 1;
        }
        None
    }

    /// Stores `v` as the asset of type `t` under the handle `h`, replacing the
    /// asset stored there before.
    pub fn set_asset(&mut self, t: usize, h: String, v: String)
        requires
            old(self).wf(),
            t < old(self).types@.len(),
            canonical(h@),
            canonical(v@),
        ensures
            final(self).wf(),
            asset_set(*old(self), *final(self), t as int, h@, v@),
    {
        let ghost w0 = *self;
        match self.find_asset(t, &h) {
            Some(k) => {
                self.assets.set(k, AssetRecord { asset_type: t, handle: h, value: v });
                proof {
                    assert(same_asset(self.assets@[k as int], t as int, h@));
                    let c = choose|c: int| 0 <= c < self.assets@.len() && same_asset(self.assets@[c], t as int, h@);
                    if c != k {
                        assert(!same_asset(self.assets@[c], self.assets@[k as int].asset_type as int, self.assets@[k as int].handle@));
                    }
                    assert forall|u: int, g: Seq<char>| !(u == t && g == h@) implies (has_asset(*self, u, g) == has_asset(w0, u, g)) by {
                        if has_asset(w0, u, g) {
                            let m = choose|m: int| 0 <= m < w0.assets@.len() && same_asset(w0.assets@[m], u, g);
                            assert(same_asset(self.assets@[m], u, g));
                        }
                        if has_asset(*self, u, g) {
                            let m = choose|m: int| 0 <= m < self.assets@.len() && same_asset(self.assets@[m], u, g);
                            assert(same_asset(w0.assets@[m], u, g));
                        }
                    }
                }
            },
            None => {
                self.assets.push(AssetRecord { asset_type: t, handle: h, value: v });
                proof {
                    let n = w0.assets@.len() as int;
                    assert(same_asset(self.assets@[n], t as int, h@));
                    let c = choose|c: int| 0 <= c < self.assets@.len() && same_asset(self.assets@[c], t as int, h@);
                    if c != n {
                        assert(same_asset(w0.assets@[c], t as int, h@));
                    }
                    assert forall|u: int, g: Seq<char>| !(u == t && g == h@) implies (has_asset(*self, u, g) == has_asset(w0, u, g)) by {
                        if has_asset(w0, u, g) {
                            let m = choose|m: int| 0 <= m < w0.assets@.len() && same_asset(w0.assets@[m], u, g);
                            assert(same_asset(self.assets@[m], u, g));
                        }
                        if has_asset(*self, u, g) {
                            let m = choose|m: int| 0 <= m < self.assets@.len() && same_asset(self.assets@[m], u, g);
                            assert(same_asset(w0.assets@[m], u, g));
                        }
                    }
                }
            },
        }
    }
}

/// `w1` is `w0` with the component of type `t` taken off the entity at index `k`;
/// nothing else changes.
pub open spec fn component_removed(w0: World, w1: World, k: int, t: int) -> bool {
    &&& w1.types == w0.types
    &&& w1.assets == w0.assets
    &&& w1.next_entity == w0.next_entity
    &&& w1.names == w0.names
    &&& w1.entities@.len() == w0.entities@.len()
    &&& forall|l: int| 0 <= l < w0.entities@.len() && l != k ==> w1.entities@[l] == w0.entities@[l]
    &&& w1.entities@[k].entity == w0.entities@[k].entity
    &&& !has_component(w1.entities@[k], t)
    &&& forall|u: int| u != t ==> (has_component(w1.entities@[k], u) == has_component(w0.entities@[k], u))
    &&& forall|u: int| u != t && has_component(w0.entities@[k], u)
        ==> component_value(w1.entities@[k], u) == component_value(w0.entities@[k], u)
}

impl World {
    /// Destroys the entity at index `k`, with its components.
    pub fn despawn(&mut self, k: usize)
        requires
            old(self).wf(),
            k < old(self).entities@.len(),
        ensures
            final(self).wf(),
            final(self).entities@ == old(self).entities@.remove(k as int),
            final(self).types == old(self).types,
            final(self).assets == old(self).assets,
            final(self).next_entity == old(self).next_entity,
            final(self).names == old(self).names,
    {
        let ghost before = self.entities@;
        self.entities.remove(k);
        proof {
            let after = self.entities@;
            assert(after == before.remove(k as int));
            assert forall|i: int| 0 <= i < after.len() implies #[trigger] after[i] == before[if i < k { i } else { i + 1 }] by {}
            assert forall|a: int, b: int|
                0 <= a < after.len() && 0 <= b < after.len() && a != b implies after[a].entity != after[b].entity by {
                let a0 = if a < k { a } else { a + 1 };
                let b0 = if b < k { b } else { b + 1 };
                assert(after[a] == before[a0] && after[b] == before[b0]);
                assert(before[a0].entity != before[b0].entity);
            }
            assert forall|a: int| 0 <= a < after.len() implies record_wf(#[trigger] after[a], self.types@.len() as int) by {
                let a0 = if a < k { a } else { a + 1 };
                assert(after[a] == before[a0]);
                assert(record_wf(before[a0], self.types@.len() as int));
            }
            assert forall|a: int| 0 <= a < after.len() implies (#[trigger] after[a]).entity.0 < self.next_entity by {
                let a0 = if a < k { a } else { a + 1 };
                assert(after[a] == before[a0]);
            }
            assert forall|a: int, j: int| 0 <= a < after.len() && 0 <= j < after[a].components@.len()
                implies self.types@[(#[trigger] after[a].components@[j]).type_index as int].is_component by {
                let a0 = if a < k { a } else { a + 1 };
                assert(after[a] == before[a0]);
                assert(before[a0].components@[j] == after[a].components@[j]);
            }
        }
    }

    /// Takes the component of type `t` off the entity at index `k`, if it has one.
    pub fn remove_component(&mut self, k: usize, t: usize)
        requires
            old(self).wf(),
            k < old(self).entities@.len(),
        ensures
            final(self).wf(),
            component_removed(*old(self), *final(self), k as int, t as int),
    {
        let slot = self.entities[k].find_component(t);
        match slot {
            None => {},
            Some(j) => {
                let ghost old_rec = self.entities@[k as int];
                let mut rec = EntityRecord { entity: self.entities[k].entity, components: Vec::new() };
                std::mem::swap(&mut rec, &mut self.entities[k]);
                assert(rec == old_rec);
                rec.components.remove(j);
                proof {
                    let oc = old_rec.components@;
                    let nc = rec.components@;
                    assert(nc == oc.remove(j as int));
                    assert forall|m: int| 0 <= m < nc.len() implies #[trigger] nc[m] == oc[if m < j { m } else { m + 1 }] by {}
                    assert(record_wf(old_rec, self.types@.len() as int));
                    assert forall|m: int| 0 <= m < nc.len() implies (#[trigger] nc[m]).type_index != t by {
                        let m0 = if m < j { m } else { m + 1 };
                        assert(oc[m0].type_index != oc[j as int].type_index);
                    }
                    assert forall|u: int| u != t implies (has_component(rec, u) == has_component(old_rec, u)) by {
                        if has_component(old_rec, u) {
                            let m = choose|m: int| 0 <= m < oc.len() && oc[m].type_index == u;
                            assert(m != j);
                            let m1 = if m < j { m } else { m - 1 };
                            assert(nc[m1] == oc[m]);
                        }
                        if has_component(rec, u) {
                            let m = choose|m: int| 0 <= m < nc.len() && nc[m].type_index == u;
                            let m0 = if m < j { m } else { m + 1 };
                            assert(nc[m] == oc[m0]);
                        }
                    }
                    assert forall|u: int| u != t && has_component(old_rec, u)
                        implies component_value(rec, u) == component_value(old_rec, u) by {
                        let c1 = choose|c: int| 0 <= c < nc.len() && nc[c].type_index == u;
                        let c0 = choose|c: int| 0 <= c < oc.len() && oc[c].type_index == u;
                        let c1o = if c1 < j { c1 } else { c1 + 1 };
                        assert(nc[c1] == oc[c1o]);
                        if c0 != c1o {
                            assert(oc[c0].type_index != oc[c1o].type_index);
                        }
                    }
                    assert forall|a: int, b: int|
                        0 <= a < nc.len() && 0 <= b < nc.len() && a != b implies nc[a].type_index != nc[b].type_index by {
                        let a0 = if a < j { a } else { a + 1 };
                        let b0 = if b < j { b } else { b + 1 };
                        assert(nc[a] == oc[a0] && nc[b] == oc[b0]);
                    }
                    assert forall|m: int| 0 <= m < nc.len() implies nc[m].type_index < self.types@.len() by {
                        let m0 = if m < j { m } else { m + 1 };
                        assert(nc[m] == oc[m0]);
                    }
                    assert forall|m: int| 0 <= m < nc.len() implies self.types@[nc[m].type_index as int].is_component by {
                        let m0 = if m < j { m } else { m + 1 };
                        assert(nc[m] == oc[m0]);
                        assert(old_rec == old(self).entities@[k as int]);
                    }
                }
                std::mem::swap(&mut rec, &mut self.entities[k]);
            },
        }
    }
}

} // verus!
