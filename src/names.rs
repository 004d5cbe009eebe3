//! Resolution of client-supplied names to types of the registry.
//!
//! A name is first looked up as a full type path; failing that, as a short type
//! path, which must then belong to exactly one type. The lookups go through a
//! cache of both kinds of path that the world keeps in step with its registry:
//! each type is recorded once, when it is registered, and a short path that a
//! second type brings is marked ambiguous then.

use vstd::prelude::*;

use crate::brp::{BrpError, ErrorView};
use crate::world::{paths_unique, TypeInfo, World};

verus! {

/// The type at index `i` has the full type path `name`.
pub open spec fn long_match(types: Seq<TypeInfo>, name: Seq<char>, i: int) -> bool {
    0 <= i < types.len() && types[i].type_path@ == name
}

/// The type at index `i` has the short type path `name`.
pub open spec fn short_match(types: Seq<TypeInfo>, name: Seq<char>, i: int) -> bool {
    0 <= i < types.len() && types[i].short_type_path@ == name
}

/// At least two types have the short type path `name`.
pub open spec fn short_ambiguous(types: Seq<TypeInfo>, name: Seq<char>) -> bool {
    exists|i: int, j: int| i != j && short_match(types, name, i) && short_match(types, name, j)
}

/// The type that `name` stands for: the one whose full path it is; else the one
/// whose short path it is, if that short path is not shared; else an error that
/// tells an ambiguous short path apart from an unknown name.
pub open spec fn resolve_spec(types: Seq<TypeInfo>, name: Seq<char>) -> Result<int, ErrorView> {
    if exists|i: int| long_match(types, name, i) {
        Ok(choose|i: int| long_match(types, name, i))
    } else if short_ambiguous(types, name) {
        Err(ErrorView::ComponentAmbiguous(name))
    } else if exists|i: int| short_match(types, name, i) {
        Ok(choose|i: int| short_match(types, name, i))
    } else {
        Err(ErrorView::ComponentNotFound(name))
    }
}

/// The component type that `name` stands for: as `resolve_spec`, and the type must
/// be a component.
pub open spec fn component_spec(types: Seq<TypeInfo>, name: Seq<char>) -> Result<int, ErrorView> {
    match resolve_spec(types, name) {
        Ok(i) => if types[i].is_component {
            Ok(i)
        } else {
            Err(ErrorView::MissingComponentId(name))
        },
        Err(e) => Err(e),
    }
}

/// The view of a lookup's outcome.
pub open spec fn lookup_view(r: Result<usize, BrpError>) -> Result<int, ErrorView> {
    match r {
        Ok(i) => Ok(i as int),
        Err(e) => Err(e@),
    }
}

/// A short type path seen in the registry: the first type that has it, and
/// whether a later type has it too.
#[derive(Debug)]
pub struct ShortEntry {
    pub short: String,
    pub index: usize,
    pub shared: bool,
}

/// The name lookup tables of a registry: the full path of each type, and each
/// short path once, marked where several types share it. Kept in step with the
/// registry, which only grows, one type at a time.
#[derive(Debug)]
pub struct NameCache {
    pub long: Vec<(String, usize)>,
    pub short: Vec<ShortEntry>,
}

/// Some type of `types` other than the one at `index` has the short path `short`.
pub open spec fn short_shared(types: Seq<TypeInfo>, short: Seq<char>, index: int) -> bool {
    exists|j: int| 0 <= j < types.len() && j != index && types[j].short_type_path@ == short
}

/// The cache describes the registry `types` exactly.
pub open spec fn cache_wf(c: NameCache, types: Seq<TypeInfo>) -> bool {
    &&& c.long@.len() == types.len()
    &&& forall|i: int| 0 <= i < types.len()
        ==> (#[trigger] c.long@[i]).0@ == types[i].type_path@ && c.long@[i].1 == i
    &&& forall|e: int| 0 <= e < c.short@.len()
        ==> (#[trigger] c.short@[e]).index < types.len()
            && types[c.short@[e].index as int].short_type_path@ == c.short@[e].short@
            && (c.short@[e].shared <==> short_shared(types, c.short@[e].short@, c.short@[e].index as int))
    &&& forall|i: int| 0 <= i < types.len()
        ==> exists|e: int| 0 <= e < c.short@.len() && c.short@[e].short@ == (#[trigger] types[i]).short_type_path@
    &&& forall|e: int, f: int|
        #![trigger c.short@[e], c.short@[f]]
        0 <= e < c.short@.len() && 0 <= f < c.short@.len() && e != f
            ==> c.short@[e].short@ != c.short@[f].short@
}

impl NameCache {
    /// The tables of an empty registry.
    pub fn new() -> (r: NameCache)
        ensures
            cache_wf(r, Seq::empty()),
    {
        NameCache { long: Vec::new(), short: Vec::new() }
    }

    /// Records the type `info`, about to be registered at index `types.len()`.
    pub fn record(&mut self, types: &Vec<TypeInfo>, info: &TypeInfo)
        requires
            cache_wf(*old(self), types@),
        ensures
            cache_wf(*final(self), types@.push(*info)),
    {
        let n = types.len();
        let ghost t1 = types@.push(*info);
        self.long.push((info.type_path.clone(), n));
        let mut e: usize = 0;
        let mut found: Option<usize> = None;
        while e < self.short.len() && found.is_none()
            invariant
                cache_wf(*old(self), types@),
                self.short == old(self).short,
                self.long@ == old(self).long@.push((info.type_path, n)),
                n == types@.len(),
                e <= self.short@.len(),
                forall|f: int| 0 <= f < e ==> self.short@[f].short@ != info.short_type_path@,
                found.is_some() ==> found.unwrap() < self.short@.len() && self.short@[found.unwrap() as int].short@ == info.short_type_path@,
            decreases self.short@.len() - e + if found.is_none() { 1int } else { 0int },
        {
            if self.short[e].short == info.short_type_path {
                found = Some(e);
            } else {
                e = e + 1;
            }
        }
        let ghost s0 = self.short@;
        match found {
            Some(f) => {
                let entry = ShortEntry { short: info.short_type_path.clone(), index: self.short[f].index, shared: true };
                self.short.set(f, entry);
                proof {
                    assert(t1[n as int].short_type_path@ == info.short_type_path@);
                    assert forall|g: int| 0 <= g < self.short@.len() implies
                        (#[trigger] self.short@[g]).index < t1.len()
                            && t1[self.short@[g].index as int].short_type_path@ == self.short@[g].short@
                            && (self.short@[g].shared <==> short_shared(t1, self.short@[g].short@, self.short@[g].index as int)) by {
                        if g == f {
                            assert(self.short@[g].index != n);
                            assert(short_shared(t1, self.short@[g].short@, self.short@[g].index as int));
                        } else {
                            assert(self.short@[g] == s0[g]);
                            assert(s0[g].short@ != s0[f as int].short@);
                            if short_shared(t1, s0[g].short@, s0[g].index as int) {
                                let j = choose|j: int| 0 <= j < t1.len() && j != s0[g].index && t1[j].short_type_path@ == s0[g].short@;
                                assert(j != n);
                                assert(short_shared(types@, s0[g].short@, s0[g].index as int));
                            }
                            if short_shared(types@, s0[g].short@, s0[g].index as int) {
                                let j = choose|j: int| 0 <= j < types@.len() && j != s0[g].index && types@[j].short_type_path@ == s0[g].short@;
                                assert(t1[j] == types@[j]);
                            }
                        }
                    }
                    assert forall|i: int| 0 <= i < t1.len() implies
                        exists|g: int| 0 <= g < self.short@.len() && self.short@[g].short@ == (#[trigger] t1[i]).short_type_path@ by {
                        if i == n {
                            assert(self.short@[f as int].short@ == t1[i].short_type_path@);
                        } else {
                            assert(t1[i] == types@[i]);
                            let g = choose|g: int| 0 <= g < s0.len() && s0[g].short@ == types@[i].short_type_path@;
                            assert(self.short@[g].short@ == s0[g].short@);
                        }
                    }
                }
            },
            None => {
                self.short.push(ShortEntry { short: info.short_type_path.clone(), index: n, shared: false });
                proof {
                    let m = s0.len() as int;
                    assert forall|g: int| 0 <= g < self.short@.len() implies
                        (#[trigger] self.short@[g]).index < t1.len()
                            && t1[self.short@[g].index as int].short_type_path@ == self.short@[g].short@
                            && (self.short@[g].shared <==> short_shared(t1, self.short@[g].short@, self.short@[g].index as int)) by {
                        if g == m {
                            if short_shared(t1, info.short_type_path@, n as int) {
                                let j = choose|j: int| 0 <= j < t1.len() && j != n && t1[j].short_type_path@ == info.short_type_path@;
                                assert(t1[j] == types@[j]);
                                let h = choose|h: int| 0 <= h < s0.len() && s0[h].short@ == types@[j].short_type_path@;
                                assert(s0[h].short@ != info.short_type_path@);
                            }
                        } else {
                            assert(self.short@[g] == s0[g]);
                            if short_shared(t1, s0[g].short@, s0[g].index as int) {
                                let j = choose|j: int| 0 <= j < t1.len() && j != s0[g].index && t1[j].short_type_path@ == s0[g].short@;
                                assert(j != n);
                                assert(short_shared(types@, s0[g].short@, s0[g].index as int));
                            }
                            if short_shared(types@, s0[g].short@, s0[g].index as int) {
                                let j = choose|j: int| 0 <= j < types@.len() && j != s0[g].index && types@[j].short_type_path@ == s0[g].short@;
                                assert(t1[j] == types@[j]);
                            }
                        }
                    }
                    assert forall|i: int| 0 <= i < t1.len() implies
                        exists|g: int| 0 <= g < self.short@.len() && self.short@[g].short@ == (#[trigger] t1[i]).short_type_path@ by {
                        if i == n {
                            assert(self.short@[m].short@ == t1[i].short_type_path@);
                        } else {
                            assert(t1[i] == types@[i]);
                            let g = choose|g: int| 0 <= g < s0.len() && s0[g].short@ == types@[i].short_type_path@;
                            assert(self.short@[g].short@ == s0[g].short@);
                        }
                    }
                }
            },
        }
        proof {
            assert forall|i: int| 0 <= i < t1.len() implies
                (#[trigger] self.long@[i]).0@ == t1[i].type_path@ && self.long@[i].1 == i by {
                if i < n {
                    assert(t1[i] == types@[i]);
                }
            }
        }
    }

    /// Looks `name` up: as a full path first, then as a short path.
    pub fn lookup(&self, types: &Vec<TypeInfo>, name: &String) -> (r: Result<usize, BrpError>)
        requires
            paths_unique(types@),
            cache_wf(*self, types@),
        ensures
            lookup_view(r) == resolve_spec(types@, name@),
            r.is_ok() ==> r.unwrap() < types@.len(),
    {
        let mut i: usize = 0;
        while i < self.long.len()
            invariant
                cache_wf(*self, types@),
                paths_unique(types@),
                i <= self.long@.len(),
                forall|j: int| 0 <= j < i ==> !long_match(types@, name@, j),
            decreases self.long@.len() - i,
        {
            if self.long[i].0 == *name {
                let t = self.long[i].1;
                proof {
                    assert(long_match(types@, name@, i as int));
                    let c = choose|c: int| long_match(types@, name@, c);
                    if c != i {
                        assert(types@[c].type_path@ != types@[i as int].type_path@);
                    }
                }
                return Ok(t);
            }
            i = i + 1;
        }
        assert forall|j: int| !long_match(types@, name@, j) by {
            if long_match(types@, name@, j) {
                assert(self.long@[j].0@ == types@[j].type_path@);
            }
        }
        let mut e: usize = 0;
        while e < self.short.len()
            invariant
                cache_wf(*self, types@),
                forall|j: int| !long_match(types@, name@, j),
                e <= self.short@.len(),
                forall|f: int| 0 <= f < e ==> self.short@[f].short@ != name@,
            decreases self.short@.len() - e,
        {
            if self.short[e].short == *name {
                let entry = &self.short[e];
                if entry.shared {
                    proof {
                        let j = choose|j: int| 0 <= j < types@.len() && j != entry.index && types@[j].short_type_path@ == name@;
                        assert(short_match(types@, name@, j) && short_match(types@, name@, entry.index as int));
                    }
                    return Err(BrpError::ComponentAmbiguous(name.clone()));
                }
                proof {
                    assert(short_match(types@, name@, entry.index as int));
                    assert(!short_ambiguous(types@, name@)) by {
                        if short_ambiguous(types@, name@) {
                            let (a, b) = choose|a: int, b: int| a != b && short_match(types@, name@, a) && short_match(types@, name@, b);
                            if a != entry.index {
                                assert(short_shared(types@, name@, entry.index as int));
                            } else {
                                assert(short_shared(types@, name@, entry.index as int));
                            }
                        }
                    }
                    let c = choose|c: int| short_match(types@, name@, c);
                    if c != entry.index {
                        assert(short_shared(types@, name@, entry.index as int));
                    }
                }
                return Ok(entry.index);
            }
            e = e + 1;
        }
        proof {
            assert forall|j: int| !short_match(types@, name@, j) by {
                if short_match(types@, name@, j) {
                    let g = choose|g: int| 0 <= g < self.short@.len() && self.short@[g].short@ == types@[j].short_type_path@;
                }
            }
        }
        Err(BrpError::ComponentNotFound(name.clone()))
    }
}

/// Resolves `name` to the index of a registered type.
pub fn type_id_for_name(world: &World, name: &String) -> (r: Result<usize, BrpError>)
    requires
        world.wf(),
    ensures
        lookup_view(r) == resolve_spec(world.types@, name@),
        r.is_ok() ==> r.unwrap() < world.types@.len(),
{
    world.names.lookup(&world.types, name)
}

/// Resolves `name` to the index of a registered component type.
pub fn component_id_for_name(world: &World, name: &String) -> (r: Result<usize, BrpError>)
    requires
        world.wf(),
    ensures
        lookup_view(r) == component_spec(world.types@, name@),
        r.is_ok() ==> r.unwrap() < world.types@.len(),
{
    let i = type_id_for_name(world, name)?;
    if world.types[i].is_component {
        Ok(i)
    } else {
        Err(BrpError::MissingComponentId(name.clone()))
    }
}

/// Two types whose short paths collide: the short path is ambiguous (unless it is
/// itself some type's full path), while each full path resolves to its own type.
pub proof fn lemma_short_name_ambiguity(types: Seq<TypeInfo>, i: int, j: int)
    requires
        paths_unique(types),
        0 <= i < types.len(),
        0 <= j < types.len(),
        i != j,
        types[i].short_type_path@ == types[j].short_type_path@,
        forall|k: int| 0 <= k < types.len() ==> types[k].type_path@ != types[i].short_type_path@,
    ensures
        resolve_spec(types, types[i].short_type_path@) == Err::<int, ErrorView>(ErrorView::ComponentAmbiguous(types[i].short_type_path@)),
        resolve_spec(types, types[i].type_path@) == Ok::<int, ErrorView>(i),
        resolve_spec(types, types[j].type_path@) == Ok::<int, ErrorView>(j),
{
    let short = types[i].short_type_path@;
    assert(short_match(types, short, i) && short_match(types, short, j));
    assert(!exists|k: int| long_match(types, short, k));
    assert(long_match(types, types[i].type_path@, i));
    let a = choose|k: int| long_match(types, types[i].type_path@, k);
    if a != i {
        assert(types[a].type_path@ != types[i].type_path@);
    }
    assert(long_match(types, types[j].type_path@, j));
    let b = choose|k: int| long_match(types, types[j].type_path@, k);
    if b != j {
        assert(types[b].type_path@ != types[j].type_path@);
    }
}

} // verus!
