//! The query and predicate engine: which entities a query selects, and what is
//! fetched for each.

use vstd::prelude::*;

use crate::brp::{
    names_unique,
    component_map_view, has_map_view, optional_map_view, option_wire_view, predicate_names,
    results_view, BrpComponentHasMap, BrpComponentMap, BrpComponentOptionalMap, BrpError,
    BrpPredicate, BrpQueryData, BrpQueryFilter, BrpQueryResult, BrpSerializedData, Entity,
    ErrorView, QueryResultView, WireValue,
};
use crate::data::{bool_outcome, component_eq_spec, fetch_spec, serialize_spec};
use crate::names::{component_id_for_name, component_spec};
use crate::world::{component_value, has_component, record_wf, ComponentValue, EntityRecord, World};
use crate::RemoteSerializationFormat;

verus! {

/// Applies `f` to each element in order; the first error ends the walk.
pub open spec fn try_map<A, B>(s: Seq<A>, f: spec_fn(A) -> Result<B, ErrorView>) -> Result<Seq<B>, ErrorView>
    decreases s.len(),
{
    if s.len() == 0 {
        Ok(Seq::empty())
    } else {
        match f(s[0]) {
            Err(e) => Err(e),
            Ok(x) => prepend(seq![x], try_map(s.subrange(1, s.len() as int), f)),
        }
    }
}

/// Applies `f` to each element in order, keeping the results that are present;
/// the first error ends the walk.
pub open spec fn try_filter_map<A, B>(s: Seq<A>, f: spec_fn(A) -> Result<Option<B>, ErrorView>) -> Result<Seq<B>, ErrorView>
    decreases s.len(),
{
    if s.len() == 0 {
        Ok(Seq::empty())
    } else {
        match f(s[0]) {
            Err(e) => Err(e),
            Ok(o) => prepend(option_seq(o), try_filter_map(s.subrange(1, s.len() as int), f)),
        }
    }
}

/// The sequence of the value that is present, if any.
pub open spec fn option_seq<B>(o: Option<B>) -> Seq<B> {
    match o {
        Some(x) => seq![x],
        None => Seq::empty(),
    }
}

/// `p` put in front of a successful outcome.
pub open spec fn prepend<B>(p: Seq<B>, r: Result<Seq<B>, ErrorView>) -> Result<Seq<B>, ErrorView> {
    match r {
        Err(e) => Err(e),
        Ok(rest) => Ok(p + rest),
    }
}

pub(crate) proof fn lemma_try_map_step<A, B>(s: Seq<A>, i: int, f: spec_fn(A) -> Result<B, ErrorView>)
    requires
        0 <= i < s.len(),
    ensures
        try_map(s.subrange(i, s.len() as int), f) == match f(s[i]) {
            Err(e) => Err(e),
            Ok(x) => prepend(seq![x], try_map(s.subrange(i + 1, s.len() as int), f)),
        },
{
    let t = s.subrange(i, s.len() as int);
    assert(t[0] == s[i]);
    assert(t.subrange(1, t.len() as int) =~= s.subrange(i + 1, s.len() as int));
}

proof fn lemma_try_filter_map_step<A, B>(s: Seq<A>, i: int, f: spec_fn(A) -> Result<Option<B>, ErrorView>)
    requires
        0 <= i < s.len(),
    ensures
        try_filter_map(s.subrange(i, s.len() as int), f) == match f(s[i]) {
            Err(e) => Err(e),
            Ok(o) => prepend(option_seq(o), try_filter_map(s.subrange(i + 1, s.len() as int), f)),
        },
{
    let t = s.subrange(i, s.len() as int);
    assert(t[0] == s[i]);
    assert(t.subrange(1, t.len() as int) =~= s.subrange(i + 1, s.len() as int));
}

pub(crate) proof fn lemma_prepend_append<B>(v: Seq<B>, p: Seq<B>, r: Result<Seq<B>, ErrorView>)
    ensures
        prepend(v, prepend(p, r)) == prepend(v + p, r),
{
    match r {
        Err(e) => {},
        Ok(rest) => {
            assert(v + (p + rest) =~= (v + p) + rest);
        },
    }
}

/// A successful walk has one result per element, each what `f` gives for it.
pub proof fn lemma_try_map_ok<A, B>(s: Seq<A>, f: spec_fn(A) -> Result<B, ErrorView>, out: Seq<B>)
    requires
        try_map(s, f) == Ok::<Seq<B>, ErrorView>(out),
    ensures
        out.len() == s.len(),
        forall|j: int| 0 <= j < s.len() ==> f(s[j]) == Ok::<B, ErrorView>(out[j]),
    decreases s.len(),
{
    if s.len() > 0 {
        let rest = s.subrange(1, s.len() as int);
        let x = f(s[0])->Ok_0;
        let tail = try_map(rest, f)->Ok_0;
        lemma_try_map_ok(rest, f, tail);
        assert(out == seq![x] + tail);
        assert forall|j: int| 0 <= j < s.len() implies f(s[j]) == Ok::<B, ErrorView>(out[j]) by {
            if j > 0 {
                assert(rest[j - 1] == s[j]);
            }
        }
    }
}

/// A walk in which every element gives nothing, successfully, gives nothing.
pub proof fn lemma_try_filter_map_none<A, B>(s: Seq<A>, f: spec_fn(A) -> Result<Option<B>, ErrorView>)
    requires
        forall|k: int| 0 <= k < s.len() ==> f(s[k]) == Ok::<Option<B>, ErrorView>(None),
    ensures
        try_filter_map(s, f) == Ok::<Seq<B>, ErrorView>(Seq::empty()),
    decreases s.len(),
{
    if s.len() > 0 {
        let rest = s.subrange(1, s.len() as int);
        assert forall|k: int| 0 <= k < rest.len() implies f(rest[k]) == Ok::<Option<B>, ErrorView>(None) by {
            assert(rest[k] == s[k + 1]);
        }
        lemma_try_filter_map_none(rest, f);
        assert(option_seq::<B>(None) + Seq::<B>::empty() =~= Seq::<B>::empty());
    }
}

/// Each result of a successful filtering walk is what `f` gives for some element.
pub proof fn lemma_try_filter_map_source<A, B>(s: Seq<A>, f: spec_fn(A) -> Result<Option<B>, ErrorView>, out: Seq<B>)
    requires
        try_filter_map(s, f) == Ok::<Seq<B>, ErrorView>(out),
    ensures
        forall|m: int| 0 <= m < out.len() ==> exists|k: int| 0 <= k < s.len() && f(s[k]) == Ok::<Option<B>, ErrorView>(Some(#[trigger] out[m])),
    decreases s.len(),
{
    if s.len() > 0 {
        let rest = s.subrange(1, s.len() as int);
        let o = f(s[0])->Ok_0;
        let tail = try_filter_map(rest, f)->Ok_0;
        lemma_try_filter_map_source(rest, f, tail);
        assert(out == option_seq(o) + tail);
        assert forall|m: int| 0 <= m < out.len() implies exists|k: int| 0 <= k < s.len() && f(s[k]) == Ok::<Option<B>, ErrorView>(Some(#[trigger] out[m])) by {
            if m < option_seq(o).len() {
                assert(f(s[0]) == Ok::<Option<B>, ErrorView>(Some(out[m])));
            } else {
                let m2 = m - option_seq(o).len();
                assert(out[m] == tail[m2]);
                let k2 = choose|k: int| 0 <= k < rest.len() && f(rest[k]) == Ok::<Option<B>, ErrorView>(Some(tail[m2]));
                assert(rest[k2] == s[k2 + 1]);
            }
        }
    }
}

// ---- predicates ----

/// The value of a predicate on the entity `rec`. `All` and `Any` look at their
/// children from left to right and stop at the first child that decides; an
/// error in a child that is looked at is the outcome.
pub open spec fn predicate_value(w: World, rec: EntityRecord, p: BrpPredicate) -> Result<bool, ErrorView>
    decreases p,
{
    match p {
        BrpPredicate::Always => Ok(true),
        BrpPredicate::All(ps) => all_value(w, rec, ps@),
        BrpPredicate::Any(ps) => any_value(w, rec, ps@),
        BrpPredicate::Not(q) => match predicate_value(w, rec, *q) {
            Ok(b) => Ok(!b),
            Err(e) => Err(e),
        },
        BrpPredicate::PartialEq(m) => eq_value(w, rec, m@),
    }
}

/// Conjunction of a list of predicates, from left to right.
pub open spec fn all_value(w: World, rec: EntityRecord, ps: Seq<BrpPredicate>) -> Result<bool, ErrorView>
    decreases ps,
{
    if ps.len() == 0 {
        Ok(true)
    } else {
        match predicate_value(w, rec, ps[0]) {
            Err(e) => Err(e),
            Ok(false) => Ok(false),
            Ok(true) => all_value(w, rec, ps.subrange(1, ps.len() as int)),
        }
    }
}

/// Disjunction of a list of predicates, from left to right.
pub open spec fn any_value(w: World, rec: EntityRecord, ps: Seq<BrpPredicate>) -> Result<bool, ErrorView>
    decreases ps,
{
    if ps.len() == 0 {
        Ok(false)
    } else {
        match predicate_value(w, rec, ps[0]) {
            Err(e) => Err(e),
            Ok(true) => Ok(true),
            Ok(false) => any_value(w, rec, ps.subrange(1, ps.len() as int)),
        }
    }
}

/// Whether each named component equals its given value, from left to right.
pub open spec fn eq_value(w: World, rec: EntityRecord, m: Seq<(String, BrpSerializedData)>) -> Result<bool, ErrorView>
    decreases m.len(),
{
    if m.len() == 0 {
        Ok(true)
    } else {
        match component_eq_spec(w, rec, m[0].0@, m[0].1@) {
            Err(e) => Err(e),
            Ok(false) => Ok(false),
            Ok(true) => eq_value(w, rec, m.subrange(1, m.len() as int)),
        }
    }
}

/// Evaluates a predicate on the entity `rec`.
pub fn try_process_predicate(world: &World, rec: &EntityRecord, p: &BrpPredicate) -> (r: Result<bool, BrpError>)
    requires
        world.wf(),
        record_wf(*rec, world.types@.len() as int),
    ensures
        bool_outcome(r) == predicate_value(*world, *rec, *p),
    decreases p,
{
    match p {
        BrpPredicate::Always => Ok(true),
        BrpPredicate::All(ps) => all_of(world, rec, ps),
        BrpPredicate::Any(ps) => any_of(world, rec, ps),
        BrpPredicate::Not(q) => {
            let b = try_process_predicate(world, rec, q)?;
            Ok(!b)
        },
        BrpPredicate::PartialEq(m) => components_equal(world, rec, m),
    }
}

fn components_equal(world: &World, rec: &EntityRecord, m: &BrpComponentMap) -> (r: Result<bool, BrpError>)
    requires
        world.wf(),
        record_wf(*rec, world.types@.len() as int),
    ensures
        bool_outcome(r) == eq_value(*world, *rec, m@),
{
    let mut i: usize = 0;
    assert(m@.subrange(0, m@.len() as int) =~= m@);
    while i < m.len()
        invariant
            world.wf(),
            record_wf(*rec, world.types@.len() as int),
            i <= m@.len(),
            eq_value(*world, *rec, m@) == eq_value(*world, *rec, m@.subrange(i as int, m@.len() as int)),
        decreases m@.len() - i,
    {
        let ghost t = m@.subrange(i as int, m@.len() as int);
        assert(t.subrange(1, t.len() as int) =~= m@.subrange(i + 1, m@.len() as int));
        assert(t[0] == m@[i as int]);
        let b = m[i].1.try_partial_eq_entity_component(world, rec, &m[i].0)?;
        if !b {
            return Ok(false);
        }
        i = i + 1;
    }
    Ok(true)
}

fn all_of(world: &World, rec: &EntityRecord, ps: &Vec<BrpPredicate>) -> (r: Result<bool, BrpError>)
    requires
        world.wf(),
        record_wf(*rec, world.types@.len() as int),
    ensures
        bool_outcome(r) == all_value(*world, *rec, ps@),
    decreases ps,
{
    let mut i: usize = 0;
    assert(ps@.subrange(0, ps@.len() as int) =~= ps@);
    while i < ps.len()
        invariant
            world.wf(),
            record_wf(*rec, world.types@.len() as int),
            i <= ps@.len(),
            all_value(*world, *rec, ps@) == all_value(*world, *rec, ps@.subrange(i as int, ps@.len() as int)),
        decreases ps@.len() - i,
    {
        let ghost t = ps@.subrange(i as int, ps@.len() as int);
        assert(t.subrange(1, t.len() as int) =~= ps@.subrange(i + 1, ps@.len() as int));
        assert(t[0] == ps@[i as int]);
        let b = try_process_predicate(world, rec, &ps[i])?;
        if !b {
            return Ok(false);
        }
        i = i + 1;
    }
    Ok(true)
}

fn any_of(world: &World, rec: &EntityRecord, ps: &Vec<BrpPredicate>) -> (r: Result<bool, BrpError>)
    requires
        world.wf(),
        record_wf(*rec, world.types@.len() as int),
    ensures
        bool_outcome(r) == any_value(*world, *rec, ps@),
    decreases ps,
{
    let mut i: usize = 0;
    assert(ps@.subrange(0, ps@.len() as int) =~= ps@);
    while i < ps.len()
        invariant
            world.wf(),
            record_wf(*rec, world.types@.len() as int),
            i <= ps@.len(),
            any_value(*world, *rec, ps@) == any_value(*world, *rec, ps@.subrange(i as int, ps@.len() as int)),
        decreases ps@.len() - i,
    {
        let ghost t = ps@.subrange(i as int, ps@.len() as int);
        assert(t.subrange(1, t.len() as int) =~= ps@.subrange(i + 1, ps@.len() as int));
        assert(t[0] == ps@[i as int]);
        let b = try_process_predicate(world, rec, &ps[i])?;
        if b {
            return Ok(true);
        }
        i = i + 1;
    }
    Ok(false)
}

/// The predicate laws: an empty equality map holds of every entity, `Not(Always)`
/// of none, an empty `All` holds and an empty `Any` does not.
pub proof fn lemma_predicate_identities(w: World, rec: EntityRecord, empty_map: BrpComponentMap, empty_list: Vec<BrpPredicate>, always: Box<BrpPredicate>)
    requires
        empty_map@.len() == 0,
        empty_list@.len() == 0,
        *always == BrpPredicate::Always,
    ensures
        predicate_value(w, rec, BrpPredicate::PartialEq(empty_map)) == Ok::<bool, ErrorView>(true),
        predicate_value(w, rec, BrpPredicate::Not(always)) == Ok::<bool, ErrorView>(false),
        predicate_value(w, rec, BrpPredicate::All(empty_list)) == Ok::<bool, ErrorView>(true),
        predicate_value(w, rec, BrpPredicate::Any(empty_list)) == Ok::<bool, ErrorView>(false),
{
    assert(predicate_value(w, rec, *always) == Ok::<bool, ErrorView>(true));
    assert(all_value(w, rec, empty_list@) == Ok::<bool, ErrorView>(true));
    assert(any_value(w, rec, empty_list@) == Ok::<bool, ErrorView>(false));
    assert(eq_value(w, rec, empty_map@) == Ok::<bool, ErrorView>(true));
}

// ---- queries ----

/// The query asks for every component of each entity: its `components` list is
/// exactly `["*"]`.
pub open spec fn is_wildcard(data: BrpQueryData) -> bool {
    data.components@.len() == 1 && data.components@[0]@ == "*"@
}

/// The names whose components an entity must have and which are fetched by name.
pub open spec fn required_names(data: BrpQueryData) -> Seq<String> {
    if is_wildcard(data) {
        Seq::empty()
    } else {
        data.components@
    }
}

/// Resolution of one name to a component type.
pub open spec fn resolve_step(types: Seq<crate::world::TypeInfo>) -> spec_fn(String) -> Result<int, ErrorView> {
    |n: String| component_spec(types, n@)
}

/// The component types that a query requires, demands (`with`) and excludes
/// (`without`). Every name of the query is resolved, in the order: required,
/// optional, presence, `with`, `without`, the predicate's; the first failure is the
/// outcome.
pub open spec fn query_ids_spec(w: World, data: BrpQueryData, filter: BrpQueryFilter) -> Result<(Seq<int>, Seq<int>, Seq<int>), ErrorView> {
    let f = resolve_step(w.types@);
    match try_map(required_names(data), f) {
        Err(e) => Err(e),
        Ok(required) => match try_map(data.optional@, f) {
            Err(e) => Err(e),
            Ok(_) => match try_map(data.has@, f) {
                Err(e) => Err(e),
                Ok(_) => match try_map(filter.with@, f) {
                    Err(e) => Err(e),
                    Ok(with) => match try_map(filter.without@, f) {
                        Err(e) => Err(e),
                        Ok(without) => match try_map(predicate_names(filter.when), f) {
                            Err(e) => Err(e),
                            Ok(_) => Ok((required, with, without)),
                        },
                    },
                },
            },
        },
    }
}

/// The entity has every required and `with` component and no `without` one.
pub open spec fn structural_match(rec: EntityRecord, required: Seq<int>, with: Seq<int>, without: Seq<int>) -> bool {
    &&& forall|j: int| 0 <= j < required.len() ==> has_component(rec, required[j])
    &&& forall|j: int| 0 <= j < with.len() ==> has_component(rec, with[j])
    &&& forall|j: int| 0 <= j < without.len() ==> !has_component(rec, without[j])
}

/// One required component, fetched by name.
pub open spec fn fetch_step(w: World, rec: EntityRecord, format: RemoteSerializationFormat) -> spec_fn(String) -> Result<(Seq<char>, WireValue), ErrorView> {
    |n: String| match fetch_spec(w, rec, n@, format) {
        Ok(d) => Ok((n@, d)),
        Err(e) => Err(e),
    }
}

/// One optional component: its value where present, `None` where absent.
pub open spec fn optional_step(w: World, rec: EntityRecord, format: RemoteSerializationFormat) -> spec_fn(String) -> Result<(Seq<char>, Option<WireValue>), ErrorView> {
    |n: String| match component_spec(w.types@, n@) {
        Err(e) => Err(e),
        Ok(t) => if has_component(rec, t) {
            match fetch_spec(w, rec, n@, format) {
                Ok(d) => Ok((n@, Some(d))),
                Err(e) => Err(e),
            }
        } else {
            Ok((n@, None))
        },
    }
}

/// One presence-only component: whether it is present.
pub open spec fn has_step(w: World, rec: EntityRecord) -> spec_fn(String) -> Result<(Seq<char>, bool), ErrorView> {
    |n: String| match component_spec(w.types@, n@) {
        Err(e) => Err(e),
        Ok(t) => Ok((n@, has_component(rec, t))),
    }
}

/// The types, among the first `t` of the registry, of the components that the
/// entity has, in registry order.
pub open spec fn present_types(w: World, rec: EntityRecord, t: int) -> Seq<int>
    decreases t,
{
    if t <= 0 {
        Seq::empty()
    } else {
        let p = present_types(w, rec, t - 1);
        if w.types@[t - 1].is_component && has_component(rec, t - 1) {
            p.push(t - 1)
        } else {
            p
        }
    }
}

/// The wildcard entry of the entity's component of type `t`: its type path and its
/// serialized value, or `Unserializable` where it cannot be serialized.
pub open spec fn wildcard_entry(w: World, rec: EntityRecord, format: RemoteSerializationFormat, t: int) -> (Seq<char>, WireValue) {
    (w.types@[t].type_path@, match serialize_spec(w.types@[t], w.types@[t].type_path@, component_value(rec, t)@, format) {
        Ok(d) => d,
        Err(_) => WireValue::Unserializable,
    })
}

/// Every component of the entity, in registry order.
pub open spec fn wildcard_spec(w: World, rec: EntityRecord, format: RemoteSerializationFormat) -> Seq<(Seq<char>, WireValue)> {
    present_types(w, rec, w.types@.len() as int).map_values(|t: int| wildcard_entry(w, rec, format, t))
}

/// What a query reports of one entity that it selects structurally: nothing if
/// the predicate is false of it, else its fetched components.
pub open spec fn entity_result_spec(w: World, rec: EntityRecord, data: BrpQueryData, filter: BrpQueryFilter, format: RemoteSerializationFormat) -> Result<Option<QueryResultView>, ErrorView> {
    match predicate_value(w, rec, filter.when) {
        Err(e) => Err(e),
        Ok(false) => Ok(None),
        Ok(true) => match try_map(required_names(data), fetch_step(w, rec, format)) {
            Err(e) => Err(e),
            Ok(cs) => match try_map(data.optional@, optional_step(w, rec, format)) {
                Err(e) => Err(e),
                Ok(os) => match try_map(data.has@, has_step(w, rec)) {
                    Err(e) => Err(e),
                    Ok(hs) => Ok(Some(QueryResultView {
                        entity: rec.entity,
                        components: if is_wildcard(data) { wildcard_spec(w, rec, format) } else { cs },
                        optional: os,
                        has: hs,
                    })),
                },
            },
        },
    }
}

/// One entity record in a query's walk over the world.
pub open spec fn scan_step(w: World, data: BrpQueryData, filter: BrpQueryFilter, ids: (Seq<int>, Seq<int>, Seq<int>), only: Option<Entity>, format: RemoteSerializationFormat) -> spec_fn(EntityRecord) -> Result<Option<QueryResultView>, ErrorView> {
    |rec: EntityRecord| if (only.is_none() || rec.entity == only.unwrap()) && structural_match(rec, ids.0, ids.1, ids.2) {
        entity_result_spec(w, rec, data, filter, format)
    } else {
        Ok(None)
    }
}

/// The outcome of a query: the results for the selected entities in world order
/// (only the entity `only`, where given), or the first error.
pub open spec fn query_spec(w: World, data: BrpQueryData, filter: BrpQueryFilter, only: Option<Entity>, format: RemoteSerializationFormat) -> Result<Seq<QueryResultView>, ErrorView> {
    match query_ids_spec(w, data, filter) {
        Err(e) => Err(e),
        Ok(ids) => try_filter_map(w.entities@, scan_step(w, data, filter, ids, only, format)),
    }
}

/// The view of a list of component type indices.
pub open spec fn ids_view(v: Seq<usize>) -> Seq<int> {
    v.map_values(|x: usize| x as int)
}

/// Resolves each name to a component type, in order.
pub(crate) fn component_ids(world: &World, names: &Vec<String>) -> (r: Result<Vec<usize>, BrpError>)
    requires
        world.wf(),
    ensures
        match r {
            Ok(v) => try_map(names@, resolve_step(world.types@)) == Ok::<Seq<int>, ErrorView>(ids_view(v@))
                && forall|j: int| 0 <= j < v@.len() ==> v@[j] < world.types@.len(),
            Err(e) => try_map(names@, resolve_step(world.types@)) == Err::<Seq<int>, ErrorView>(e@),
        },
{
    let ghost f = resolve_step(world.types@);
    let mut out: Vec<usize> = Vec::new();
    let mut i: usize = 0;
    assert(names@.subrange(0, names@.len() as int) =~= names@);
    assert(ids_view(out@) + Seq::<int>::empty() =~= Seq::<int>::empty());
    while i < names.len()
        invariant
            world.wf(),
            f == resolve_step(world.types@),
            i <= names@.len(),
            try_map(names@, f) == prepend(ids_view(out@), try_map(names@.subrange(i as int, names@.len() as int), f)),
            forall|j: int| 0 <= j < out@.len() ==> out@[j] < world.types@.len(),
        decreases names@.len() - i,
    {
        proof { lemma_try_map_step(names@, i as int, f); }
        let t = match component_id_for_name(world, &names[i]) {
            Ok(t) => t,
            Err(e) => {
                assert(f(names@[i as int]) == Err::<int, ErrorView>(e@));
                return Err(e);
            },
        };
        assert(f(names@[i as int]) == Ok::<int, ErrorView>(t as int));
        proof {
            lemma_prepend_append(ids_view(out@), seq![t as int], try_map(names@.subrange(i + 1, names@.len() as int), f));
        }
        let ghost before = out@;
        out.push(t);
        assert(ids_view(out@) =~= ids_view(before) + seq![t as int]);
        i = i + 1;
    }
    assert(ids_view(out@) + Seq::<int>::empty() =~= ids_view(out@));
    Ok(out)
}

/// Fetches each named component of the entity, in order.
fn fetch_components(world: &World, rec: &EntityRecord, names: &Vec<String>, format: RemoteSerializationFormat) -> (r: Result<BrpComponentMap, BrpError>)
    requires
        world.wf(),
        record_wf(*rec, world.types@.len() as int),
    ensures
        match r {
            Ok(m) => try_map(names@, fetch_step(*world, *rec, format)) == Ok::<Seq<(Seq<char>, WireValue)>, ErrorView>(component_map_view(m@)),
            Err(e) => try_map(names@, fetch_step(*world, *rec, format)) == Err::<Seq<(Seq<char>, WireValue)>, ErrorView>(e@),
        },
{
    let ghost f = fetch_step(*world, *rec, format);
    let mut out: BrpComponentMap = Vec::new();
    let mut i: usize = 0;
    assert(names@.subrange(0, names@.len() as int) =~= names@);
    assert(component_map_view(out@) + Seq::<(Seq<char>, WireValue)>::empty() =~= Seq::<(Seq<char>, WireValue)>::empty());
    while i < names.len()
        invariant
            world.wf(),
            record_wf(*rec, world.types@.len() as int),
            f == fetch_step(*world, *rec, format),
            i <= names@.len(),
            try_map(names@, f) == prepend(component_map_view(out@), try_map(names@.subrange(i as int, names@.len() as int), f)),
        decreases names@.len() - i,
    {
        proof { lemma_try_map_step(names@, i as int, f); }
        let d = match BrpSerializedData::try_from_entity_component(world, rec, &names[i], format) {
            Ok(d) => d,
            Err(e) => {
                assert(f(names@[i as int]) == Err::<(Seq<char>, WireValue), ErrorView>(e@));
                return Err(e);
            },
        };
        let ghost x = (names@[i as int]@, d@);
        assert(f(names@[i as int]) == Ok::<(Seq<char>, WireValue), ErrorView>(x));
        proof {
            lemma_prepend_append(component_map_view(out@), seq![x], try_map(names@.subrange(i + 1, names@.len() as int), f));
        }
        let ghost before = out@;
        out.push((names[i].clone(), d));
        assert(component_map_view(out@) =~= component_map_view(before) + seq![x]);
        i = i + 1;
    }
    assert(component_map_view(out@) + Seq::<(Seq<char>, WireValue)>::empty() =~= component_map_view(out@));
    Ok(out)
}

/// Fetches each named optional component of the entity, in order.
fn fetch_optional(world: &World, rec: &EntityRecord, names: &Vec<String>, format: RemoteSerializationFormat) -> (r: Result<BrpComponentOptionalMap, BrpError>)
    requires
        world.wf(),
        record_wf(*rec, world.types@.len() as int),
    ensures
        match r {
            Ok(m) => try_map(names@, optional_step(*world, *rec, format)) == Ok::<Seq<(Seq<char>, Option<WireValue>)>, ErrorView>(optional_map_view(m@)),
            Err(e) => try_map(names@, optional_step(*world, *rec, format)) == Err::<Seq<(Seq<char>, Option<WireValue>)>, ErrorView>(e@),
        },
{
    let ghost f = optional_step(*world, *rec, format);
    let mut out: BrpComponentOptionalMap = Vec::new();
    let mut i: usize = 0;
    assert(names@.subrange(0, names@.len() as int) =~= names@);
    assert(optional_map_view(out@) + Seq::<(Seq<char>, Option<WireValue>)>::empty() =~= Seq::<(Seq<char>, Option<WireValue>)>::empty());
    while i < names.len()
        invariant
            world.wf(),
            record_wf(*rec, world.types@.len() as int),
            f == optional_step(*world, *rec, format),
            i <= names@.len(),
            try_map(names@, f) == prepend(optional_map_view(out@), try_map(names@.subrange(i as int, names@.len() as int), f)),
        decreases names@.len() - i,
    {
        proof { lemma_try_map_step(names@, i as int, f); }
        let t = match component_id_for_name(world, &names[i]) {
            Ok(t) => t,
            Err(e) => {
                assert(f(names@[i as int]) == Err::<(Seq<char>, Option<WireValue>), ErrorView>(e@));
                return Err(e);
            },
        };
        let value = if rec.contains_id(t) {
            match BrpSerializedData::try_from_entity_component(world, rec, &names[i], format) {
                Ok(d) => Some(d),
                Err(e) => {
                    assert(f(names@[i as int]) == Err::<(Seq<char>, Option<WireValue>), ErrorView>(e@));
                    return Err(e);
                },
            }
        } else {
            None
        };
        let ghost x = (names@[i as int]@, option_wire_view(value));
        assert(f(names@[i as int]) == Ok::<(Seq<char>, Option<WireValue>), ErrorView>(x));
        proof {
            lemma_prepend_append(optional_map_view(out@), seq![x], try_map(names@.subrange(i + 1, names@.len() as int), f));
        }
        let ghost before = out@;
        out.push((names[i].clone(), value));
        assert(optional_map_view(out@) =~= optional_map_view(before) + seq![x]);
        i = i + 1;
    }
    assert(optional_map_view(out@) + Seq::<(Seq<char>, Option<WireValue>)>::empty() =~= optional_map_view(out@));
    Ok(out)
}

/// Reports the presence of each named component on the entity, in order.
fn fetch_has(world: &World, rec: &EntityRecord, names: &Vec<String>) -> (r: Result<BrpComponentHasMap, BrpError>)
    requires
        world.wf(),
    ensures
        match r {
            Ok(m) => try_map(names@, has_step(*world, *rec)) == Ok::<Seq<(Seq<char>, bool)>, ErrorView>(has_map_view(m@)),
            Err(e) => try_map(names@, has_step(*world, *rec)) == Err::<Seq<(Seq<char>, bool)>, ErrorView>(e@),
        },
{
    let ghost f = has_step(*world, *rec);
    let mut out: BrpComponentHasMap = Vec::new();
    let mut i: usize = 0;
    assert(names@.subrange(0, names@.len() as int) =~= names@);
    assert(has_map_view(out@) + Seq::<(Seq<char>, bool)>::empty() =~= Seq::<(Seq<char>, bool)>::empty());
    while i < names.len()
        invariant
            world.wf(),
            f == has_step(*world, *rec),
            i <= names@.len(),
            try_map(names@, f) == prepend(has_map_view(out@), try_map(names@.subrange(i as int, names@.len() as int), f)),
        decreases names@.len() - i,
    {
        proof { lemma_try_map_step(names@, i as int, f); }
        let t = match component_id_for_name(world, &names[i]) {
            Ok(t) => t,
            Err(e) => {
                assert(f(names@[i as int]) == Err::<(Seq<char>, bool), ErrorView>(e@));
                return Err(e);
            },
        };
        let present = rec.contains_id(t);
        let ghost x = (names@[i as int]@, present);
        assert(f(names@[i as int]) == Ok::<(Seq<char>, bool), ErrorView>(x));
        proof {
            lemma_prepend_append(has_map_view(out@), seq![x], try_map(names@.subrange(i + 1, names@.len() as int), f));
        }
        let ghost before = out@;
        out.push((names[i].clone(), present));
        assert(has_map_view(out@) =~= has_map_view(before) + seq![x]);
        i = i + 1;
    }
    assert(has_map_view(out@) + Seq::<(Seq<char>, bool)>::empty() =~= has_map_view(out@));
    Ok(out)
}

/// Every component of the entity, in registry order, each serialized or marked
/// `Unserializable`.
fn fetch_all_components(world: &World, rec: &EntityRecord, format: RemoteSerializationFormat) -> (r: BrpComponentMap)
    requires
        world.wf(),
        record_wf(*rec, world.types@.len() as int),
    ensures
        component_map_view(r@) == wildcard_spec(*world, *rec, format),
{
    let n = world.types.len();
    let mut out: BrpComponentMap = Vec::new();
    let mut t: usize = 0;
    assert(component_map_view(out@) =~= present_types(*world, *rec, 0).map_values(|u: int| wildcard_entry(*world, *rec, format, u)));
    while t < n
        invariant
            world.wf(),
            record_wf(*rec, world.types@.len() as int),
            n == world.types@.len(),
            t <= n,
            component_map_view(out@) == present_types(*world, *rec, t as int).map_values(|u: int| wildcard_entry(*world, *rec, format, u)),
        decreases n - t,
    {
        let info = &world.types[t];
        let ghost before = out@;
        if info.is_component {
            match rec.find_component(t) {
                Some(j) => {
                    proof {
                        let c = choose|c: int| 0 <= c < rec.components@.len() && rec.components@[c].type_index == t;
                        assert(c == j as int);
                    }
                    let d = match BrpSerializedData::try_from_reflect(info, &info.type_path, &rec.components[j].value, format) {
                        Ok(d) => d,
                        Err(_) => BrpSerializedData::Unserializable,
                    };
                    out.push((info.type_path.clone(), d));
                    assert(component_map_view(out@) =~= component_map_view(before).push(wildcard_entry(*world, *rec, format, t as int)));
                },
                None => {},
            }
        }
        assert(component_map_view(out@) =~= present_types(*world, *rec, t + 1).map_values(|u: int| wildcard_entry(*world, *rec, format, u)));
        t = t + 1;
    }
    out
}

/// The view of the outcome for one entity.
pub open spec fn entity_outcome(r: Result<Option<BrpQueryResult>, BrpError>) -> Result<Option<QueryResultView>, ErrorView> {
    match r {
        Ok(Some(x)) => Ok(Some(x@)),
        Ok(None) => Ok(None),
        Err(e) => Err(e@),
    }
}

/// The view of a query's outcome.
pub open spec fn results_outcome(r: Result<Vec<BrpQueryResult>, BrpError>) -> Result<Seq<QueryResultView>, ErrorView> {
    match r {
        Ok(v) => Ok(results_view(v@)),
        Err(e) => Err(e@),
    }
}

/// Whether the query asks for every component.
pub fn fetches_all_components(data: &BrpQueryData) -> (r: bool)
    ensures
        r == is_wildcard(*data),
{
    let star = "*".to_string();
    data.components.len() == 1 && data.components[0] == star
}

/// Whether the entity has every component of `required` and `with` and none of
/// `without`.
fn matches_structure(rec: &EntityRecord, required: &Vec<usize>, with: &Vec<usize>, without: &Vec<usize>) -> (r: bool)
    ensures
        r == structural_match(*rec, ids_view(required@), ids_view(with@), ids_view(without@)),
{
    let mut i: usize = 0;
    while i < required.len()
        invariant
            i <= required@.len(),
            forall|j: int| 0 <= j < i ==> has_component(*rec, required@[j] as int),
        decreases required@.len() - i,
    {
        if !rec.contains_id(required[i]) {
            assert(ids_view(required@)[i as int] == required@[i as int] as int);
            assert(!has_component(*rec, ids_view(required@)[i as int]));
            assert(ids_view(required@).len() == required@.len());
            assert(!structural_match(*rec, ids_view(required@), ids_view(with@), ids_view(without@)));
            return false;
        }
        i = i + 1;
    }
    let mut i: usize = 0;
    while i < with.len()
        invariant
            i <= with@.len(),
            forall|j: int| 0 <= j < i ==> has_component(*rec, with@[j] as int),
        decreases with@.len() - i,
    {
        if !rec.contains_id(with[i]) {
            assert(ids_view(with@)[i as int] == with@[i as int] as int);
            assert(!has_component(*rec, ids_view(with@)[i as int]));
            assert(ids_view(with@).len() == with@.len());
            assert(!structural_match(*rec, ids_view(required@), ids_view(with@), ids_view(without@)));
            return false;
        }
        i = i + 1;
    }
    let mut i: usize = 0;
    while i < without.len()
        invariant
            i <= without@.len(),
            forall|j: int| 0 <= j < i ==> !has_component(*rec, without@[j] as int),
        decreases without@.len() - i,
    {
        if rec.contains_id(without[i]) {
            assert(ids_view(without@)[i as int] == without@[i as int] as int);
            assert(has_component(*rec, ids_view(without@)[i as int]));
            assert(ids_view(without@).len() == without@.len());
            assert(!structural_match(*rec, ids_view(required@), ids_view(with@), ids_view(without@)));
            return false;
        }
        i = i + 1;
    }
    true
}

/// What the query reports of one entity that it selects structurally.
fn entity_result(world: &World, rec: &EntityRecord, data: &BrpQueryData, filter: &BrpQueryFilter, format: RemoteSerializationFormat) -> (r: Result<Option<BrpQueryResult>, BrpError>)
    requires
        world.wf(),
        record_wf(*rec, world.types@.len() as int),
    ensures
        entity_outcome(r) == entity_result_spec(*world, *rec, *data, *filter, format),
{
    if !try_process_predicate(world, rec, &filter.when)? {
        return Ok(None);
    }
    let wildcard = fetches_all_components(data);
    let mut components = if wildcard {
        Vec::new()
    } else {
        fetch_components(world, rec, &data.components, format)?
    };
    proof {
        if wildcard {
            assert(required_names(*data) =~= Seq::<String>::empty());
        }
    }
    let optional = fetch_optional(world, rec, &data.optional, format)?;
    let has = fetch_has(world, rec, &data.has)?;
    if wildcard {
        components = fetch_all_components(world, rec, format);
    }
    Ok(Some(BrpQueryResult { entity: rec.entity, components, optional, has }))
}

/// Runs a query over the world: over every entity, or over the entity `only`
/// where given. The results come in world order.
pub fn run_query(world: &World, data: &BrpQueryData, filter: &BrpQueryFilter, only: Option<Entity>, format: RemoteSerializationFormat) -> (r: Result<Vec<BrpQueryResult>, BrpError>)
    requires
        world.wf(),
    ensures
        results_outcome(r) == query_spec(*world, *data, *filter, only, format),
{
    let wildcard = fetches_all_components(data);
    let required = if wildcard {
        Vec::new()
    } else {
        component_ids(world, &data.components)?
    };
    proof {
        if wildcard {
            assert(required_names(*data) =~= Seq::<String>::empty());
            assert(ids_view(required@) =~= Seq::<int>::empty());
        }
    }
    component_ids(world, &data.optional)?;
    component_ids(world, &data.has)?;
    let with = component_ids(world, &filter.with)?;
    let without = component_ids(world, &filter.without)?;
    let when_names = filter.when.iter();
    component_ids(world, &when_names)?;
    let ghost ids = (ids_view(required@), ids_view(with@), ids_view(without@));
    assert(query_ids_spec(*world, *data, *filter) == Ok::<(Seq<int>, Seq<int>, Seq<int>), ErrorView>(ids));
    let ghost f = scan_step(*world, *data, *filter, ids, only, format);
    let ghost es = world.entities@;
    let mut out: Vec<BrpQueryResult> = Vec::new();
    let mut k: usize = 0;
    assert(es.subrange(0, es.len() as int) =~= es);
    assert(results_view(out@) + Seq::<QueryResultView>::empty() =~= Seq::<QueryResultView>::empty());
    while k < world.entities.len()
        invariant
            world.wf(),
            es == world.entities@,
            f == scan_step(*world, *data, *filter, ids, only, format),
            ids == (ids_view(required@), ids_view(with@), ids_view(without@)),
            query_ids_spec(*world, *data, *filter) == Ok::<(Seq<int>, Seq<int>, Seq<int>), ErrorView>(ids),
            k <= es.len(),
            try_filter_map(es, f) == prepend(results_view(out@), try_filter_map(es.subrange(k as int, es.len() as int), f)),
        decreases es.len() - k,
    {
        proof { lemma_try_filter_map_step(es, k as int, f); }
        let rec = &world.entities[k];
        assert(record_wf(*rec, world.types@.len() as int));
        let candidate = match only {
            Some(e) => rec.entity == e,
            None => true,
        };
        let found = if candidate && matches_structure(rec, &required, &with, &without) {
            match entity_result(world, rec, data, filter, format) {
                Ok(o) => o,
                Err(e) => {
                    assert(f(es[k as int]) == Err::<Option<QueryResultView>, ErrorView>(e@));
                    return Err(e);
                },
            }
        } else {
            None
        };
        match found {
            Some(x) => {
                assert(f(es[k as int]) == Ok::<Option<QueryResultView>, ErrorView>(Some(x@)));
                proof {
                    lemma_prepend_append(results_view(out@), seq![x@], try_filter_map(es.subrange(k + 1, es.len() as int), f));
                }
                let ghost before = out@;
                out.push(x);
                assert(results_view(out@) =~= results_view(before) + seq![x@]);
            },
            None => {
                assert(f(es[k as int]) == Ok::<Option<QueryResultView>, ErrorView>(None));
                proof {
                    lemma_prepend_append(results_view(out@), Seq::empty(), try_filter_map(es.subrange(k + 1, es.len() as int), f));
                    assert(results_view(out@) + Seq::<QueryResultView>::empty() =~= results_view(out@));
                }
            },
        }
        k = k + 1;
    }
    assert(results_view(out@) + Seq::<QueryResultView>::empty() =~= results_view(out@));
    Ok(out)
}

/// The outcome of fetching one entity: the query restricted to it must select
/// exactly that entity.
pub open spec fn get_entity_spec(w: World, data: BrpQueryData, filter: BrpQueryFilter, entity: Entity, format: RemoteSerializationFormat) -> Result<QueryResultView, ErrorView> {
    match query_spec(w, data, filter, Some(entity), format) {
        Err(e) => Err(e),
        Ok(s) => if s.len() == 1 {
            Ok(s[0])
        } else {
            Err(ErrorView::EntityNotFound)
        },
    }
}

/// Fetches one entity: runs the query restricted to it, which must select it.
pub fn get_entity(world: &World, data: &BrpQueryData, filter: &BrpQueryFilter, entity: Entity, format: RemoteSerializationFormat) -> (r: Result<BrpQueryResult, BrpError>)
    requires
        world.wf(),
    ensures
        match r {
            Ok(x) => get_entity_spec(*world, *data, *filter, entity, format) == Ok::<QueryResultView, ErrorView>(x@),
            Err(e) => get_entity_spec(*world, *data, *filter, entity, format) == Err::<QueryResultView, ErrorView>(e@),
        },
{
    let mut entities = run_query(world, data, filter, Some(entity), format)?;
    if entities.len() != 1 {
        return Err(BrpError::EntityNotFound);
    }
    match entities.pop() {
        Some(x) => Ok(x),
        None => Err(BrpError::EntityNotFound),
    }
}

/// Fetching one entity never gives a partial result: when the entity lacks a
/// component that the query requires, the outcome is an error, and it is
/// `EntityNotFound` once every name of the query resolves.
pub proof fn lemma_get_entity_lacking_component(w: World, data: BrpQueryData, filter: BrpQueryFilter, e: Entity, format: RemoteSerializationFormat, j: int, t: int)
    requires
        !is_wildcard(data),
        0 <= j < data.components@.len(),
        component_spec(w.types@, data.components@[j]@) == Ok::<int, ErrorView>(t),
        forall|k: int| 0 <= k < w.entities@.len() && w.entities@[k].entity == e ==> !has_component(w.entities@[k], t),
    ensures
        get_entity_spec(w, data, filter, e, format) is Err,
        query_ids_spec(w, data, filter) is Ok ==> get_entity_spec(w, data, filter, e, format) == Err::<QueryResultView, ErrorView>(ErrorView::EntityNotFound),
{
    match query_ids_spec(w, data, filter) {
        Err(_) => {},
        Ok(ids) => {
            lemma_try_map_ok(required_names(data), resolve_step(w.types@), ids.0);
            assert(ids.0[j] == t);
            let f = scan_step(w, data, filter, ids, Some(e), format);
            assert forall|k: int| 0 <= k < w.entities@.len() implies f(w.entities@[k]) == Ok::<Option<QueryResultView>, ErrorView>(None) by {
                if w.entities@[k].entity == e {
                    assert(!has_component(w.entities@[k], ids.0[j]));
                    assert(!structural_match(w.entities@[k], ids.0, ids.1, ids.2));
                }
            }
            lemma_try_filter_map_none(w.entities@, f);
        },
    }
}

/// Fetching one entity, when it succeeds, gives that entity with the current
/// serialized value of each required component, in the order asked for.
pub proof fn lemma_get_entity_values(w: World, data: BrpQueryData, filter: BrpQueryFilter, e: Entity, format: RemoteSerializationFormat)
    requires
        !is_wildcard(data),
        get_entity_spec(w, data, filter, e, format) is Ok,
    ensures
        ({
            let x = get_entity_spec(w, data, filter, e, format)->Ok_0;
            exists|k: int| 0 <= k < w.entities@.len() && w.entities@[k].entity == e
                && x.entity == e
                && x.components.len() == data.components@.len()
                && forall|j: int| 0 <= j < data.components@.len()
                    ==> fetch_spec(w, w.entities@[k], data.components@[j]@, format) is Ok
                        && x.components[j] == (data.components@[j]@, fetch_spec(w, w.entities@[k], data.components@[j]@, format)->Ok_0)
        }),
{
    let ids = query_ids_spec(w, data, filter)->Ok_0;
    let f = scan_step(w, data, filter, ids, Some(e), format);
    let s = query_spec(w, data, filter, Some(e), format)->Ok_0;
    lemma_try_filter_map_source(w.entities@, f, s);
    let x = s[0];
    let k = choose|k: int| 0 <= k < w.entities@.len() && f(w.entities@[k]) == Ok::<Option<QueryResultView>, ErrorView>(Some(x));
    let rec = w.entities@[k];
    let cs = try_map(required_names(data), fetch_step(w, rec, format))->Ok_0;
    lemma_try_map_ok(required_names(data), fetch_step(w, rec, format), cs);
    assert forall|j: int| 0 <= j < data.components@.len() implies
        fetch_spec(w, rec, data.components@[j]@, format) is Ok
            && x.components[j] == (data.components@[j]@, fetch_spec(w, rec, data.components@[j]@, format)->Ok_0) by {
        assert(fetch_step(w, rec, format)(data.components@[j]) == Ok::<(Seq<char>, WireValue), ErrorView>(cs[j]));
    }
}

proof fn lemma_present_types(w: World, rec: EntityRecord, t: int)
    requires
        0 <= t <= w.types@.len(),
    ensures
        forall|i: int, j: int| 0 <= i < j < present_types(w, rec, t).len()
            ==> present_types(w, rec, t)[i] < present_types(w, rec, t)[j],
        forall|i: int| 0 <= i < present_types(w, rec, t).len()
            ==> 0 <= #[trigger] present_types(w, rec, t)[i] < t,
        forall|x: int| #[trigger] present_types(w, rec, t).contains(x)
            <==> (0 <= x < t && w.types@[x].is_component && has_component(rec, x)),
    decreases t,
{
    if t > 0 {
        lemma_present_types(w, rec, t - 1);
        let p = present_types(w, rec, t - 1);
        let q = present_types(w, rec, t);
        let keep = w.types@[t - 1].is_component && has_component(rec, t - 1);
        if keep {
            assert(q == p.push(t - 1));
        } else {
            assert(q == p);
        }
        assert forall|x: int| q.contains(x)
            implies (0 <= x < t && w.types@[x].is_component && has_component(rec, x)) by {
            let i = choose|i: int| 0 <= i < q.len() && q[i] == x;
            if i < p.len() {
                assert(q[i] == p[i]);
                assert(p.contains(x));
                assert(0 <= x < t - 1);
                assert(w.types@[x].is_component);
                assert(has_component(rec, x));
            } else {
                assert(keep);
                assert(q[i] == t - 1);
                assert(x == t - 1);
            }
        }
        assert forall|x: int| (0 <= x < t && w.types@[x].is_component && has_component(rec, x))
            implies q.contains(x) by {
            if x == t - 1 {
                assert(keep);
                assert(q[p.len() as int] == x);
            } else {
                assert(p.contains(x));
                let i = choose|i: int| 0 <= i < p.len() && p[i] == x;
                if keep {
                    assert(q[i] == x);
                } else {
                    assert(q[i] == x);
                }
            }
        }
        assert forall|i: int| 0 <= i < q.len() implies 0 <= #[trigger] q[i] < t by {
            if i < p.len() {
                assert(q[i] == p[i]);
            }
        }
        assert forall|i: int, j: int| 0 <= i < j < q.len() implies q[i] < q[j] by {
            if j < p.len() {
                assert(q[i] == p[i] && q[j] == p[j]);
            } else {
                assert(q[i] == p[i]);
                assert(0 <= p[i] < t - 1);
            }
        }
    }
}

/// A wildcard fetch gives one entry per component of the entity: as many entries
/// as the entity has components, each under its type path, with the serialized
/// value or `Unserializable`; it has no way to fail.
pub proof fn lemma_wildcard_counts_components(w: World, k: int, format: RemoteSerializationFormat)
    requires
        w.wf(),
        0 <= k < w.entities@.len(),
    ensures
        wildcard_spec(w, w.entities@[k], format).len() == w.entities@[k].components@.len(),
        forall|j: int| 0 <= j < w.entities@[k].components@.len()
            ==> wildcard_spec(w, w.entities@[k], format).contains(
                wildcard_entry(w, w.entities@[k], format, w.entities@[k].components@[j].type_index as int)),
{
    let rec = w.entities@[k];
    let n = w.types@.len() as int;
    lemma_present_types(w, rec, n);
    let p = present_types(w, rec, n);
    let ts = rec.components@.map_values(|c: ComponentValue| c.type_index as int);
    assert(record_wf(rec, n));
    assert(p.no_duplicates()) by {
        assert forall|i: int, j: int| 0 <= i < p.len() && 0 <= j < p.len() && i != j implies p[i] != p[j] by {
            if i < j {
                assert(p[i] < p[j]);
            } else {
                assert(p[j] < p[i]);
            }
        }
    }
    assert(ts.no_duplicates()) by {
        assert forall|i: int, j: int| 0 <= i < ts.len() && 0 <= j < ts.len() && i != j implies ts[i] != ts[j] by {
            assert(rec.components@[i].type_index != rec.components@[j].type_index);
        }
    }
    assert forall|x: int| p.to_set().contains(x) <==> ts.to_set().contains(x) by {
        if ts.contains(x) {
            let j = choose|j: int| 0 <= j < ts.len() && ts[j] == x;
            assert(rec.components@[j].type_index == x);
            assert(w.types@[rec.components@[j].type_index as int].is_component);
            assert(has_component(rec, x));
        }
        if p.contains(x) {
            assert(has_component(rec, x));
            let j = choose|j: int| 0 <= j < rec.components@.len() && rec.components@[j].type_index == x;
            assert(ts[j] == x);
        }
    }
    assert(p.to_set() =~= ts.to_set());
    p.unique_seq_to_set();
    ts.unique_seq_to_set();
    let ws = wildcard_spec(w, rec, format);
    assert forall|j: int| 0 <= j < rec.components@.len()
        implies ws.contains(wildcard_entry(w, rec, format, rec.components@[j].type_index as int)) by {
        let t = rec.components@[j].type_index as int;
        assert(w.types@[t].is_component);
        assert(has_component(rec, t));
        assert(p.contains(t));
        let i = choose|i: int| 0 <= i < p.len() && p[i] == t;
        assert(ws[i] == wildcard_entry(w, rec, format, t));
    }
}

/// A wildcard query that succeeds reports, for each entity it selects, one
/// component entry per component that the entity has: the serialized value, or
/// `Unserializable` where serialization fails; such a failure never fails the query.
pub proof fn lemma_wildcard_query_results(w: World, data: BrpQueryData, filter: BrpQueryFilter, only: Option<Entity>, format: RemoteSerializationFormat)
    requires
        w.wf(),
        is_wildcard(data),
        query_spec(w, data, filter, only, format) is Ok,
    ensures
        ({
            let s = query_spec(w, data, filter, only, format)->Ok_0;
            forall|m: int| 0 <= m < s.len() ==> exists|k: int| 0 <= k < w.entities@.len()
                && w.entities@[k].entity == (#[trigger] s[m]).entity
                && s[m].components == wildcard_spec(w, w.entities@[k], format)
                && s[m].components.len() == w.entities@[k].components@.len()
        }),
{
    let ids = query_ids_spec(w, data, filter)->Ok_0;
    let f = scan_step(w, data, filter, ids, only, format);
    let s = query_spec(w, data, filter, only, format)->Ok_0;
    lemma_try_filter_map_source(w.entities@, f, s);
    assert forall|m: int| 0 <= m < s.len() implies exists|k: int| 0 <= k < w.entities@.len()
        && w.entities@[k].entity == (#[trigger] s[m]).entity
        && s[m].components == wildcard_spec(w, w.entities@[k], format)
        && s[m].components.len() == w.entities@[k].components@.len() by {
        let k = choose|k: int| 0 <= k < w.entities@.len() && f(w.entities@[k]) == Ok::<Option<QueryResultView>, ErrorView>(Some(s[m]));
        lemma_wildcard_counts_components(w, k, format);
    }
}

/// A filtering walk in which every element succeeds succeeds, and keeps each
/// result that an element gives.
pub proof fn lemma_try_filter_map_all_ok<A, B>(s: Seq<A>, f: spec_fn(A) -> Result<Option<B>, ErrorView>)
    requires
        forall|k: int| 0 <= k < s.len() ==> (#[trigger] f(s[k])) is Ok,
    ensures
        try_filter_map(s, f) is Ok,
        forall|k: int, x: B| 0 <= k < s.len() && f(s[k]) == Ok::<Option<B>, ErrorView>(Some(x))
            ==> try_filter_map(s, f)->Ok_0.contains(x),
    decreases s.len(),
{
    if s.len() > 0 {
        let rest = s.subrange(1, s.len() as int);
        assert forall|k: int| 0 <= k < rest.len() implies (#[trigger] f(rest[k])) is Ok by {
            assert(rest[k] == s[k + 1]);
            assert(f(s[k + 1]) is Ok);
        }
        assert(f(s[0]) is Ok);
        lemma_try_filter_map_all_ok(rest, f);
        let head = option_seq(f(s[0])->Ok_0);
        let tail = try_filter_map(rest, f)->Ok_0;
        assert(try_filter_map(s, f) == Ok::<Seq<B>, ErrorView>(head + tail));
        assert forall|k: int, x: B| 0 <= k < s.len() && f(s[k]) == Ok::<Option<B>, ErrorView>(Some(x))
            implies try_filter_map(s, f)->Ok_0.contains(x) by {
            if k == 0 {
                assert((head + tail)[0] == x);
            } else {
                assert(rest[k - 1] == s[k]);
                assert(tail.contains(x));
                let j = choose|j: int| 0 <= j < tail.len() && tail[j] == x;
                assert((head + tail)[head.len() + j] == x);
            }
        }
    }
}

/// A filtering walk in which exactly one element gives a result, and the others
/// give nothing, gives that one result.
pub proof fn lemma_try_filter_map_single<A, B>(s: Seq<A>, f: spec_fn(A) -> Result<Option<B>, ErrorView>, k: int, x: B)
    requires
        0 <= k < s.len(),
        f(s[k]) == Ok::<Option<B>, ErrorView>(Some(x)),
        forall|j: int| 0 <= j < s.len() && j != k ==> f(s[j]) == Ok::<Option<B>, ErrorView>(None),
    ensures
        try_filter_map(s, f) == Ok::<Seq<B>, ErrorView>(seq![x]),
    decreases s.len(),
{
    let rest = s.subrange(1, s.len() as int);
    if k == 0 {
        assert forall|j: int| 0 <= j < rest.len() implies f(rest[j]) == Ok::<Option<B>, ErrorView>(None) by {
            assert(rest[j] == s[j + 1]);
        }
        lemma_try_filter_map_none(rest, f);
        assert(seq![x] + Seq::<B>::empty() =~= seq![x]);
    } else {
        assert(f(s[0]) == Ok::<Option<B>, ErrorView>(None));
        assert(rest[k - 1] == s[k]);
        assert forall|j: int| 0 <= j < rest.len() && j != k - 1 implies f(rest[j]) == Ok::<Option<B>, ErrorView>(None) by {
            assert(rest[j] == s[j + 1]);
        }
        lemma_try_filter_map_single(rest, f, k - 1, x);
        assert(Seq::<B>::empty() + seq![x] =~= seq![x]);
    }
}

/// Fetching an entity that the query selects (it exists, every name resolves, it
/// has every required and `with` component and no `without` one, the predicate
/// holds of it, and its components can be fetched) succeeds, with the current
/// serialized value of each required component, in the order asked for.
pub proof fn lemma_get_entity_succeeds(w: World, data: BrpQueryData, filter: BrpQueryFilter, k: int, format: RemoteSerializationFormat)
    requires
        w.wf(),
        !is_wildcard(data),
        0 <= k < w.entities@.len(),
        query_ids_spec(w, data, filter) is Ok,
        structural_match(w.entities@[k], query_ids_spec(w, data, filter)->Ok_0.0,
            query_ids_spec(w, data, filter)->Ok_0.1, query_ids_spec(w, data, filter)->Ok_0.2),
        predicate_value(w, w.entities@[k], filter.when) == Ok::<bool, ErrorView>(true),
        try_map(data.components@, fetch_step(w, w.entities@[k], format)) is Ok,
        try_map(data.optional@, optional_step(w, w.entities@[k], format)) is Ok,
        try_map(data.has@, has_step(w, w.entities@[k])) is Ok,
    ensures
        get_entity_spec(w, data, filter, w.entities@[k].entity, format) is Ok,
        get_entity_spec(w, data, filter, w.entities@[k].entity, format)->Ok_0.entity == w.entities@[k].entity,
        get_entity_spec(w, data, filter, w.entities@[k].entity, format)->Ok_0.components
            == try_map(data.components@, fetch_step(w, w.entities@[k], format))->Ok_0,
{
    let rec = w.entities@[k];
    let e = rec.entity;
    let ids = query_ids_spec(w, data, filter)->Ok_0;
    let f = scan_step(w, data, filter, ids, Some(e), format);
    let x = entity_result_spec(w, rec, data, filter, format)->Ok_0->Some_0;
    assert(f(rec) == Ok::<Option<QueryResultView>, ErrorView>(Some(x)));
    assert forall|j: int| 0 <= j < w.entities@.len() && j != k
        implies f(w.entities@[j]) == Ok::<Option<QueryResultView>, ErrorView>(None) by {
        assert(w.entities@[j].entity != w.entities@[k].entity);
    }
    lemma_try_filter_map_single(w.entities@, f, k, x);
}

/// The keys of a map view are pairwise distinct.
pub open spec fn view_keys_unique<V>(m: Seq<(Seq<char>, V)>) -> bool {
    forall|i: int, j: int| 0 <= i < m.len() && 0 <= j < m.len() && i != j ==> m[i].0 != m[j].0
}

/// The maps that a successful query builds are keyed uniquely: by the names asked
/// for, where each is asked for once, and by type path in a wildcard fetch.
pub proof fn lemma_results_keyed_uniquely(w: World, data: BrpQueryData, filter: BrpQueryFilter, only: Option<Entity>, format: RemoteSerializationFormat)
    requires
        w.wf(),
        names_unique(data.components@),
        names_unique(data.optional@),
        names_unique(data.has@),
        query_spec(w, data, filter, only, format) is Ok,
    ensures
        forall|m: int| 0 <= m < query_spec(w, data, filter, only, format)->Ok_0.len() ==> {
            let x = #[trigger] query_spec(w, data, filter, only, format)->Ok_0[m];
            view_keys_unique(x.components) && view_keys_unique(x.optional) && view_keys_unique(x.has)
        },
{
    let ids = query_ids_spec(w, data, filter)->Ok_0;
    let f = scan_step(w, data, filter, ids, only, format);
    let s = query_spec(w, data, filter, only, format)->Ok_0;
    lemma_try_filter_map_source(w.entities@, f, s);
    assert forall|m: int| 0 <= m < s.len() implies
        view_keys_unique(s[m].components) && view_keys_unique(s[m].optional) && view_keys_unique(s[m].has) by {
        let k = choose|k: int| 0 <= k < w.entities@.len() && f(w.entities@[k]) == Ok::<Option<QueryResultView>, ErrorView>(Some(s[m]));
        let rec = w.entities@[k];
        let x = s[m];
        let os = try_map(data.optional@, optional_step(w, rec, format))->Ok_0;
        lemma_try_map_ok(data.optional@, optional_step(w, rec, format), os);
        assert forall|i: int, j: int| 0 <= i < os.len() && 0 <= j < os.len() && i != j implies os[i].0 != os[j].0 by {
            assert(optional_step(w, rec, format)(data.optional@[i]) == Ok::<(Seq<char>, Option<WireValue>), ErrorView>(os[i]));
            assert(optional_step(w, rec, format)(data.optional@[j]) == Ok::<(Seq<char>, Option<WireValue>), ErrorView>(os[j]));
        }
        let hs = try_map(data.has@, has_step(w, rec))->Ok_0;
        lemma_try_map_ok(data.has@, has_step(w, rec), hs);
        assert forall|i: int, j: int| 0 <= i < hs.len() && 0 <= j < hs.len() && i != j implies hs[i].0 != hs[j].0 by {
            assert(has_step(w, rec)(data.has@[i]) == Ok::<(Seq<char>, bool), ErrorView>(hs[i]));
            assert(has_step(w, rec)(data.has@[j]) == Ok::<(Seq<char>, bool), ErrorView>(hs[j]));
        }
        if is_wildcard(data) {
            let n = w.types@.len() as int;
            lemma_present_types(w, rec, n);
            let p = present_types(w, rec, n);
            let ws = wildcard_spec(w, rec, format);
            assert forall|i: int, j: int| 0 <= i < ws.len() && 0 <= j < ws.len() && i != j implies ws[i].0 != ws[j].0 by {
                assert(ws[i].0 == w.types@[p[i]].type_path@);
                assert(ws[j].0 == w.types@[p[j]].type_path@);
                if i < j {
                    assert(p[i] < p[j]);
                } else {
                    assert(p[j] < p[i]);
                }
                assert(w.types@[p[i]].type_path@ != w.types@[p[j]].type_path@);
            }
        } else {
            let cs = try_map(required_names(data), fetch_step(w, rec, format))->Ok_0;
            lemma_try_map_ok(required_names(data), fetch_step(w, rec, format), cs);
            assert forall|i: int, j: int| 0 <= i < cs.len() && 0 <= j < cs.len() && i != j implies cs[i].0 != cs[j].0 by {
                assert(fetch_step(w, rec, format)(data.components@[i]) == Ok::<(Seq<char>, WireValue), ErrorView>(cs[i]));
                assert(fetch_step(w, rec, format)(data.components@[j]) == Ok::<(Seq<char>, WireValue), ErrorView>(cs[j]));
            }
        }
    }
}

/// A wildcard query whose names all resolve, with no optional or presence names
/// and no predicate, succeeds, and reports every entity that it selects with one
/// entry per component of that entity; components that cannot be serialized are
/// reported as `Unserializable` and never fail it.
pub proof fn lemma_wildcard_query_succeeds(w: World, data: BrpQueryData, filter: BrpQueryFilter, k: int, format: RemoteSerializationFormat)
    requires
        w.wf(),
        is_wildcard(data),
        data.optional@.len() == 0,
        data.has@.len() == 0,
        filter.when == BrpPredicate::Always,
        query_ids_spec(w, data, filter) is Ok,
        0 <= k < w.entities@.len(),
        structural_match(w.entities@[k], query_ids_spec(w, data, filter)->Ok_0.0,
            query_ids_spec(w, data, filter)->Ok_0.1, query_ids_spec(w, data, filter)->Ok_0.2),
    ensures
        query_spec(w, data, filter, None, format) is Ok,
        query_spec(w, data, filter, None, format)->Ok_0.contains(QueryResultView {
            entity: w.entities@[k].entity,
            components: wildcard_spec(w, w.entities@[k], format),
            optional: Seq::empty(),
            has: Seq::empty(),
        }),
        wildcard_spec(w, w.entities@[k], format).len() == w.entities@[k].components@.len(),
{
    let ids = query_ids_spec(w, data, filter)->Ok_0;
    let f = scan_step(w, data, filter, ids, None, format);
    assert(required_names(data) =~= Seq::<String>::empty());
    assert forall|j: int| 0 <= j < w.entities@.len() implies (#[trigger] f(w.entities@[j])) is Ok by {
        let rec = w.entities@[j];
        assert(try_map(required_names(data), fetch_step(w, rec, format)) is Ok);
        assert(try_map(data.optional@, optional_step(w, rec, format)) is Ok);
        assert(try_map(data.has@, has_step(w, rec)) is Ok);
    }
    let rec = w.entities@[k];
    assert(try_map(required_names(data), fetch_step(w, rec, format)) is Ok);
    assert(try_map(data.optional@, optional_step(w, rec, format)) == Ok::<Seq<(Seq<char>, Option<WireValue>)>, ErrorView>(Seq::empty()));
    assert(try_map(data.has@, has_step(w, rec)) == Ok::<Seq<(Seq<char>, bool)>, ErrorView>(Seq::empty()));
    let x = QueryResultView { entity: rec.entity, components: wildcard_spec(w, rec, format), optional: Seq::empty(), has: Seq::empty() };
    assert(f(rec) == Ok::<Option<QueryResultView>, ErrorView>(Some(x)));
    lemma_try_filter_map_all_ok(w.entities@, f);
    lemma_wildcard_counts_components(w, k, format);
}

} // verus!
