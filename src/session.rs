//! Sessions and the dispatcher: each session owns a request channel and a response
//! channel; once per tick the dispatcher drains every session's pending requests,
//! answers each against the world, and sends the answers back.

use vstd::prelude::*;

use crossbeam_channel::{Receiver, Sender};

use crate::brp::{
    BrpComponentMap, BrpComponentNames, BrpError, BrpRequest, BrpRequestContent, BrpResponse, BrpResponseContent,
    BrpSerializedData, Entity, ErrorView, ResponseView,
};
use crate::data::{get_asset_spec, insert_asset_spec, insert_spec, wire_outcome};
use crate::brp::{check_request_keys, predicate_names, request_keys_unique, BrpPredicate, BrpQueryData, BrpQueryFilter, QueryResultView, WireValue};
use crate::data::fetch_spec;
use crate::names::{component_spec, resolve_spec};
use crate::query::{
    component_ids, fetch_step, get_entity, get_entity_spec, has_step, ids_view, is_wildcard,
    optional_step, query_ids_spec, query_spec, resolve_step, results_outcome, run_query, scan_step,
    structural_match, try_map,
};
use crate::world::{canonical, asset_set, component_value, has_component, has_entity, World};
use crate::RemoteSerializationFormat;

verus! {

#[verifier::external_type_specification]
#[verifier::external_body]
#[verifier::reject_recursive_types(T)]
pub struct ExSender<T>(crossbeam_channel::Sender<T>);

#[verifier::external_type_specification]
#[verifier::external_body]
#[verifier::reject_recursive_types(T)]
pub struct ExReceiver<T>(crossbeam_channel::Receiver<T>);

/// Relies on `crossbeam_channel::unbounded`: a new channel without a bound.
#[verifier::external_body]
fn unbounded_channel<T>() -> (r: (Sender<T>, Receiver<T>)) {
    crossbeam_channel::unbounded()
}

/// Relies on `Clone` of `crossbeam_channel::Sender`: another handle to the same
/// channel, holding the same counter pointer as the original.
#[verifier::external_body]
fn clone_sender<T>(s: &Sender<T>) -> (r: Sender<T>)
    ensures
        r == *s,
{
    s.clone()
}

/// Relies on `Clone` of `crossbeam_channel::Receiver`: another handle to the same
/// channel, holding the same counter pointer as the original.
#[verifier::external_body]
fn clone_receiver<T>(r: &Receiver<T>) -> (out: Receiver<T>)
    ensures
        out == *r,
{
    r.clone()
}

/// What a non-blocking receive gave.
pub enum Polled<T> {
    /// A message.
    Message(T),
    /// The channel holds no message now.
    Empty,
    /// The channel is empty and every sender is gone.
    Disconnected,
}

/// Relies on `crossbeam_channel::Receiver::try_recv`: a message if one is waiting.
#[verifier::external_body]
fn try_receive<T>(r: &Receiver<T>) -> (out: Polled<T>) {
    match r.try_recv() {
        Ok(m) => Polled::Message(m),
        Err(crossbeam_channel::TryRecvError::Empty) => Polled::Empty,
        Err(crossbeam_channel::TryRecvError::Disconnected) => Polled::Disconnected,
    }
}

/// Relies on `crossbeam_channel::Receiver::len`: the number of messages waiting now.
#[verifier::external_body]
fn pending_count<T>(r: &Receiver<T>) -> (n: usize) {
    r.len()
}

/// What a non-blocking send gave.
pub enum Sent {
    /// The message is in the channel.
    Delivered,
    /// The channel is bounded and full, or has no capacity and no receiver waits.
    Full,
    /// Every receiver is gone.
    Disconnected,
}

/// Relies on `crossbeam_channel::Sender::try_send`: hands the message to the
/// channel without waiting, or says why it could not.
#[verifier::external_body]
fn send_message<T>(s: &Sender<T>, m: T) -> (out: Sent) {
    match s.try_send(m) {
        Ok(()) => Sent::Delivered,
        Err(crossbeam_channel::TrySendError::Full(_)) => Sent::Full,
        Err(crossbeam_channel::TrySendError::Disconnected(_)) => Sent::Disconnected,
    }
}

// ---- dispatch ----

/// One component of an insertion request, checked against the registry.
pub open spec fn insert_step(w: World) -> spec_fn((String, BrpSerializedData)) -> Result<(int, Seq<char>), ErrorView> {
    |e: (String, BrpSerializedData)| insert_spec(w, e.0@, e.1@)
}

/// The value that the last entry of `plan` for the type `u` sets, if any.
pub open spec fn last_value(plan: Seq<(int, Seq<char>)>, u: int) -> Option<Seq<char>>
    decreases plan.len(),
{
    if plan.len() == 0 {
        None
    } else if plan.last().0 == u {
        Some(plan.last().1)
    } else {
        last_value(plan.drop_last(), u)
    }
}

/// The index of the entity's record.
pub open spec fn entity_index(w: World, e: Entity) -> int {
    choose|k: int| 0 <= k < w.entities@.len() && w.entities@[k].entity == e
}

/// `w1` is `w0` with the components of `plan` set, in order, on the entity at
/// index `k`: each type takes the value of its last entry; nothing else changes.
pub open spec fn components_applied(w0: World, w1: World, k: int, plan: Seq<(int, Seq<char>)>) -> bool {
    &&& w1.types == w0.types
    &&& w1.assets == w0.assets
    &&& w1.next_entity == w0.next_entity
    &&& w1.entities@.len() == w0.entities@.len()
    &&& forall|l: int| 0 <= l < w0.entities@.len() && l != k ==> w1.entities@[l] == w0.entities@[l]
    &&& w1.entities@[k].entity == w0.entities@[k].entity
    &&& forall|u: int| match #[trigger] last_value(plan, u) {
        Some(v) => has_component(w1.entities@[k], u) && component_value(w1.entities@[k], u)@ == v,
        None => has_component(w1.entities@[k], u) == has_component(w0.entities@[k], u)
            && (has_component(w0.entities@[k], u) ==> component_value(w1.entities@[k], u) == component_value(w0.entities@[k], u)),
    }
}

/// What inserting components into an entity amounts to: the entity's index and the
/// checked components, or the error (the entity is missing, or the first
/// component that cannot be inserted).
pub open spec fn insert_components_spec(w: World, e: Entity, components: Seq<(String, BrpSerializedData)>) -> Result<(int, Seq<(int, Seq<char>)>), ErrorView> {
    if !has_entity(w, e) {
        Err(ErrorView::EntityNotFound)
    } else {
        match try_map(components, insert_step(w)) {
            Err(e) => Err(e),
            Ok(plan) => Ok((entity_index(w, e), plan)),
        }
    }
}

/// The answer to a request's content, against the world as it was before. A
/// request that repeats a key in a map it carries, or a name in a list that a
/// result map is built from, is refused as invalid.
pub open spec fn response_spec(w: World, content: BrpRequestContent, format: RemoteSerializationFormat) -> ResponseView {
    if !request_keys_unique(content) {
        ResponseView::Error(ErrorView::InvalidRequest)
    } else {
        answer_spec(w, content, format)
    }
}

/// The answer to a request whose maps are keyed uniquely.
pub open spec fn answer_spec(w: World, content: BrpRequestContent, format: RemoteSerializationFormat) -> ResponseView {
    match content {
        BrpRequestContent::Ping => ResponseView::Success,
        BrpRequestContent::GetEntity { entity, data, filter } => match get_entity_spec(w, data, filter, entity, format) {
            Ok(x) => ResponseView::GetEntity { entity: x },
            Err(e) => ResponseView::Error(e),
        },
        BrpRequestContent::QueryEntities { data, filter } => match query_spec(w, data, filter, None, format) {
            Ok(s) => ResponseView::QueryEntities { entities: s },
            Err(e) => ResponseView::Error(e),
        },
        BrpRequestContent::InsertComponent { entity, components } => match insert_components_spec(w, entity, components@) {
            Ok(_) => ResponseView::Success,
            Err(e) => ResponseView::Error(e),
        },
        BrpRequestContent::SpawnEntity { components } => match spawn_spec(w, components@) {
            Ok((e, _)) => ResponseView::SpawnEntity { entity: e },
            Err(e) => ResponseView::Error(e),
        },
        BrpRequestContent::DestroyEntity { entity } => if has_entity(w, entity) {
            ResponseView::Success
        } else {
            ResponseView::Error(ErrorView::EntityNotFound)
        },
        BrpRequestContent::RemoveComponent { entity, components } => match remove_components_spec(w, entity, components@) {
            Ok(_) => ResponseView::Success,
            Err(e) => ResponseView::Error(e),
        },
        BrpRequestContent::GetAsset { name, handle } => match get_asset_spec(w, name@, handle@, format) {
            Ok(a) => ResponseView::GetAsset { name: name@, handle: handle@, asset: a },
            Err(e) => ResponseView::Error(e),
        },
        BrpRequestContent::InsertAsset { name, handle, asset } => match insert_asset_spec(w, name@, handle@, asset@) {
            Ok(_) => ResponseView::Success,
            Err(e) => ResponseView::Error(e),
        },
        _ => ResponseView::Error(ErrorView::Unimplemented),
    }
}

/// How answering a request's content changes the world: a refused request
/// changes nothing.
pub open spec fn world_effect(w0: World, w1: World, content: BrpRequestContent) -> bool {
    if !request_keys_unique(content) {
        w1 == w0
    } else {
        effect_spec(w0, w1, content)
    }
}

/// How answering a request whose maps are keyed uniquely changes the world.
pub open spec fn effect_spec(w0: World, w1: World, content: BrpRequestContent) -> bool {
    match content {
        BrpRequestContent::InsertComponent { entity, components } => match insert_components_spec(w0, entity, components@) {
            Ok((k, plan)) => components_applied(w0, w1, k, plan),
            Err(_) => w1 == w0,
        },
        BrpRequestContent::SpawnEntity { components } => match spawn_spec(w0, components@) {
            Ok((e, plan)) => spawned(w0, w1, e, plan),
            Err(_) => w1 == w0,
        },
        BrpRequestContent::DestroyEntity { entity } => if has_entity(w0, entity) {
            w1.entities@ == w0.entities@.remove(entity_index(w0, entity))
                && w1.types == w0.types
                && w1.assets == w0.assets
                && w1.next_entity == w0.next_entity
                && w1.names == w0.names
        } else {
            w1 == w0
        },
        BrpRequestContent::RemoveComponent { entity, components } => match remove_components_spec(w0, entity, components@) {
            Ok((k, ids)) => components_removed(w0, w1, k, ids),
            Err(_) => w1 == w0,
        },
        BrpRequestContent::InsertAsset { name, handle, asset } => match insert_asset_spec(w0, name@, handle@, asset@) {
            Ok((a, h, v)) => asset_set(w0, w1, a, h, v),
            Err(_) => w1 == w0,
        },
        _ => w1 == w0,
    }
}

/// Checks every component of an insertion request, in order.
fn plan_components(world: &World, components: &BrpComponentMap) -> (r: Result<Vec<(usize, String)>, BrpError>)
    requires
        world.wf(),
    ensures
        match r {
            Ok(v) => try_map(components@, insert_step(*world)) == Ok::<Seq<(int, Seq<char>)>, ErrorView>(plan_view(v@))
                && forall|j: int| 0 <= j < v@.len() ==> v@[j].0 < world.types@.len() && world.types@[v@[j].0 as int].is_component
                    && canonical(v@[j].1@),
            Err(e) => try_map(components@, insert_step(*world)) == Err::<Seq<(int, Seq<char>)>, ErrorView>(e@),
        },
{
    let ghost f = insert_step(*world);
    let mut out: Vec<(usize, String)> = Vec::new();
    let mut i: usize = 0;
    assert(components@.subrange(0, components@.len() as int) =~= components@);
    assert(plan_view(out@) + Seq::<(int, Seq<char>)>::empty() =~= Seq::<(int, Seq<char>)>::empty());
    while i < components.len()
        invariant
            world.wf(),
            f == insert_step(*world),
            i <= components@.len(),
            try_map(components@, f) == crate::query::prepend(plan_view(out@), try_map(components@.subrange(i as int, components@.len() as int), f)),
            forall|j: int| 0 <= j < out@.len() ==> out@[j].0 < world.types@.len() && world.types@[out@[j].0 as int].is_component
                && canonical(out@[j].1@),
        decreases components@.len() - i,
    {
        proof { crate::query::lemma_try_map_step(components@, i as int, f); }
        let (t, c) = match components[i].1.prepare_component(world, &components[i].0) {
            Ok(x) => x,
            Err(e) => {
                assert(f(components@[i as int]) == Err::<(int, Seq<char>), ErrorView>(e@));
                return Err(e);
            },
        };
        let ghost x = (t as int, c@);
        assert(f(components@[i as int]) == Ok::<(int, Seq<char>), ErrorView>(x));
        proof {
            crate::query::lemma_prepend_append(plan_view(out@), seq![x], try_map(components@.subrange(i + 1, components@.len() as int), f));
        }
        let ghost before = out@;
        out.push((t, c));
        assert(plan_view(out@) =~= plan_view(before) + seq![x]);
        i = i + 1;
    }
    assert(plan_view(out@) + Seq::<(int, Seq<char>)>::empty() =~= plan_view(out@));
    Ok(out)
}

/// The view of a list of checked components.
pub open spec fn plan_view(v: Seq<(usize, String)>) -> Seq<(int, Seq<char>)> {
    v.map_values(|p: (usize, String)| (p.0 as int, p.1@))
}

/// Inserts the components of a request into an entity. Every component is
/// checked before any is inserted, so on an error the world is unchanged.
pub fn process_insert_request(world: &mut World, entity: Entity, components: &BrpComponentMap) -> (r: Result<(), BrpError>)
    requires
        old(world).wf(),
    ensures
        final(world).wf(),
        match insert_components_spec(*old(world), entity, components@) {
            Ok((k, plan)) => r.is_ok() && components_applied(*old(world), *final(world), k, plan),
            Err(e) => r.is_err() && r.unwrap_err()@ == e && *final(world) == *old(world),
        },
{
    let k = match world.find_entity(entity) {
        Some(k) => k,
        None => return Err(BrpError::EntityNotFound),
    };
    proof {
        let c = entity_index(*world, entity);
        if c != k {
            assert(world.entities@[c].entity != world.entities@[k as int].entity);
        }
    }
    let plan = plan_components(world, components)?;
    apply_plan(world, k, &plan);
    Ok(())
}

/// Sets the checked components on the entity at index `k`, in order.
fn apply_plan(world: &mut World, k: usize, plan: &Vec<(usize, String)>)
    requires
        old(world).wf(),
        k < old(world).entities@.len(),
        forall|j: int| 0 <= j < plan@.len()
            ==> plan@[j].0 < old(world).types@.len() && old(world).types@[plan@[j].0 as int].is_component
                && canonical(plan@[j].1@),
    ensures
        final(world).wf(),
        components_applied(*old(world), *final(world), k as int, plan_view(plan@)),
{
    let ghost w0 = *world;
    let ghost pv = plan_view(plan@);
    let mut i: usize = 0;
    assert(pv.subrange(0, 0) =~= Seq::<(int, Seq<char>)>::empty());
    while i < plan.len()
        invariant
            world.wf(),
            w0.wf(),
            k < w0.entities@.len(),
            pv == plan_view(plan@),
            i <= plan@.len(),
            forall|j: int| 0 <= j < plan@.len() ==> plan@[j].0 < w0.types@.len() && w0.types@[plan@[j].0 as int].is_component
                && canonical(plan@[j].1@),
            components_applied(w0, *world, k as int, pv.subrange(0, i as int)),
        decreases plan@.len() - i,
    {
        let t = plan[i].0;
        world.set_component(k, t, plan[i].1.clone());
        proof {
            let shorter = pv.subrange(0, i as int);
            let longer = pv.subrange(0, i + 1);
            assert(longer.drop_last() =~= shorter);
            assert(longer.last() == (t as int, plan@[i as int].1@));
            assert forall|u: int| #[trigger] last_value(longer, u) == (if u == t as int { Some(plan@[i as int].1@) } else { last_value(shorter, u) }) by {}
        }
        i = i + 1;
    }
    assert(pv.subrange(0, plan@.len() as int) =~= pv);
}

/// What spawning an entity with components amounts to: the new entity and the
/// checked components, or the error (the first component that cannot be
/// inserted, or no entity left to hand out).
pub open spec fn spawn_spec(w: World, components: Seq<(String, BrpSerializedData)>) -> Result<(Entity, Seq<(int, Seq<char>)>), ErrorView> {
    match try_map(components, insert_step(w)) {
        Err(e) => Err(e),
        Ok(plan) => if w.next_entity == u64::MAX {
            Err(ErrorView::InternalError)
        } else {
            Ok((Entity(w.next_entity), plan))
        },
    }
}

/// `w1` is `w0` with one more entity, `e`, last, holding the components of
/// `plan` (each type with the value of its last entry) and no other.
pub open spec fn spawned(w0: World, w1: World, e: Entity, plan: Seq<(int, Seq<char>)>) -> bool {
    &&& w1.types == w0.types
    &&& w1.assets == w0.assets
    &&& w1.next_entity == w0.next_entity + 1
    &&& w1.entities@.len() == w0.entities@.len() + 1
    &&& forall|l: int| 0 <= l < w0.entities@.len() ==> w1.entities@[l] == w0.entities@[l]
    &&& w1.entities@.last().entity == e
    &&& forall|u: int| match #[trigger] last_value(plan, u) {
        Some(v) => has_component(w1.entities@.last(), u) && component_value(w1.entities@.last(), u)@ == v,
        None => !has_component(w1.entities@.last(), u),
    }
}

/// Spawns an entity with the components of a request. Every component is
/// checked first, so on an error the world is unchanged.
pub fn process_spawn_request(world: &mut World, components: &BrpComponentMap) -> (r: Result<Entity, BrpError>)
    requires
        old(world).wf(),
    ensures
        final(world).wf(),
        match spawn_spec(*old(world), components@) {
            Ok((e, plan)) => r == Ok::<Entity, BrpError>(e) && spawned(*old(world), *final(world), e, plan),
            Err(err) => r.is_err() && r.unwrap_err()@ == err && *final(world) == *old(world),
        },
{
    let plan = plan_components(world, components)?;
    let ghost w0 = *world;
    let e = match world.spawn() {
        Some(e) => e,
        None => return Err(BrpError::InternalError),
    };
    let k = world.entities.len() - 1;
    let ghost w1 = *world;
    apply_plan(world, k, &plan);
    proof {
        assert forall|l: int| 0 <= l < w0.entities@.len() implies world.entities@[l] == w0.entities@[l] by {
            assert(w1.entities@.drop_last()[l] == w1.entities@[l]);
        }
        assert forall|u: int| !has_component(w1.entities@[k as int], u) by {}
    }
    Ok(e)
}

/// Destroys an entity.
pub fn process_destroy_request(world: &mut World, entity: Entity) -> (r: Result<(), BrpError>)
    requires
        old(world).wf(),
    ensures
        final(world).wf(),
        has_entity(*old(world), entity) ==> r.is_ok()
            && final(world).entities@ == old(world).entities@.remove(entity_index(*old(world), entity))
            && final(world).types == old(world).types
            && final(world).assets == old(world).assets
            && final(world).next_entity == old(world).next_entity
            && final(world).names == old(world).names,
        !has_entity(*old(world), entity) ==> r.is_err() && r.unwrap_err()@ == ErrorView::EntityNotFound
            && *final(world) == *old(world),
{
    let k = match world.find_entity(entity) {
        Some(k) => k,
        None => return Err(BrpError::EntityNotFound),
    };
    proof {
        let c = entity_index(*world, entity);
        if c != k {
            assert(world.entities@[c].entity != world.entities@[k as int].entity);
        }
    }
    world.despawn(k);
    Ok(())
}

/// What removing components from an entity amounts to: the entity's index and
/// the component types to remove, or the error (the entity is missing, or the
/// first name that does not resolve to a component type).
pub open spec fn remove_components_spec(w: World, e: Entity, names: Seq<String>) -> Result<(int, Seq<int>), ErrorView> {
    if !has_entity(w, e) {
        Err(ErrorView::EntityNotFound)
    } else {
        match try_map(names, resolve_step(w.types@)) {
            Err(e) => Err(e),
            Ok(ids) => Ok((entity_index(w, e), ids)),
        }
    }
}

/// `w1` is `w0` with the components of the types `ids` taken off the entity at
/// index `k`; nothing else changes.
pub open spec fn components_removed(w0: World, w1: World, k: int, ids: Seq<int>) -> bool {
    &&& w1.types == w0.types
    &&& w1.assets == w0.assets
    &&& w1.next_entity == w0.next_entity
    &&& w1.names == w0.names
    &&& w1.entities@.len() == w0.entities@.len()
    &&& forall|l: int| 0 <= l < w0.entities@.len() && l != k ==> w1.entities@[l] == w0.entities@[l]
    &&& w1.entities@[k].entity == w0.entities@[k].entity
    &&& forall|u: int| #[trigger] ids.contains(u) ==> !has_component(w1.entities@[k], u)
    &&& forall|u: int| !(#[trigger] ids.contains(u)) ==> has_component(w1.entities@[k], u) == has_component(w0.entities@[k], u)
        && (has_component(w0.entities@[k], u) ==> component_value(w1.entities@[k], u) == component_value(w0.entities@[k], u))
}

/// Removes the named components from an entity. Every name is resolved before
/// any component is removed, so on an error the world is unchanged.
pub fn process_remove_request(world: &mut World, entity: Entity, names: &BrpComponentNames) -> (r: Result<(), BrpError>)
    requires
        old(world).wf(),
    ensures
        final(world).wf(),
        match remove_components_spec(*old(world), entity, names@) {
            Ok((k, ids)) => r.is_ok() && components_removed(*old(world), *final(world), k, ids),
            Err(e) => r.is_err() && r.unwrap_err()@ == e && *final(world) == *old(world),
        },
{
    let k = match world.find_entity(entity) {
        Some(k) => k,
        None => return Err(BrpError::EntityNotFound),
    };
    proof {
        let c = entity_index(*world, entity);
        if c != k {
            assert(world.entities@[c].entity != world.entities@[k as int].entity);
        }
    }
    let ids = component_ids(world, names)?;
    let ghost w0 = *world;
    let ghost iv = ids_view(ids@);
    let mut i: usize = 0;
    assert forall|u: int| !(#[trigger] iv.subrange(0, 0).contains(u)) by {}
    while i < ids.len()
        invariant
            world.wf(),
            k < w0.entities@.len(),
            iv == ids_view(ids@),
            i <= ids@.len(),
            components_removed(w0, *world, k as int, iv.subrange(0, i as int)),
        decreases ids@.len() - i,
    {
        world.remove_component(k, ids[i]);
        proof {
            let shorter = iv.subrange(0, i as int);
            let longer = iv.subrange(0, i + 1);
            assert(longer =~= shorter.push(ids@[i as int] as int));
            assert forall|u: int| #[trigger] longer.contains(u) == (shorter.contains(u) || u == ids@[i as int] as int) by {
                if longer.contains(u) {
                    let m = choose|m: int| 0 <= m < longer.len() && longer[m] == u;
                    if m < i {
                        assert(shorter[m] == u);
                    }
                }
                if shorter.contains(u) {
                    let m = choose|m: int| 0 <= m < shorter.len() && shorter[m] == u;
                    assert(longer[m] == u);
                }
                if u == ids@[i as int] as int {
                    assert(longer[i as int] == u);
                }
            }
        }
        i = i + 1;
    }
    assert(iv.subrange(0, ids@.len() as int) =~= iv);
    Ok(())
}

/// Answers one request against the world. The response carries the request's
/// identifier; its content and the change to the world follow the request's kind.
/// Reparenting and polling, which need a hierarchy and change tracking that the
/// world does not keep, are answered with `Unimplemented`.
pub fn process_request(world: &mut World, request: &BrpRequest, format: RemoteSerializationFormat) -> (r: BrpResponse)
    requires
        old(world).wf(),
    ensures
        final(world).wf(),
        r.id == request.id,
        r.response@ == response_spec(*old(world), request.request, format),
        world_effect(*old(world), *final(world), request.request),
{
    if !check_request_keys(&request.request) {
        return BrpResponse::from_error(request.id, BrpError::InvalidRequest);
    }
    let content = match &request.request {
        BrpRequestContent::Ping => BrpResponseContent::Success,
        BrpRequestContent::GetEntity { entity, data, filter } => match get_entity(world, data, filter, *entity, format) {
            Ok(x) => BrpResponseContent::GetEntity { entity: x },
            Err(e) => BrpResponseContent::Error(e),
        },
        BrpRequestContent::QueryEntities { data, filter } => {
            let r = run_query(world, data, filter, None, format);
            assert(results_outcome(r) == query_spec(*world, *data, *filter, None, format));
            match r {
                Ok(v) => BrpResponseContent::QueryEntities { entities: v },
                Err(e) => BrpResponseContent::Error(e),
            }
        },
        BrpRequestContent::InsertComponent { entity, components } => match process_insert_request(world, *entity, components) {
            Ok(()) => BrpResponseContent::Success,
            Err(e) => BrpResponseContent::Error(e),
        },
        BrpRequestContent::SpawnEntity { components } => match process_spawn_request(world, components) {
            Ok(e) => BrpResponseContent::SpawnEntity { entity: e },
            Err(e) => BrpResponseContent::Error(e),
        },
        BrpRequestContent::DestroyEntity { entity } => match process_destroy_request(world, *entity) {
            Ok(()) => BrpResponseContent::Success,
            Err(e) => BrpResponseContent::Error(e),
        },
        BrpRequestContent::RemoveComponent { entity, components } => match process_remove_request(world, *entity, components) {
            Ok(()) => BrpResponseContent::Success,
            Err(e) => BrpResponseContent::Error(e),
        },
        BrpRequestContent::GetAsset { name, handle } => {
            let r = BrpSerializedData::try_from_asset(world, name, handle, format);
            assert(wire_outcome(r) == get_asset_spec(*world, name@, handle@, format));
            match r {
                Ok(a) => BrpResponseContent::GetAsset { name: name.clone(), handle: handle.duplicate(), asset: a },
                Err(e) => BrpResponseContent::Error(e),
            }
        },
        BrpRequestContent::InsertAsset { name, handle, asset } => match BrpSerializedData::try_insert_asset(world, name, handle, asset) {
            Ok(()) => BrpResponseContent::Success,
            Err(e) => BrpResponseContent::Error(e),
        },
        _ => BrpResponseContent::Error(BrpError::Unimplemented),
    };
    BrpResponse::new(request.id, content)
}

// ---- sessions ----

/// A channel of a session that could not be used: found disconnected (its
/// transport outlived it), or a response channel with no room for an answer.
#[derive(Debug, Clone, Copy, PartialEq, Eq, Structural)]
pub enum SessionFault {
    RequestChannelDisconnected,
    ResponseChannelDisconnected,
    ResponseChannelFull,
}

/// A session: a client conversation with its own channels and value format.
#[derive(Debug)]
pub struct RemoteSession {
    pub label: String,
    pub serialization_format: RemoteSerializationFormat,
    pub request_sender: Sender<BrpRequest>,
    pub request_receiver: Receiver<BrpRequest>,
    pub response_sender: Sender<BrpResponse>,
    pub response_receiver: Receiver<BrpResponse>,
}

impl RemoteSession {
    /// Another handle to this session: the same label, format and channels.
    pub fn handle(&self) -> (r: RemoteSession)
        ensures
            r == *self,
    {
        RemoteSession {
            label: self.label.clone(),
            serialization_format: self.serialization_format,
            request_sender: clone_sender(&self.request_sender),
            request_receiver: clone_receiver(&self.request_receiver),
            response_sender: clone_sender(&self.response_sender),
            response_receiver: clone_receiver(&self.response_receiver),
        }
    }

    /// Answers the requests waiting in this session's request channel when the
    /// call starts: they are taken off the channel in order, answered in that
    /// order by `answer_all`, and the answers are sent to the response channel in
    /// the same order, without waiting on either channel. Gives the number
    /// answered, or the fault of a channel found disconnected or, for responses,
    /// full (the requests taken are still answered).
    pub fn process(&self, world: &mut World) -> (r: Result<usize, SessionFault>)
        requires
            old(world).wf(),
        ensures
            final(world).wf(),
            exists|reqs: Seq<BrpRequest>, ws: Seq<World>|
                answered_in_order(*old(world), *final(world), reqs, ws)
                    && (r is Ok ==> reqs.len() == r->Ok_0),
    {
        let pending = pending_count(&self.request_receiver);
        let mut requests: Vec<BrpRequest> = Vec::new();
        let mut fault: Option<SessionFault> = None;
        let mut taken: usize = 0;
        while taken < pending && fault.is_none()
            invariant
                taken <= pending,
            decreases pending - taken + if fault.is_none() { 1int } else { 0int },
        {
            match try_receive(&self.request_receiver) {
                Polled::Message(request) => {
                    requests.push(request);
                    taken = taken + 1;
                },
                Polled::Empty => {
                    taken = pending;
                },
                Polled::Disconnected => {
                    fault = Some(SessionFault::RequestChannelDisconnected);
                },
            }
        }
        let n = requests.len();
        let responses = answer_all(world, &requests, self.serialization_format);
        for response in responses {
            match send_message(&self.response_sender, response) {
                Sent::Delivered => {},
                Sent::Full => {
                    fault = Some(SessionFault::ResponseChannelFull);
                },
                Sent::Disconnected => {
                    fault = Some(SessionFault::ResponseChannelDisconnected);
                },
            }
        }
        match fault {
            Some(f) => Err(f),
            None => Ok(n),
        }
    }
}

/// `ws` is the sequence of worlds that answering `reqs` in order goes through,
/// from `w0` to `w1`: each request changes the world as `world_effect` says.
pub open spec fn answered_in_order(w0: World, w1: World, reqs: Seq<BrpRequest>, ws: Seq<World>) -> bool {
    &&& ws.len() == reqs.len() + 1
    &&& ws[0] == w0
    &&& ws[reqs.len() as int] == w1
    &&& forall|i: int| 0 <= i < reqs.len()
        ==> (#[trigger] ws[i]).wf() && world_effect(ws[i], ws[i + 1], reqs[i].request)
}

/// Answers requests in order, each against the world that the ones before it
/// left. Each request gets one response, at its own position and with its own
/// identifier; a request that fails gets an error response, and the requests
/// after it are answered all the same.
pub fn answer_all(world: &mut World, requests: &Vec<BrpRequest>, format: RemoteSerializationFormat) -> (r: Vec<BrpResponse>)
    requires
        old(world).wf(),
    ensures
        final(world).wf(),
        r@.len() == requests@.len(),
        exists|ws: Seq<World>|
            answered_in_order(*old(world), *final(world), requests@, ws)
                && forall|i: int| 0 <= i < requests@.len()
                    ==> (#[trigger] r@[i]).id == requests@[i].id
                        && r@[i].response@ == response_spec(ws[i], requests@[i].request, format),
{
    let ghost w0 = *world;
    let ghost mut ws: Seq<World> = seq![w0];
    let mut out: Vec<BrpResponse> = Vec::new();
    let mut i: usize = 0;
    while i < requests.len()
        invariant
            world.wf(),
            i <= requests@.len(),
            out@.len() == i,
            ws.len() == i + 1,
            ws[0] == w0,
            ws[i as int] == *world,
            forall|j: int| 0 <= j < i
                ==> (#[trigger] ws[j]).wf() && world_effect(ws[j], ws[j + 1], requests@[j].request),
            forall|j: int| 0 <= j < i
                ==> (#[trigger] out@[j]).id == requests@[j].id
                    && out@[j].response@ == response_spec(ws[j], requests@[j].request, format),
        decreases requests@.len() - i,
    {
        let ghost before = *world;
        let response = process_request(world, &requests[i], format);
        out.push(response);
        proof {
            let ws2 = ws.push(*world);
            assert(ws2[i as int] == before);
            assert forall|j: int| 0 <= j < i + 1
                implies (#[trigger] ws2[j]).wf() && world_effect(ws2[j], ws2[j + 1], requests@[j].request) by {
                if j < i {
                    assert(ws2[j] == ws[j] && ws2[j + 1] == ws[j + 1]);
                }
            }
            assert forall|j: int| 0 <= j < i + 1
                implies (#[trigger] out@[j]).id == requests@[j].id
                    && out@[j].response@ == response_spec(ws2[j], requests@[j].request, format) by {
                assert(ws2[j] == if j < i { ws[j] } else { before });
            }
            ws = ws2;
        }
        i = i + 1;
    }
    assert(answered_in_order(w0, *world, requests@, ws));
    assert(forall|j: int| 0 <= j < requests@.len()
        ==> (#[trigger] out@[j]).id == requests@[j].id
            && out@[j].response@ == response_spec(ws[j], requests@[j].request, format));
    out
}

/// `ws` goes from `w0` to `w1`, each world to the next by answering the requests
/// of one session.
pub open spec fn drain_chain(ws: Seq<World>, w0: World, w1: World) -> bool {
    &&& 1 <= ws.len()
    &&& ws[0] == w0
    &&& ws[ws.len() - 1] == w1
    &&& forall|i: int| 0 <= i < ws.len() - 1 ==> drained(#[trigger] ws[i], ws[i + 1])
}

/// Answering some requests, in order, takes the world from `w0` to `w1`.
pub open spec fn drained(w0: World, w1: World) -> bool {
    exists|reqs: Seq<BrpRequest>, ws: Seq<World>| answered_in_order(w0, w1, reqs, ws)
}

/// The labels of a list of sessions.
pub open spec fn labels(sessions: Seq<RemoteSession>) -> Seq<Seq<char>> {
    sessions.map_values(|s: RemoteSession| s.label@)
}

/// The registry of open sessions.
#[derive(Debug)]
pub struct RemoteSessions {
    pub sessions: Vec<RemoteSession>,
}

impl RemoteSessions {
    /// No two open sessions share a label.
    pub open spec fn wf(&self) -> bool {
        forall|i: int, j: int|
            #![trigger self.sessions@[i], self.sessions@[j]]
            0 <= i < self.sessions@.len() && 0 <= j < self.sessions@.len() && i != j
                ==> self.sessions@[i].label@ != self.sessions@[j].label@
    }

    /// An empty registry.
    pub fn new() -> (r: RemoteSessions)
        ensures
            r.wf(),
            r.sessions@.len() == 0,
    {
        RemoteSessions { sessions: Vec::new() }
    }

    /// The index of the session with the given label.
    pub fn find(&self, label: &String) -> (r: Option<usize>)
        ensures
            r.is_some() <==> exists|i: int| 0 <= i < self.sessions@.len() && self.sessions@[i].label@ == label@,
            r.is_some() ==> r.unwrap() < self.sessions@.len() && self.sessions@[r.unwrap() as int].label@ == label@,
    {
        let mut i: usize = 0;
        while i < self.sessions.len()
            invariant
                i <= self.sessions@.len(),
                forall|j: int| 0 <= j < i ==> self.sessions@[j].label@ != label@,
            decreases self.sessions@.len() - i,
        {
            if self.sessions[i].label == *label {
                return Some(i);
            }
            i = i + 1;
        }
        None
    }

    /// Opens a session with a new label, and gives a handle to it. Refused
    /// (`None`, the registry unchanged) when the label is taken.
    pub fn open(&mut self, label: String, serialization_format: RemoteSerializationFormat) -> (r: Option<RemoteSession>)
        requires
            old(self).wf(),
        ensures
            final(self).wf(),
            r.is_some() <==> forall|i: int| 0 <= i < old(self).sessions@.len() ==> old(self).sessions@[i].label@ != label@,
            r.is_some() ==> final(self).sessions@.len() == old(self).sessions@.len() + 1
                && final(self).sessions@.drop_last() == old(self).sessions@
                && final(self).sessions@.last().label == label
                && final(self).sessions@.last().serialization_format == serialization_format
                && r.unwrap() == final(self).sessions@.last(),
            r.is_none() ==> final(self).sessions@ == old(self).sessions@,
    {
        if self.find(&label).is_some() {
            return None;
        }
        let (request_sender, request_receiver) = unbounded_channel();
        let (response_sender, response_receiver) = unbounded_channel();
        let session = RemoteSession {
            label,
            serialization_format,
            request_sender,
            request_receiver,
            response_sender,
            response_receiver,
        };
        let handle = session.handle();
        let ghost before = self.sessions@;
        self.sessions.push(session);
        assert(self.sessions@.drop_last() =~= before);
        Some(handle)
    }

    /// Closes the session with the given label. `false` (the registry unchanged)
    /// when no session has that label.
    pub fn close(&mut self, label: &String) -> (r: bool)
        requires
            old(self).wf(),
        ensures
            final(self).wf(),
            r <==> exists|i: int| 0 <= i < old(self).sessions@.len() && old(self).sessions@[i].label@ == label@,
            r ==> exists|i: int| 0 <= i < old(self).sessions@.len() && old(self).sessions@[i].label@ == label@
                && final(self).sessions@ == old(self).sessions@.remove(i),
            !r ==> final(self).sessions@ == old(self).sessions@,
    {
        match self.find(label) {
            None => false,
            Some(i) => {
                let ghost before = self.sessions@;
                self.sessions.remove(i);
                assert(self.sessions@ == before.remove(i as int));
                assert forall|a: int, b: int|
                    0 <= a < self.sessions@.len() && 0 <= b < self.sessions@.len() && a != b
                        implies #[trigger] self.sessions@[a].label@ != #[trigger] self.sessions@[b].label@ by {
                    let a0 = if a < i { a } else { a + 1 };
                    let b0 = if b < i { b } else { b + 1 };
                    assert(self.sessions@[a] == before[a0]);
                    assert(self.sessions@[b] == before[b0]);
                }
                true
            },
        }
    }

    /// Processes every open session once, in order. Stops at the first session
    /// whose channel is found disconnected, after that session's requests are
    /// answered.
    pub fn process(&self, world: &mut World) -> (r: Result<(), SessionFault>)
        requires
            old(world).wf(),
        ensures
            final(world).wf(),
            self.sessions@.len() == 0 ==> r is Ok && *final(world) == *old(world),
            exists|ws: Seq<World>|
                #[trigger] drain_chain(ws, *old(world), *final(world))
                    && ws.len() <= self.sessions@.len() + 1
                    && (r is Ok ==> ws.len() == self.sessions@.len() + 1),
    {
        let ghost w0 = *world;
        let ghost mut ws: Seq<World> = seq![w0];
        let mut i: usize = 0;
        while i < self.sessions.len()
            invariant
                world.wf(),
                i <= self.sessions@.len(),
                w0 == *old(world),
                ws.len() == i + 1,
                ws[0] == w0,
                ws[i as int] == *world,
                forall|j: int| 0 <= j < i ==> drained(#[trigger] ws[j], ws[j + 1]),
            decreases self.sessions@.len() - i,
        {
            let ghost before = *world;
            let outcome = self.sessions[i].process(world);
            proof {
                let ws2 = ws.push(*world);
                assert(ws2[i as int] == before);
                assert forall|j: int| 0 <= j < i + 1 implies drained(#[trigger] ws2[j], ws2[j + 1]) by {
                    if j < i {
                        assert(ws2[j] == ws[j] && ws2[j + 1] == ws[j + 1]);
                    }
                }
                ws = ws2;
            }
            if let Err(f) = outcome {
                assert(drain_chain(ws, w0, *world));
                return Err(f);
            }
            i = i + 1;
        }
        assert(drain_chain(ws, w0, *world));
        Ok(())
    }
}

/// A component inserted into an entity is seen by a later query for it: after a
/// successful insertion of one component, a query that fetches that component
/// by the same name, with it as a `with` filter, succeeds and reports the entity
/// with the inserted value (in canonical form), when the component's type can be
/// serialized and the session speaks JSON.
pub proof fn lemma_insert_then_query(w0: World, w1: World, e: Entity, components: BrpComponentMap, data: BrpQueryData, filter: BrpQueryFilter)
    requires
        w0.wf(),
        w1.wf(),
        components@.len() == 1,
        insert_components_spec(w0, e, components@) is Ok,
        components_applied(w0, w1, insert_components_spec(w0, e, components@)->Ok_0.0,
            insert_components_spec(w0, e, components@)->Ok_0.1),
        w0.types@[insert_components_spec(w0, e, components@)->Ok_0.1[0].0].registered,
        w0.types@[insert_components_spec(w0, e, components@)->Ok_0.1[0].0].serializable,
        !is_wildcard(data),
        data.components@.len() == 1,
        data.components@[0]@ == components@[0].0@,
        data.optional@.len() == 0,
        data.has@.len() == 0,
        filter.with@.len() == 1,
        filter.with@[0]@ == components@[0].0@,
        filter.without@.len() == 0,
        filter.when == BrpPredicate::Always,
    ensures
        query_spec(w1, data, filter, None, RemoteSerializationFormat::Json) is Ok,
        query_spec(w1, data, filter, None, RemoteSerializationFormat::Json)->Ok_0.contains(QueryResultView {
            entity: e,
            components: seq![(components@[0].0@, WireValue::Json(insert_components_spec(w0, e, components@)->Ok_0.1[0].1))],
            optional: Seq::empty(),
            has: Seq::empty(),
        }),
{
    let format = RemoteSerializationFormat::Json;
    let (k, plan) = insert_components_spec(w0, e, components@)->Ok_0;
    let name = components@[0].0@;
    crate::query::lemma_try_map_ok(components@, insert_step(w0), plan);
    let (t, c) = plan[0];
    assert(insert_spec(w0, name, components@[0].1@) == Ok::<(int, Seq<char>), ErrorView>((t, c)));
    assert(resolve_spec(w0.types@, name) == Ok::<int, ErrorView>(t));
    assert(w1.types == w0.types);
    assert(component_spec(w1.types@, name) == Ok::<int, ErrorView>(t));
    let rf = resolve_step(w1.types@);
    let one = data.components@;
    assert(rf(one[0]) == Ok::<int, ErrorView>(t));
    assert(one.subrange(1, 1) =~= Seq::<String>::empty());
    assert(try_map(one.subrange(1, 1), rf) == Ok::<Seq<int>, ErrorView>(Seq::empty()));
    assert(seq![t] + Seq::<int>::empty() =~= seq![t]);
    assert(try_map(one, rf) == Ok::<Seq<int>, ErrorView>(seq![t]));
    let wl = filter.with@;
    assert(rf(wl[0]) == Ok::<int, ErrorView>(t));
    assert(wl.subrange(1, 1) =~= Seq::<String>::empty());
    assert(try_map(wl.subrange(1, 1), rf) == Ok::<Seq<int>, ErrorView>(Seq::empty()));
    assert(try_map(wl, rf) == Ok::<Seq<int>, ErrorView>(seq![t]));
    assert(predicate_names(filter.when) =~= Seq::<String>::empty());
    let ids = (seq![t], seq![t], Seq::<int>::empty());
    assert(query_ids_spec(w1, data, filter) == Ok::<(Seq<int>, Seq<int>, Seq<int>), ErrorView>(ids));
    let f = scan_step(w1, data, filter, ids, None, format);
    assert forall|j: int| 0 <= j < w1.entities@.len() implies (#[trigger] f(w1.entities@[j])) is Ok by {
        let rec = w1.entities@[j];
        if structural_match(rec, ids.0, ids.1, ids.2) {
            assert(ids.0[0] == t);
            assert(has_component(rec, t));
            let ff = fetch_step(w1, rec, format);
            assert(fetch_spec(w1, rec, name, format) == Ok::<WireValue, ErrorView>(WireValue::Json(component_value(rec, t)@)));
            assert(ff(one[0]) is Ok);
            assert(try_map(one.subrange(1, 1), ff) == Ok::<Seq<(Seq<char>, WireValue)>, ErrorView>(Seq::empty()));
            assert(try_map(one, ff) is Ok);
            assert(try_map(data.optional@, optional_step(w1, rec, format)) is Ok);
            assert(try_map(data.has@, has_step(w1, rec)) is Ok);
        }
    }
    crate::query::lemma_try_filter_map_all_ok(w1.entities@, f);
    let rk = w1.entities@[k];
    assert(last_value(plan, t) == Some(c)) by {
        assert(plan.last() == plan[0]);
    }
    assert(has_component(rk, t) && component_value(rk, t)@ == c);
    assert(rk.entity == e) by {
        assert(w0.entities@[k].entity == e);
    }
    assert(structural_match(rk, ids.0, ids.1, ids.2));
    let ffk = fetch_step(w1, rk, format);
    assert(fetch_spec(w1, rk, name, format) == Ok::<WireValue, ErrorView>(WireValue::Json(c)));
    assert(ffk(one[0]) == Ok::<(Seq<char>, WireValue), ErrorView>((name, WireValue::Json(c))));
    assert(try_map(one.subrange(1, 1), ffk) == Ok::<Seq<(Seq<char>, WireValue)>, ErrorView>(Seq::empty()));
    assert(seq![(name, WireValue::Json(c))] + Seq::<(Seq<char>, WireValue)>::empty() =~= seq![(name, WireValue::Json(c))]);
    assert(try_map(one, ffk) == Ok::<Seq<(Seq<char>, WireValue)>, ErrorView>(seq![(name, WireValue::Json(c))]));
    assert(try_map(data.optional@, optional_step(w1, rk, format)) == Ok::<Seq<(Seq<char>, Option<WireValue>)>, ErrorView>(Seq::empty()));
    assert(try_map(data.has@, has_step(w1, rk)) == Ok::<Seq<(Seq<char>, bool)>, ErrorView>(Seq::empty()));
    let x = QueryResultView { entity: e, components: seq![(name, WireValue::Json(c))], optional: Seq::empty(), has: Seq::empty() };
    assert(f(rk) == Ok::<Option<QueryResultView>, ErrorView>(Some(x)));
}

} // verus!
