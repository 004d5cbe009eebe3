use bevy_remote::brp::{
    BrpError, BrpPredicate, BrpQueryData, BrpQueryFilter, BrpQueryResult, BrpRequest,
    BrpRequestContent, BrpResponse, BrpResponseContent, BrpSerializedData, Entity,
};
use bevy_remote::data::json5_depth_within_limit;
use bevy_remote::http::{route_response, status_code, HttpRemotePlugin, PendingResponses};
use bevy_remote::names::{component_id_for_name, type_id_for_name};
use bevy_remote::query::{get_entity, run_query, try_process_predicate};
use bevy_remote::session::{answer_all, process_request, SessionFault};
use bevy_remote::RemoteSession;
use bevy_remote::world::{TypeInfo, World};
use bevy_remote::{RemotePlugin, RemoteSerializationFormat, RemoteSessions};

fn component_type(path: &str, short: &str) -> TypeInfo {
    TypeInfo {
        type_path: path.to_string(),
        short_type_path: short.to_string(),
        registered: true,
        serializable: true,
        default_value: Some("{\"x\":0,\"y\":0}".to_string()),
        partial_eq: true,
        is_component: true,
        handle_of: None,
        is_asset: false,
    }
}

/// A world with `game::Pos`, `game::Name` and `game::Secret` (which cannot be
/// serialized) registered, and no entities.
fn game_world() -> World {
    let mut world = World::new();
    world.register_type(component_type("game::Pos", "Pos")).unwrap();
    let mut name = component_type("game::Name", "Name");
    name.default_value = Some("\"\"".to_string());
    world.register_type(name).unwrap();
    let mut secret = component_type("game::Secret", "Secret");
    secret.serializable = false;
    world.register_type(secret).unwrap();
    world
}

fn json(s: &str) -> BrpSerializedData {
    BrpSerializedData::Json(s.to_string())
}

fn names(list: &[&str]) -> Vec<String> {
    list.iter().map(|s| s.to_string()).collect()
}

fn insert(world: &mut World, entity: Entity, components: Vec<(String, BrpSerializedData)>) -> BrpResponse {
    let request = BrpRequest { id: 7, request: BrpRequestContent::InsertComponent { entity, components } };
    process_request(world, &request, RemoteSerializationFormat::Json)
}

fn query(components: &[&str], with: &[&str]) -> BrpRequestContent {
    BrpRequestContent::QueryEntities {
        data: BrpQueryData { components: names(components), optional: vec![], has: vec![] },
        filter: BrpQueryFilter { with: names(with), without: vec![], when: BrpPredicate::Always },
    }
}

fn json_text(d: &BrpSerializedData) -> String {
    match d {
        BrpSerializedData::Json(s) => s.clone(),
        other => panic!("expected JSON, got {:?}", other),
    }
}

#[test]
fn ping_over_a_session() {
    let mut sessions = RemotePlugin.build();
    let session = sessions.open("T".to_string(), RemoteSerializationFormat::Json).unwrap();
    let mut world = game_world();
    session.request_sender.send(BrpRequest { id: 1, request: BrpRequestContent::Ping }).unwrap();
    sessions.process(&mut world).unwrap();
    let response = session.response_receiver.try_recv().unwrap();
    assert_eq!(response.id, 1);
    assert!(matches!(response.response, BrpResponseContent::Success));
}

#[test]
fn responses_carry_the_request_id() {
    let mut world = game_world();
    for id in [0u64, 5, u64::MAX] {
        let request = BrpRequest { id, request: BrpRequestContent::ReparentEntity { entity: Entity(3), parent: Entity(4) } };
        let response = process_request(&mut world, &request, RemoteSerializationFormat::Json);
        assert_eq!(response.id, id);
        assert!(matches!(response.response, BrpResponseContent::Error(BrpError::Unimplemented)));
    }
}

#[test]
fn insert_then_query_sees_the_value() {
    let mut world = game_world();
    let e = world.spawn().unwrap();
    let before = process_request(&mut world, &BrpRequest { id: 1, request: query(&["Pos"], &["Pos"]) }, RemoteSerializationFormat::Json);
    match before.response {
        BrpResponseContent::QueryEntities { entities } => assert!(entities.is_empty()),
        other => panic!("unexpected {:?}", other),
    }
    let response = insert(&mut world, e, vec![("Pos".to_string(), json("{\"x\":1,\"y\":2}"))]);
    assert!(matches!(response.response, BrpResponseContent::Success));
    let after = process_request(&mut world, &BrpRequest { id: 2, request: query(&["Pos"], &["Pos"]) }, RemoteSerializationFormat::Json);
    assert_eq!(after.id, 2);
    match after.response {
        BrpResponseContent::QueryEntities { entities } => {
            assert_eq!(entities.len(), 1);
            assert_eq!(entities[0].entity, e);
            assert_eq!(entities[0].components.len(), 1);
            assert_eq!(entities[0].components[0].0, "Pos");
            assert_eq!(json_text(&entities[0].components[0].1), "{\"x\":1,\"y\":2}");
        },
        other => panic!("unexpected {:?}", other),
    }
}

#[test]
fn second_session_with_same_label_is_refused() {
    let mut sessions = RemoteSessions::new();
    assert!(sessions.open("T".to_string(), RemoteSerializationFormat::Json).is_some());
    assert!(sessions.open("T".to_string(), RemoteSerializationFormat::Ron).is_none());
    assert_eq!(sessions.sessions.len(), 1);
    assert!(sessions.close(&"T".to_string()));
    assert!(!sessions.close(&"T".to_string()));
    assert!(sessions.open("T".to_string(), RemoteSerializationFormat::Ron).is_some());
}

fn world_with_positioned_entity() -> (World, Entity) {
    let mut world = game_world();
    let e = world.spawn().unwrap();
    insert(&mut world, e, vec![
        ("game::Pos".to_string(), json("{ \"y\": 2, \"x\": 1 }")),
        ("Name".to_string(), json("\"ada\"")),
    ]);
    (world, e)
}

#[test]
fn get_entity_returns_current_values() {
    let (world, e) = world_with_positioned_entity();
    let data = BrpQueryData { components: names(&["Pos", "Name"]), optional: names(&["Secret"]), has: names(&["Secret", "Pos"]) };
    let result = get_entity(&world, &data, &BrpQueryFilter::empty(), e, RemoteSerializationFormat::Json).unwrap();
    assert_eq!(result.entity, e);
    assert_eq!(result.components.len(), 2);
    assert_eq!(json_text(&result.components[0].1), "{\"x\":1,\"y\":2}");
    assert_eq!(json_text(&result.components[1].1), "\"ada\"");
    assert_eq!(result.optional.len(), 1);
    assert!(result.optional[0].1.is_none());
    assert_eq!(result.has, vec![("Secret".to_string(), false), ("Pos".to_string(), true)]);
}

#[test]
fn get_entity_without_required_component_is_not_found() {
    let (world, e) = world_with_positioned_entity();
    let data = BrpQueryData { components: names(&["Pos", "Secret"]), optional: vec![], has: vec![] };
    let r = get_entity(&world, &data, &BrpQueryFilter::empty(), e, RemoteSerializationFormat::Json);
    assert!(matches!(r, Err(BrpError::EntityNotFound)));
    let data = BrpQueryData { components: names(&["Pos", "Velocity"]), optional: vec![], has: vec![] };
    let r = get_entity(&world, &data, &BrpQueryFilter::empty(), e, RemoteSerializationFormat::Json);
    assert!(matches!(r, Err(BrpError::ComponentNotFound(n)) if n == "Velocity"));
}

#[test]
fn get_entity_of_missing_entity_is_not_found() {
    let (world, _) = world_with_positioned_entity();
    let r = get_entity(&world, &BrpQueryData::empty(), &BrpQueryFilter::empty(), Entity(99), RemoteSerializationFormat::Json);
    assert!(matches!(r, Err(BrpError::EntityNotFound)));
}

#[test]
fn wildcard_fetches_every_component() {
    let (mut world, e) = world_with_positioned_entity();
    insert(&mut world, e, vec![("Secret".to_string(), json("{\"x\":5,\"y\":5}"))]);
    let data = BrpQueryData { components: names(&["*"]), optional: vec![], has: vec![] };
    let results = run_query(&world, &data, &BrpQueryFilter::empty(), None, RemoteSerializationFormat::Json).unwrap();
    assert_eq!(results.len(), 1);
    let c = &results[0].components;
    assert_eq!(c.len(), 3);
    assert_eq!(c[0].0, "game::Pos");
    assert_eq!(json_text(&c[0].1), "{\"x\":1,\"y\":2}");
    assert_eq!(c[1].0, "game::Name");
    assert_eq!(c[2].0, "game::Secret");
    assert!(matches!(c[2].1, BrpSerializedData::Unserializable));
}

#[test]
fn named_unserializable_component_fails_the_query() {
    let (mut world, e) = world_with_positioned_entity();
    insert(&mut world, e, vec![("Secret".to_string(), BrpSerializedData::Default)]);
    let data = BrpQueryData { components: names(&["Secret"]), optional: vec![], has: vec![] };
    let r = run_query(&world, &data, &BrpQueryFilter::empty(), None, RemoteSerializationFormat::Json);
    assert!(matches!(r, Err(BrpError::Serialization(n)) if n == "Secret"));
}

#[test]
fn json_round_trip_is_semantically_equal() {
    let world = game_world();
    let info = &world.types[0];
    let input = "{ \"y\" : 2.5, \"x\" : [1, 2] }";
    let canonical = json(input).try_deserialize(info, &"Pos".to_string()).unwrap();
    let out = BrpSerializedData::try_from_reflect(info, &"Pos".to_string(), &canonical, RemoteSerializationFormat::Json).unwrap();
    let a: serde_json::Value = serde_json::from_str(input).unwrap();
    let b: serde_json::Value = serde_json::from_str(&json_text(&out)).unwrap();
    assert_eq!(a, b);
    assert_eq!(json_text(&out), "{\"x\":[1,2],\"y\":2.5}");
}

#[test]
fn json5_and_ron_round_trip() {
    let world = game_world();
    let info = &world.types[0];
    let name = "Pos".to_string();
    let c = BrpSerializedData::Json5("{x: 1, y: 2,}".to_string()).try_deserialize(info, &name).unwrap();
    assert_eq!(c, "{\"x\":1,\"y\":2}");
    let out = BrpSerializedData::try_from_reflect(info, &name, &c, RemoteSerializationFormat::Json5).unwrap();
    match out {
        BrpSerializedData::Json5(t) => {
            let back = BrpSerializedData::Json5(t).try_deserialize(info, &name).unwrap();
            assert_eq!(back, c);
        },
        other => panic!("unexpected {:?}", other),
    }
    let out = BrpSerializedData::try_from_reflect(info, &name, &c, RemoteSerializationFormat::Ron).unwrap();
    match out {
        BrpSerializedData::Ron(t) => {
            let back = BrpSerializedData::Ron(t).try_deserialize(info, &name).unwrap();
            assert_eq!(back, c);
        },
        other => panic!("unexpected {:?}", other),
    }
}

#[test]
fn predicate_identities() {
    let (world, _) = world_with_positioned_entity();
    let rec = &world.entities[0];
    assert_eq!(try_process_predicate(&world, rec, &BrpPredicate::PartialEq(vec![])).unwrap(), true);
    assert_eq!(try_process_predicate(&world, rec, &BrpPredicate::Not(Box::new(BrpPredicate::Always))).unwrap(), false);
    assert_eq!(try_process_predicate(&world, rec, &BrpPredicate::All(vec![])).unwrap(), true);
    assert_eq!(try_process_predicate(&world, rec, &BrpPredicate::Any(vec![])).unwrap(), false);
}

#[test]
fn predicate_compares_structurally() {
    let (world, _) = world_with_positioned_entity();
    let rec = &world.entities[0];
    let eq = |text: &str| BrpPredicate::PartialEq(vec![("Pos".to_string(), json(text))]);
    assert_eq!(try_process_predicate(&world, rec, &eq("{\"y\":2,\"x\":1}")).unwrap(), true);
    assert_eq!(try_process_predicate(&world, rec, &eq("{\"x\":1,\"y\":3}")).unwrap(), false);
    let absent = BrpPredicate::PartialEq(vec![("Secret".to_string(), json("{}"))]);
    assert_eq!(try_process_predicate(&world, rec, &absent).unwrap(), false);
    let short_circuit = BrpPredicate::Any(vec![eq("{\"x\":1,\"y\":2}"), eq("not json")]);
    assert_eq!(try_process_predicate(&world, rec, &short_circuit).unwrap(), true);
    let bad = BrpPredicate::All(vec![eq("{\"x\":1,\"y\":2}"), eq("not json")]);
    assert!(matches!(try_process_predicate(&world, rec, &bad), Err(BrpError::Deserialization { .. })));
}

#[test]
fn predicate_without_partial_eq_is_an_error() {
    let mut world = World::new();
    let mut t = component_type("game::Opaque", "Opaque");
    t.partial_eq = false;
    world.register_type(t).unwrap();
    let e = world.spawn().unwrap();
    insert(&mut world, e, vec![("Opaque".to_string(), json("1"))]);
    let p = BrpPredicate::PartialEq(vec![("Opaque".to_string(), json("1"))]);
    let r = try_process_predicate(&world, &world.entities[0], &p);
    assert!(matches!(r, Err(BrpError::MissingPartialEq(n)) if n == "Opaque"));
}

#[test]
fn query_filters_by_predicate_and_without() {
    let mut world = game_world();
    let a = world.spawn().unwrap();
    let b = world.spawn().unwrap();
    let c = world.spawn().unwrap();
    insert(&mut world, a, vec![("Pos".to_string(), json("{\"x\":1,\"y\":1}"))]);
    insert(&mut world, b, vec![("Pos".to_string(), json("{\"x\":2,\"y\":2}"))]);
    insert(&mut world, c, vec![("Pos".to_string(), json("{\"x\":1,\"y\":1}")), ("Name".to_string(), json("\"c\""))]);
    let data = BrpQueryData { components: names(&["Pos"]), optional: names(&["Name"]), has: vec![] };
    let filter = BrpQueryFilter {
        with: vec![],
        without: vec![],
        when: BrpPredicate::PartialEq(vec![("Pos".to_string(), json("{\"x\":1,\"y\":1}"))]),
    };
    let results = run_query(&world, &data, &filter, None, RemoteSerializationFormat::Json).unwrap();
    let found: Vec<Entity> = results.iter().map(|r: &BrpQueryResult| r.entity).collect();
    assert_eq!(found, vec![a, c]);
    assert!(results[0].optional[0].1.is_none());
    assert_eq!(json_text(results[1].optional[0].1.as_ref().unwrap()), "\"c\"");
    let filter = BrpQueryFilter { with: vec![], without: names(&["Name"]), when: BrpPredicate::Always };
    let results = run_query(&world, &data, &filter, None, RemoteSerializationFormat::Json).unwrap();
    let found: Vec<Entity> = results.iter().map(|r: &BrpQueryResult| r.entity).collect();
    assert_eq!(found, vec![a, b]);
}

#[test]
fn ambiguous_short_name() {
    let mut world = game_world();
    world.register_type(component_type("physics::Pos", "Pos")).unwrap();
    let name = "Pos".to_string();
    assert!(matches!(type_id_for_name(&world, &name), Err(BrpError::ComponentAmbiguous(n)) if n == "Pos"));
    assert_eq!(type_id_for_name(&world, &"game::Pos".to_string()).unwrap(), 0);
    assert_eq!(type_id_for_name(&world, &"physics::Pos".to_string()).unwrap(), 3);
    assert!(matches!(type_id_for_name(&world, &"Rot".to_string()), Err(BrpError::ComponentNotFound(_))));
}

#[test]
fn non_component_type_has_no_component_id() {
    let mut world = game_world();
    let mut t = component_type("game::Settings", "Settings");
    t.is_component = false;
    world.register_type(t).unwrap();
    let r = component_id_for_name(&world, &"Settings".to_string());
    assert!(matches!(r, Err(BrpError::MissingComponentId(_))));
    let e = world.spawn().unwrap();
    let response = insert(&mut world, e, vec![("Settings".to_string(), json("{}"))]);
    assert!(matches!(response.response, BrpResponseContent::Error(BrpError::MissingReflect(_))));
}

#[test]
fn register_type_refuses_duplicate_paths() {
    let mut world = game_world();
    assert!(world.register_type(component_type("game::Pos", "P")).is_none());
    assert_eq!(world.types.len(), 3);
}

#[test]
fn deserialization_errors() {
    let world = game_world();
    let info = &world.types[0];
    let name = "Pos".to_string();
    let r = BrpSerializedData::Unserializable.try_deserialize(info, &name);
    match r {
        Err(BrpError::Deserialization { type_path, error }) => {
            assert_eq!(type_path, "Pos");
            assert_eq!(error, "Data is unserializable");
        },
        other => panic!("unexpected {:?}", other),
    }
    assert!(matches!(json("{").try_deserialize(info, &name), Err(BrpError::Deserialization { .. })));
    assert!(matches!(BrpSerializedData::Ron("(".to_string()).try_deserialize(info, &name), Err(BrpError::Deserialization { .. })));
    assert_eq!(BrpSerializedData::Default.try_deserialize(info, &name).unwrap(), "{\"x\":0,\"y\":0}");
    let mut no_default = component_type("game::Raw", "Raw");
    no_default.default_value = None;
    assert!(matches!(BrpSerializedData::Default.try_deserialize(&no_default, &name), Err(BrpError::MissingDefault(_))));
}

#[test]
fn insert_is_all_or_nothing() {
    let mut world = game_world();
    let e = world.spawn().unwrap();
    let response = insert(&mut world, e, vec![
        ("Pos".to_string(), json("{\"x\":1,\"y\":2}")),
        ("Nope".to_string(), json("1")),
    ]);
    assert!(matches!(response.response, BrpResponseContent::Error(BrpError::ComponentNotFound(_))));
    assert!(world.entities[0].components.is_empty());
    let response = insert(&mut world, Entity(42), vec![]);
    assert!(matches!(response.response, BrpResponseContent::Error(BrpError::EntityNotFound)));
    let response = insert(&mut world, e, vec![
        ("Pos".to_string(), json("{\"x\":1,\"y\":2}")),
        ("Pos".to_string(), BrpSerializedData::Default),
    ]);
    assert!(matches!(response.response, BrpResponseContent::Error(BrpError::InvalidRequest)));
    assert!(world.entities[0].components.is_empty());
    let response = insert(&mut world, e, vec![("Pos".to_string(), BrpSerializedData::Default)]);
    assert!(matches!(response.response, BrpResponseContent::Success));
    assert_eq!(world.entities[0].components.len(), 1);
    assert_eq!(world.entities[0].components[0].value, "{\"x\":0,\"y\":0}");
}

fn asset_world() -> World {
    let mut world = World::new();
    let mut material = component_type("render::Material", "Material");
    material.is_component = false;
    material.is_asset = true;
    material.default_value = None;
    world.register_type(material).unwrap();
    let mut handle = component_type("asset::Handle<render::Material>", "Handle<Material>");
    handle.is_component = false;
    handle.handle_of = Some(0);
    handle.default_value = Some("0".to_string());
    world.register_type(handle).unwrap();
    world.set_asset(0, "3".to_string(), "{\"color\":\"red\"}".to_string());
    world
}

#[test]
fn get_and_insert_assets() {
    let mut world = asset_world();
    let name = "asset::Handle<render::Material>".to_string();
    let get = |world: &mut World, h: &str| {
        let request = BrpRequest { id: 9, request: BrpRequestContent::GetAsset { name: name.clone(), handle: json(h) } };
        process_request(world, &request, RemoteSerializationFormat::Json)
    };
    match get(&mut world, "3").response {
        BrpResponseContent::GetAsset { asset, .. } => assert_eq!(json_text(&asset), "{\"color\":\"red\"}"),
        other => panic!("unexpected {:?}", other),
    }
    assert!(matches!(get(&mut world, "4").response, BrpResponseContent::Error(BrpError::AssetNotFound(_))));
    let request = BrpRequest {
        id: 10,
        request: BrpRequestContent::InsertAsset { name: name.clone(), handle: json("4"), asset: json("{\"color\": \"blue\"}") },
    };
    assert!(matches!(process_request(&mut world, &request, RemoteSerializationFormat::Json).response, BrpResponseContent::Success));
    match get(&mut world, "4").response {
        BrpResponseContent::GetAsset { asset, .. } => assert_eq!(json_text(&asset), "{\"color\":\"blue\"}"),
        other => panic!("unexpected {:?}", other),
    }
    let request = BrpRequest { id: 11, request: BrpRequestContent::GetAsset { name: "render::Material".to_string(), handle: json("3") } };
    assert!(matches!(process_request(&mut world, &request, RemoteSerializationFormat::Json).response, BrpResponseContent::Error(BrpError::AssetNotFound(_))));
    let request = BrpRequest { id: 12, request: BrpRequestContent::GetAsset { name: "Handle<Material>".to_string(), handle: json("3") } };
    assert!(matches!(process_request(&mut world, &request, RemoteSerializationFormat::Json).response, BrpResponseContent::Error(BrpError::MissingTypeRegistration(_))));
}

#[test]
fn http_status_codes() {
    let r = |e: BrpError| status_code(&BrpResponse::from_error(1, e));
    assert_eq!(status_code(&BrpResponse::new(1, BrpResponseContent::Success)), 200);
    assert_eq!(r(BrpError::EntityNotFound), 404);
    assert_eq!(r(BrpError::ComponentAmbiguous("Pos".to_string())), 409);
    assert_eq!(r(BrpError::Timeout), 408);
    assert_eq!(r(BrpError::Unimplemented), 501);
    assert_eq!(r(BrpError::ComponentInvalidAccess("Pos".to_string())), 423);
    assert_eq!(r(BrpError::InvalidRequest), 400);
}

#[test]
fn http_session_and_pending_responses() {
    let mut sessions = RemoteSessions::new();
    let session = HttpRemotePlugin.build(&mut sessions).unwrap();
    assert_eq!(session.label, "HTTP");
    assert_eq!(session.serialization_format, RemoteSerializationFormat::Json);
    assert!(HttpRemotePlugin.build(&mut sessions).is_none());
    let mut pending = PendingResponses::new();
    pending.park(BrpResponse::new(4, BrpResponseContent::Success));
    pending.park(BrpResponse::from_error(5, BrpError::Timeout));
    assert!(pending.claim(6).is_none());
    let r = pending.claim(5).unwrap();
    assert_eq!(r.id, 5);
    assert!(pending.claim(5).is_none());
    assert_eq!(pending.parked.len(), 1);
}

#[test]
fn json5_session_answers_in_json5() {
    let mut sessions = RemoteSessions::new();
    let session = sessions.open("J".to_string(), RemoteSerializationFormat::Json5).unwrap();
    let (mut world, e) = world_with_positioned_entity();
    session.request_sender.send(BrpRequest {
        id: 3,
        request: BrpRequestContent::GetEntity {
            entity: e,
            data: BrpQueryData { components: names(&["Name"]), optional: vec![], has: vec![] },
            filter: BrpQueryFilter::empty(),
        },
    }).unwrap();
    assert_eq!(session.process(&mut world), Ok(1));
    let response = session.response_receiver.try_recv().unwrap();
    match response.response {
        BrpResponseContent::GetEntity { entity } => {
            assert!(matches!(&entity.components[0].1, BrpSerializedData::Json5(t) if t == "\"ada\""));
        },
        other => panic!("unexpected {:?}", other),
    }
}

#[test]
fn each_format_is_read_and_written_by_its_own_crate() {
    let world = game_world();
    let info = &world.types[1];
    let name = "Name".to_string();
    let ron_in = BrpSerializedData::Ron("{ \"b\": 2, \"a\": 1, }".to_string());
    assert_eq!(ron_in.try_deserialize(info, &name).unwrap(), "{\"a\":1,\"b\":2}");
    let out = BrpSerializedData::try_from_reflect(info, &name, &"{\"p\":\"a/b\"}".to_string(), RemoteSerializationFormat::Json5).unwrap();
    assert!(matches!(out, BrpSerializedData::Json5(t) if t == "{\"p\":\"a\\/b\"}"));
    let out = BrpSerializedData::try_from_reflect(info, &name, &"{\"a\":null}".to_string(), RemoteSerializationFormat::Ron).unwrap();
    assert!(matches!(out, BrpSerializedData::Ron(t) if t == "{\"a\":()}"));
    let out = BrpSerializedData::try_from_reflect(info, &name, &"[1,2]".to_string(), RemoteSerializationFormat::Json).unwrap();
    assert!(matches!(out, BrpSerializedData::Json(t) if t == "[1,2]"));
}

#[test]
fn spawn_destroy_and_remove() {
    let mut world = game_world();
    let spawn = BrpRequest {
        id: 1,
        request: BrpRequestContent::SpawnEntity {
            components: vec![("Pos".to_string(), json("{\"x\":3,\"y\":4}")), ("Name".to_string(), json("\"b\""))],
        },
    };
    let e = match process_request(&mut world, &spawn, RemoteSerializationFormat::Json).response {
        BrpResponseContent::SpawnEntity { entity } => entity,
        other => panic!("unexpected {:?}", other),
    };
    assert_eq!(world.entities.len(), 1);
    assert_eq!(world.entities[0].entity, e);
    assert_eq!(world.entities[0].components.len(), 2);
    let bad_spawn = BrpRequest { id: 2, request: BrpRequestContent::SpawnEntity { components: vec![("Nope".to_string(), json("1"))] } };
    assert!(matches!(process_request(&mut world, &bad_spawn, RemoteSerializationFormat::Json).response, BrpResponseContent::Error(BrpError::ComponentNotFound(_))));
    assert_eq!(world.entities.len(), 1);
    let remove = BrpRequest { id: 3, request: BrpRequestContent::RemoveComponent { entity: e, components: names(&["Pos"]) } };
    assert!(matches!(process_request(&mut world, &remove, RemoteSerializationFormat::Json).response, BrpResponseContent::Success));
    assert_eq!(world.entities[0].components.len(), 1);
    assert_eq!(world.entities[0].components[0].value, "\"b\"");
    let destroy = BrpRequest { id: 4, request: BrpRequestContent::DestroyEntity { entity: e } };
    assert!(matches!(process_request(&mut world, &destroy, RemoteSerializationFormat::Json).response, BrpResponseContent::Success));
    assert!(world.entities.is_empty());
    assert!(matches!(process_request(&mut world, &destroy, RemoteSerializationFormat::Json).response, BrpResponseContent::Error(BrpError::EntityNotFound)));
}

#[test]
fn deep_json5_is_refused_before_parsing() {
    let world = game_world();
    let info = &world.types[1];
    let name = "Name".to_string();
    let deep = "[".repeat(100_000);
    assert!(!json5_depth_within_limit(&deep));
    match BrpSerializedData::Json5(deep).try_deserialize(info, &name) {
        Err(BrpError::Deserialization { type_path, error }) => {
            assert_eq!(type_path, "Name");
            assert_eq!(error, "nesting too deep");
        },
        other => panic!("unexpected {:?}", other),
    }
    let ok = format!("{}1{}", "[".repeat(128), "]".repeat(128));
    assert!(json5_depth_within_limit(&ok));
    assert!(!json5_depth_within_limit(&format!("[{}", ok)));
    assert!(json5_depth_within_limit(&"['[[[[', \"]]\", /* [[[ */ 1] // [[[".to_string()));
    assert!(BrpSerializedData::Json5(ok).try_deserialize(info, &name).is_ok());
}

#[test]
fn answer_all_keeps_order_and_continues_after_errors() {
    let mut world = game_world();
    let e = world.spawn().unwrap();
    let requests = vec![
        BrpRequest { id: 10, request: BrpRequestContent::InsertComponent { entity: e, components: vec![("Pos".to_string(), json("{\"x\":1,\"y\":1}"))] } },
        BrpRequest { id: 11, request: BrpRequestContent::InsertComponent { entity: e, components: vec![("Nope".to_string(), json("1"))] } },
        BrpRequest { id: 12, request: BrpRequestContent::Ping },
        BrpRequest { id: 13, request: query(&["Pos"], &[]) },
    ];
    let responses = answer_all(&mut world, &requests, RemoteSerializationFormat::Json);
    let ids: Vec<u64> = responses.iter().map(|r| r.id).collect();
    assert_eq!(ids, vec![10, 11, 12, 13]);
    assert!(matches!(responses[0].response, BrpResponseContent::Success));
    assert!(matches!(responses[1].response, BrpResponseContent::Error(BrpError::ComponentNotFound(_))));
    assert!(matches!(responses[2].response, BrpResponseContent::Success));
    match &responses[3].response {
        BrpResponseContent::QueryEntities { entities } => assert_eq!(entities.len(), 1),
        other => panic!("unexpected {:?}", other),
    }
}

#[test]
fn session_drains_in_order() {
    let mut sessions = RemoteSessions::new();
    let session = sessions.open("S".to_string(), RemoteSerializationFormat::Json).unwrap();
    let mut world = game_world();
    for id in [3u64, 1, 2] {
        session.request_sender.send(BrpRequest { id, request: BrpRequestContent::Ping }).unwrap();
    }
    sessions.process(&mut world).unwrap();
    let ids: Vec<u64> = session.response_receiver.try_iter().map(|r| r.id).collect();
    assert_eq!(ids, vec![3, 1, 2]);
    assert!(session.request_receiver.is_empty());
}

#[test]
fn routing_parks_other_responses() {
    let mut pending = PendingResponses::new();
    assert!(route_response(&mut pending, 1, BrpResponse::new(2, BrpResponseContent::Success)).is_none());
    let own = route_response(&mut pending, 1, BrpResponse::new(1, BrpResponseContent::Success)).unwrap();
    assert_eq!(own.id, 1);
    assert_eq!(pending.claim(2).unwrap().id, 2);
}

#[test]
fn repeated_names_are_refused() {
    let (mut world, e) = world_with_positioned_entity();
    let request = BrpRequest {
        id: 5,
        request: BrpRequestContent::GetEntity {
            entity: e,
            data: BrpQueryData { components: names(&["Pos", "Pos"]), optional: vec![], has: vec![] },
            filter: BrpQueryFilter::empty(),
        },
    };
    let response = process_request(&mut world, &request, RemoteSerializationFormat::Json);
    assert_eq!(response.id, 5);
    assert!(matches!(response.response, BrpResponseContent::Error(BrpError::InvalidRequest)));
    let eq = BrpPredicate::PartialEq(vec![("Pos".to_string(), json("1")), ("Pos".to_string(), json("2"))]);
    let request = BrpRequest {
        id: 6,
        request: BrpRequestContent::QueryEntities {
            data: BrpQueryData::empty(),
            filter: BrpQueryFilter { with: vec![], without: vec![], when: BrpPredicate::Not(Box::new(eq)) },
        },
    };
    let response = process_request(&mut world, &request, RemoteSerializationFormat::Json);
    assert!(matches!(response.response, BrpResponseContent::Error(BrpError::InvalidRequest)));
}

#[test]
fn full_response_channel_is_a_fault_not_a_wait() {
    let (request_sender, request_receiver) = crossbeam_channel::unbounded();
    let (response_sender, response_receiver) = crossbeam_channel::bounded(0);
    let session = RemoteSession {
        label: "Z".to_string(),
        serialization_format: RemoteSerializationFormat::Json,
        request_sender,
        request_receiver,
        response_sender,
        response_receiver,
    };
    let mut world = game_world();
    session.request_sender.send(BrpRequest { id: 1, request: BrpRequestContent::Ping }).unwrap();
    assert_eq!(session.process(&mut world), Err(SessionFault::ResponseChannelFull));
}

#[test]
fn empty_registry_processes_nothing() {
    let sessions = RemoteSessions::new();
    let mut world = game_world();
    assert_eq!(sessions.process(&mut world), Ok(()));
}

#[test]
fn abandoned_responses_are_dropped() {
    let mut pending = PendingResponses::new();
    pending.park(BrpResponse::new(7, BrpResponseContent::Success));
    pending.abandon(7);
    assert!(pending.claim(7).is_none());
    pending.abandon(8);
    assert_eq!(pending.abandoned, vec![8]);
    assert!(route_response(&mut pending, 1, BrpResponse::new(8, BrpResponseContent::Success)).is_none());
    assert!(pending.claim(8).is_none());
    assert!(pending.abandoned.is_empty());
    assert!(pending.parked.is_empty());
}

#[test]
fn default_values_must_be_canonical() {
    let mut world = World::new();
    let mut t = component_type("game::Pos", "Pos");
    t.default_value = Some("{ \"y\": 0, \"x\": 0 }".to_string());
    assert!(world.register_type(t).is_none());
    let mut t = component_type("game::Pos", "Pos");
    t.default_value = Some("not json".to_string());
    assert!(world.register_type(t).is_none());
    assert!(world.register_type(component_type("game::Pos", "Pos")).is_some());
}
