//! The wire model: requests, responses, query descriptions, predicates and errors,
//! with the mathematical views that contracts speak of.

use vstd::prelude::*;


verus! {

/// An entity of the world, identified by its raw bits.
#[derive(Debug, Clone, Copy, PartialEq, Eq, Hash, Structural)]
pub struct Entity(pub u64);

/// A numeric identifier for a request; it correlates a request with its response.
pub type BrpId = u64;

/// A watermark for a poll request.
pub type BrpWatermark = u64;

/// The name of a component: a full type path or an unambiguous short type path.
pub type BrpComponentName = String;

/// The name of an asset's handle type.
pub type BrpAssetName = String;

/// A list of component names.
pub type BrpComponentNames = Vec<BrpComponentName>;

/// Component names paired with serialized values, in the order given.
pub type BrpComponentMap = Vec<(BrpComponentName, BrpSerializedData)>;

/// Component names paired with a serialized value, or `None` where the component is absent.
pub type BrpComponentOptionalMap = Vec<(BrpComponentName, Option<BrpSerializedData>)>;

/// Component names paired with whether the component is present.
pub type BrpComponentHasMap = Vec<(BrpComponentName, bool)>;

/// A value in serialized form, or one of two special values.
#[derive(Debug, Clone)]
pub enum BrpSerializedData {
    /// A JSON text.
    Json(String),
    /// A JSON5 text.
    Json5(String),
    /// A RON text.
    Ron(String),
    /// Stands for the type's default value.
    Default,
    /// Stands for a value that exists but cannot be serialized.
    Unserializable,
}

/// The view of a serialized value: its tag and its text.
pub enum WireValue {
    Json(Seq<char>),
    Json5(Seq<char>),
    Ron(Seq<char>),
    Default,
    Unserializable,
}

impl View for BrpSerializedData {
    type V = WireValue;

    open spec fn view(&self) -> WireValue {
        match self {
            BrpSerializedData::Json(s) => WireValue::Json(s@),
            BrpSerializedData::Json5(s) => WireValue::Json5(s@),
            BrpSerializedData::Ron(s) => WireValue::Ron(s@),
            BrpSerializedData::Default => WireValue::Default,
            BrpSerializedData::Unserializable => WireValue::Unserializable,
        }
    }
}

impl BrpSerializedData {
    /// A copy of this value.
    pub fn duplicate(&self) -> (r: BrpSerializedData)
        ensures
            r@ == self@,
    {
        match self {
            BrpSerializedData::Json(s) => BrpSerializedData::Json(s.clone()),
            BrpSerializedData::Json5(s) => BrpSerializedData::Json5(s.clone()),
            BrpSerializedData::Ron(s) => BrpSerializedData::Ron(s.clone()),
            BrpSerializedData::Default => BrpSerializedData::Default,
            BrpSerializedData::Unserializable => BrpSerializedData::Unserializable,
        }
    }
}

/// The view of a component map.
pub open spec fn component_map_view(m: Seq<(String, BrpSerializedData)>) -> Seq<(Seq<char>, WireValue)> {
    m.map_values(|e: (String, BrpSerializedData)| (e.0@, e.1@))
}

/// The view of an optional-component map.
pub open spec fn optional_map_view(m: Seq<(String, Option<BrpSerializedData>)>) -> Seq<(Seq<char>, Option<WireValue>)> {
    m.map_values(|e: (String, Option<BrpSerializedData>)| (e.0@, option_wire_view(e.1)))
}

/// The view of an optional serialized value.
pub open spec fn option_wire_view(o: Option<BrpSerializedData>) -> Option<WireValue> {
    match o {
        Some(d) => Some(d@),
        None => None,
    }
}

/// The view of a presence map.
pub open spec fn has_map_view(m: Seq<(String, bool)>) -> Seq<(Seq<char>, bool)> {
    m.map_values(|e: (String, bool)| (e.0@, e.1))
}

/// What to fetch for each matching entity. Also acts as a filter: an entity matches
/// only if it has every component of `components`.
///
/// A `components` list that is exactly `["*"]` asks for every component of the entity.
#[derive(Debug)]
pub struct BrpQueryData {
    /// Components that must be present, and are fetched.
    pub components: BrpComponentNames,
    /// Components that are fetched where present.
    pub optional: BrpComponentNames,
    /// Components whose presence is reported.
    pub has: BrpComponentNames,
}

impl BrpQueryData {
    /// Query data that asks for nothing.
    pub fn empty() -> (r: BrpQueryData)
        ensures
            r.components@.len() == 0,
            r.optional@.len() == 0,
            r.has@.len() == 0,
    {
        BrpQueryData { components: Vec::new(), optional: Vec::new(), has: Vec::new() }
    }
}

/// Further conditions on the matching entities.
#[derive(Debug)]
pub struct BrpQueryFilter {
    /// Components that must be present (not fetched).
    pub with: BrpComponentNames,
    /// Components that must be absent.
    pub without: BrpComponentNames,
    /// A condition on the values of the entity's components.
    pub when: BrpPredicate,
}

impl BrpQueryFilter {
    /// A filter that lets every entity through.
    pub fn empty() -> (r: BrpQueryFilter)
        ensures
            r.with@.len() == 0,
            r.without@.len() == 0,
            r.when == BrpPredicate::Always,
    {
        BrpQueryFilter { with: Vec::new(), without: Vec::new(), when: BrpPredicate::Always }
    }
}

/// A condition on the values of an entity's components.
#[derive(Debug)]
pub enum BrpPredicate {
    /// Always true.
    Always,
    /// True if every nested predicate is true (`&&`).
    All(Vec<BrpPredicate>),
    /// True if some nested predicate is true (`||`).
    Any(Vec<BrpPredicate>),
    /// True if the nested predicate is false (`!`).
    Not(Box<BrpPredicate>),
    /// True if each named component is equal to the given value (`==`).
    PartialEq(BrpComponentMap),
}

/// The component names that a predicate mentions, in order, with repetitions.
pub open spec fn predicate_names(p: BrpPredicate) -> Seq<String>
    decreases p,
{
    match p {
        BrpPredicate::Always => Seq::empty(),
        BrpPredicate::All(ps) => predicate_list_names(ps@),
        BrpPredicate::Any(ps) => predicate_list_names(ps@),
        BrpPredicate::Not(q) => predicate_names(*q),
        BrpPredicate::PartialEq(m) => m@.map_values(|e: (String, BrpSerializedData)| e.0),
    }
}

/// The component names that a list of predicates mentions, in order.
pub open spec fn predicate_list_names(ps: Seq<BrpPredicate>) -> Seq<String>
    decreases ps,
{
    if ps.len() == 0 {
        Seq::empty()
    } else {
        predicate_list_names(ps.subrange(0, ps.len() - 1)) + predicate_names(ps[ps.len() - 1])
    }
}

impl BrpPredicate {
    /// The component names that this predicate mentions, in order.
    pub fn iter(&self) -> (r: Vec<BrpComponentName>)
        ensures
            r@ == predicate_names(*self),
        decreases self,
    {
        match self {
            BrpPredicate::Always => Vec::new(),
            BrpPredicate::All(ps) => BrpPredicate::list_names(ps),
            BrpPredicate::Any(ps) => BrpPredicate::list_names(ps),
            BrpPredicate::Not(q) => q.iter(),
            BrpPredicate::PartialEq(m) => {
                let mut out: Vec<BrpComponentName> = Vec::new();
                let mut i: usize = 0;
                while i < m.len()
                    invariant
                        i <= m@.len(),
                        out@ == m@.subrange(0, i as int).map_values(|e: (String, BrpSerializedData)| e.0),
                    decreases m@.len() - i,
                {
                    out.push(m[i].0.clone());
                    i = i + 1;
                    assert(m@.subrange(0, i as int).map_values(|e: (String, BrpSerializedData)| e.0)
                        =~= m@.subrange(0, i - 1).map_values(|e: (String, BrpSerializedData)| e.0).push(m@[i - 1].0));
                }
                assert(m@.subrange(0, m@.len() as int) =~= m@);
                out
            },
        }
    }

    fn list_names(ps: &Vec<BrpPredicate>) -> (r: Vec<BrpComponentName>)
        ensures
            r@ == predicate_list_names(ps@),
        decreases ps,
    {
        let mut out: Vec<BrpComponentName> = Vec::new();
        let mut i: usize = 0;
        while i < ps.len()
            invariant
                i <= ps@.len(),
                out@ == predicate_list_names(ps@.subrange(0, i as int)),
            decreases ps@.len() - i,
        {
            let mut names = ps[i].iter();
            out.append(&mut names);
            i = i + 1;
            assert(ps@.subrange(0, i as int).subrange(0, i - 1) =~= ps@.subrange(0, i - 1));
        }
        assert(ps@.subrange(0, ps@.len() as int) =~= ps@);
        out
    }
}

/// A request: an identifier chosen by the sender and what is asked.
#[derive(Debug)]
pub struct BrpRequest {
    pub id: BrpId,
    pub request: BrpRequestContent,
}

/// What a request asks for.
#[allow(inconsistent_fields)]
#[derive(Debug)]
pub enum BrpRequestContent {
    /// Answer with `Ok`; tests the connection.
    Ping,
    /// The data of one entity.
    GetEntity { entity: Entity, data: BrpQueryData, filter: BrpQueryFilter },
    /// The data of every entity that matches a query.
    QueryEntities { data: BrpQueryData, filter: BrpQueryFilter },
    /// Spawn an entity with the given components.
    SpawnEntity { components: BrpComponentMap },
    /// Destroy an entity.
    DestroyEntity { entity: Entity },
    /// Insert components into an entity.
    InsertComponent { entity: Entity, components: BrpComponentMap },
    /// Remove components from an entity.
    RemoveComponent { entity: Entity, components: BrpComponentNames },
    /// Give an entity a new parent.
    ReparentEntity { entity: Entity, parent: Entity },
    /// Like `QueryEntities`, answered once the watermark is invalidated.
    PollEntities { data: BrpQueryData, filter: BrpQueryFilter, watermark: Option<BrpWatermark> },
    /// The value of an asset, found through a handle.
    GetAsset { name: BrpAssetName, handle: BrpSerializedData },
    /// Insert an asset under a handle.
    InsertAsset { name: BrpAssetName, handle: BrpSerializedData, asset: BrpSerializedData },
}

/// A response: the identifier of the request it answers, and its content.
#[derive(Debug)]
pub struct BrpResponse {
    pub id: BrpId,
    pub response: BrpResponseContent,
}

/// What a response carries.
#[allow(inconsistent_fields)]
#[derive(Debug)]
pub enum BrpResponseContent {
    /// Success with no data.
    Success,
    /// Failure.
    Error(BrpError),
    /// The data of the requested entity.
    GetEntity { entity: BrpQueryResult },
    /// The data of each matching entity.
    QueryEntities { entities: BrpQueryResults },
    /// The entity that was spawned.
    SpawnEntity { entity: Entity },
    /// The data of each matching entity, and the new watermark.
    Poll { entities: BrpQueryResults, watermark: BrpWatermark },
    /// The requested asset.
    GetAsset { name: BrpAssetName, handle: BrpSerializedData, asset: BrpSerializedData },
}

/// The view of a response's content.
pub enum ResponseView {
    Success,
    Error(ErrorView),
    GetEntity { entity: QueryResultView },
    QueryEntities { entities: Seq<QueryResultView> },
    SpawnEntity { entity: Entity },
    Poll { entities: Seq<QueryResultView>, watermark: BrpWatermark },
    GetAsset { name: Seq<char>, handle: WireValue, asset: WireValue },
}

impl View for BrpResponseContent {
    type V = ResponseView;

    open spec fn view(&self) -> ResponseView {
        match self {
            BrpResponseContent::Success => ResponseView::Success,
            BrpResponseContent::Error(e) => ResponseView::Error(e@),
            BrpResponseContent::GetEntity { entity } => ResponseView::GetEntity { entity: entity@ },
            BrpResponseContent::QueryEntities { entities } => ResponseView::QueryEntities {
                entities: results_view(entities@),
            },
            BrpResponseContent::SpawnEntity { entity } => ResponseView::SpawnEntity { entity: *entity },
            BrpResponseContent::Poll { entities, watermark } => ResponseView::Poll {
                entities: results_view(entities@),
                watermark: *watermark,
            },
            BrpResponseContent::GetAsset { name, handle, asset } => ResponseView::GetAsset {
                name: name@,
                handle: handle@,
                asset: asset@,
            },
        }
    }
}

/// The data fetched for one entity.
#[derive(Debug)]
pub struct BrpQueryResult {
    pub entity: Entity,
    /// The required components' values, in the order asked for.
    pub components: BrpComponentMap,
    /// The optional components' values, in the order asked for.
    pub optional: BrpComponentOptionalMap,
    /// The presence of the components asked about, in the order asked for.
    pub has: BrpComponentHasMap,
}

/// The view of a query result.
pub struct QueryResultView {
    pub entity: Entity,
    pub components: Seq<(Seq<char>, WireValue)>,
    pub optional: Seq<(Seq<char>, Option<WireValue>)>,
    pub has: Seq<(Seq<char>, bool)>,
}

impl View for BrpQueryResult {
    type V = QueryResultView;

    open spec fn view(&self) -> QueryResultView {
        QueryResultView {
            entity: self.entity,
            components: component_map_view(self.components@),
            optional: optional_map_view(self.optional@),
            has: has_map_view(self.has@),
        }
    }
}

/// The view of a list of query results.
pub open spec fn results_view(rs: Seq<BrpQueryResult>) -> Seq<QueryResultView> {
    rs.map_values(|r: BrpQueryResult| r@)
}

/// A list of query results.
pub type BrpQueryResults = Vec<BrpQueryResult>;

/// An error in answering a request.
#[derive(Debug, Clone)]
pub enum BrpError {
    EntityNotFound,
    ComponentNotFound(String),
    ComponentAmbiguous(String),
    ComponentInvalidAccess(String),
    MissingTypeId(String),
    MissingComponentId(String),
    MissingTypeRegistration(String),
    MissingReflect(String),
    MissingDefault(String),
    MissingPartialEq(String),
    Serialization(String),
    Deserialization { type_path: String, error: String },
    AssetNotFound(String),
    InvalidRequest,
    InvalidEntity,
    InvalidQuery,
    InvalidWatermark,
    InternalError,
    Timeout,
    Unimplemented,
    Other(String),
}

/// The view of an error.
pub enum ErrorView {
    EntityNotFound,
    ComponentNotFound(Seq<char>),
    ComponentAmbiguous(Seq<char>),
    ComponentInvalidAccess(Seq<char>),
    MissingTypeId(Seq<char>),
    MissingComponentId(Seq<char>),
    MissingTypeRegistration(Seq<char>),
    MissingReflect(Seq<char>),
    MissingDefault(Seq<char>),
    MissingPartialEq(Seq<char>),
    Serialization(Seq<char>),
    Deserialization { type_path: Seq<char>, error: Seq<char> },
    AssetNotFound(Seq<char>),
    InvalidRequest,
    InvalidEntity,
    InvalidQuery,
    InvalidWatermark,
    InternalError,
    Timeout,
    Unimplemented,
    Other(Seq<char>),
}

impl View for BrpError {
    type V = ErrorView;

    open spec fn view(&self) -> ErrorView {
        match self {
            BrpError::EntityNotFound => ErrorView::EntityNotFound,
            BrpError::ComponentNotFound(s) => ErrorView::ComponentNotFound(s@),
            BrpError::ComponentAmbiguous(s) => ErrorView::ComponentAmbiguous(s@),
            BrpError::ComponentInvalidAccess(s) => ErrorView::ComponentInvalidAccess(s@),
            BrpError::MissingTypeId(s) => ErrorView::MissingTypeId(s@),
            BrpError::MissingComponentId(s) => ErrorView::MissingComponentId(s@),
            BrpError::MissingTypeRegistration(s) => ErrorView::MissingTypeRegistration(s@),
            BrpError::MissingReflect(s) => ErrorView::MissingReflect(s@),
            BrpError::MissingDefault(s) => ErrorView::MissingDefault(s@),
            BrpError::MissingPartialEq(s) => ErrorView::MissingPartialEq(s@),
            BrpError::Serialization(s) => ErrorView::Serialization(s@),
            BrpError::Deserialization { type_path, error } => ErrorView::Deserialization {
                type_path: type_path@,
                error: error@,
            },
            BrpError::AssetNotFound(s) => ErrorView::AssetNotFound(s@),
            BrpError::InvalidRequest => ErrorView::InvalidRequest,
            BrpError::InvalidEntity => ErrorView::InvalidEntity,
            BrpError::InvalidQuery => ErrorView::InvalidQuery,
            BrpError::InvalidWatermark => ErrorView::InvalidWatermark,
            BrpError::InternalError => ErrorView::InternalError,
            BrpError::Timeout => ErrorView::Timeout,
            BrpError::Unimplemented => ErrorView::Unimplemented,
            BrpError::Other(s) => ErrorView::Other(s@),
        }
    }
}

impl BrpResponse {
    /// A response with the given identifier and content.
    pub fn new(id: BrpId, response: BrpResponseContent) -> (r: BrpResponse)
        ensures
            r.id == id,
            r.response == response,
    {
        BrpResponse { id, response }
    }

    /// A response with the given identifier that carries an error.
    pub fn from_error(id: BrpId, error: BrpError) -> (r: BrpResponse)
        ensures
            r.id == id,
            r.response == BrpResponseContent::Error(error),
    {
        BrpResponse { id, response: BrpResponseContent::Error(error) }
    }
}

/// No name occurs twice in the list.
pub open spec fn names_unique(names: Seq<String>) -> bool {
    forall|i: int, j: int| 0 <= i < names.len() && 0 <= j < names.len() && i != j ==> names[i]@ != names[j]@
}

/// No name is a key twice in the map.
pub open spec fn keys_unique(m: Seq<(String, BrpSerializedData)>) -> bool {
    forall|i: int, j: int| 0 <= i < m.len() && 0 <= j < m.len() && i != j ==> m[i].0@ != m[j].0@
}

/// Every equality map in the predicate has each key once.
pub open spec fn predicate_keys_unique(p: BrpPredicate) -> bool
    decreases p,
{
    match p {
        BrpPredicate::Always => true,
        BrpPredicate::All(ps) => predicate_list_keys_unique(ps@),
        BrpPredicate::Any(ps) => predicate_list_keys_unique(ps@),
        BrpPredicate::Not(q) => predicate_keys_unique(*q),
        BrpPredicate::PartialEq(m) => keys_unique(m@),
    }
}

/// Every equality map in a list of predicates has each key once.
pub open spec fn predicate_list_keys_unique(ps: Seq<BrpPredicate>) -> bool
    decreases ps,
{
    if ps.len() == 0 {
        true
    } else {
        predicate_list_keys_unique(ps.subrange(0, ps.len() - 1)) && predicate_keys_unique(ps[ps.len() - 1])
    }
}

/// The names that a query fetches by, and the keys of its equality maps, are
/// each given once: the maps it reads and the maps it builds are keyed uniquely.
pub open spec fn query_keys_unique(data: BrpQueryData, filter: BrpQueryFilter) -> bool {
    &&& names_unique(data.components@)
    &&& names_unique(data.optional@)
    &&& names_unique(data.has@)
    &&& predicate_keys_unique(filter.when)
}

/// Every map that a request carries, or that answering it builds, has each key once.
pub open spec fn request_keys_unique(content: BrpRequestContent) -> bool {
    match content {
        BrpRequestContent::GetEntity { data, filter, .. } => query_keys_unique(data, filter),
        BrpRequestContent::QueryEntities { data, filter } => query_keys_unique(data, filter),
        BrpRequestContent::PollEntities { data, filter, .. } => query_keys_unique(data, filter),
        BrpRequestContent::SpawnEntity { components } => keys_unique(components@),
        BrpRequestContent::InsertComponent { components, .. } => keys_unique(components@),
        _ => true,
    }
}

/// Whether no name occurs twice in the list.
pub fn check_names_unique(names: &Vec<String>) -> (r: bool)
    ensures
        r == names_unique(names@),
{
    let mut i: usize = 0;
    while i < names.len()
        invariant
            i <= names@.len(),
            forall|a: int, b: int| 0 <= a < i && 0 <= b < names@.len() && a != b ==> names@[a]@ != names@[b]@,
        decreases names@.len() - i,
    {
        let mut j: usize = 0;
        while j < names.len()
            invariant
                i < names@.len(),
                j <= names@.len(),
                forall|a: int, b: int| 0 <= a < i && 0 <= b < names@.len() && a != b ==> names@[a]@ != names@[b]@,
                forall|b: int| 0 <= b < j && b != i ==> names@[i as int]@ != names@[b]@,
            decreases names@.len() - j,
        {
            if j != i && names[i] == names[j] {
                return false;
            }
            j = j + 1;
        }
        i = i + 1;
    }
    true
}

/// Whether no name is a key twice in the map.
pub fn check_keys_unique(m: &BrpComponentMap) -> (r: bool)
    ensures
        r == keys_unique(m@),
{
    let mut i: usize = 0;
    while i < m.len()
        invariant
            i <= m@.len(),
            forall|a: int, b: int| 0 <= a < i && 0 <= b < m@.len() && a != b ==> m@[a].0@ != m@[b].0@,
        decreases m@.len() - i,
    {
        let mut j: usize = 0;
        while j < m.len()
            invariant
                i < m@.len(),
                j <= m@.len(),
                forall|a: int, b: int| 0 <= a < i && 0 <= b < m@.len() && a != b ==> m@[a].0@ != m@[b].0@,
                forall|b: int| 0 <= b < j && b != i ==> m@[i as int].0@ != m@[b].0@,
            decreases m@.len() - j,
        {
            if j != i && m[i].0 == m[j].0 {
                return false;
            }
            j = j + 1;
        }
        i = i + 1;
    }
    true
}

impl BrpPredicate {
    /// Whether every equality map in this predicate has each key once.
    pub fn keys_are_unique(&self) -> (r: bool)
        ensures
            r == predicate_keys_unique(*self),
        decreases self,
    {
        match self {
            BrpPredicate::Always => true,
            BrpPredicate::All(ps) => BrpPredicate::list_keys_unique(ps),
            BrpPredicate::Any(ps) => BrpPredicate::list_keys_unique(ps),
            BrpPredicate::Not(q) => q.keys_are_unique(),
            BrpPredicate::PartialEq(m) => check_keys_unique(m),
        }
    }

    fn list_keys_unique(ps: &Vec<BrpPredicate>) -> (r: bool)
        ensures
            r == predicate_list_keys_unique(ps@),
        decreases ps,
    {
        let mut i: usize = 0;
        while i < ps.len()
            invariant
                i <= ps@.len(),
                predicate_list_keys_unique(ps@.subrange(0, i as int)),
            decreases ps@.len() - i,
        {
            let ok = ps[i].keys_are_unique();
            assert(ps@.subrange(0, i + 1).subrange(0, i as int) =~= ps@.subrange(0, i as int));
            if !ok {
                proof {
                    if predicate_list_keys_unique(ps@) {
                        lemma_list_keys_prefix(ps@, i as int + 1);
                    }
                }
                return false;
            }
            i = i + 1;
        }
        assert(ps@.subrange(0, ps@.len() as int) =~= ps@);
        true
    }
}

/// Where a list of predicates has unique keys, so does each of its prefixes, and
/// each of its members.
proof fn lemma_list_keys_prefix(ps: Seq<BrpPredicate>, n: int)
    requires
        0 <= n <= ps.len(),
        predicate_list_keys_unique(ps),
    ensures
        predicate_list_keys_unique(ps.subrange(0, n)),
        n > 0 ==> predicate_keys_unique(ps[n - 1]),
    decreases ps.len(),
{
    if n < ps.len() {
        let shorter = ps.subrange(0, ps.len() - 1);
        lemma_list_keys_prefix(shorter, n);
        assert(shorter.subrange(0, n) =~= ps.subrange(0, n));
        if n > 0 {
            assert(shorter[n - 1] == ps[n - 1]);
        }
    } else {
        assert(ps.subrange(0, n) =~= ps);
    }
}

/// Whether every map that the request carries, or that answering it builds, has
/// each key once.
pub fn check_request_keys(content: &BrpRequestContent) -> (r: bool)
    ensures
        r == request_keys_unique(*content),
{
    match content {
        BrpRequestContent::GetEntity { data, filter, .. } => check_query_keys(data, filter),
        BrpRequestContent::QueryEntities { data, filter } => check_query_keys(data, filter),
        BrpRequestContent::PollEntities { data, filter, .. } => check_query_keys(data, filter),
        BrpRequestContent::SpawnEntity { components } => check_keys_unique(components),
        BrpRequestContent::InsertComponent { components, .. } => check_keys_unique(components),
        _ => true,
    }
}

fn check_query_keys(data: &BrpQueryData, filter: &BrpQueryFilter) -> (r: bool)
    ensures
        r == query_keys_unique(*data, *filter),
{
    check_names_unique(&data.components) && check_names_unique(&data.optional)
        && check_names_unique(&data.has) && filter.when.keys_are_unique()
}

} // verus!
