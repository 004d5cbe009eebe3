//! The serialization codec: values of the world to and from the wire formats, and
//! the per-component operations built on it (fetch, compare, insert, assets).
//!
//! The text formats are read and written by `serde_json`, `json5` and `ron`. What
//! they produce on given text is named, not restated: `json_read`, `json5_read`,
//! `ron_read`, `json5_write`, `ron_write`.

use vstd::prelude::*;
use vstd::std_specs::iter::IteratorSpec;

use crate::brp::{BrpError, BrpSerializedData, ErrorView, WireValue};
use crate::names::{component_id_for_name, component_spec, long_match, type_id_for_name, resolve_spec};
use crate::world::{
    asset_set, asset_value, component_set, component_value, has_asset, has_component, paths_unique,
    record_wf, EntityRecord, TypeInfo, World,
};
use crate::RemoteSerializationFormat;

verus! {

/// What `serde_json` reads from a text: the canonical form of the value, or the
/// parser's message.
pub uninterp spec fn json_read(text: Seq<char>) -> Result<Seq<char>, Seq<char>>;

/// What `json5` reads from a text: the canonical form of the value, or the
/// parser's message.
pub uninterp spec fn json5_read(text: Seq<char>) -> Result<Seq<char>, Seq<char>>;

/// What `ron` reads from a text: the canonical form of the value, or the
/// parser's message.
pub uninterp spec fn ron_read(text: Seq<char>) -> Result<Seq<char>, Seq<char>>;

/// What `json5` writes for the value whose canonical form is given.
pub uninterp spec fn json5_write(canonical: Seq<char>) -> Result<Seq<char>, Seq<char>>;

/// What `ron` writes for the value whose canonical form is given.
pub uninterp spec fn ron_write(canonical: Seq<char>) -> Result<Seq<char>, Seq<char>>;

/// The view of a text-or-message outcome.
pub open spec fn text_view(r: Result<String, String>) -> Result<Seq<char>, Seq<char>> {
    match r {
        Ok(t) => Ok(t@),
        Err(m) => Err(m@),
    }
}

/// Relies on `serde_json::from_str` into a `serde_json::Value`: the value, written
/// back compactly by `serde_json` (its canonical form), or the parser's message.
#[verifier::external_body]
pub(crate) fn read_json(text: &String) -> (r: Result<String, String>)
    ensures
        text_view(r) == json_read(text@),
{
    match serde_json::from_str::<serde_json::Value>(text) {
        Ok(v) => Ok(v.to_string()),
        Err(e) => Err(e.to_string()),
    }
}

/// The deepest nesting of arrays and objects that a JSON5 text may have. The
/// `json5` parser descends once per level with no limit of its own; beyond this
/// depth a text is refused before it reaches the parser, as `serde_json` and
/// `ron` refuse it by themselves.
pub const JSON5_DEPTH_LIMIT: usize = 128;

/// Where a scan of JSON5 text stands: in code, after a `/`, in a comment, in a
/// string, or just after a backslash in a string.
#[derive(Debug, Clone, Copy, PartialEq, Eq, Structural)]
pub enum Json5Lex {
    Code,
    Slash,
    LineComment,
    BlockComment,
    BlockStar,
    Double,
    DoubleEscape,
    Single,
    SingleEscape,
}

/// A character that ends a line comment.
pub open spec fn is_line_terminator(c: char) -> bool {
    c == '\n' || c == '\r' || c == '\u{2028}' || c == '\u{2029}'
}

/// One character of code: brackets open and close a level (the count stops one
/// past the limit, and never goes below zero), quotes open strings, `/` may open
/// a comment.
pub open spec fn code_step(c: char, depth: int) -> (Json5Lex, int) {
    if c == '[' || c == '{' {
        (Json5Lex::Code, if depth > JSON5_DEPTH_LIMIT { depth } else { depth + 1 })
    } else if c == ']' || c == '}' {
        (Json5Lex::Code, if depth > 0 { depth - 1 } else { 0 })
    } else if c == '"' {
        (Json5Lex::Double, depth)
    } else if c == '\'' {
        (Json5Lex::Single, depth)
    } else if c == '/' {
        (Json5Lex::Slash, depth)
    } else {
        (Json5Lex::Code, depth)
    }
}

/// One character of the scan.
pub open spec fn lex_step(state: Json5Lex, depth: int, c: char) -> (Json5Lex, int) {
    match state {
        Json5Lex::Code => code_step(c, depth),
        Json5Lex::Slash => if c == '/' {
            (Json5Lex::LineComment, depth)
        } else if c == '*' {
            (Json5Lex::BlockComment, depth)
        } else {
            code_step(c, depth)
        },
        Json5Lex::LineComment => if is_line_terminator(c) {
            (Json5Lex::Code, depth)
        } else {
            (Json5Lex::LineComment, depth)
        },
        Json5Lex::BlockComment => if c == '*' {
            (Json5Lex::BlockStar, depth)
        } else {
            (Json5Lex::BlockComment, depth)
        },
        Json5Lex::BlockStar => if c == '/' {
            (Json5Lex::Code, depth)
        } else if c == '*' {
            (Json5Lex::BlockStar, depth)
        } else {
            (Json5Lex::BlockComment, depth)
        },
        Json5Lex::Double => if c == '\\' {
            (Json5Lex::DoubleEscape, depth)
        } else if c == '"' {
            (Json5Lex::Code, depth)
        } else {
            (Json5Lex::Double, depth)
        },
        Json5Lex::DoubleEscape => (Json5Lex::Double, depth),
        Json5Lex::Single => if c == '\\' {
            (Json5Lex::SingleEscape, depth)
        } else if c == '\'' {
            (Json5Lex::Code, depth)
        } else {
            (Json5Lex::Single, depth)
        },
        Json5Lex::SingleEscape => (Json5Lex::Single, depth),
    }
}

/// The scan of a JSON5 text: where it ends, the open depth at its end, and the
/// deepest depth reached on the way.
pub open spec fn json5_scan(text: Seq<char>) -> (Json5Lex, int, int)
    decreases text.len(),
{
    if text.len() == 0 {
        (Json5Lex::Code, 0, 0)
    } else {
        let prev = json5_scan(text.drop_last());
        let next = lex_step(prev.0, prev.1, text.last());
        (next.0, next.1, if next.1 > prev.2 { next.1 } else { prev.2 })
    }
}

/// The text's arrays and objects nest no deeper than the limit.
pub open spec fn json5_depth_ok(text: Seq<char>) -> bool {
    json5_scan(text).2 <= JSON5_DEPTH_LIMIT
}

/// The message of the error that too deep a JSON5 text gives.
pub open spec fn json5_depth_message() -> Seq<char> {
    "nesting too deep"@
}

fn code_step_exec(c: char, depth: usize) -> (r: (Json5Lex, usize))
    requires
        depth <= JSON5_DEPTH_LIMIT + 1,
    ensures
        (r.0, r.1 as int) == code_step(c, depth as int),
        r.1 <= JSON5_DEPTH_LIMIT + 1,
{
    if c == '[' || c == '{' {
        (Json5Lex::Code, if depth > JSON5_DEPTH_LIMIT { depth } else { depth + 1 })
    } else if c == ']' || c == '}' {
        (Json5Lex::Code, if depth > 0 { depth - 1 } else { 0 })
    } else if c == '"' {
        (Json5Lex::Double, depth)
    } else if c == '\'' {
        (Json5Lex::Single, depth)
    } else if c == '/' {
        (Json5Lex::Slash, depth)
    } else {
        (Json5Lex::Code, depth)
    }
}

fn lex_step_exec(state: Json5Lex, depth: usize, c: char) -> (r: (Json5Lex, usize))
    requires
        depth <= JSON5_DEPTH_LIMIT + 1,
    ensures
        (r.0, r.1 as int) == lex_step(state, depth as int, c),
        r.1 <= JSON5_DEPTH_LIMIT + 1,
{
    match state {
        Json5Lex::Code => code_step_exec(c, depth),
        Json5Lex::Slash => if c == '/' {
            (Json5Lex::LineComment, depth)
        } else if c == '*' {
            (Json5Lex::BlockComment, depth)
        } else {
            code_step_exec(c, depth)
        },
        Json5Lex::LineComment => if c == '\n' || c == '\r' || c == '\u{2028}' || c == '\u{2029}' {
            (Json5Lex::Code, depth)
        } else {
            (Json5Lex::LineComment, depth)
        },
        Json5Lex::BlockComment => if c == '*' {
            (Json5Lex::BlockStar, depth)
        } else {
            (Json5Lex::BlockComment, depth)
        },
        Json5Lex::BlockStar => if c == '/' {
            (Json5Lex::Code, depth)
        } else if c == '*' {
            (Json5Lex::BlockStar, depth)
        } else {
            (Json5Lex::BlockComment, depth)
        },
        Json5Lex::Double => if c == '\\' {
            (Json5Lex::DoubleEscape, depth)
        } else if c == '"' {
            (Json5Lex::Code, depth)
        } else {
            (Json5Lex::Double, depth)
        },
        Json5Lex::DoubleEscape => (Json5Lex::Double, depth),
        Json5Lex::Single => if c == '\\' {
            (Json5Lex::SingleEscape, depth)
        } else if c == '\'' {
            (Json5Lex::Code, depth)
        } else {
            (Json5Lex::Single, depth)
        },
        Json5Lex::SingleEscape => (Json5Lex::Single, depth),
    }
}

/// Whether the arrays and objects of a JSON5 text nest no deeper than the limit.
pub fn json5_depth_within_limit(text: &String) -> (r: bool)
    ensures
        r == json5_depth_ok(text@),
{
    let mut chars = text.as_str().chars();
    let ghost seen: Seq<char> = Seq::empty();
    let mut state = Json5Lex::Code;
    let mut depth: usize = 0;
    let mut deepest: usize = 0;
    let mut done = false;
    while !done
        invariant
            chars.obeys_prophetic_iter_laws(),
            text@ == seen + chars.remaining(),
            json5_scan(seen) == (state, depth as int, deepest as int),
            depth <= JSON5_DEPTH_LIMIT + 1,
            deepest <= JSON5_DEPTH_LIMIT + 1,
            done ==> chars.remaining().len() == 0,
        decreases text@.len() - seen.len() + if done { 0int } else { 1int },
    {
        let ghost before = chars.remaining();
        match chars.next() {
            Some(c) => {
                let (s2, d2) = lex_step_exec(state, depth, c);
                proof {
                    assert(before.len() > 0);
                    assert(c == before[0]);
                    let seen2 = seen.push(c);
                    assert(seen2.drop_last() =~= seen);
                    assert(seen + before =~= seen2 + before.drop_first());
                    seen = seen2;
                }
                state = s2;
                depth = d2;
                if depth > deepest {
                    deepest = depth;
                }
            },
            None => {
                done = true;
            },
        }
    }
    assert(seen =~= text@);
    deepest <= JSON5_DEPTH_LIMIT
}

/// Relies on `json5::from_str` into a `serde_json::Value`: the value in canonical
/// form, or the parser's message. The parser descends once per level of nesting,
/// so the text is held to the depth limit.
#[verifier::external_body]
fn read_json5(text: &String) -> (r: Result<String, String>)
    requires
        json5_depth_ok(text@),
    ensures
        text_view(r) == json5_read(text@),
{
    match json5::from_str::<serde_json::Value>(text) {
        Ok(v) => Ok(v.to_string()),
        Err(e) => Err(e.to_string()),
    }
}

/// Relies on `ron::from_str` into a `serde_json::Value`: the value in canonical
/// form, or the parser's message.
#[verifier::external_body]
fn read_ron(text: &String) -> (r: Result<String, String>)
    ensures
        text_view(r) == ron_read(text@),
{
    match ron::from_str::<serde_json::Value>(text) {
        Ok(v) => Ok(v.to_string()),
        Err(e) => Err(e.to_string()),
    }
}

/// Relies on `json5::to_string` of the `serde_json::Value` that the canonical text
/// stands for.
#[verifier::external_body]
fn write_json5(canonical: &String) -> (r: Result<String, String>)
    ensures
        text_view(r) == json5_write(canonical@),
{
    let value: serde_json::Value = match serde_json::from_str(canonical) {
        Ok(v) => v,
        Err(e) => return Err(e.to_string()),
    };
    json5::to_string(&value).map_err(|e| e.to_string())
}

/// Relies on `ron::ser::to_string` of the `serde_json::Value` that the canonical
/// text stands for.
#[verifier::external_body]
fn write_ron(canonical: &String) -> (r: Result<String, String>)
    ensures
        text_view(r) == ron_write(canonical@),
{
    let value: serde_json::Value = match serde_json::from_str(canonical) {
        Ok(v) => v,
        Err(e) => return Err(e.to_string()),
    };
    ron::ser::to_string(&value).map_err(|e| e.to_string())
}

/// The message of the error that an `Unserializable` input gives.
pub open spec fn unserializable_message() -> Seq<char> {
    "Data is unserializable"@
}

/// The serialized form of a value of the type `info` in the format `format`.
/// Errors name `name`: the type has no registration, or cannot be serialized.
pub open spec fn serialize_spec(info: TypeInfo, name: Seq<char>, value: Seq<char>, format: RemoteSerializationFormat) -> Result<WireValue, ErrorView> {
    if !info.registered {
        Err(ErrorView::MissingTypeRegistration(name))
    } else if !info.serializable {
        Err(ErrorView::Serialization(name))
    } else {
        match format {
            RemoteSerializationFormat::Json => Ok(WireValue::Json(value)),
            RemoteSerializationFormat::Json5 => match json5_write(value) {
                Ok(t) => Ok(WireValue::Json5(t)),
                Err(_) => Err(ErrorView::Serialization(name)),
            },
            RemoteSerializationFormat::Ron => match ron_write(value) {
                Ok(t) => Ok(WireValue::Ron(t)),
                Err(_) => Err(ErrorView::Serialization(name)),
            },
        }
    }
}

/// A read outcome as a deserialization outcome for the type named `name`.
pub open spec fn read_outcome(r: Result<Seq<char>, Seq<char>>, name: Seq<char>) -> Result<Seq<char>, ErrorView> {
    match r {
        Ok(c) => Ok(c),
        Err(m) => Err(ErrorView::Deserialization { type_path: name, error: m }),
    }
}

/// The canonical value that a serialized input stands for, as a value of the type
/// `info` named `name`. Text in any of the three formats is accepted whatever the
/// session's format; `Default` stands for the type's default value;
/// `Unserializable` is refused.
pub open spec fn deserialize_spec(data: WireValue, info: TypeInfo, name: Seq<char>) -> Result<Seq<char>, ErrorView> {
    match data {
        WireValue::Json(s) => read_outcome(json_read(s), name),
        WireValue::Json5(s) => if json5_depth_ok(s) {
            read_outcome(json5_read(s), name)
        } else {
            Err(ErrorView::Deserialization { type_path: name, error: json5_depth_message() })
        },
        WireValue::Ron(s) => read_outcome(ron_read(s), name),
        WireValue::Default => match info.default_value {
            Some(d) => Ok(d@),
            None => Err(ErrorView::MissingDefault(name)),
        },
        WireValue::Unserializable => Err(ErrorView::Deserialization { type_path: name, error: unserializable_message() }),
    }
}

/// The view of a serialization outcome.
pub open spec fn wire_outcome(r: Result<BrpSerializedData, BrpError>) -> Result<WireValue, ErrorView> {
    match r {
        Ok(d) => Ok(d@),
        Err(e) => Err(e@),
    }
}

/// The view of a deserialization outcome.
pub open spec fn value_outcome(r: Result<String, BrpError>) -> Result<Seq<char>, ErrorView> {
    match r {
        Ok(v) => Ok(v@),
        Err(e) => Err(e@),
    }
}

/// The view of an outcome that carries a boolean.
pub open spec fn bool_outcome(r: Result<bool, BrpError>) -> Result<bool, ErrorView> {
    match r {
        Ok(b) => Ok(b),
        Err(e) => Err(e@),
    }
}

/// The view of an outcome that carries nothing.
pub open spec fn unit_outcome(r: Result<(), BrpError>) -> Result<(), ErrorView> {
    match r {
        Ok(u) => Ok(u),
        Err(e) => Err(e@),
    }
}

impl BrpSerializedData {
    /// Serializes a value of the type `info` in the given format.
    pub fn try_from_reflect(info: &TypeInfo, name: &String, value: &String, format: RemoteSerializationFormat) -> (r: Result<BrpSerializedData, BrpError>)
        ensures
            wire_outcome(r) == serialize_spec(*info, name@, value@, format),
    {
        if !info.registered {
            return Err(BrpError::MissingTypeRegistration(name.clone()));
        }
        if !info.serializable {
            return Err(BrpError::Serialization(name.clone()));
        }
        match format {
            RemoteSerializationFormat::Json => Ok(BrpSerializedData::Json(value.clone())),
            RemoteSerializationFormat::Json5 => match write_json5(value) {
                Ok(t) => Ok(BrpSerializedData::Json5(t)),
                Err(_) => Err(BrpError::Serialization(name.clone())),
            },
            RemoteSerializationFormat::Ron => match write_ron(value) {
                Ok(t) => Ok(BrpSerializedData::Ron(t)),
                Err(_) => Err(BrpError::Serialization(name.clone())),
            },
        }
    }

    /// Reads this input as a value of the type `info` named `name`, into canonical form.
    pub fn try_deserialize(&self, info: &TypeInfo, name: &String) -> (r: Result<String, BrpError>)
        ensures
            value_outcome(r) == deserialize_spec(self@, *info, name@),
    {
        let read = match self {
            BrpSerializedData::Json(s) => read_json(s),
            BrpSerializedData::Json5(s) => {
                if !json5_depth_within_limit(s) {
                    return Err(BrpError::Deserialization { type_path: name.clone(), error: "nesting too deep".to_string() });
                }
                read_json5(s)
            },
            BrpSerializedData::Ron(s) => read_ron(s),
            BrpSerializedData::Default => {
                return match &info.default_value {
                    Some(d) => Ok(d.clone()),
                    None => Err(BrpError::MissingDefault(name.clone())),
                };
            },
            BrpSerializedData::Unserializable => {
                return Err(BrpError::Deserialization {
                    type_path: name.clone(),
                    error: "Data is unserializable".to_string(),
                });
            },
        };
        match read {
            Ok(c) => Ok(c),
            Err(m) => Err(BrpError::Deserialization { type_path: name.clone(), error: m }),
        }
    }
}


/// Reading a value in the session's format and writing it back in that format
/// gives the format's own writing of the value read. For JSON this is the
/// canonical form of the input text: the same JSON value, with object keys in
/// order and no insignificant whitespace.
pub proof fn lemma_round_trip(info: TypeInfo, name: Seq<char>, w: WireValue, format: RemoteSerializationFormat)
    requires
        info.registered,
        info.serializable,
        match w {
            WireValue::Json(_) => format == RemoteSerializationFormat::Json,
            WireValue::Json5(_) => format == RemoteSerializationFormat::Json5,
            WireValue::Ron(_) => format == RemoteSerializationFormat::Ron,
            _ => false,
        },
        deserialize_spec(w, info, name) is Ok,
    ensures
        serialize_spec(info, name, deserialize_spec(w, info, name)->Ok_0, format) == match w {
            WireValue::Json(s) => Ok(WireValue::Json(json_read(s)->Ok_0)),
            WireValue::Json5(s) => match json5_write(json5_read(s)->Ok_0) {
                Ok(t) => Ok(WireValue::Json5(t)),
                Err(_) => Err(ErrorView::Serialization(name)),
            },
            WireValue::Ron(s) => match ron_write(ron_read(s)->Ok_0) {
                Ok(t) => Ok(WireValue::Ron(t)),
                Err(_) => Err(ErrorView::Serialization(name)),
            },
            _ => Err(ErrorView::InternalError),
        },
{
}

/// The serialized value of the component named `name` on the entity `rec`.
pub open spec fn fetch_spec(w: World, rec: EntityRecord, name: Seq<char>, format: RemoteSerializationFormat) -> Result<WireValue, ErrorView> {
    match component_spec(w.types@, name) {
        Err(e) => Err(e),
        Ok(t) => if !w.types@[t].registered {
            Err(ErrorView::MissingTypeRegistration(name))
        } else if !has_component(rec, t) {
            Err(ErrorView::ComponentInvalidAccess(name))
        } else {
            serialize_spec(w.types@[t], name, component_value(rec, t)@, format)
        },
    }
}

/// Whether the component named `name` on the entity `rec` equals the value that
/// `data` stands for. An absent component equals nothing; a type without
/// structural equality cannot be compared.
pub open spec fn component_eq_spec(w: World, rec: EntityRecord, name: Seq<char>, data: WireValue) -> Result<bool, ErrorView> {
    match component_spec(w.types@, name) {
        Err(e) => Err(e),
        Ok(t) => if !w.types@[t].registered {
            Err(ErrorView::MissingTypeRegistration(name))
        } else {
            match deserialize_spec(data, w.types@[t], name) {
                Err(e) => Err(e),
                Ok(c) => if !has_component(rec, t) {
                    Ok(false)
                } else if !w.types@[t].partial_eq {
                    Err(ErrorView::MissingPartialEq(name))
                } else {
                    Ok(c == component_value(rec, t)@)
                },
            }
        },
    }
}

/// What inserting `data` as the component named `name` amounts to: the type's
/// index and the canonical value to store, or the error.
pub open spec fn insert_spec(w: World, name: Seq<char>, data: WireValue) -> Result<(int, Seq<char>), ErrorView> {
    match resolve_spec(w.types@, name) {
        Err(e) => Err(e),
        Ok(t) => if !w.types@[t].registered {
            Err(ErrorView::MissingTypeRegistration(name))
        } else {
            match deserialize_spec(data, w.types@[t], name) {
                Err(e) => Err(e),
                Ok(c) => if w.types@[t].default_value.is_none() {
                    Err(ErrorView::MissingDefault(name))
                } else if !w.types@[t].is_component {
                    Err(ErrorView::MissingReflect(name))
                } else {
                    Ok((t, c))
                },
            }
        },
    }
}

impl BrpSerializedData {
    /// Serializes the component named `name` of the entity `rec`.
    pub fn try_from_entity_component(world: &World, rec: &EntityRecord, name: &String, format: RemoteSerializationFormat) -> (r: Result<BrpSerializedData, BrpError>)
        requires
            world.wf(),
            record_wf(*rec, world.types@.len() as int),
        ensures
            wire_outcome(r) == fetch_spec(*world, *rec, name@, format),
    {
        let t = component_id_for_name(world, name)?;
        let info = &world.types[t];
        if !info.registered {
            return Err(BrpError::MissingTypeRegistration(name.clone()));
        }
        match rec.find_component(t) {
            None => Err(BrpError::ComponentInvalidAccess(name.clone())),
            Some(j) => {
                proof {
                    let c = choose|c: int| 0 <= c < rec.components@.len() && rec.components@[c].type_index == t;
                    assert(c == j as int);
                }
                BrpSerializedData::try_from_reflect(info, name, &rec.components[j].value, format)
            },
        }
    }

    /// Compares the component named `name` of the entity `rec` with the value
    /// that this input stands for.
    pub fn try_partial_eq_entity_component(&self, world: &World, rec: &EntityRecord, name: &String) -> (r: Result<bool, BrpError>)
        requires
            world.wf(),
            record_wf(*rec, world.types@.len() as int),
        ensures
            bool_outcome(r) == component_eq_spec(*world, *rec, name@, self@),
    {
        let t = component_id_for_name(world, name)?;
        let info = &world.types[t];
        if !info.registered {
            return Err(BrpError::MissingTypeRegistration(name.clone()));
        }
        let expected = self.try_deserialize(info, name)?;
        match rec.find_component(t) {
            None => Ok(false),
            Some(j) => {
                proof {
                    let c = choose|c: int| 0 <= c < rec.components@.len() && rec.components@[c].type_index == t;
                    assert(c == j as int);
                }
                if !info.partial_eq {
                    return Err(BrpError::MissingPartialEq(name.clone()));
                }
                Ok(expected == rec.components[j].value)
            },
        }
    }

    /// Checks that this input can be inserted as the component named `name`, and
    /// gives the component type and the canonical value to store.
    pub fn prepare_component(&self, world: &World, name: &String) -> (r: Result<(usize, String), BrpError>)
        requires
            world.wf(),
        ensures
            match r {
                Ok((t, c)) => insert_spec(*world, name@, self@) == Ok::<(int, Seq<char>), ErrorView>((t as int, c@))
                    && t < world.types@.len() && world.types@[t as int].is_component,
                Err(e) => insert_spec(*world, name@, self@) == Err::<(int, Seq<char>), ErrorView>(e@),
            },
    {
        let t = type_id_for_name(world, name)?;
        if !world.types[t].registered {
            return Err(BrpError::MissingTypeRegistration(name.clone()));
        }
        let value = self.try_deserialize(&world.types[t], name)?;
        if world.types[t].default_value.is_none() {
            return Err(BrpError::MissingDefault(name.clone()));
        }
        if !world.types[t].is_component {
            return Err(BrpError::MissingReflect(name.clone()));
        }
        Ok((t, value))
    }

    /// Inserts this input as the component named `name` into the entity at index
    /// `k`, replacing the value it had. On an error the world is unchanged.
    pub fn try_insert_component(&self, world: &mut World, k: usize, name: &String) -> (r: Result<(), BrpError>)
        requires
            old(world).wf(),
            k < old(world).entities@.len(),
        ensures
            final(world).wf(),
            match insert_spec(*old(world), name@, self@) {
                Ok((t, c)) => r.is_ok() && component_set(*old(world), *final(world), k as int, t, c),
                Err(e) => r.is_err() && r.unwrap_err()@ == e && *final(world) == *old(world),
            },
    {
        let (t, value) = self.prepare_component(world, name)?;
        world.set_component(k, t, value);
        Ok(())
    }
}

/// The handle type named by its full path `name`, and the asset type it points into.
pub open spec fn handle_type_spec(w: World, name: Seq<char>) -> Result<(int, int), ErrorView> {
    if !exists|i: int| long_match(w.types@, name, i) {
        Err(ErrorView::MissingTypeRegistration(name))
    } else {
        let t = choose|i: int| long_match(w.types@, name, i);
        match w.types@[t].handle_of {
            None => Err(ErrorView::AssetNotFound(name)),
            Some(a) => if !w.types@[a as int].registered || !w.types@[a as int].is_asset {
                Err(ErrorView::MissingTypeRegistration(name))
            } else {
                Ok((t, a as int))
            },
        }
    }
}

/// The asset type and the canonical handle that a request names.
pub open spec fn handle_spec(w: World, name: Seq<char>, handle: WireValue) -> Result<(int, Seq<char>), ErrorView> {
    match handle_type_spec(w, name) {
        Err(e) => Err(e),
        Ok((t, a)) => match deserialize_spec(handle, w.types@[t], name) {
            Err(e) => Err(e),
            Ok(h) => if w.types@[t].default_value.is_none() {
                Err(ErrorView::MissingDefault(name))
            } else {
                Ok((a, h))
            },
        },
    }
}

/// The serialized asset that a request names.
pub open spec fn get_asset_spec(w: World, name: Seq<char>, handle: WireValue, format: RemoteSerializationFormat) -> Result<WireValue, ErrorView> {
    match handle_spec(w, name, handle) {
        Err(e) => Err(e),
        Ok((a, h)) => if !has_asset(w, a, h) {
            Err(ErrorView::AssetNotFound(name))
        } else {
            serialize_spec(w.types@[a], w.types@[a].type_path@, asset_value(w, a, h)@, format)
        },
    }
}

/// What inserting an asset amounts to: its type, its canonical handle and its
/// canonical value, or the error.
pub open spec fn insert_asset_spec(w: World, name: Seq<char>, handle: WireValue, asset: WireValue) -> Result<(int, Seq<char>, Seq<char>), ErrorView> {
    match handle_spec(w, name, handle) {
        Err(e) => Err(e),
        Ok((a, h)) => match deserialize_spec(asset, w.types@[a], w.types@[a].type_path@) {
            Err(e) => Err(e),
            Ok(v) => Ok((a, h, v)),
        },
    }
}

/// The index of the type whose full path is `name`.
fn find_type_path(types: &Vec<TypeInfo>, name: &String) -> (r: Option<usize>)
    requires
        paths_unique(types@),
    ensures
        r.is_some() <==> exists|i: int| long_match(types@, name@, i),
        r.is_some() ==> r.unwrap() == choose|i: int| long_match(types@, name@, i),
{
    let mut i: usize = 0;
    while i < types.len()
        invariant
            paths_unique(types@),
            i <= types@.len(),
            forall|j: int| 0 <= j < i ==> !long_match(types@, name@, j),
        decreases types@.len() - i,
    {
        if types[i].type_path == *name {
            proof {
                assert(long_match(types@, name@, i as int));
                let c = choose|c: int| long_match(types@, name@, c);
                if c != i {
                    assert(types@[c].type_path@ != types@[i as int].type_path@);
                }
            }
            return Some(i);
        }
        i = i + 1;
    }
    None
}

/// Finds the handle type and asset type that a request names, and reads its handle.
fn resolve_handle(world: &World, name: &String, handle: &BrpSerializedData) -> (r: Result<(usize, String), BrpError>)
    requires
        world.wf(),
    ensures
        match r {
            Ok((a, h)) => handle_spec(*world, name@, handle@) == Ok::<(int, Seq<char>), ErrorView>((a as int, h@))
                && a < world.types@.len(),
            Err(e) => handle_spec(*world, name@, handle@) == Err::<(int, Seq<char>), ErrorView>(e@),
        },
{
    let t = match find_type_path(&world.types, name) {
        Some(t) => t,
        None => return Err(BrpError::MissingTypeRegistration(name.clone())),
    };
    let a = match world.types[t].handle_of {
        Some(a) => a,
        None => return Err(BrpError::AssetNotFound(name.clone())),
    };
    if !world.types[a].registered || !world.types[a].is_asset {
        return Err(BrpError::MissingTypeRegistration(name.clone()));
    }
    let h = handle.try_deserialize(&world.types[t], name)?;
    if world.types[t].default_value.is_none() {
        return Err(BrpError::MissingDefault(name.clone()));
    }
    Ok((a, h))
}

impl BrpSerializedData {
    /// Serializes the asset that the handle type `name` and the handle point to.
    pub fn try_from_asset(world: &World, name: &String, handle: &BrpSerializedData, format: RemoteSerializationFormat) -> (r: Result<BrpSerializedData, BrpError>)
        requires
            world.wf(),
        ensures
            wire_outcome(r) == get_asset_spec(*world, name@, handle@, format),
    {
        let (a, h) = resolve_handle(world, name, handle)?;
        match world.find_asset(a, &h) {
            None => Err(BrpError::AssetNotFound(name.clone())),
            Some(k) => {
                let info = &world.types[a];
                BrpSerializedData::try_from_reflect(info, &info.type_path, &world.assets[k].value, format)
            },
        }
    }

    /// Stores `asset` under the handle that `name` and `handle` give. On an error
    /// the world is unchanged.
    pub fn try_insert_asset(world: &mut World, name: &String, handle: &BrpSerializedData, asset: &BrpSerializedData) -> (r: Result<(), BrpError>)
        requires
            old(world).wf(),
        ensures
            final(world).wf(),
            match insert_asset_spec(*old(world), name@, handle@, asset@) {
                Ok((a, h, v)) => r.is_ok() && asset_set(*old(world), *final(world), a, h, v),
                Err(e) => r.is_err() && r.unwrap_err()@ == e && *final(world) == *old(world),
            },
    {
        let (a, h) = resolve_handle(world, name, handle)?;
        let value = asset.try_deserialize(&world.types[a], &world.types[a].type_path)?;
        world.set_asset(a, h, value);
        Ok(())
    }
}

} // verus!
