//! The trusted boundary to the three format crates. Each adapter is a pair
//! of wrappers around an outside parser and serializer, with the outcome of
//! each call named as a function of the input alone. The converters that
//! move values between the outside crates' types and the library's tree are
//! part of the same trusted boundary: nothing inspects an outside value
//! elsewhere.
//!
//! Floating-point numbers never cross into the library as machine floats:
//! each adapter carries them as their decimal text, rendered by the outside
//! crate on parsing and re-read by it on serialization.

use vstd::prelude::*;

use serde_json::Value as JsonVal;
use serde_yaml::Value as YamlVal;
use toml::Value as TomlVal;

use crate::value::node_wf;
use crate::value::Node;
use crate::value::TreeValue;

verus! {

#[verifier::external_type_specification]
#[verifier::external_body]
pub struct ExJsonValue(serde_json::Value);

#[verifier::external_type_specification]
#[verifier::external_body]
pub struct ExYamlValue(serde_yaml::Value);

#[verifier::external_type_specification]
#[verifier::external_body]
pub struct ExTomlValue(toml::Value);

/// The tree that parsing JSON text yields, `None` when the text is rejected.
pub uninterp spec fn json_doc_of(text: Seq<char>) -> Option<Node>;

/// The text that serializing a tree as JSON yields, `None` when the tree
/// cannot be represented (a float whose text is not a JSON number).
pub uninterp spec fn json_text_of(n: Node) -> Option<Seq<char>>;

/// The tree that parsing YAML text yields, `None` when the text is rejected
/// or uses what the tree cannot hold (a non-string key, a tagged value).
pub uninterp spec fn yaml_doc_of(text: Seq<char>) -> Option<Node>;

/// The text that serializing a tree as YAML yields, `None` when the tree
/// cannot be represented.
pub uninterp spec fn yaml_text_of(n: Node) -> Option<Seq<char>>;

/// The tree that parsing TOML text yields, `None` when the text is rejected.
pub uninterp spec fn toml_doc_of(text: Seq<char>) -> Option<Node>;

/// The text that serializing a tree as TOML yields, `None` when the tree
/// cannot be represented (a null, a non-table root, a float whose text is
/// not numeric).
pub uninterp spec fn toml_text_of(n: Node) -> Option<Seq<char>>;

/// Moves a parsed `serde_json::Value` into the library's tree: integers
/// through `Number::as_i64`, other numbers as their decimal text.
#[verifier::external_body]
fn value_from_json(j: &JsonVal) -> TreeValue {
    match j {
        JsonVal::Null => TreeValue::Null,
        JsonVal::Bool(b) => TreeValue::Bool(*b),
        JsonVal::Number(n) => n.as_i64().map_or_else(|| TreeValue::Float(n.to_string()), TreeValue::Int),
        JsonVal::String(s) => TreeValue::Str(s.clone()),
        JsonVal::Array(a) => TreeValue::Sequence(a.iter().map(value_from_json).collect()),
        JsonVal::Object(m) => TreeValue::Mapping(m.iter().map(|(k, v)| (k.clone(), value_from_json(v))).collect()),
    }
}

/// Moves the library's tree into a `serde_json::Value`; `None` when a float's
/// text is not a JSON number.
#[verifier::external_body]
fn value_to_json(v: &TreeValue) -> Option<JsonVal> {
    match v {
        TreeValue::Null => Some(JsonVal::Null),
        TreeValue::Bool(b) => Some(JsonVal::Bool(*b)),
        TreeValue::Int(i) => Some(JsonVal::Number((*i).into())),
        TreeValue::Float(t) => serde_json::from_str(t).ok().map(JsonVal::Number),
        TreeValue::Str(s) => Some(JsonVal::String(s.clone())),
        TreeValue::Sequence(a) => a.iter().map(value_to_json).collect::<Option<_>>().map(JsonVal::Array),
        TreeValue::Mapping(es) => es.iter().map(|(k, v)| Some((k.clone(), value_to_json(v)?))).collect::<Option<_>>().map(JsonVal::Object),
    }
}

/// Relies on `serde_json::from_str::<serde_json::Value>`: the outcome is a
/// function of the text alone, here named `json_doc_of`; a parsed mapping
/// carries each key once, since `serde_json::Map` is a map.
#[verifier::external_body]
pub(crate) fn json_parse(text: &str) -> (r: Result<TreeValue, String>)
    ensures
        match r {
            Ok(v) => json_doc_of(text@) == Some(v@) && node_wf(v@),
            Err(_) => json_doc_of(text@) is None,
        },
{
    match serde_json::from_str::<serde_json::Value>(text) {
        Ok(j) => Ok(value_from_json(&j)),
        Err(e) => Err(e.to_string()),
    }
}

/// Relies on `serde_json::to_string_pretty`: the outcome is a function of
/// the tree alone, here named `json_text_of`.
#[verifier::external_body]
pub(crate) fn json_serialize(v: &TreeValue) -> (r: Result<String, String>)
    ensures
        match r {
            Ok(s) => json_text_of(v@) == Some(s@),
            Err(_) => json_text_of(v@) is None,
        },
{
    match value_to_json(v) {
        Some(j) => serde_json::to_string_pretty(&j).map_err(|e| e.to_string()),
        None => Err(String::from("value cannot be represented in JSON")),
    }
}

/// Moves a parsed `serde_yaml::Value` into the library's tree; `None` for a
/// non-string mapping key or a tagged value.
#[verifier::external_body]
fn value_from_yaml(y: &YamlVal) -> Option<TreeValue> {
    match y {
        YamlVal::Null => Some(TreeValue::Null),
        YamlVal::Bool(b) => Some(TreeValue::Bool(*b)),
        YamlVal::Number(n) => Some(n.as_i64().map_or_else(|| TreeValue::Float(n.to_string()), TreeValue::Int)),
        YamlVal::String(s) => Some(TreeValue::Str(s.clone())),
        YamlVal::Sequence(a) => a.iter().map(value_from_yaml).collect::<Option<_>>().map(TreeValue::Sequence),
        YamlVal::Mapping(m) => m.iter().map(|(k, v)| Some((k.as_str()?.to_string(), value_from_yaml(v)?))).collect::<Option<_>>().map(TreeValue::Mapping),
        YamlVal::Tagged(_) => None,
    }
}

/// Moves the library's tree into a `serde_yaml::Value`; `None` when a
/// float's text is not numeric.
#[verifier::external_body]
fn value_to_yaml(v: &TreeValue) -> Option<YamlVal> {
    match v {
        TreeValue::Null => Some(YamlVal::Null),
        TreeValue::Bool(b) => Some(YamlVal::Bool(*b)),
        TreeValue::Int(i) => Some((*i).into()),
        TreeValue::Float(t) => t.parse().ok().map(YamlVal::Number),
        TreeValue::Str(s) => Some(YamlVal::String(s.clone())),
        TreeValue::Sequence(a) => a.iter().map(value_to_yaml).collect::<Option<_>>().map(YamlVal::Sequence),
        TreeValue::Mapping(es) => es.iter().map(|(k, v)| Some((YamlVal::String(k.clone()), value_to_yaml(v)?))).collect::<Option<_>>().map(YamlVal::Mapping),
    }
}

/// Relies on `serde_yaml::from_str::<serde_yaml::Value>`: the outcome is a
/// function of the text alone, here named `yaml_doc_of`; a parsed mapping
/// carries each key once, since `serde_yaml::Mapping` is a map.
#[verifier::external_body]
pub(crate) fn yaml_parse(text: &str) -> (r: Result<TreeValue, String>)
    ensures
        match r {
            Ok(v) => yaml_doc_of(text@) == Some(v@) && node_wf(v@),
            Err(_) => yaml_doc_of(text@) is None,
        },
{
    match serde_yaml::from_str::<serde_yaml::Value>(text) {
        Ok(y) => value_from_yaml(&y).ok_or_else(|| String::from("unsupported YAML structure")),
        Err(e) => Err(e.to_string()),
    }
}

/// Relies on `serde_yaml::to_string`: the outcome is a function of the tree
/// alone, here named `yaml_text_of`.
#[verifier::external_body]
pub(crate) fn yaml_serialize(v: &TreeValue) -> (r: Result<String, String>)
    ensures
        match r {
            Ok(s) => yaml_text_of(v@) == Some(s@),
            Err(_) => yaml_text_of(v@) is None,
        },
{
    match value_to_yaml(v) {
        Some(y) => serde_yaml::to_string(&y).map_err(|e| e.to_string()),
        None => Err(String::from("value cannot be represented in YAML")),
    }
}

/// Moves a parsed `toml::Value` into the library's tree: floats as their
/// decimal text, datetimes as their text form.
#[verifier::external_body]
fn value_from_toml(t: &TomlVal) -> TreeValue {
    match t {
        TomlVal::String(s) => TreeValue::Str(s.clone()),
        TomlVal::Integer(i) => TreeValue::Int(*i),
        TomlVal::Float(f) => TreeValue::Float(f.to_string()),
        TomlVal::Boolean(b) => TreeValue::Bool(*b),
        TomlVal::Datetime(d) => TreeValue::Str(d.to_string()),
        TomlVal::Array(a) => TreeValue::Sequence(a.iter().map(value_from_toml).collect()),
        TomlVal::Table(m) => TreeValue::Mapping(m.iter().map(|(k, v)| (k.clone(), value_from_toml(v))).collect()),
    }
}

/// Moves the library's tree into a `toml::Value`; `None` for a null or a
/// float whose text is not numeric, which TOML cannot hold.
#[verifier::external_body]
fn value_to_toml(v: &TreeValue) -> Option<TomlVal> {
    match v {
        TreeValue::Null => None,
        TreeValue::Bool(b) => Some(TomlVal::Boolean(*b)),
        TreeValue::Int(i) => Some(TomlVal::Integer(*i)),
        TreeValue::Float(t) => t.parse().ok().map(TomlVal::Float),
        TreeValue::Str(s) => Some(TomlVal::String(s.clone())),
        TreeValue::Sequence(a) => a.iter().map(value_to_toml).collect::<Option<_>>().map(TomlVal::Array),
        TreeValue::Mapping(es) => es.iter().map(|(k, v)| Some((k.clone(), value_to_toml(v)?))).collect::<Option<_>>().map(TomlVal::Table),
    }
}

/// Relies on `str::parse::<toml::Value>`: the outcome is a function of the
/// text alone, here named `toml_doc_of`; a parsed table carries each key
/// once, since `toml::map::Map` is a map.
#[verifier::external_body]
pub(crate) fn toml_parse(text: &str) -> (r: Result<TreeValue, String>)
    ensures
        match r {
            Ok(v) => toml_doc_of(text@) == Some(v@) && node_wf(v@),
            Err(_) => toml_doc_of(text@) is None,
        },
{
    match text.parse::<toml::Value>() {
        Ok(t) => Ok(value_from_toml(&t)),
        Err(e) => Err(e.to_string()),
    }
}

/// Relies on `toml::to_string_pretty`: the outcome is a function of the
/// tree alone, here named `toml_text_of`.
#[verifier::external_body]
pub(crate) fn toml_serialize(v: &TreeValue) -> (r: Result<String, String>)
    ensures
        match r {
            Ok(s) => toml_text_of(v@) == Some(s@),
            Err(_) => toml_text_of(v@) is None,
        },
{
    match value_to_toml(v) {
        Some(t) => toml::to_string_pretty(&t).map_err(|e| e.to_string()),
        None => Err(String::from("value cannot be represented in TOML")),
    }
}

} // verus!
