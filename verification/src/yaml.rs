//! What this crate takes on trust from `serde_yaml`.
//!
//! The contents of a compose document are YAML values that this crate never
//! looks into: it finds them by name, copies them and puts them into another
//! mapping. The two types below are therefore opaque, and the functions of
//! `serde_yaml` that handle them are called through wrappers whose contracts
//! are believed, not proved. Each contract is stated over three names:
//! [`mapping_entries`] for what a mapping holds under its string keys,
//! [`mapping_other_entries`] for what it holds under other keys, and
//! [`value_as_mapping`] for the mapping that a value is, where it is one.
//! Nothing is said of the order in which a mapping holds its entries.

use vstd::prelude::*;

verus! {

/// `serde_yaml::Mapping`, a YAML mapping from values to values.
#[verifier::external_type_specification]
#[verifier::external_body]
pub struct ExMapping(serde_yaml::Mapping);

/// `serde_yaml::Value`, any YAML value.
#[verifier::external_type_specification]
#[verifier::external_body]
pub struct ExValue(serde_yaml::Value);

/// The entries of a mapping whose keys are strings, by the text of the key.
pub uninterp spec fn mapping_entries(mapping: serde_yaml::Mapping) -> Map<
    Seq<char>,
    serde_yaml::Value,
>;

/// The entries of a mapping whose keys are no strings, by their keys.
pub uninterp spec fn mapping_other_entries(mapping: serde_yaml::Mapping) -> Map<
    serde_yaml::Value,
    serde_yaml::Value,
>;

/// What `serde_yaml::Value::as_mapping` returns for a value: the mapping that
/// the value is, tags on it left aside, and `None` for a value that is no
/// mapping.
pub uninterp spec fn value_as_mapping(value: serde_yaml::Value) -> Option<serde_yaml::Mapping>;

/// `found` refers to `value`, or both are `None`.
pub open spec fn refers_to<T>(found: Option<&T>, value: Option<T>) -> bool {
    match found {
        Some(reference) => value == Some(*reference),
        None => value is None,
    }
}

/// `serde_yaml::Mapping::new`: a mapping without entries.
#[verifier::external_body]
pub(crate) fn new_mapping() -> (mapping: serde_yaml::Mapping)
    ensures
        forall|name: Seq<char>| !mapping_entries(mapping).contains_key(name),
        forall|key: serde_yaml::Value| !mapping_other_entries(mapping).contains_key(key),
{
    serde_yaml::Mapping::new()
}

/// `serde_yaml::Mapping::get` with a string as the key: the value of the
/// entry whose key is that string, and `None` where there is no such entry.
#[verifier::external_body]
pub(crate) fn mapping_get<'a>(mapping: &'a serde_yaml::Mapping, name: &str) -> (found: Option<
    &'a serde_yaml::Value,
>)
    ensures
        refers_to(
            found,
            if mapping_entries(*mapping).contains_key(name@) {
                Some(mapping_entries(*mapping)[name@])
            } else {
                None
            },
        ),
{
    mapping.get(name)
}

/// `serde_yaml::Value::as_mapping`.
#[verifier::external_body]
pub(crate) fn as_mapping<'a>(value: &'a serde_yaml::Value) -> (found: Option<
    &'a serde_yaml::Mapping,
>)
    ensures
        refers_to(found, value_as_mapping(*value)),
{
    value.as_mapping()
}

/// `serde_yaml::Mapping::insert` with the string `name` as the key and the
/// mapping `content` as the value. Afterwards the entry under `name` is a
/// value that `as_mapping` takes for `content`, whether or not there was an
/// entry under `name` before, and the entries under other keys are as
/// before.
#[verifier::external_body]
pub(crate) fn insert_section(
    mapping: &mut serde_yaml::Mapping,
    name: &str,
    content: serde_yaml::Mapping,
)
    ensures
        mapping_entries(*final(mapping)) == mapping_entries(*old(mapping)).insert(
            name@,
            mapping_entries(*final(mapping))[name@],
        ),
        value_as_mapping(mapping_entries(*final(mapping))[name@]) == Some(content),
        mapping_other_entries(*final(mapping)) == mapping_other_entries(*old(mapping)),
{
    mapping.insert(serde_yaml::Value::String(name.to_owned()), serde_yaml::Value::Mapping(content));
}

/// `Clone::clone` of `serde_yaml::Mapping`: a mapping equal to the given one.
#[verifier::external_body]
pub(crate) fn clone_mapping(mapping: &serde_yaml::Mapping) -> (copy: serde_yaml::Mapping)
    ensures
        copy == *mapping,
{
    mapping.clone()
}

} // verus!
