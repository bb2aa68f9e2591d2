//! A decoded compose document.

use crate::yaml::{
    as_mapping, mapping_entries, mapping_get, mapping_other_entries, refers_to, value_as_mapping,
};
use vstd::prelude::*;

verus! {

/// A compose document as far as this crate reads it: its version and its
/// services. Either may be missing from a document.
#[derive(Debug, Clone)]
pub struct DockerComposeFile {
    pub version: Option<String>,
    pub services: Option<serde_yaml::Mapping>,
}

impl DockerComposeFile {
    /// The version of the document as text.
    pub open spec fn version_text(&self) -> Option<Seq<char>> {
        match self.version {
            Some(version) => Some(version@),
            None => None,
        }
    }

    /// What the document holds under `services`, by name: nothing where it
    /// has no `services`.
    pub open spec fn entries(&self) -> Map<Seq<char>, serde_yaml::Value> {
        match self.services {
            Some(services) => mapping_entries(services),
            None => Map::empty(),
        }
    }

    /// What the document holds under `services` under keys that are no
    /// strings. No service is found there.
    pub open spec fn other_entries(&self) -> Map<serde_yaml::Value, serde_yaml::Value> {
        match self.services {
            Some(services) => mapping_other_entries(services),
            None => Map::empty(),
        }
    }

    /// The service `name` of the document. A document has that service where
    /// it has `services`, these hold an entry under `name`, and that entry is
    /// a mapping.
    pub open spec fn section(&self, name: Seq<char>) -> Option<serde_yaml::Mapping> {
        if self.entries().contains_key(name) {
            value_as_mapping(self.entries()[name])
        } else {
            None
        }
    }

    /// Looks the service `name` up. An entry under `name` that is no mapping
    /// counts as missing.
    pub fn get_service(&self, name: &str) -> (found: Option<&serde_yaml::Mapping>)
        ensures
            refers_to(found, self.section(name@)),
    {
        match &self.services {
            None => None,
            Some(services) => match mapping_get(services, name) {
                None => None,
                Some(value) => as_mapping(value),
            },
        }
    }
}

} // verus!
