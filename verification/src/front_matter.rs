//! The boundary to the YAML crates.
//!
//! A front-matter block is held as a `yaml_rust::Yaml` value, which the verifier
//! cannot look into. This module declares that type, names what the library
//! reads from it, and wraps the calls that parse, query, change and print it.
//! Nothing in this module is proved: every contract here is taken on trust from
//! the sources of `frontmatter` and `yaml-rust`.

use vstd::prelude::*;

verus! {

/// `yaml_rust::Yaml`, a node of a YAML document.
#[verifier::external_type_specification]
#[verifier::external_body]
pub struct ExYaml(yaml_rust::Yaml);

/// `yaml_rust::ScanError`, the error of the YAML scanner and parser.
#[verifier::external_type_specification]
#[verifier::external_body]
pub struct ExScanError(yaml_rust::ScanError);

/// `yaml_rust::EmitError`, the error of the YAML emitter.
#[verifier::external_type_specification]
#[verifier::external_body]
pub struct ExEmitError(yaml_rust::EmitError);

/// What stands under a key of a front-matter block: the kind of the node,
/// with its content where the library reads it.
#[derive(Debug, PartialEq, Eq)]
pub enum Field {
    /// A floating-point scalar.
    Real,
    /// An integer scalar.
    Integer(i64),
    /// A string scalar.
    Text(String),
    /// A boolean scalar.
    Boolean,
    /// A sequence.
    Sequence,
    /// A mapping.
    Mapping,
    /// An alias.
    Alias,
    /// The null scalar.
    Null,
    /// No usable node: the key is missing, or its value could not be read.
    Absent,
}

/// The entries of a front-matter block whose keys are strings, each with what
/// stands under it. A block that is no mapping has no entries.
pub uninterp spec fn yaml_entries(front: yaml_rust::Yaml) -> Map<Seq<char>, Field>;

/// Whether a front-matter block is a mapping.
pub uninterp spec fn yaml_is_mapping(front: yaml_rust::Yaml) -> bool;

/// The text that the emitter prints for a front-matter block, or `None` where
/// it reports an error.
pub uninterp spec fn yaml_document(front: yaml_rust::Yaml) -> Option<Seq<char>>;

/// What `frontmatter::parse` makes of a document's text.
pub uninterp spec fn parsed_front_matter(text: Seq<char>) -> Result<
    Option<yaml_rust::Yaml>,
    yaml_rust::ScanError,
>;

/// What a lookup of `key` in a front-matter block yields.
pub open spec fn field_of(front: yaml_rust::Yaml, key: Seq<char>) -> Field {
    if yaml_entries(front).dom().contains(key) {
        yaml_entries(front)[key]
    } else {
        Field::Absent
    }
}

/// Calls `frontmatter::parse`, which looks for a block between a first line
/// `---` and the next `---` line break, hands it to the YAML loader and
/// returns the last document loaded, `None` where there is no such block or
/// the block is empty, and the loader's error where it fails. The result is a
/// function of the text alone.
#[verifier::external_body]
pub(crate) fn parse_front_matter(text: &str) -> (r: Result<
    Option<yaml_rust::Yaml>,
    yaml_rust::ScanError,
>)
    ensures
        r == parsed_front_matter(text@),
{
    frontmatter::parse(text)
}

/// Indexes a `Yaml` by a string key (`Index<&str>`), which yields the value
/// stored under that key in a mapping and `BadValue` otherwise, and tells the
/// variants of the result apart.
#[verifier::external_body]
pub(crate) fn yaml_field(front: &yaml_rust::Yaml, key: &str) -> (r: Field)
    ensures
        r == field_of(*front, key@),
{
    match &front[key] {
        yaml_rust::Yaml::Real(_) => Field::Real,
        yaml_rust::Yaml::Integer(value) => Field::Integer(*value),
        yaml_rust::Yaml::String(text) => Field::Text(text.clone()),
        yaml_rust::Yaml::Boolean(_) => Field::Boolean,
        yaml_rust::Yaml::Array(_) => Field::Sequence,
        yaml_rust::Yaml::Hash(_) => Field::Mapping,
        yaml_rust::Yaml::Alias(_) => Field::Alias,
        yaml_rust::Yaml::Null => Field::Null,
        yaml_rust::Yaml::BadValue => Field::Absent,
    }
}

/// Tells whether a `Yaml` is the variant `Hash`.
#[verifier::external_body]
pub(crate) fn is_mapping(front: &yaml_rust::Yaml) -> (r: bool)
    ensures
        r == yaml_is_mapping(*front),
{
    front.as_hash().is_some()
}

/// Calls `LinkedHashMap::insert` on the mapping of a `Yaml`, with the string
/// `key` and the integer `value`: the entry under `key` is set, the others
/// stay.
#[verifier::external_body]
pub(crate) fn set_integer(front: &mut yaml_rust::Yaml, key: &str, value: i64)
    requires
        yaml_is_mapping(*old(front)),
    ensures
        yaml_is_mapping(*final(front)),
        yaml_entries(*final(front)) == yaml_entries(*old(front)).insert(
            key@,
            Field::Integer(value),
        ),
{
    if let yaml_rust::Yaml::Hash(entries) = front {
        entries.insert(yaml_rust::Yaml::String(key.to_owned()), yaml_rust::Yaml::Integer(value));
    }
}

/// Calls `LinkedHashMap::remove` on the mapping of a `Yaml`, with the string
/// `key`: the entry under `key` leaves, the others stay.
#[verifier::external_body]
pub(crate) fn remove_entry(front: &mut yaml_rust::Yaml, key: &str)
    requires
        yaml_is_mapping(*old(front)),
    ensures
        yaml_is_mapping(*final(front)),
        yaml_entries(*final(front)) == yaml_entries(*old(front)).remove(key@),
{
    if let yaml_rust::Yaml::Hash(entries) = front {
        entries.remove(&yaml_rust::Yaml::String(key.to_owned()));
    }
}

/// Calls `YamlEmitter::dump` on a fresh string: the document start `---`, a
/// line break and the node, printed in block style. The text is a function of
/// the node alone.
#[verifier::external_body]
pub(crate) fn emit(front: &yaml_rust::Yaml) -> (r: Result<String, yaml_rust::EmitError>)
    ensures
        match r {
            Ok(text) => yaml_document(*front) == Some(text@),
            Err(_) => yaml_document(*front) is None,
        },
{
    let mut text = String::new();
    let dumped = yaml_rust::YamlEmitter::new(&mut text).dump(front);
    match dumped {
        Ok(()) => Ok(text),
        Err(error) => Err(error),
    }
}

/// Prints a `ScanError` through its `Display`: the message of the scanner with
/// the line and column where it stopped.
#[verifier::external_body]
pub(crate) fn scan_error_message(error: &yaml_rust::ScanError) -> (r: String) {
    format!("{}", error)
}

} // verus!
