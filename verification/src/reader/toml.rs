//! The TOML reader: translates TOML source text into a [`Table`].
//!
//! Parsing is delegated to the `toml` crate behind a small trusted boundary;
//! everything the library then does with the resulting table is verified.

use vstd::prelude::*;

use crate::domain::{DateTime, Node, Table, TableView};
use crate::error::FileError;
use crate::reader::ConfigReader;

verus! {

#[verifier::external_type_specification]
#[verifier::external_body]
pub struct ExTomlValue(toml::Value);

#[verifier::external_type_specification]
#[verifier::external_body]
pub struct ExTomlDatetime(toml::value::Datetime);

/// The table a TOML document denotes, or nothing when the text is not a
/// well-formed TOML document. Parsing is a function of the text alone.
pub uninterp spec fn toml_table_of(s: Seq<char>) -> Option<TableView>;

/// Relies on `toml::value::Datetime`: its date and time parts are plain
/// public fields. A part the document left out contributes zero fields, so
/// every datetime converts.
#[verifier::external_body]
fn toml_datetime_to_node(dt: toml::value::Datetime) -> Node {
    let (year, month, day) = match dt.date {
        Some(d) => (d.year as i32, d.month, d.day),
        None => (0, 0, 0),
    };
    let (hour, minute, second, nanosecond) = match dt.time {
        Some(t) => (t.hour, t.minute, t.second.unwrap_or(0), t.nanosecond.unwrap_or(0)),
        None => (0, 0, 0, 0),
    };
    Node::DateTime(DateTime { year, month, day, hour, minute, second, nanosecond })
}

/// Relies on `toml::Value`: each TOML value becomes the configuration value
/// of the same shape — text, 64-bit integers, float bit patterns, booleans,
/// datetimes, sequences and nested tables, converted element by element.
#[verifier::external_body]
pub fn toml_value_to_node(value: toml::Value) -> Node {
    match value {
        toml::Value::String(s) => Node::Text(s),
        toml::Value::Integer(i) => Node::Int64(i),
        toml::Value::Float(f) => Node::Float64(f.to_bits()),
        toml::Value::Boolean(b) => Node::Boolean(b),
        toml::Value::Datetime(dt) => toml_datetime_to_node(dt),
        toml::Value::Array(arr) => Node::Array(arr.into_iter().map(toml_value_to_node).collect()),
        toml::Value::Table(t) => Node::Nested(
            Table { entries: t.into_iter().map(|(k, v)| (k, toml_value_to_node(v))).collect() },
        ),
    }
}

/// Relies on `toml::from_str::<toml::Value>`: a well-formed TOML document
/// parses to a table of values, deterministically in the text; a rejected
/// text yields the parser's message.
#[verifier::external_body]
fn toml_read(data: &str) -> (r: Result<Table, FileError>)
    ensures
        match r {
            Ok(t) => toml_table_of(data@) == Some(t@),
            Err(e) => toml_table_of(data@) is None && ((e matches FileError::ParseFailed(f, _m)
                && f@ == "TOML"@) || (e matches FileError::IncorrectFormat(f) && f@ == "TOML"@)),
        },
{
    match toml::from_str::<toml::Value>(data) {
        Ok(toml::Value::Table(table)) => {
            let mut entries: Vec<(String, Node)> = Vec::new();
            for (key, value) in table {
                entries.push((key, toml_value_to_node(value)));
            }
            Ok(Table { entries })
        },
        Ok(_) => Err(FileError::IncorrectFormat("TOML".to_string())),
        Err(err) => Err(FileError::ParseFailed("TOML".to_string(), err.message().to_string())),
    }
}

/// The reader for TOML source text, registered under the suffix `toml`.
pub struct TomlConfigReader {
    name: String,
    suffix: String,
}

impl TomlConfigReader {
    /// The reader's name, as a mathematical value.
    pub closed spec fn spec_name(&self) -> Seq<char> {
        self.name@
    }

    /// The suffix the reader handles, as a mathematical value.
    pub closed spec fn spec_suffix(&self) -> Seq<char> {
        self.suffix@
    }

    /// The reader's name.
    pub fn name(&self) -> (r: String)
        ensures
            r@ == self.spec_name(),
    {
        self.name.clone()
    }

    /// The file-name suffix the reader handles.
    pub fn suffix(&self) -> (r: String)
        ensures
            r@ == self.spec_suffix(),
    {
        self.suffix.clone()
    }

    /// Whether the reader handles the given suffix.
    pub fn supports(&self, suffix: &str) -> (r: bool)
        ensures
            r == (suffix@ == self.spec_suffix()),
    {
        let other = suffix.to_owned();
        self.suffix.eq(&other)
    }

    /// A fresh TOML reader.
    pub fn new() -> (r: Self)
        ensures
            r.spec_name() == "toml"@,
            r.spec_suffix() == "toml"@,
    {
        TomlConfigReader { name: "toml".to_owned(), suffix: "toml".to_owned() }
    }

    /// Translates TOML source text into a table: `Ok` exactly when the text
    /// is a well-formed TOML document, and then the table it denotes.
    pub fn read_from_str(&self, data: &str) -> (r: Result<Table, FileError>)
        ensures
            match r {
                Ok(t) => toml_table_of(data@) == Some(t@),
                Err(e) => toml_table_of(data@) is None && ((e
                    matches FileError::ParseFailed(f, _m) && f@ == "TOML"@) || (e
                    matches FileError::IncorrectFormat(f) && f@ == "TOML"@)),
            },
    {
        toml_read(data)
    }
}

impl Default for TomlConfigReader {
    /// The same reader as [`TomlConfigReader::new`].
    fn default() -> (r: Self)
        ensures
            r.spec_name() == "toml"@,
            r.spec_suffix() == "toml"@,
    {
        TomlConfigReader::new()
    }
}

impl ConfigReader for TomlConfigReader {
    fn name(&self) -> String {
        TomlConfigReader::name(self)
    }

    fn suffix(&self) -> String {
        TomlConfigReader::suffix(self)
    }

    fn supports(&self, suffix: &str) -> bool {
        TomlConfigReader::supports(self, suffix)
    }

    fn read_from_str(&self, data: &str) -> Result<Table, FileError> {
        TomlConfigReader::read_from_str(self, data)
    }
}

} // verus!
