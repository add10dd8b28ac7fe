//! Reading a TOML text into a document tree.
use vstd::prelude::*;
use crate::date::Date;
use crate::document::{DocDatetime, Entry, LocalTime, DocValue};

verus! {

#[verifier::external_type_specification]
#[verifier::external_body]
pub struct ExTomlValue(toml::Value);

#[verifier::external_type_specification]
#[verifier::external_body]
pub struct ExTomlDatetime(toml::value::Datetime);

/// The document tree of a TOML text, where the text is valid TOML.
pub uninterp spec fn toml_document(text: Seq<char>) -> Option<DocValue>;

/// Relies on toml's `FromStr for Table` (`toml::from_str`): parses a TOML text into its table of
/// top-level keys, which is returned as a `DocValue::Table`; `None` where the text is not valid TOML.
#[verifier::external_body]
fn parse_toml(text: &str) -> (r: Option<DocValue>)
    ensures
        r == toml_document(text@),
        r matches Some(v) ==> v is Table,
{
    let table: toml::Table = text.parse().ok()?;
    Some(DocValue::Table(table.iter().map(|(k, v)| Entry { key: k.clone(), value: value_of(v) }).collect()))
}

/// Relies on the shape of toml's `Value`: copies one value of the tree, variant for variant.
#[verifier::external_body]
fn value_of(v: &toml::Value) -> (r: DocValue) {
    match v {
        toml::Value::String(s) => DocValue::Str(s.clone()),
        toml::Value::Integer(i) => DocValue::Int(*i),
        toml::Value::Float(_) => DocValue::Float,
        toml::Value::Boolean(b) => DocValue::Bool(*b),
        toml::Value::Datetime(d) => DocValue::Datetime(datetime_of(d)),
        toml::Value::Array(a) => DocValue::Array(a.iter().map(value_of).collect()),
        toml::Value::Table(t) => DocValue::Table(
            t.iter().map(|(k, v)| Entry { key: k.clone(), value: value_of(v) }).collect(),
        ),
    }
}

/// Relies on the shape of toml's `Datetime`: copies its date and time fields, and whether it has
/// an offset.
#[verifier::external_body]
fn datetime_of(d: &toml::value::Datetime) -> (r: DocDatetime) {
    DocDatetime {
        date: d.date.map(|x| Date { year: x.year, month: x.month, day: x.day }),
        time: d.time.map(
            |x| LocalTime { hour: x.hour, minute: x.minute, second: x.second, nanosecond: x.nanosecond },
        ),
        has_offset: d.offset.is_some(),
    }
}

/// Parses a TOML text into its document tree; `None` where the text is not valid TOML.
pub fn parse_document(text: &str) -> (r: Option<DocValue>)
    ensures
        r == toml_document(text@),
        r matches Some(v) ==> v is Table,
{
    parse_toml(text)
}

} // verus!
