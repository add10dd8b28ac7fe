//! A parsed document as a tree of plain values.
use vstd::prelude::*;
use crate::date::Date;

verus! {

/// A time of day as written in a document.
#[derive(Clone, Copy, Debug, PartialEq, Eq, Structural)]
pub struct LocalTime {
    pub hour: u8,
    pub minute: u8,
    pub second: u8,
    pub nanosecond: u32,
}

/// A date-time value as written in a document: any of its three parts may be absent.
#[derive(Clone, Copy, Debug, PartialEq, Eq, Structural)]
pub struct DocDatetime {
    pub date: Option<Date>,
    pub time: Option<LocalTime>,
    /// Whether the value carries an offset from UTC.
    pub has_offset: bool,
}

/// One value of a document.
#[derive(Debug)]
pub enum DocValue {
    Str(String),
    Int(i64),
    /// A floating-point number; no field of the schema takes one.
    Float,
    Bool(bool),
    Datetime(DocDatetime),
    Array(Vec<DocValue>),
    Table(Vec<Entry>),
}

/// One key of a table with its value.
#[derive(Debug)]
pub struct Entry {
    pub key: String,
    pub value: DocValue,
}

} // verus!
