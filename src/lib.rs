//! Resolution and recurrence expansion for recurring community events.
//!
//! An event document is parsed into a tree ([`document`], [`parse`]), loaded against a closed
//! schema ([`loader`]) into an [`Event`] ([`model`]), whose times are normalized to minutes
//! ([`time`]). For a weekday and a language, [`resolve`] merges the four layers of overrides;
//! [`expand`] turns the weekly pattern and exception dates into concrete dates ([`date`]);
//! [`emit`] builds the occurrences and their time slots, and [`compile`] runs all of it over a
//! set of documents, one failure at a time.
pub mod compile;
pub mod date;
pub mod document;
pub mod emit;
pub mod expand;
pub mod loader;
pub mod model;
pub mod parse;
pub mod resolve;
pub mod time;

pub use compile::{Compiled, Failure, Loaded, compile, load_all, load_event_text, timetable};
pub use date::{Date, date_before, next_day, week_order, weekday_of};
pub use document::{DocDatetime, DocValue, Entry, LocalTime};
pub use emit::{Occurrence, TimeSlot, group_by_time, occurrences, recurrence_of};
pub use expand::{DateSet, Recurrence};
pub use loader::{LoadError, SchemaProblem, check_keys, load_event, load_meta};
pub use model::{
    Event, EventDay, EventDays, EventInfo, EventLanguage, LanguageEntry, Meta, MetaEntry,
    MetaLanguage, Named, Platform,
};
pub use parse::parse_document;
pub use resolve::{Resolved, WeekdayIndexError, overlay_info, resolve};
pub use time::{Time, TimeError, duration_minutes, time_of_day_minutes};
