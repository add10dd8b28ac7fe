//! The schema loader: from a document tree to a typed [`Event`] or [`Meta`], with a closed
//! schema at every level.
use vstd::prelude::*;
use crate::date::{Date, date_before};
use crate::document::{Entry, DocValue};
use crate::expand::DateSet;
use crate::model::{
    text_view,
    Event, EventDay, EventDays, EventInfo, EventLanguage, LanguageEntry, Meta, MetaEntry,
    MetaLanguage, Named, Platform,
};
use crate::time::{Time, TimeError, duration_minutes, time_of_day_minutes, duration_value, time_of_day_value, DAY_MINUTES};

verus! {

/// What is wrong with a key of a document.
#[derive(Clone, Copy, Debug, PartialEq, Eq, Structural)]
pub enum SchemaProblem {
    /// The schema declares no such key at this level.
    UnknownField,
    /// The key appears twice in one table.
    DuplicateField,
    /// A required key is absent.
    MissingField,
    /// The value has the wrong shape for the key.
    WrongType,
}

/// Why a document could not be loaded.
#[derive(Clone, Debug)]
pub enum LoadError {
    Schema { key: String, problem: SchemaProblem },
    TimeFormat { key: String, error: TimeError },
    /// The end date comes before the start date.
    DateOrder,
    /// The text is not a well-formed document.
    Syntax,
}

/// Whether `s` is among `known`.
pub open spec fn listed(known: Seq<&str>, s: Seq<char>) -> bool {
    exists|i: int| 0 <= i < known.len() && (#[trigger] known[i])@ == s
}

/// Every key of the table is declared, and no key appears twice.
pub open spec fn keys_ok(t: Seq<Entry>, known: Seq<&str>) -> bool {
    &&& forall|i: int| 0 <= i < t.len() ==> listed(known, (#[trigger] t[i]).key@)
    &&& forall|i: int, j: int| 0 <= i < j < t.len() ==> (#[trigger] t[i]).key@ != (#[trigger] t[j]).key@
}

/// The value of the first entry with key `k`.
pub open spec fn lookup(t: Seq<Entry>, k: Seq<char>) -> Option<DocValue>
    decreases t.len(),
{
    if t.len() == 0 {
        None
    } else if t[0].key@ == k {
        Some(t[0].value)
    } else {
        lookup(t.drop_first(), k)
    }
}

/// Whether the two texts are equal.
pub fn text_eq(a: &str, b: &str) -> (r: bool)
    ensures
        r == (a@ == b@),
{
    let n = a.unicode_len();
    if n != b.unicode_len() {
        return false;
    }
    let mut i: usize = 0;
    while i < n
        invariant
            n == a@.len() == b@.len(),
            i <= n,
            forall|j: int| 0 <= j < i ==> a@[j] == b@[j],
        decreases n - i,
    {
        if a.get_char(i) != b.get_char(i) {
            return false;
        }
        i = i + 1;
    }
    assert(a@ =~= b@);
    true
}

fn schema_error(key: &str, problem: SchemaProblem) -> (r: LoadError)
    ensures
        r matches LoadError::Schema { key: k, problem: p } && k@ == key@ && p == problem,
{
    LoadError::Schema { key: String::from_str(key), problem }
}

/// Checks that every key of `t` is among `known` and that no key appears twice.
pub fn check_keys(t: &Vec<Entry>, known: &[&str]) -> (r: Result<(), LoadError>)
    ensures
        r is Ok <==> keys_ok(t@, known@),
        r matches Err(LoadError::Schema { key, problem }) ==> exists|i: int|
            0 <= i < t@.len() && (#[trigger] t@[i]).key@ == key@ && (problem
                == SchemaProblem::UnknownField ==> !listed(known@, key@)),
        r matches Err(e) ==> e is Schema,
        outcome(r) == keys_fault(t@, |k: Seq<char>| listed(known@, k)),
{
    let ghost p = |k: Seq<char>| listed(known@, k);
    let ghost fs = Seq::new(t@.len(), |a: int| entry_fault(t@, p, a));
    assert(fs.take(0) =~= Seq::<Option<Fault>>::empty());
    let mut i: usize = 0;
    while i < t.len()
        invariant
            i <= t@.len(),
            p == (|k: Seq<char>| listed(known@, k)),
            fs == Seq::new(t@.len(), |a: int| entry_fault(t@, p, a)),
            first_in(fs.take(i as int)) is None,
            forall|a: int| 0 <= a < i ==> listed(known@, (#[trigger] t@[a]).key@),
            forall|a: int, b: int| 0 <= a < b < i ==> (#[trigger] t@[a]).key@ != (#[trigger] t@[b]).key@,
        decreases t@.len() - i,
    {
        let key = t[i].key.as_str();
        let mut k: usize = 0;
        let mut found = false;
        while k < known.len() && !found
            invariant
                k <= known@.len(),
                key@ == t@[i as int].key@,
                found ==> listed(known@, key@),
                !found ==> forall|c: int| 0 <= c < k ==> (#[trigger] known@[c])@ != key@,
            decreases known@.len() - k + (if found { 0int } else { 1int }),
        {
            if text_eq(known[k], key) {
                found = true;
            } else {
                k = k + 1;
            }
        }
        proof {
            lemma_first_in_step(fs, i as int);
        }
        if !found {
            proof {
                lemma_first_in_settled(fs, i + 1);
            }
            return Err(LoadError::Schema { key: t[i].key.clone(), problem: SchemaProblem::UnknownField });
        }
        let mut j: usize = 0;
        while j < i
            invariant
                j <= i < t@.len(),
                key@ == t@[i as int].key@,
                p == (|k: Seq<char>| listed(known@, k)),
                fs == Seq::new(t@.len(), |a: int| entry_fault(t@, p, a)),
                first_in(fs.take(i + 1)) == fs[i as int],
                listed(known@, key@),
                forall|c: int| 0 <= c < j ==> (#[trigger] t@[c]).key@ != key@,
            decreases i - j,
        {
            if text_eq(t[j].key.as_str(), key) {
                proof {
                    assert(t@[j as int].key@ == t@[i as int].key@);
                    lemma_first_in_settled(fs, i + 1);
                }
                return Err(LoadError::Schema { key: t[i].key.clone(), problem: SchemaProblem::DuplicateField });
            }
            j = j + 1;
        }
        i = i + 1;
    }
    proof {
        lemma_first_in_settled(fs, t@.len() as int);
    }
    Ok(())
}

/// The value under key `name`, if the table has one.
pub fn find<'a>(t: &'a Vec<Entry>, name: &str) -> (r: Option<&'a DocValue>)
    ensures
        r matches Some(v) ==> lookup(t@, name@) == Some(*v),
        r is None ==> lookup(t@, name@) is None,
{
    let mut i: usize = 0;
    assert(t@.subrange(0, t@.len() as int) =~= t@);
    while i < t.len()
        invariant
            i <= t@.len(),
            lookup(t@, name@) == lookup(t@.subrange(i as int, t@.len() as int), name@),
        decreases t@.len() - i,
    {
        assert(t@.subrange(i as int, t@.len() as int).drop_first() =~= t@.subrange(i + 1, t@.len() as int));
        if text_eq(t[i].key.as_str(), name) {
            return Some(&t[i].value);
        }
        i = i + 1;
    }
    None
}

/// The keys that every info block may carry.
pub open spec fn is_info_key(k: Seq<char>) -> bool {
    k == "name"@ || k == "description"@ || k == "web"@ || k == "poster"@ || k == "hashtag"@
        || k == "twitter"@ || k == "group"@ || k == "discord"@ || k == "join"@ || k == "world"@
        || k == "weeks"@
}

/// The keys of an event document.
pub open spec fn is_event_key(k: Seq<char>) -> bool {
    is_info_key(k) || k == "start_date"@ || k == "end_date"@ || k == "timezone"@ || k
        == "start"@ || k == "duration"@ || k == "platforms"@ || k == "days"@ || k
        == "languages"@ || k == "confirmed"@ || k == "canceled"@
}

/// The keys of an event document.
fn event_keys() -> (r: Vec<&'static str>)
    ensures
        forall|k: Seq<char>| listed(r@, k) <==> is_event_key(k),
{
    let r = vec![
        "name", "description", "web", "poster", "hashtag", "twitter", "group", "discord",
        "join", "world", "weeks", "start_date", "end_date", "timezone", "start", "duration",
        "platforms", "days", "languages", "confirmed", "canceled",
    ];
    assert forall|k: Seq<char>| listed(r@, k) <==> is_event_key(k) by {
        if is_event_key(k) {
            if k == "name"@ { assert(r@[0]@ == k); }
            else if k == "description"@ { assert(r@[1]@ == k); }
            else if k == "web"@ { assert(r@[2]@ == k); }
            else if k == "poster"@ { assert(r@[3]@ == k); }
            else if k == "hashtag"@ { assert(r@[4]@ == k); }
            else if k == "twitter"@ { assert(r@[5]@ == k); }
            else if k == "group"@ { assert(r@[6]@ == k); }
            else if k == "discord"@ { assert(r@[7]@ == k); }
            else if k == "join"@ { assert(r@[8]@ == k); }
            else if k == "world"@ { assert(r@[9]@ == k); }
            else if k == "weeks"@ { assert(r@[10]@ == k); }
            else if k == "start_date"@ { assert(r@[11]@ == k); }
            else if k == "end_date"@ { assert(r@[12]@ == k); }
            else if k == "timezone"@ { assert(r@[13]@ == k); }
            else if k == "start"@ { assert(r@[14]@ == k); }
            else if k == "duration"@ { assert(r@[15]@ == k); }
            else if k == "platforms"@ { assert(r@[16]@ == k); }
            else if k == "days"@ { assert(r@[17]@ == k); }
            else if k == "languages"@ { assert(r@[18]@ == k); }
            else if k == "confirmed"@ { assert(r@[19]@ == k); }
            else { assert(r@[20]@ == k); }
        }
    }
    r
}

/// The weekday keys, Sunday first.
pub open spec fn is_weekday_key(k: Seq<char>) -> bool {
    k == "sunday"@ || k == "monday"@ || k == "tuesday"@ || k == "wednesday"@ || k == "thursday"@
        || k == "friday"@ || k == "saturday"@
}

/// The keys of a weekday slot.
pub open spec fn is_day_key(k: Seq<char>) -> bool {
    is_info_key(k) || k == "start"@ || k == "duration"@
}

/// The keys of a language block.
pub open spec fn is_language_key(k: Seq<char>) -> bool {
    is_info_key(k) || is_weekday_key(k)
}

/// The keys of a co-host or world reference.
pub open spec fn is_named_key(k: Seq<char>) -> bool {
    k == "name"@ || k == "id"@
}

/// The keys of the metadata document.
pub open spec fn is_meta_key(k: Seq<char>) -> bool {
    k == "title"@ || k == "description"@ || k == "link"@ || k == "languages"@
}

/// The keys of one language of the metadata document.
pub open spec fn is_meta_language_key(k: Seq<char>) -> bool {
    k == "title"@ || k == "description"@ || k == "link"@
}

/// The keys of the weekday slots, Sunday first.
fn weekday_keys() -> (r: Vec<&'static str>)
    ensures
        forall|k: Seq<char>| listed(r@, k) <==> is_weekday_key(k),
        r@.len() == 7,
        forall|i: int| 0 <= i < 7 ==> (#[trigger] r@[i])@ == weekday_name(i),
{
    let r = vec!["sunday", "monday", "tuesday", "wednesday", "thursday", "friday", "saturday"];
    assert forall|k: Seq<char>| listed(r@, k) <==> is_weekday_key(k) by {
        if is_weekday_key(k) {
            if k == "sunday"@ {
                assert(r@[0]@ == k);
            } else if k == "monday"@ {
                assert(r@[1]@ == k);
            } else if k == "tuesday"@ {
                assert(r@[2]@ == k);
            } else if k == "wednesday"@ {
                assert(r@[3]@ == k);
            } else if k == "thursday"@ {
                assert(r@[4]@ == k);
            } else if k == "friday"@ {
                assert(r@[5]@ == k);
            } else {
                assert(r@[6]@ == k);
            }
        }
    }
    r
}

/// The key of weekday `wd`, 0 for Sunday.
pub open spec fn weekday_name(wd: int) -> Seq<char> {
    if wd == 0 {
        "sunday"@
    } else if wd == 1 {
        "monday"@
    } else if wd == 2 {
        "tuesday"@
    } else if wd == 3 {
        "wednesday"@
    } else if wd == 4 {
        "thursday"@
    } else if wd == 5 {
        "friday"@
    } else {
        "saturday"@
    }
}

/// The keys of a weekday slot.
fn day_keys() -> (r: Vec<&'static str>)
    ensures
        forall|k: Seq<char>| listed(r@, k) <==> is_day_key(k),
{
    let r = vec!["name", "description", "web", "poster", "hashtag", "twitter", "group", "discord", "join", "world", "weeks", "start", "duration"];
    assert forall|k: Seq<char>| listed(r@, k) <==> is_day_key(k) by {
        if is_day_key(k) {
            if k == "name"@ {
                assert(r@[0]@ == k);
            } else if k == "description"@ {
                assert(r@[1]@ == k);
            } else if k == "web"@ {
                assert(r@[2]@ == k);
            } else if k == "poster"@ {
                assert(r@[3]@ == k);
            } else if k == "hashtag"@ {
                assert(r@[4]@ == k);
            } else if k == "twitter"@ {
                assert(r@[5]@ == k);
            } else if k == "group"@ {
                assert(r@[6]@ == k);
            } else if k == "discord"@ {
                assert(r@[7]@ == k);
            } else if k == "join"@ {
                assert(r@[8]@ == k);
            } else if k == "world"@ {
                assert(r@[9]@ == k);
            } else if k == "weeks"@ {
                assert(r@[10]@ == k);
            } else if k == "start"@ {
                assert(r@[11]@ == k);
            } else {
                assert(r@[12]@ == k);
            }
        }
    }
    r
}

/// The keys of a language block.
fn language_keys() -> (r: Vec<&'static str>)
    ensures
        forall|k: Seq<char>| listed(r@, k) <==> is_language_key(k),
{
    let r = vec!["name", "description", "web", "poster", "hashtag", "twitter", "group", "discord", "join", "world", "weeks", "sunday", "monday", "tuesday", "wednesday", "thursday", "friday", "saturday"];
    assert forall|k: Seq<char>| listed(r@, k) <==> is_language_key(k) by {
        if is_language_key(k) {
            if k == "name"@ {
                assert(r@[0]@ == k);
            } else if k == "description"@ {
                assert(r@[1]@ == k);
            } else if k == "web"@ {
                assert(r@[2]@ == k);
            } else if k == "poster"@ {
                assert(r@[3]@ == k);
            } else if k == "hashtag"@ {
                assert(r@[4]@ == k);
            } else if k == "twitter"@ {
                assert(r@[5]@ == k);
            } else if k == "group"@ {
                assert(r@[6]@ == k);
            } else if k == "discord"@ {
                assert(r@[7]@ == k);
            } else if k == "join"@ {
                assert(r@[8]@ == k);
            } else if k == "world"@ {
                assert(r@[9]@ == k);
            } else if k == "weeks"@ {
                assert(r@[10]@ == k);
            } else if k == "sunday"@ {
                assert(r@[11]@ == k);
            } else if k == "monday"@ {
                assert(r@[12]@ == k);
            } else if k == "tuesday"@ {
                assert(r@[13]@ == k);
            } else if k == "wednesday"@ {
                assert(r@[14]@ == k);
            } else if k == "thursday"@ {
                assert(r@[15]@ == k);
            } else if k == "friday"@ {
                assert(r@[16]@ == k);
            } else {
                assert(r@[17]@ == k);
            }
        }
    }
    r
}

/// The keys of a co-host or world reference.
fn named_keys() -> (r: Vec<&'static str>)
    ensures
        forall|k: Seq<char>| listed(r@, k) <==> is_named_key(k),
{
    let r = vec!["name", "id"];
    assert forall|k: Seq<char>| listed(r@, k) <==> is_named_key(k) by {
        if is_named_key(k) {
            if k == "name"@ {
                assert(r@[0]@ == k);
            } else {
                assert(r@[1]@ == k);
            }
        }
    }
    r
}

/// The keys of the metadata document.
fn meta_keys() -> (r: Vec<&'static str>)
    ensures
        forall|k: Seq<char>| listed(r@, k) <==> is_meta_key(k),
{
    let r = vec!["title", "description", "link", "languages"];
    assert forall|k: Seq<char>| listed(r@, k) <==> is_meta_key(k) by {
        if is_meta_key(k) {
            if k == "title"@ {
                assert(r@[0]@ == k);
            } else if k == "description"@ {
                assert(r@[1]@ == k);
            } else if k == "link"@ {
                assert(r@[2]@ == k);
            } else {
                assert(r@[3]@ == k);
            }
        }
    }
    r
}

/// The keys of one language of the metadata document.
fn meta_language_keys() -> (r: Vec<&'static str>)
    ensures
        forall|k: Seq<char>| listed(r@, k) <==> is_meta_language_key(k),
{
    let r = vec!["title", "description", "link"];
    assert forall|k: Seq<char>| listed(r@, k) <==> is_meta_language_key(k) by {
        if is_meta_language_key(k) {
            if k == "title"@ {
                assert(r@[0]@ == k);
            } else if k == "description"@ {
                assert(r@[1]@ == k);
            } else {
                assert(r@[2]@ == k);
            }
        }
    }
    r
}

/// The date that a value stands for: a local date with no time and no offset.
pub open spec fn date_value(v: DocValue) -> Option<Date> {
    match v {
        DocValue::Datetime(dt) => match dt.date {
            Some(d) => if dt.time is None && !dt.has_offset && d.valid() {
                Some(d)
            } else {
                None
            },
            None => None,
        },
        _ => None,
    }
}

fn as_date(v: &DocValue) -> (r: Option<Date>)
    ensures
        r == date_value(*v),
{
    match v {
        DocValue::Datetime(dt) => match dt.date {
            Some(d) => {
                if dt.time.is_none() && !dt.has_offset && d.month >= 1 && d.month <= 12
                    && d.year <= crate::date::MAX_YEAR && d.day >= 1 && d.day <= crate::date::month_length(d.year, d.month) {
                    Some(d)
                } else {
                    None
                }
            },
            None => None,
        },
        _ => None,
    }
}

/// Reads the optional text under `name`.
fn read_text(t: &Vec<Entry>, name: &str) -> (r: Result<Option<String>, LoadError>)
    ensures
        outcome(r) == text_fault(t@, name@),
        match lookup(t@, name@) {
            None => r matches Ok(None),
            Some(DocValue::Str(s)) => r matches Ok(Some(x)) && x@ == s@,
            Some(_) => r matches Err(LoadError::Schema { key, problem }) && key@ == name@
                && problem == SchemaProblem::WrongType,
        },
{
    match find(t, name) {
        None => Ok(None),
        Some(DocValue::Str(s)) => Ok(Some(s.clone())),
        Some(_) => Err(schema_error(name, SchemaProblem::WrongType)),
    }
}

/// Reads the required text under `name`.
fn read_required_text(t: &Vec<Entry>, name: &str) -> (r: Result<String, LoadError>)
    ensures
        outcome(r) == required_text_fault(t@, name@),
        match lookup(t@, name@) {
            None => r matches Err(LoadError::Schema { key, problem }) && key@ == name@ && problem
                == SchemaProblem::MissingField,
            Some(DocValue::Str(s)) => r matches Ok(x) && x@ == s@,
            Some(_) => r matches Err(LoadError::Schema { key, problem }) && key@ == name@
                && problem == SchemaProblem::WrongType,
        },
{
    match find(t, name) {
        None => Err(schema_error(name, SchemaProblem::MissingField)),
        Some(DocValue::Str(s)) => Ok(s.clone()),
        Some(_) => Err(schema_error(name, SchemaProblem::WrongType)),
    }
}

/// Reads the optional date under `name`.
fn read_date(t: &Vec<Entry>, name: &str) -> (r: Result<Option<Date>, LoadError>)
    ensures
        outcome(r) == date_fault(t@, name@),
        match lookup(t@, name@) {
            None => r == Ok::<Option<Date>, LoadError>(None),
            Some(v) => match date_value(v) {
                Some(d) => r == Ok::<Option<Date>, LoadError>(Some(d)),
                None => r matches Err(LoadError::Schema { key, problem }) && key@ == name@
                    && problem == SchemaProblem::WrongType,
            },
        },
{
    match find(t, name) {
        None => Ok(None),
        Some(v) => match as_date(v) {
            Some(d) => Ok(Some(d)),
            None => Err(schema_error(name, SchemaProblem::WrongType)),
        },
    }
}

/// `s` is the date set that the optional value `v` stands for: `default` for an absent
/// value (every date or none), `All(b)` for a boolean `b`, and for a list the same dates in the
/// same order.
pub open spec fn date_set_read(v: Option<DocValue>, default: bool, s: DateSet) -> bool {
    match v {
        None => s == DateSet::All(default),
        Some(DocValue::Bool(b)) => s == DateSet::All(b),
        Some(DocValue::Array(items)) => s matches DateSet::Dates(d) && d@.len() == items@.len()
            && forall|i: int| 0 <= i < d@.len() ==> date_value(items@[i]) == Some(#[trigger] d@[i]),
        Some(_) => false,
    }
}

/// Reads the date set under `name`; an absent key gives every date or none, as `default`
/// says.
fn read_date_set(t: &Vec<Entry>, name: &str, default: bool) -> (r: Result<DateSet, LoadError>)
    ensures
        r matches Ok(x) ==> date_set_read(lookup(t@, name@), default, x),
        outcome(r) == shape_fault(date_set_ok(lookup(t@, name@)), name@),
        r is Ok <==> date_set_ok(lookup(t@, name@)),
        lookup(t@, name@) is None ==> (r matches Ok(DateSet::All(b)) && b == default),
        lookup(t@, name@) matches Some(DocValue::Bool(b)) ==> (r matches Ok(DateSet::All(x)) && x
            == b),
        lookup(t@, name@) matches Some(DocValue::Array(items)) ==> (r is Ok <==> forall|i: int|
            0 <= i < items@.len() ==> date_value(#[trigger] items@[i]) is Some),
        r matches Ok(DateSet::Dates(v)) ==> (lookup(t@, name@) matches Some(DocValue::Array(items))
            && v@.len() == items@.len() && forall|i: int|
            0 <= i < v@.len() ==> date_value(items@[i]) == Some(#[trigger] v@[i])),
        r matches Ok(DateSet::Dates(v)) ==> forall|i: int| 0 <= i < v@.len() ==> (#[trigger] v@[i]).valid(),
        r matches Err(LoadError::Schema { key, problem }) ==> key@ == name@ && problem
            == SchemaProblem::WrongType,
        !(r matches Err(LoadError::TimeFormat { .. })) && !(r matches Err(LoadError::DateOrder)),
        !(r matches Err(LoadError::Syntax)),
{
    match find(t, name) {
        None => Ok(DateSet::All(default)),
        Some(DocValue::Bool(b)) => Ok(DateSet::All(*b)),
        Some(DocValue::Array(items)) => {
            let mut dates: Vec<Date> = Vec::new();
            let mut i: usize = 0;
            while i < items.len()
                invariant
                    lookup(t@, name@) == Some(DocValue::Array(*items)),
                    i <= items@.len(),
                    dates@.len() == i,
                    forall|j: int| 0 <= j < i ==> date_value(items@[j]) == Some(#[trigger] dates@[j]),
                decreases items@.len() - i,
            {
                match as_date(&items[i]) {
                    Some(d) => dates.push(d),
                    None => {
                        assert(date_value(items@[i as int]) is None);
                        return Err(schema_error(name, SchemaProblem::WrongType));
                    },
                }
                i = i + 1;
            }
            assert forall|j: int| 0 <= j < items@.len() implies date_value(
                #[trigger] items@[j],
            ) is Some by {
                assert(date_value(items@[j]) == Some(dates@[j]));
            }
            Ok(DateSet::Dates(dates))
        },
        Some(_) => Err(schema_error(name, SchemaProblem::WrongType)),
    }
}

/// Reads the optional time under `name`, as a time of day or as a duration.
fn read_time(t: &Vec<Entry>, name: &str, of_day: bool) -> (r: Result<Option<Time>, LoadError>)
    ensures
        outcome(r) == time_fault(t@, name@, of_day),
        match lookup(t@, name@) {
            None => r == Ok::<Option<Time>, LoadError>(None),
            Some(v) => match (if of_day { time_of_day_value(v) } else { duration_value(v) }) {
                Ok(m) => r == Ok::<Option<Time>, LoadError>(Some(Time(m as u32))),
                Err(e) => r matches Err(LoadError::TimeFormat { key, error }) && key@ == name@
                    && error == e,
            },
        },
        of_day ==> (r matches Ok(Some(x)) ==> (x.0 < DAY_MINUTES)),
        r matches Ok(Some(x)) ==> (lookup(t@, name@) matches Some(v) && (if of_day {
            time_of_day_value(v)
        } else {
            duration_value(v)
        }) == Ok::<int, TimeError>(x.0 as int)),
{
    match find(t, name) {
        None => Ok(None),
        Some(v) => {
            let m = if of_day { time_of_day_minutes(v) } else { duration_minutes(v) };
            match m {
                Ok(x) => Ok(Some(x)),
                Err(error) => Err(LoadError::TimeFormat { key: String::from_str(name), error }),
            }
        },
    }
}

/// A table whose keys all satisfy `known`.
pub open spec fn closed_table(v: DocValue, known: spec_fn(Seq<char>) -> bool) -> bool {
    v matches DocValue::Table(t) && (forall|i: int| 0 <= i < t@.len() ==> known((#[trigger] t@[i]).key@))
}

/// Every key satisfies `known`, and no key appears twice.
pub open spec fn keys_within(t: Seq<Entry>, known: spec_fn(Seq<char>) -> bool) -> bool {
    &&& forall|i: int| 0 <= i < t.len() ==> known((#[trigger] t[i]).key@)
    &&& forall|i: int, j: int| 0 <= i < j < t.len() ==> (#[trigger] t[i]).key@ != (#[trigger] t[j]).key@
}

/// An optional text: absent, or a string.
pub open spec fn text_ok(v: Option<DocValue>) -> bool {
    v is None || v matches Some(DocValue::Str(_))
}

/// An optional weeks filter: a list of integers that each fit a byte.
pub open spec fn weeks_ok(v: Option<DocValue>) -> bool {
    match v {
        None => true,
        Some(DocValue::Array(items)) => forall|i: int| 0 <= i < items@.len() ==> (#[trigger] items@[i] matches DocValue::Int(n) && 0 <= n <= 255),
        _ => false,
    }
}

/// An optional list of platforms, each `pc` or `quest`.
pub open spec fn platforms_ok(v: Option<DocValue>) -> bool {
    match v {
        None => true,
        Some(DocValue::Array(items)) => forall|i: int| 0 <= i < items@.len() ==> (#[trigger] items@[i] matches DocValue::Str(s) && (s@ == "pc"@ || s@ == "quest"@)),
        _ => false,
    }
}

/// An optional date set: absent, a boolean, or a list of dates.
pub open spec fn date_set_ok(v: Option<DocValue>) -> bool {
    match v {
        None => true,
        Some(DocValue::Bool(_)) => true,
        Some(DocValue::Array(items)) => forall|i: int| 0 <= i < items@.len() ==> date_value(#[trigger] items@[i]) is Some,
        _ => false,
    }
}

/// A well-formed event document.
pub open spec fn event_ok(doc: DocValue) -> bool {
    event_fault(doc) is None
}

/// A well-formed metadata document.
pub open spec fn meta_ok(doc: DocValue) -> bool {
    meta_fault(doc) is None
}

/// What went wrong in a document, as a value: the key and problem of a schema error, the key
/// and cause of a time error, a reversed date range, or a text that does not parse.
pub enum Fault {
    Schema(Seq<char>, SchemaProblem),
    Time(Seq<char>, TimeError),
    DateOrder,
    Syntax,
}

/// The fault that a load error reports.
pub open spec fn fault_of(e: LoadError) -> Fault {
    match e {
        LoadError::Schema { key, problem } => Fault::Schema(key@, problem),
        LoadError::TimeFormat { key, error } => Fault::Time(key@, error),
        LoadError::DateOrder => Fault::DateOrder,
        LoadError::Syntax => Fault::Syntax,
    }
}

/// The fault of a result, `None` for success.
pub open spec fn outcome<T>(r: Result<T, LoadError>) -> Option<Fault> {
    match r {
        Ok(_) => None,
        Err(e) => Some(fault_of(e)),
    }
}

/// `a` where there is one, else `b`: checks made in turn report the first fault.
pub open spec fn first_fault(a: Option<Fault>, b: Option<Fault>) -> Option<Fault> {
    if a is Some {
        a
    } else {
        b
    }
}

/// The first fault of a sequence of checks made in turn.
pub open spec fn first_in(s: Seq<Option<Fault>>) -> Option<Fault>
    decreases s.len(),
{
    if s.len() == 0 {
        None
    } else {
        first_fault(first_in(s.drop_last()), s.last())
    }
}

/// Checking one more item extends the checks made so far.
pub proof fn lemma_first_in_step(s: Seq<Option<Fault>>, i: int)
    requires
        0 <= i < s.len(),
    ensures
        first_in(s.take(i + 1)) == first_fault(first_in(s.take(i)), s[i]),
{
    assert(s.take(i + 1).drop_last() =~= s.take(i));
}

/// Once a check has failed, later checks do not change the first fault.
pub proof fn lemma_first_in_settled(s: Seq<Option<Fault>>, i: int)
    requires
        0 <= i <= s.len(),
        first_in(s.take(i)) is Some || i == s.len(),
    ensures
        first_in(s) == first_in(s.take(i)),
    decreases s.len() - i,
{
    if i == s.len() {
        assert(s.take(i) =~= s);
    } else {
        lemma_first_in_step(s, i);
        lemma_first_in_settled(s, i + 1);
    }
}

/// A run of checks that all pass reports no fault.
pub proof fn lemma_first_in_none(s: Seq<Option<Fault>>, n: int)
    requires
        0 <= n <= s.len(),
        forall|j: int| 0 <= j < n ==> #[trigger] s[j] is None,
    ensures
        first_in(s.take(n)) is None,
    decreases n,
{
    if n > 0 {
        lemma_first_in_none(s, n - 1);
        lemma_first_in_step(s, n - 1);
    } else {
        assert(s.take(0) =~= Seq::<Option<Fault>>::empty());
    }
}

/// The fault of entry `i` of a table whose keys must satisfy `known`: an undeclared key, else a
/// key that an earlier entry already has.
pub open spec fn entry_fault(t: Seq<Entry>, known: spec_fn(Seq<char>) -> bool, i: int) -> Option<Fault> {
    if !known(t[i].key@) {
        Some(Fault::Schema(t[i].key@, SchemaProblem::UnknownField))
    } else if exists|j: int| 0 <= j < i && t[j].key@ == t[i].key@ {
        Some(Fault::Schema(t[i].key@, SchemaProblem::DuplicateField))
    } else {
        None
    }
}

/// The first fault among the keys of a table, entry by entry.
pub open spec fn keys_fault(t: Seq<Entry>, known: spec_fn(Seq<char>) -> bool) -> Option<Fault> {
    first_in(Seq::new(t.len(), |i: int| entry_fault(t, known, i)))
}

/// An optional text under `name` that is not a string.
pub open spec fn text_fault(t: Seq<Entry>, name: Seq<char>) -> Option<Fault> {
    match lookup(t, name) {
        None => None,
        Some(DocValue::Str(_)) => None,
        Some(_) => Some(Fault::Schema(name, SchemaProblem::WrongType)),
    }
}

/// A required text under `name` that is absent or not a string.
pub open spec fn required_text_fault(t: Seq<Entry>, name: Seq<char>) -> Option<Fault> {
    match lookup(t, name) {
        None => Some(Fault::Schema(name, SchemaProblem::MissingField)),
        Some(DocValue::Str(_)) => None,
        Some(_) => Some(Fault::Schema(name, SchemaProblem::WrongType)),
    }
}

/// An optional date under `name` that is not a date.
pub open spec fn date_fault(t: Seq<Entry>, name: Seq<char>) -> Option<Fault> {
    match lookup(t, name) {
        Some(v) => if date_value(v) is Some {
            None
        } else {
            Some(Fault::Schema(name, SchemaProblem::WrongType))
        },
        None => None,
    }
}

/// An optional time under `name` that does not normalize.
pub open spec fn time_fault(t: Seq<Entry>, name: Seq<char>, of_day: bool) -> Option<Fault> {
    match lookup(t, name) {
        None => None,
        Some(v) => match (if of_day { time_of_day_value(v) } else { duration_value(v) }) {
            Ok(_) => None,
            Err(e) => Some(Fault::Time(name, e)),
        },
    }
}

/// A required time under `name` that is absent or does not normalize.
pub open spec fn required_time_fault(t: Seq<Entry>, name: Seq<char>, of_day: bool) -> Option<Fault> {
    if lookup(t, name) is None {
        Some(Fault::Schema(name, SchemaProblem::MissingField))
    } else {
        time_fault(t, name, of_day)
    }
}

/// A shape check on the value under `name`: `ok` must hold of it.
pub open spec fn shape_fault(ok: bool, name: Seq<char>) -> Option<Fault> {
    if ok {
        None
    } else {
        Some(Fault::Schema(name, SchemaProblem::WrongType))
    }
}

/// The first fault of a co-host or world reference found under `key`.
pub open spec fn named_fault(v: DocValue, key: Seq<char>) -> Option<Fault> {
    match v {
        DocValue::Table(t) => first_fault(keys_fault(t@, |k: Seq<char>| is_named_key(k)), first_fault(
            required_text_fault(t@, "name"@),
            required_text_fault(t@, "id"@),
        )),
        _ => Some(Fault::Schema(key, SchemaProblem::WrongType)),
    }
}

/// The first fault of the optional list of co-hosts.
pub open spec fn join_fault(t: Seq<Entry>) -> Option<Fault> {
    match lookup(t, "join"@) {
        None => None,
        Some(DocValue::Array(items)) => first_in(Seq::new(items@.len(), |i: int| named_fault(items@[i], "join"@))),
        Some(_) => Some(Fault::Schema("join"@, SchemaProblem::WrongType)),
    }
}

/// The first fault of the optional world reference.
pub open spec fn world_fault(t: Seq<Entry>) -> Option<Fault> {
    match lookup(t, "world"@) {
        None => None,
        Some(v) => named_fault(v, "world"@),
    }
}

/// The first fault of the info fields, checked in this order.
pub open spec fn info_fault(t: Seq<Entry>) -> Option<Fault> {
    first_fault(text_fault(t, "name"@),
    first_fault(text_fault(t, "description"@),
    first_fault(text_fault(t, "web"@),
    first_fault(text_fault(t, "poster"@),
    first_fault(text_fault(t, "hashtag"@),
    first_fault(text_fault(t, "twitter"@),
    first_fault(text_fault(t, "group"@),
    first_fault(text_fault(t, "discord"@),
    first_fault(join_fault(t),
    first_fault(world_fault(t),
    shape_fault(weeks_ok(lookup(t, "weeks"@)), "weeks"@)))))))))))
}

/// The first fault of a weekday slot found under `key`.
pub open spec fn day_fault(v: DocValue, key: Seq<char>) -> Option<Fault> {
    match v {
        DocValue::Table(t) => first_fault(keys_fault(t@, |k: Seq<char>| is_day_key(k)),
        first_fault(info_fault(t@),
        first_fault(time_fault(t@, "start"@, true),
        time_fault(t@, "duration"@, false)))),
        _ => Some(Fault::Schema(key, SchemaProblem::WrongType)),
    }
}

/// The fault of the slot of weekday `wd`, if the table has one.
pub open spec fn slot_fault(t: Seq<Entry>, wd: int) -> Option<Fault> {
    match lookup(t, weekday_name(wd)) {
        None => None,
        Some(v) => day_fault(v, weekday_name(wd)),
    }
}

/// The first fault among the weekday slots, Sunday first.
pub open spec fn days_fault(t: Seq<Entry>) -> Option<Fault> {
    first_in(Seq::new(7, |wd: int| slot_fault(t, wd)))
}

/// The first fault of a language block.
pub open spec fn language_fault(v: DocValue) -> Option<Fault> {
    match v {
        DocValue::Table(t) => first_fault(keys_fault(t@, |k: Seq<char>| is_language_key(k)),
        first_fault(info_fault(t@),
        days_fault(t@))),
        _ => Some(Fault::Schema("languages"@, SchemaProblem::WrongType)),
    }
}

/// The fault of entry `i` of the languages table: a repeated tag, else its block's fault.
pub open spec fn language_entry_fault(entries: Seq<Entry>, i: int) -> Option<Fault> {
    if exists|j: int| 0 <= j < i && entries[j].key@ == entries[i].key@ {
        Some(Fault::Schema(entries[i].key@, SchemaProblem::DuplicateField))
    } else {
        language_fault(entries[i].value)
    }
}

/// The first fault of the optional languages table.
pub open spec fn languages_fault(t: Seq<Entry>) -> Option<Fault> {
    match lookup(t, "languages"@) {
        None => None,
        Some(DocValue::Table(entries)) => first_in(Seq::new(entries@.len(), |i: int| language_entry_fault(entries@, i))),
        Some(_) => Some(Fault::Schema("languages"@, SchemaProblem::WrongType)),
    }
}

/// The first fault of the optional `days` table.
pub open spec fn event_days_fault(t: Seq<Entry>) -> Option<Fault> {
    match lookup(t, "days"@) {
        None => None,
        Some(DocValue::Table(d)) => first_fault(keys_fault(d@, |k: Seq<char>| is_weekday_key(k)), days_fault(d@)),
        Some(_) => Some(Fault::Schema("days"@, SchemaProblem::WrongType)),
    }
}

/// The end date comes before the start date.
pub open spec fn order_fault(t: Seq<Entry>) -> Option<Fault> {
    if date_value_of(lookup(t, "start_date"@)) matches Some(s) && date_value_of(lookup(t, "end_date"@)) matches Some(x) && x.before(s) {
        Some(Fault::DateOrder)
    } else {
        None
    }
}

/// The first fault of an event document, its checks in this order.
pub open spec fn event_fault(doc: DocValue) -> Option<Fault> {
    match doc {
        DocValue::Table(t) => first_fault(keys_fault(t@, |k: Seq<char>| is_event_key(k)),
        first_fault(info_fault(t@),
        first_fault(date_fault(t@, "start_date"@),
        first_fault(date_fault(t@, "end_date"@),
        first_fault(order_fault(t@),
        first_fault(required_text_fault(t@, "timezone"@),
        first_fault(required_time_fault(t@, "start"@, true),
        first_fault(required_time_fault(t@, "duration"@, false),
        first_fault(shape_fault(platforms_ok(lookup(t@, "platforms"@)), "platforms"@),
        first_fault(event_days_fault(t@),
        first_fault(languages_fault(t@),
        first_fault(shape_fault(date_set_ok(lookup(t@, "confirmed"@)), "confirmed"@),
        shape_fault(date_set_ok(lookup(t@, "canceled"@)), "canceled"@))))))))))))),
        _ => Some(Fault::Schema(""@, SchemaProblem::WrongType)),
    }
}

/// An event document whose keys are distinct and whose first undeclared top-level key is `k`
/// fails with a schema error that names `k` as an unknown field.
pub proof fn lemma_undeclared_key_reported(doc: DocValue, i: int)
    requires
        doc matches DocValue::Table(t) && 0 <= i < t@.len() && !is_event_key(t@[i].key@)
            && (forall|j: int| 0 <= j < i ==> is_event_key(#[trigger] t@[j].key@))
            && (forall|a: int, b: int| 0 <= a < b < t@.len() ==> (#[trigger] t@[a]).key@ != (#[trigger] t@[b]).key@),
    ensures
        doc matches DocValue::Table(t) && event_fault(doc) == Some(Fault::Schema(t@[i].key@, SchemaProblem::UnknownField)),
{
    if let DocValue::Table(t) = doc {
        let p = |k: Seq<char>| is_event_key(k);
        let fs = Seq::new(t@.len(), |a: int| entry_fault(t@, p, a));
        assert forall|j: int| 0 <= j < i implies #[trigger] fs[j] is None by {
            assert(is_event_key(t@[j].key@));
            assert forall|c: int| 0 <= c < j implies t@[c].key@ != t@[j].key@ by {
                assert(t@[c].key@ != t@[j].key@);
            }
        }
        lemma_first_in_none(fs, i);
        lemma_first_in_step(fs, i);
        lemma_first_in_settled(fs, i + 1);
    }
}

/// The first fault of one language of the metadata document.
pub open spec fn meta_language_fault(v: DocValue) -> Option<Fault> {
    match v {
        DocValue::Table(t) => first_fault(keys_fault(t@, |k: Seq<char>| is_meta_language_key(k)),
        first_fault(text_fault(t@, "title"@),
        first_fault(text_fault(t@, "description"@),
        text_fault(t@, "link"@)))),
        _ => Some(Fault::Schema("languages"@, SchemaProblem::WrongType)),
    }
}

/// The first fault of the optional languages table of the metadata document.
pub open spec fn meta_languages_fault(t: Seq<Entry>) -> Option<Fault> {
    match lookup(t, "languages"@) {
        None => None,
        Some(DocValue::Table(entries)) => first_fault(
            keys_fault(entries@, |k: Seq<char>| true),
            first_in(Seq::new(entries@.len(), |i: int| meta_language_fault(entries@[i].value))),
        ),
        Some(_) => Some(Fault::Schema("languages"@, SchemaProblem::WrongType)),
    }
}

/// The first fault of a metadata document.
pub open spec fn meta_fault(doc: DocValue) -> Option<Fault> {
    match doc {
        DocValue::Table(t) => first_fault(keys_fault(t@, |k: Seq<char>| is_meta_key(k)),
        first_fault(required_text_fault(t@, "title"@),
        first_fault(text_fault(t@, "description"@),
        first_fault(text_fault(t@, "link"@),
        meta_languages_fault(t@))))),
        _ => Some(Fault::Schema(""@, SchemaProblem::WrongType)),
    }
}

/// `v` is the platform list that the optional value `x` stands for: the PC alone when absent,
/// else each listed name in order.
pub open spec fn platforms_read(x: Option<DocValue>, v: Seq<Platform>) -> bool {
    match x {
        None => v == seq![Platform::Pc],
        Some(DocValue::Array(items)) => v.len() == items@.len() && forall|i: int| 0 <= i < v.len() ==> (
            #[trigger] v[i] == if items@[i] matches DocValue::Str(s) && s@ == "pc"@ { Platform::Pc } else { Platform::Quest }),
        Some(_) => false,
    }
}

/// `d` is the weekday slot that the value `v` stands for.
pub open spec fn day_read_from(v: DocValue, d: EventDay) -> bool {
    &&& v matches DocValue::Table(t)
    &&& info_read_from(t@, d.info)
    &&& match lookup(t@, "start"@) {
        None => d.start is None,
        Some(x) => d.start matches Some(s) && time_of_day_value(x) == Ok::<int, TimeError>(s.0 as int),
    }
    &&& match lookup(t@, "duration"@) {
        None => d.duration is None,
        Some(x) => d.duration matches Some(s) && duration_value(x) == Ok::<int, TimeError>(s.0 as int),
    }
}

/// `d` holds, for each weekday, the slot that the table `t` has under that weekday's key.
pub open spec fn days_read_from(t: Seq<Entry>, d: EventDays) -> bool {
    forall|wd: int| 0 <= wd < 7 ==> match lookup(t, #[trigger] weekday_name(wd)) {
        None => d.slot(wd) is None,
        Some(v) => d.slot(wd) matches Some(x) && day_read_from(v, x),
    }
}

/// `l` is the language block that the value `v` stands for.
pub open spec fn language_read_from(v: DocValue, l: EventLanguage) -> bool {
    &&& v matches DocValue::Table(t)
    &&& info_read_from(t@, l.info)
    &&& days_read_from(t@, l.days)
}

/// `langs` holds the entries of the optional languages table, in order.
pub open spec fn languages_read_from(x: Option<DocValue>, langs: Seq<LanguageEntry>) -> bool {
    match x {
        None => langs.len() == 0,
        Some(DocValue::Table(entries)) => langs.len() == entries@.len() && forall|i: int| 0 <= i < langs.len() ==> (
            #[trigger] langs[i]).tag@ == entries@[i].key@ && language_read_from(entries@[i].value, langs[i].language),
        Some(_) => false,
    }
}

/// `e` is the event that the document `doc` stands for.
pub open spec fn event_read_from(doc: DocValue, e: Event) -> bool {
    &&& doc matches DocValue::Table(t)
    &&& info_read_from(t@, e.info)
    &&& e.start_date == date_value_of(lookup(t@, "start_date"@))
    &&& e.end_date == date_value_of(lookup(t@, "end_date"@))
    &&& lookup(t@, "timezone"@) matches Some(DocValue::Str(z)) && z@ == e.timezone@
    &&& lookup(t@, "start"@) matches Some(v) && time_of_day_value(v) == Ok::<int, TimeError>(e.start.0 as int)
    &&& lookup(t@, "duration"@) matches Some(v) && duration_value(v) == Ok::<int, TimeError>(e.duration.0 as int)
    &&& platforms_read(lookup(t@, "platforms"@), e.platforms@)
    &&& match lookup(t@, "days"@) {
        None => e.days == EventDays::spec_every_day(),
        Some(DocValue::Table(dt)) => days_read_from(dt@, e.days),
        Some(_) => false,
    }
    &&& languages_read_from(lookup(t@, "languages"@), e.languages@)
    &&& date_set_read(lookup(t@, "confirmed"@), true, e.confirmed)
    &&& date_set_read(lookup(t@, "canceled"@), false, e.canceled)
}

/// `m` holds the title, description and link of the metadata language block `v`.
pub open spec fn meta_language_read_from(v: DocValue, m: MetaLanguage) -> bool {
    &&& v matches DocValue::Table(t)
    &&& text_view_of(lookup(t@, "title"@)) == text_view(m.title)
    &&& text_view_of(lookup(t@, "description"@)) == text_view(m.description)
    &&& text_view_of(lookup(t@, "link"@)) == text_view(m.link)
}

/// `m` is the metadata that the document `doc` stands for.
pub open spec fn meta_read_from(doc: DocValue, m: Meta) -> bool {
    &&& doc matches DocValue::Table(t)
    &&& lookup(t@, "title"@) matches Some(DocValue::Str(x)) && x@ == m.title@
    &&& text_view_of(lookup(t@, "description"@)) == text_view(m.description)
    &&& text_view_of(lookup(t@, "link"@)) == text_view(m.link)
    &&& match lookup(t@, "languages"@) {
        None => m.languages@.len() == 0,
        Some(DocValue::Table(entries)) => m.languages@.len() == entries@.len() && forall|i: int|
            0 <= i < entries@.len() ==> (#[trigger] m.languages@[i]).tag@ == entries@[i].key@
                && meta_language_read_from(entries@[i].value, m.languages@[i].meta),
        Some(_) => false,
    }
}

/// Reads a co-host or world reference: a table with a name and an id.
fn read_named(v: &DocValue, key: &str) -> (r: Result<Named, LoadError>)
    ensures
        outcome(r) == named_fault(*v, key@),
        !(r matches Err(LoadError::DateOrder)),
        !(r matches Err(LoadError::Syntax)),
        r is Ok ==> closed_table(*v, |k: Seq<char>| is_named_key(k)),
{
    match v {
        DocValue::Table(t) => {
            let known = named_keys();
            assert((|k: Seq<char>| listed(known@, k)) =~= (|k: Seq<char>| is_named_key(k)));
            check_keys(t, known.as_slice())?;
            let name = read_required_text(t, "name")?;
            let id = read_required_text(t, "id")?;
            Ok(Named { name, id })
        },
        _ => Err(schema_error(key, SchemaProblem::WrongType)),
    }
}

/// Reads the optional list of co-hosts under `join`.
fn read_join(t: &Vec<Entry>) -> (r: Result<Option<Vec<Named>>, LoadError>)
    ensures
        outcome(r) == join_fault(t@),
        !(r matches Err(LoadError::DateOrder)),
        !(r matches Err(LoadError::Syntax)),
        lookup(t@, "join"@) is None ==> r matches Ok(None),
        r matches Ok(Some(v)) ==> (lookup(t@, "join"@) matches Some(DocValue::Array(items)) && v@.len() == items@.len()),
        lookup(t@, "join"@) is Some ==> !(r matches Ok(None)),
{
    match find(t, "join") {
        None => Ok(None),
        Some(DocValue::Array(items)) => {
            let ghost fs = Seq::new(items@.len(), |a: int| named_fault(items@[a], "join"@));
            assert(fs.take(0) =~= Seq::<Option<Fault>>::empty());
            let mut out: Vec<Named> = Vec::new();
            let mut i: usize = 0;
            while i < items.len()
                invariant
                    lookup(t@, "join"@) == Some(DocValue::Array(*items)),
                    i <= items@.len(),
                    out@.len() == i,
                    fs == Seq::new(items@.len(), |a: int| named_fault(items@[a], "join"@)),
                    first_in(fs.take(i as int)) is None,
                decreases items@.len() - i,
            {
                proof {
                    lemma_first_in_step(fs, i as int);
                }
                match read_named(&items[i], "join") {
                    Ok(n) => out.push(n),
                    Err(e) => {
                        proof {
                            lemma_first_in_settled(fs, i + 1);
                        }
                        return Err(e);
                    },
                }
                i = i + 1;
            }
            proof {
                lemma_first_in_settled(fs, items@.len() as int);
            }
            Ok(Some(out))
        },
        Some(_) => Err(schema_error("join", SchemaProblem::WrongType)),
    }
}

/// Reads the optional weeks filter: a list of integers that each fit a byte.
fn read_weeks(t: &Vec<Entry>) -> (r: Result<Option<Vec<u8>>, LoadError>)
    ensures
        outcome(r) == shape_fault(weeks_ok(lookup(t@, "weeks"@)), "weeks"@),
        r is Ok <==> weeks_ok(lookup(t@, "weeks"@)),
        !(r matches Err(LoadError::DateOrder)),
        !(r matches Err(LoadError::Syntax)),
        lookup(t@, "weeks"@) is None ==> r matches Ok(None),
        lookup(t@, "weeks"@) is Some ==> !(r matches Ok(None)),
        r matches Ok(Some(w)) ==> (lookup(t@, "weeks"@) matches Some(DocValue::Array(items))
            && w@.len() == items@.len() && forall|i: int| 0 <= i < w@.len() ==> items@[i] == DocValue::Int(#[trigger] w@[i] as i64)),
{
    match find(t, "weeks") {
        None => Ok(None),
        Some(DocValue::Array(items)) => {
            let mut out: Vec<u8> = Vec::new();
            let mut i: usize = 0;
            while i < items.len()
                invariant
                    lookup(t@, "weeks"@) == Some(DocValue::Array(*items)),
                    i <= items@.len(),
                    out@.len() == i,
                    forall|j: int| 0 <= j < i ==> items@[j] == DocValue::Int(#[trigger] out@[j] as i64),
                decreases items@.len() - i,
            {
                match &items[i] {
                    DocValue::Int(n) => {
                        if 0 <= *n && *n <= 255 {
                            out.push(*n as u8);
                        } else {
                            assert(!(items@[i as int] matches DocValue::Int(n) && 0 <= n <= 255));
                            return Err(schema_error("weeks", SchemaProblem::WrongType));
                        }
                    },
                    _ => {
                        assert(!(items@[i as int] matches DocValue::Int(n) && 0 <= n <= 255));
                        return Err(schema_error("weeks", SchemaProblem::WrongType));
                    },
                }
                i = i + 1;
            }
            assert forall|j: int| 0 <= j < items@.len() implies (#[trigger] items@[j] matches DocValue::Int(n) && 0 <= n <= 255) by {
                assert(items@[j] == DocValue::Int(out@[j] as i64));
            }
            Ok(Some(out))
        },
        Some(_) => Err(schema_error("weeks", SchemaProblem::WrongType)),
    }
}

/// Reads the list of platforms; an absent key gives the PC alone.
fn read_platforms(t: &Vec<Entry>) -> (r: Result<Vec<Platform>, LoadError>)
    ensures
        r matches Ok(v) ==> platforms_read(lookup(t@, "platforms"@), v@),
        outcome(r) == shape_fault(platforms_ok(lookup(t@, "platforms"@)), "platforms"@),
        r is Ok <==> platforms_ok(lookup(t@, "platforms"@)),
        !(r matches Err(LoadError::DateOrder)),
        !(r matches Err(LoadError::Syntax)),
        lookup(t@, "platforms"@) is None ==> (r matches Ok(v) && v@ == seq![Platform::Pc]),
{
    match find(t, "platforms") {
        None => {
            let v = vec![Platform::Pc];
            assert(v@ =~= seq![Platform::Pc]);
            assert(platforms_read(lookup(t@, "platforms"@), v@));
            Ok(v)
        },
        Some(DocValue::Array(items)) => {
            let mut out: Vec<Platform> = Vec::new();
            let mut i: usize = 0;
            while i < items.len()
                invariant
                    lookup(t@, "platforms"@) == Some(DocValue::Array(*items)),
                    i <= items@.len(),
                    forall|j: int| 0 <= j < i ==> (#[trigger] items@[j] matches DocValue::Str(s) && (s@ == "pc"@ || s@ == "quest"@)),
                    out@.len() == i,
                    forall|j: int| 0 <= j < i ==> #[trigger] out@[j] == if items@[j] matches DocValue::Str(s) && s@ == "pc"@ { Platform::Pc } else { Platform::Quest },
                decreases items@.len() - i,
            {
                match &items[i] {
                    DocValue::Str(s) => {
                        if text_eq(s.as_str(), "pc") {
                            out.push(Platform::Pc);
                        } else if text_eq(s.as_str(), "quest") {
                            out.push(Platform::Quest);
                        } else {
                            assert(!(items@[i as int] matches DocValue::Str(s) && (s@ == "pc"@ || s@ == "quest"@)));
                            return Err(schema_error("platforms", SchemaProblem::WrongType));
                        }
                    },
                    _ => {
                        assert(!(items@[i as int] matches DocValue::Str(s) && (s@ == "pc"@ || s@ == "quest"@)));
                        return Err(schema_error("platforms", SchemaProblem::WrongType));
                    },
                }
                i = i + 1;
            }
            assert(platforms_read(lookup(t@, "platforms"@), out@));
            Ok(out)
        },
        Some(_) => Err(schema_error("platforms", SchemaProblem::WrongType)),
    }
}

/// Reads the info fields of a table whose keys the caller has checked.
fn read_info(t: &Vec<Entry>) -> (r: Result<EventInfo, LoadError>)
    ensures
        outcome(r) == info_fault(t@),
        !(r matches Err(LoadError::DateOrder)),
        !(r matches Err(LoadError::Syntax)),
        r matches Ok(info) ==> info_read_from(t@, info),
{
    let name = read_text(t, "name")?;
    let description = read_text(t, "description")?;
    let web = read_text(t, "web")?;
    let poster = read_text(t, "poster")?;
    let hashtag = read_text(t, "hashtag")?;
    let twitter = read_text(t, "twitter")?;
    let group = read_text(t, "group")?;
    let discord = read_text(t, "discord")?;
    let join = read_join(t)?;
    let world = match find(t, "world") {
        None => None,
        Some(v) => Some(read_named(v, "world")?),
    };
    let weeks = read_weeks(t)?;
    Ok(EventInfo { name, description, web, poster, hashtag, twitter, group, discord, join, world, weeks })
}

/// The info block holds the table's text fields as written, and defines a list or a
/// reference exactly where the table has that key.
pub open spec fn info_read_from(t: Seq<Entry>, info: EventInfo) -> bool {
    &&& text_view_of(lookup(t, "name"@)) == text_view(info.name)
    &&& text_view_of(lookup(t, "description"@)) == text_view(info.description)
    &&& text_view_of(lookup(t, "web"@)) == text_view(info.web)
    &&& text_view_of(lookup(t, "poster"@)) == text_view(info.poster)
    &&& text_view_of(lookup(t, "hashtag"@)) == text_view(info.hashtag)
    &&& text_view_of(lookup(t, "twitter"@)) == text_view(info.twitter)
    &&& text_view_of(lookup(t, "group"@)) == text_view(info.group)
    &&& text_view_of(lookup(t, "discord"@)) == text_view(info.discord)
    &&& (lookup(t, "join"@) is None <==> info.join is None)
    &&& (lookup(t, "world"@) is None <==> info.world is None)
    &&& (info.weeks matches Some(w) ==> lookup(t, "weeks"@) matches Some(DocValue::Array(items))
        && w@.len() == items@.len() && forall|i: int| 0 <= i < w@.len() ==> items@[i] == DocValue::Int(#[trigger] w@[i] as i64))
    &&& (lookup(t, "weeks"@) is None ==> info.weeks is None)
}

/// The text of an optional value that is known to be a string.
pub open spec fn text_view_of(v: Option<DocValue>) -> Option<Seq<char>> {
    match v {
        Some(DocValue::Str(s)) => Some(s@),
        _ => None,
    }
}

/// Reads one weekday slot: a table of info fields with an optional start and duration.
fn read_day(v: &DocValue, key: &str) -> (r: Result<EventDay, LoadError>)
    ensures
        r matches Ok(d) ==> day_read_from(*v, d),
        outcome(r) == day_fault(*v, key@),
        !(r matches Err(LoadError::DateOrder)),
        !(r matches Err(LoadError::Syntax)),
        r matches Ok(d) ==> d.wf(),
        r is Ok ==> closed_table(*v, |k: Seq<char>| is_day_key(k)),
        r matches Ok(d) ==> (v matches DocValue::Table(t) && info_read_from(t@, d.info) && (match lookup(t@, "start"@) {
            None => d.start is None,
            Some(x) => d.start matches Some(s) && time_of_day_value(x) == Ok::<int, TimeError>(s.0 as int),
        }) && (match lookup(t@, "duration"@) {
            None => d.duration is None,
            Some(x) => d.duration matches Some(s) && duration_value(x) == Ok::<int, TimeError>(s.0 as int),
        })),
{
    match v {
        DocValue::Table(t) => {
            let known = day_keys();
            assert((|k: Seq<char>| listed(known@, k)) =~= (|k: Seq<char>| is_day_key(k)));
            check_keys(t, known.as_slice())?;
            let info = read_info(t)?;
            let start = read_time(t, "start", true)?;
            let duration = read_time(t, "duration", false)?;
            Ok(EventDay { info, start, duration })
        },
        _ => Err(schema_error(key, SchemaProblem::WrongType)),
    }
}

/// Reads the weekday slots of a table whose keys the caller has checked.
fn read_days(t: &Vec<Entry>) -> (r: Result<EventDays, LoadError>)
    ensures
        r matches Ok(d) ==> days_read_from(t@, d),
        outcome(r) == days_fault(t@),
        !(r matches Err(LoadError::DateOrder)),
        !(r matches Err(LoadError::Syntax)),
        r matches Ok(d) ==> d.wf(),
        r matches Ok(d) ==> forall|wd: int| 0 <= wd < 7 ==> (lookup(t@, weekday_name(wd)) is None
            <==> #[trigger] d.slot(wd) is None),
        r matches Ok(d) ==> forall|wd: int| 0 <= wd < 7 ==> (#[trigger] d.slot(wd) matches Some(x) ==> (
            lookup(t@, weekday_name(wd)) matches Some(DocValue::Table(dt)) && info_read_from(dt@, x.info))),
{
    let names = weekday_keys();
    let mut slots: Vec<Option<EventDay>> = Vec::new();
    let ghost fs = Seq::new(7, |wd: int| slot_fault(t@, wd));
    assert(fs.take(0) =~= Seq::<Option<Fault>>::empty());
    let mut i: usize = 0;
    while i < 7
        invariant
            fs == Seq::new(7, |wd: int| slot_fault(t@, wd)),
            first_in(fs.take(i as int)) is None,
            i <= 7,
            names@.len() == 7,
            forall|j: int| 0 <= j < 7 ==> (#[trigger] names@[j])@ == weekday_name(j),
            slots@.len() == i,
            forall|j: int| 0 <= j < i ==> (#[trigger] slots@[j] matches Some(d) ==> d.wf()),
            forall|j: int| 0 <= j < i ==> (lookup(t@, weekday_name(j)) is None <==> #[trigger] slots@[j] is None),
            forall|j: int| 0 <= j < i ==> (#[trigger] slots@[j] matches Some(x) ==> (
                lookup(t@, weekday_name(j)) matches Some(DocValue::Table(dt)) && info_read_from(dt@, x.info))),
            forall|j: int| 0 <= j < i ==> match lookup(t@, #[trigger] weekday_name(j)) {
                None => slots@[j] is None,
                Some(v) => slots@[j] matches Some(x) && day_read_from(v, x),
            },
        decreases 7 - i,
    {
        assert(names@[i as int]@ == weekday_name(i as int));
        proof {
            lemma_first_in_step(fs, i as int);
        }
        let slot = match find(t, names[i]) {
            None => None,
            Some(v) => match read_day(v, names[i]) {
                Ok(d) => Some(d),
                Err(e) => {
                    proof {
                        lemma_first_in_settled(fs, i + 1);
                    }
                    return Err(e);
                },
            },
        };
        slots.push(slot);
        i = i + 1;
    }
    proof {
        lemma_first_in_settled(fs, 7);
    }
    let ghost all_slots = slots@;
    let saturday = slots.pop().unwrap();
    let friday = slots.pop().unwrap();
    let thursday = slots.pop().unwrap();
    let wednesday = slots.pop().unwrap();
    let tuesday = slots.pop().unwrap();
    let monday = slots.pop().unwrap();
    let sunday = slots.pop().unwrap();
    let days = EventDays { sunday, monday, tuesday, wednesday, thursday, friday, saturday };
    assert(days.slot(0) is None <==> lookup(t@, weekday_name(0)) is None);
    assert forall|wd: int| 0 <= wd < 7 implies days.slot(wd) == all_slots[wd] by {
        if wd == 0 {
            assert(days.slot(0) == all_slots[0]);
        }
    }
    assert(days_read_from(t@, days)) by {
        assert forall|wd: int| 0 <= wd < 7 implies match lookup(t@, #[trigger] weekday_name(wd)) {
            None => days.slot(wd) is None,
            Some(v) => days.slot(wd) matches Some(x) && day_read_from(v, x),
        } by {
            assert(days.slot(wd) == all_slots[wd]);
        }
    }
    Ok(days)
}

/// Reads the overrides of one language: info fields and weekday slots side by side.
fn read_language(v: &DocValue) -> (r: Result<EventLanguage, LoadError>)
    ensures
        r matches Ok(l) ==> language_read_from(*v, l),
        outcome(r) == language_fault(*v),
        !(r matches Err(LoadError::DateOrder)),
        !(r matches Err(LoadError::Syntax)),
        r matches Ok(l) ==> l.days.wf(),
        r is Ok ==> closed_table(*v, |k: Seq<char>| is_language_key(k)),
        r matches Ok(l) ==> (v matches DocValue::Table(t) && info_read_from(t@, l.info) && forall|wd: int|
            0 <= wd < 7 ==> (lookup(t@, weekday_name(wd)) is None <==> #[trigger] l.days.slot(wd) is None)),
{
    match v {
        DocValue::Table(t) => {
            let known = language_keys();
            assert((|k: Seq<char>| listed(known@, k)) =~= (|k: Seq<char>| is_language_key(k)));
            check_keys(t, known.as_slice())?;
            let info = read_info(t)?;
            let days = read_days(t)?;
            Ok(EventLanguage { info, days })
        },
        _ => Err(schema_error("languages", SchemaProblem::WrongType)),
    }
}

/// Reads the table of languages under `languages`; each tag appears once.
fn read_languages(t: &Vec<Entry>) -> (r: Result<Vec<LanguageEntry>, LoadError>)
    ensures
        r matches Ok(v) ==> languages_read_from(lookup(t@, "languages"@), v@),
        outcome(r) == languages_fault(t@),
        !(r matches Err(LoadError::DateOrder)),
        !(r matches Err(LoadError::Syntax)),
        lookup(t@, "languages"@) is None ==> (r matches Ok(v) && v@.len() == 0),
        r matches Ok(v) ==> (lookup(t@, "languages"@) matches Some(DocValue::Table(entries)) ==> (v@.len()
            == entries@.len() && forall|i: int| 0 <= i < v@.len() ==> (#[trigger] v@[i]).tag@ == entries@[i].key@)),
        r matches Ok(v) ==> forall|i: int, j: int|
            0 <= i < j < v@.len() ==> #[trigger] v@[i].tag@ != #[trigger] v@[j].tag@,
        r matches Ok(v) ==> forall|i: int| 0 <= i < v@.len() ==> (#[trigger] v@[i]).language.days.wf(),
{
    match find(t, "languages") {
        None => Ok(Vec::new()),
        Some(DocValue::Table(entries)) => {
            let ghost fs = Seq::new(entries@.len(), |a: int| language_entry_fault(entries@, a));
            assert(fs.take(0) =~= Seq::<Option<Fault>>::empty());
            let mut out: Vec<LanguageEntry> = Vec::new();
            let mut i: usize = 0;
            while i < entries.len()
                invariant
                    lookup(t@, "languages"@) == Some(DocValue::Table(*entries)),
                    i <= entries@.len(),
                    out@.len() == i,
                    forall|a: int| 0 <= a < i ==> (#[trigger] out@[a]).tag@ == entries@[a].key@,
                    forall|a: int, b: int| 0 <= a < b < i ==> #[trigger] out@[a].tag@ != #[trigger] out@[b].tag@,
                    forall|a: int| 0 <= a < i ==> (#[trigger] out@[a]).language.days.wf(),
                    forall|a: int| 0 <= a < i ==> language_read_from(entries@[a].value, (#[trigger] out@[a]).language),
                    fs == Seq::new(entries@.len(), |a: int| language_entry_fault(entries@, a)),
                    first_in(fs.take(i as int)) is None,
                decreases entries@.len() - i,
            {
                proof {
                    lemma_first_in_step(fs, i as int);
                }
                let tag = entries[i].key.as_str();
                let mut j: usize = 0;
                while j < i
                    invariant
                        lookup(t@, "languages"@) == Some(DocValue::Table(*entries)),
                        j <= i < entries@.len(),
                        out@.len() == i,
                        tag@ == entries@[i as int].key@,
                        forall|a: int| 0 <= a < i ==> (#[trigger] out@[a]).tag@ == entries@[a].key@,
                        forall|c: int| 0 <= c < j ==> (#[trigger] out@[c]).tag@ != tag@,
                        fs == Seq::new(entries@.len(), |a: int| language_entry_fault(entries@, a)),
                        first_in(fs.take(i + 1)) == fs[i as int],
                    decreases i - j,
                {
                    if text_eq(out[j].tag.as_str(), tag) {
                        assert(entries@[j as int].key@ == entries@[i as int].key@);
                        proof {
                            lemma_first_in_settled(fs, i + 1);
                        }
                        return Err(LoadError::Schema { key: entries[i].key.clone(), problem: SchemaProblem::DuplicateField });
                    }
                    j = j + 1;
                }
                assert forall|c: int| 0 <= c < i implies entries@[c].key@ != entries@[i as int].key@ by {
                    assert(out@[c].tag@ != tag@);
                }
                let language = match read_language(&entries[i].value) {
                    Ok(l) => l,
                    Err(e) => {
                        proof {
                            lemma_first_in_settled(fs, i + 1);
                        }
                        return Err(e);
                    },
                };
                out.push(LanguageEntry { tag: entries[i].key.clone(), language });
                i = i + 1;
            }
            assert forall|a: int, b: int| 0 <= a < b < entries@.len() implies (#[trigger] entries@[a]).key@ != (#[trigger] entries@[b]).key@ by {
                assert(out@[a].tag@ != out@[b].tag@);
            }
            proof {
                lemma_first_in_settled(fs, entries@.len() as int);
            }
            Ok(out)
        },
        Some(_) => Err(schema_error("languages", SchemaProblem::WrongType)),
    }
}

/// Loads one event document.
pub fn load_event(doc: &DocValue) -> (r: Result<Event, LoadError>)
    ensures
        r matches Ok(e) ==> event_read_from(*doc, e),
        outcome(r) == event_fault(*doc),
        r is Ok <==> event_ok(*doc),
        r matches Ok(e) ==> e.wf(),
        r is Ok ==> closed_table(*doc, |k: Seq<char>| is_event_key(k)),
        (doc matches DocValue::Table(t) && exists|i: int| 0 <= i < t@.len() && !is_event_key(#[trigger] t@[i].key@))
            ==> r matches Err(LoadError::Schema { .. }),
        r matches Ok(e) ==> !(e.start_date matches Some(s) && e.end_date matches Some(x) && x.before(s)),
        r matches Err(LoadError::DateOrder) ==> doc matches DocValue::Table(t) && date_value_of(lookup(t@, "start_date"@)) matches Some(s)
            && date_value_of(lookup(t@, "end_date"@)) matches Some(x) && x.before(s),
        !(r matches Err(LoadError::Syntax)),
{
    let t = match doc {
        DocValue::Table(t) => t,
        _ => {
            return Err(schema_error("", SchemaProblem::WrongType));
        },
    };
    let known = event_keys();
            assert((|k: Seq<char>| listed(known@, k)) =~= (|k: Seq<char>| is_event_key(k)));
    check_keys(t, known.as_slice())?;
    let info = read_info(t)?;
    let start_date = read_date(t, "start_date")?;
    let end_date = read_date(t, "end_date")?;
    if let (Some(s), Some(e)) = (start_date, end_date) {
        if date_before(e, s) {
            return Err(LoadError::DateOrder);
        }
    }
    let timezone = read_required_text(t, "timezone")?;
    let start = match read_time(t, "start", true)? {
        Some(x) => x,
        None => {
            return Err(schema_error("start", SchemaProblem::MissingField));
        },
    };
    let duration = match read_time(t, "duration", false)? {
        Some(x) => x,
        None => {
            return Err(schema_error("duration", SchemaProblem::MissingField));
        },
    };
    let platforms = read_platforms(t)?;
    let days = match find(t, "days") {
        None => EventDays::every_day(),
        Some(DocValue::Table(d)) => {
            let names = weekday_keys();
            assert((|k: Seq<char>| listed(names@, k)) =~= (|k: Seq<char>| is_weekday_key(k)));
            check_keys(d, names.as_slice())?;
            read_days(d)?
        },
        Some(_) => {
            return Err(schema_error("days", SchemaProblem::WrongType));
        },
    };
    let languages = read_languages(t)?;
    let confirmed = read_date_set(t, "confirmed", true)?;
    let canceled = read_date_set(t, "canceled", false)?;
    Ok(Event {
        info,
        start_date,
        end_date,
        timezone,
        start,
        duration,
        platforms,
        days,
        languages,
        confirmed,
        canceled,
    })
}

/// The date that an optional value stands for, if it is one.
pub open spec fn date_value_of(v: Option<DocValue>) -> Option<Date> {
    match v {
        Some(x) => date_value(x),
        None => None,
    }
}

/// Loads one language block of the metadata document.
fn read_meta_language(v: &DocValue) -> (r: Result<MetaLanguage, LoadError>)
    ensures
        r matches Ok(m) ==> meta_language_read_from(*v, m),
        outcome(r) == meta_language_fault(*v),
        r is Ok ==> closed_table(*v, |k: Seq<char>| is_meta_language_key(k)),
{
    match v {
        DocValue::Table(t) => {
            let known = meta_language_keys();
            assert((|k: Seq<char>| listed(known@, k)) =~= (|k: Seq<char>| is_meta_language_key(k)));
            check_keys(t, known.as_slice())?;
            let title = read_text(t, "title")?;
            let description = read_text(t, "description")?;
            let link = read_text(t, "link")?;
            Ok(MetaLanguage { title, description, link })
        },
        _ => Err(schema_error("languages", SchemaProblem::WrongType)),
    }
}

/// Loads the site-wide metadata document.
pub fn load_meta(doc: &DocValue) -> (r: Result<Meta, LoadError>)
    ensures
        r matches Ok(m) ==> meta_read_from(*doc, m),
        outcome(r) == meta_fault(*doc),
        r is Ok <==> meta_ok(*doc),
        r is Ok ==> closed_table(*doc, |k: Seq<char>| is_meta_key(k)),
        r matches Ok(m) ==> doc matches DocValue::Table(t) && lookup(t@, "title"@) matches Some(DocValue::Str(x)) && x@ == m.title@,
        r matches Ok(m) ==> forall|i: int, j: int|
            0 <= i < j < m.languages@.len() ==> #[trigger] m.languages@[i].tag@ != #[trigger] m.languages@[j].tag@,
{
    let t = match doc {
        DocValue::Table(t) => t,
        _ => {
            return Err(schema_error("", SchemaProblem::WrongType));
        },
    };
    let known = meta_keys();
            assert((|k: Seq<char>| listed(known@, k)) =~= (|k: Seq<char>| is_meta_key(k)));
    check_keys(t, known.as_slice())?;
    let title = read_required_text(t, "title")?;
    let description = read_text(t, "description")?;
    let link = read_text(t, "link")?;
    let mut languages: Vec<MetaEntry> = Vec::new();
    match find(t, "languages") {
        None => {},
        Some(DocValue::Table(entries)) => {
            check_keys_distinct(entries)?;
            let ghost fs = Seq::new(entries@.len(), |a: int| meta_language_fault(entries@[a].value));
            assert(fs.take(0) =~= Seq::<Option<Fault>>::empty());
            let mut i: usize = 0;
            while i < entries.len()
                invariant
                    i <= entries@.len(),
                    languages@.len() == i,
                    forall|a: int| 0 <= a < i ==> (#[trigger] languages@[a]).tag@ == entries@[a].key@,
                    forall|a: int, b: int| 0 <= a < b < entries@.len() ==> (#[trigger] entries@[a]).key@ != (#[trigger] entries@[b]).key@,
                    lookup(t@, "languages"@) == Some(DocValue::Table(*entries)),
                    *doc == DocValue::Table(*t),
                    forall|a: int| 0 <= a < i ==> meta_language_read_from(entries@[a].value, (#[trigger] languages@[a]).meta),
                    text_view_of(lookup(t@, "description"@)) == text_view(description) && text_view_of(lookup(t@, "link"@)) == text_view(link),
                    lookup(t@, "title"@) matches Some(DocValue::Str(x)) && x@ == title@,
                    fs == Seq::new(entries@.len(), |a: int| meta_language_fault(entries@[a].value)),
                    first_in(fs.take(i as int)) is None,
                    keys_fault(entries@, |k: Seq<char>| true) is None,
                    text_fault(t@, "description"@) is None && text_fault(t@, "link"@) is None,
                    required_text_fault(t@, "title"@) is None,
                    keys_fault(t@, |k: Seq<char>| is_meta_key(k)) is None,
                decreases entries@.len() - i,
            {
                proof {
                    lemma_first_in_step(fs, i as int);
                }
                let meta = match read_meta_language(&entries[i].value) {
                    Ok(m) => m,
                    Err(e) => {
                        proof {
                            lemma_first_in_settled(fs, i + 1);
                        }
                        return Err(e);
                    },
                };
                languages.push(MetaEntry { tag: entries[i].key.clone(), meta });
                i = i + 1;
            }
            proof {
                lemma_first_in_settled(fs, entries@.len() as int);
            }
            assert forall|a: int, b: int| 0 <= a < b < languages@.len() implies #[trigger] languages@[a].tag@ != #[trigger] languages@[b].tag@ by {
                assert(entries@[a].key@ != entries@[b].key@);
            }
        },
        Some(_) => {
            return Err(schema_error("languages", SchemaProblem::WrongType));
        },
    }
    Ok(Meta { title, description, link, languages })
}

/// Checks that no key of `t` appears twice.
fn check_keys_distinct(t: &Vec<Entry>) -> (r: Result<(), LoadError>)
    ensures
        outcome(r) == keys_fault(t@, |k: Seq<char>| true),
        r is Ok <==> forall|a: int, b: int| 0 <= a < b < t@.len() ==> (#[trigger] t@[a]).key@ != (#[trigger] t@[b]).key@,
{
    let ghost p = |k: Seq<char>| true;
    let ghost fs = Seq::new(t@.len(), |a: int| entry_fault(t@, p, a));
    assert(fs.take(0) =~= Seq::<Option<Fault>>::empty());
    let mut i: usize = 0;
    while i < t.len()
        invariant
            i <= t@.len(),
            p == (|k: Seq<char>| true),
            fs == Seq::new(t@.len(), |a: int| entry_fault(t@, p, a)),
            first_in(fs.take(i as int)) is None,
            forall|a: int, b: int| 0 <= a < b < i ==> (#[trigger] t@[a]).key@ != (#[trigger] t@[b]).key@,
        decreases t@.len() - i,
    {
        proof {
            lemma_first_in_step(fs, i as int);
        }
        let key = t[i].key.as_str();
        let mut j: usize = 0;
        while j < i
            invariant
                j <= i < t@.len(),
                key@ == t@[i as int].key@,
                p == (|k: Seq<char>| true),
                fs == Seq::new(t@.len(), |a: int| entry_fault(t@, p, a)),
                first_in(fs.take(i + 1)) == fs[i as int],
                forall|c: int| 0 <= c < j ==> (#[trigger] t@[c]).key@ != key@,
            decreases i - j,
        {
            if text_eq(t[j].key.as_str(), key) {
                proof {
                    assert(t@[j as int].key@ == t@[i as int].key@);
                    lemma_first_in_settled(fs, i + 1);
                }
                return Err(LoadError::Schema { key: t[i].key.clone(), problem: SchemaProblem::DuplicateField });
            }
            j = j + 1;
        }
        i = i + 1;
    }
    proof {
        lemma_first_in_settled(fs, t@.len() as int);
    }
    Ok(())
}

} // verus!
