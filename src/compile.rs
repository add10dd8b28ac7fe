//! Compiling a set of event documents into one timetable, each document on its own.
use vstd::prelude::*;
use crate::date::Date;
use crate::document::DocValue;
use crate::emit::{Occurrence, TimeSlot, event_schedule, group_by_time, has_slot, lang_view, occurrence_of, occurrences, slot_members, starts_at};
use crate::loader::{Fault, fault_of, LoadError, closed_table, event_fault, event_ok, event_read_from, is_event_key, load_event, outcome};
use crate::model::Event;
use crate::parse::{parse_document, toml_document};

verus! {

/// The text is a well-formed event document.
pub open spec fn document_loads(text: Seq<char>) -> bool {
    toml_document(text) matches Some(doc) && event_ok(doc)
}

/// `e` is the event that the text stands for.
pub open spec fn document_read(text: Seq<char>, e: Event) -> bool {
    toml_document(text) matches Some(doc) && event_read_from(doc, e)
}

/// Some failure is for the document at position `i`.
pub open spec fn failed_at(failures: Seq<Failure>, i: int) -> bool {
    exists|a: int| 0 <= a < failures.len() && failures[a].index == i
}

/// Reads and loads one event document from its text.
pub fn load_event_text(text: &str) -> (r: Result<Event, LoadError>)
    ensures
        toml_document(text@) is None <==> r matches Err(LoadError::Syntax),
        r is Ok <==> document_loads(text@),
        outcome(r) == match toml_document(text@) {
            None => Some(Fault::Syntax),
            Some(doc) => event_fault(doc),
        },
        r matches Ok(e) ==> document_read(text@, e),
        r matches Ok(e) ==> e.wf(),
        r is Ok ==> (toml_document(text@) matches Some(doc) && closed_table(doc, |k: Seq<char>| is_event_key(k))),
        (toml_document(text@) matches Some(DocValue::Table(t)) && exists|i: int| 0 <= i < t@.len() && !is_event_key(#[trigger] t@[i].key@))
            ==> r matches Err(LoadError::Schema { .. }),
{
    match parse_document(text) {
        None => Err(LoadError::Syntax),
        Some(doc) => load_event(&doc),
    }
}

/// A document that could not be loaded, by its position among the inputs.
#[derive(Clone, Debug)]
pub struct Failure {
    pub index: usize,
    pub error: LoadError,
}

/// An event that loaded, with its position among the inputs.
#[derive(Clone, Debug)]
pub struct Loaded {
    pub index: usize,
    pub event: Event,
}

/// Some loaded event is the document at position `i`.
pub open spec fn loaded_at(events: Seq<Loaded>, i: int) -> bool {
    exists|a: int| 0 <= a < events.len() && events[a].index == i
}

/// Loads each document on its own: the ones that load, and a failure for each of the others,
/// both in input order.
pub fn load_all(texts: &Vec<String>) -> (r: (Vec<Loaded>, Vec<Failure>))
    ensures
        forall|a: int, b: int| 0 <= a < b < r.0@.len() ==> r.0@[a].index < r.0@[b].index,
        forall|a: int| 0 <= a < r.0@.len() ==> (#[trigger] r.0@[a]).index < texts@.len() && r.0@[a].event.wf(),
        forall|a: int| 0 <= a < r.0@.len() ==> document_read(texts@[(#[trigger] r.0@[a]).index as int]@, r.0@[a].event),
        forall|a: int| 0 <= a < r.1@.len() ==> Some(fault_of(#[trigger] r.1@[a].error)) == match toml_document(texts@[r.1@[a].index as int]@) {
            None => Some(Fault::Syntax),
            Some(doc) => event_fault(doc),
        },
        forall|a: int, b: int| 0 <= a < b < r.1@.len() ==> r.1@[a].index < r.1@[b].index,
        forall|a: int| 0 <= a < r.1@.len() ==> (#[trigger] r.1@[a]).index < texts@.len(),
        forall|a: int| 0 <= a < r.1@.len() ==> toml_document(texts@[(#[trigger] r.1@[a]).index as int]@) is None
            ==> r.1@[a].error is Syntax,
        forall|i: int| 0 <= i < texts@.len() ==> (failed_at(r.1@, i) <==> !document_loads(#[trigger] texts@[i]@)),
        forall|i: int| 0 <= i < texts@.len() ==> (loaded_at(r.0@, i) <==> document_loads(#[trigger] texts@[i]@)),
{
    let mut events: Vec<Loaded> = Vec::new();
    let mut failures: Vec<Failure> = Vec::new();
    let mut i: usize = 0;
    while i < texts.len()
        invariant
            i <= texts@.len(),
            forall|a: int, b: int| 0 <= a < b < events@.len() ==> events@[a].index < events@[b].index,
            forall|a: int| 0 <= a < events@.len() ==> (#[trigger] events@[a]).index < i && events@[a].event.wf(),
            forall|a: int| 0 <= a < events@.len() ==> document_read(texts@[(#[trigger] events@[a]).index as int]@, events@[a].event),
            forall|a: int| 0 <= a < failures@.len() ==> Some(fault_of(#[trigger] failures@[a].error)) == match toml_document(texts@[failures@[a].index as int]@) {
                None => Some(Fault::Syntax),
                Some(doc) => event_fault(doc),
            },
            forall|a: int, b: int| 0 <= a < b < failures@.len() ==> failures@[a].index < failures@[b].index,
            forall|a: int| 0 <= a < failures@.len() ==> (#[trigger] failures@[a]).index < i,
            forall|a: int| 0 <= a < failures@.len() ==> toml_document(texts@[(#[trigger] failures@[a]).index as int]@) is None
                ==> failures@[a].error is Syntax,
            forall|k: int| 0 <= k < i ==> (failed_at(failures@, k) <==> !document_loads(#[trigger] texts@[k]@)),
            forall|k: int| 0 <= k < i ==> (loaded_at(events@, k) <==> document_loads(#[trigger] texts@[k]@)),
        decreases texts@.len() - i,
    {
        let ghost fb = failures@;
        let ghost eb = events@;
        match load_event_text(texts[i].as_str()) {
            Ok(event) => {
                events.push(Loaded { index: i, event });
            },
            Err(error) => {
                failures.push(Failure { index: i, error });
            },
        }
        assert forall|k: int| 0 <= k < i + 1 implies (failed_at(failures@, k) <==> !document_loads(#[trigger] texts@[k]@))
            && (loaded_at(events@, k) <==> document_loads(texts@[k]@)) by {
            if failed_at(failures@, k) {
                let a = choose|a: int| 0 <= a < failures@.len() && failures@[a].index == k;
                if a < fb.len() {
                    assert(fb[a].index == k);
                }
            }
            if k < i && failed_at(fb, k) {
                let a = choose|a: int| 0 <= a < fb.len() && fb[a].index == k;
                assert(failures@[a].index == k);
            }
            if loaded_at(events@, k) {
                let a = choose|a: int| 0 <= a < events@.len() && events@[a].index == k;
                if a < eb.len() {
                    assert(eb[a].index == k);
                }
            }
            if k < i && loaded_at(eb, k) {
                let a = choose|a: int| 0 <= a < eb.len() && eb[a].index == k;
                assert(events@[a].index == k);
            }
            if k == i {
                if failures@.len() > fb.len() {
                    assert(failures@[fb.len() as int].index == i);
                }
                if events@.len() > eb.len() {
                    assert(events@[eb.len() as int].index == i);
                }
            }
        }
        i = i + 1;
    }
    (events, failures)
}

/// Positions among `events` with the dates of their occurrences, event after event, for the
/// first `n` events.
pub open spec fn flat_schedule(events: Seq<Loaded>, from: Date, count: nat, n: nat) -> Seq<(int, Date)>
    decreases n,
{
    if n == 0 || n > events.len() {
        Seq::empty()
    } else {
        flat_schedule(events, from, count, (n - 1) as nat) + event_schedule(events[n - 1].event, from, count).map_values(
            |d: Date| ((n - 1) as int, d),
        )
    }
}

/// `o`, at position `j` of the emitted list, is the occurrence that the first `n` events place
/// there.
pub open spec fn placed(events: Seq<Loaded>, from: Date, count: nat, n: nat, o: Occurrence, j: int, lang: Option<Seq<char>>) -> bool {
    let e = flat_schedule(events, from, count, n)[j];
    &&& 0 <= e.0 < n
    &&& e.0 < events.len()
    &&& occurrence_of(o, events[e.0].event, events[e.0].index as u16, lang, e.1)
}

/// The occurrences of every event, event after event; each event is numbered by its position
/// among the inputs.
pub fn timetable(events: &Vec<Loaded>, language: Option<&String>, from: Date, count: u32) -> (r: Vec<Occurrence>)
    requires
        from.valid(),
        forall|a: int| 0 <= a < events@.len() ==> (#[trigger] events@[a]).event.wf() && events@[a].index < 65536,
    ensures
        r@.len() == flat_schedule(events@, from, count as nat, events@.len() as nat).len(),
        forall|j: int| 0 <= j < r@.len() ==> placed(events@, from, count as nat, events@.len() as nat, #[trigger] r@[j], j, lang_view(language)),
{
    let mut all: Vec<Occurrence> = Vec::new();
    let mut i: usize = 0;
    while i < events.len()
        invariant
            from.valid(),
            i <= events@.len(),
            forall|a: int| 0 <= a < events@.len() ==> (#[trigger] events@[a]).event.wf() && events@[a].index < 65536,
            all@.len() == flat_schedule(events@, from, count as nat, i as nat).len(),
            forall|j: int| 0 <= j < all@.len() ==> placed(events@, from, count as nat, i as nat, #[trigger] all@[j], j, lang_view(language)),
        decreases events@.len() - i,
    {
        let mut occ = occurrences(&events[i].event, events[i].index as u16, language, from, count);
        let ghost occ_before = occ@;
        let ghost before = all@;
        let ghost fb = flat_schedule(events@, from, count as nat, i as nat);
        let ghost block = event_schedule(events@[i as int].event, from, count as nat);
        let ghost fa = flat_schedule(events@, from, count as nat, (i + 1) as nat);
        assert(fa == fb + block.map_values(|d: Date| (i as int, d)));
        all.append(&mut occ);
        assert forall|j: int| 0 <= j < all@.len() implies placed(events@, from, count as nat, (i + 1) as nat, #[trigger] all@[j], j, lang_view(language)) by {
            if j < before.len() {
                assert(all@[j] == before[j]);
                assert(fa[j] == fb[j]);
                assert(placed(events@, from, count as nat, i as nat, before[j], j, lang_view(language)));
            } else {
                assert(fa[j] == (i as int, block[j - before.len()]));
                assert(occurrence_of(occ_before[j - before.len()], events@[i as int].event, events@[i as int].index as u16, lang_view(language), block[j - before.len()]));
            }
        }
        i = i + 1;
    }
    all
}

/// The timetable of a set of documents, and the documents that failed.
#[derive(Clone, Debug)]
pub struct Compiled {
    pub events: Vec<Loaded>,
    pub occurrences: Vec<Occurrence>,
    pub slots: Vec<TimeSlot>,
    pub failures: Vec<Failure>,
}

/// Compiles each document on its own: a document that fails adds a failure and nothing else,
/// and does not stop the others. The occurrences of document `i` carry `i` as their id.
pub fn compile(texts: &Vec<String>, language: Option<&String>, from: Date, count: u32) -> (r: Compiled)
    requires
        from.valid(),
        texts@.len() <= 65536,
    ensures
        forall|a: int, b: int| 0 <= a < b < r.failures@.len() ==> r.failures@[a].index < r.failures@[b].index,
        forall|a: int| 0 <= a < r.failures@.len() ==> (#[trigger] r.failures@[a]).index < texts@.len(),
        forall|a: int| 0 <= a < r.failures@.len() ==> toml_document(texts@[(#[trigger] r.failures@[a]).index as int]@) is None
            ==> r.failures@[a].error is Syntax,
        forall|i: int| 0 <= i < texts@.len() ==> (failed_at(r.failures@, i) <==> !document_loads(#[trigger] texts@[i]@)),
        forall|i: int| 0 <= i < texts@.len() ==> (loaded_at(r.events@, i) <==> document_loads(#[trigger] texts@[i]@)),
        forall|a: int, b: int| 0 <= a < b < r.events@.len() ==> r.events@[a].index < r.events@[b].index,
        forall|a: int| 0 <= a < r.events@.len() ==> (#[trigger] r.events@[a]).index < texts@.len() && r.events@[a].event.wf(),
        forall|a: int| 0 <= a < r.events@.len() ==> document_read(texts@[(#[trigger] r.events@[a]).index as int]@, r.events@[a].event),
        forall|a: int| 0 <= a < r.failures@.len() ==> Some(fault_of(#[trigger] r.failures@[a].error)) == match toml_document(texts@[r.failures@[a].index as int]@) {
            None => Some(Fault::Syntax),
            Some(doc) => event_fault(doc),
        },
        r.occurrences@.len() == flat_schedule(r.events@, from, count as nat, r.events@.len() as nat).len(),
        forall|j: int| 0 <= j < r.occurrences@.len() ==> placed(r.events@, from, count as nat, r.events@.len() as nat, #[trigger] r.occurrences@[j], j, lang_view(language)),
        forall|a: int, b: int| 0 <= a < b < r.slots@.len() ==> r.slots@[a].time.0 < r.slots@[b].time.0,
        forall|k: int| 0 <= k < r.slots@.len() ==> starts_at(r.occurrences@, (#[trigger] r.slots@[k]).time.0, r.occurrences@.len() as int),
        forall|j: int| 0 <= j < r.occurrences@.len() ==> has_slot(r.slots@, (#[trigger] r.occurrences@[j]).start),
        forall|k: int| 0 <= k < r.slots@.len() ==> (#[trigger] r.slots@[k]).days@.len() == 7,
        forall|k: int, d: int| 0 <= k < r.slots@.len() && 0 <= d < 7 ==> (#[trigger] r.slots@[k].days@[d])@
            == slot_members(r.occurrences@, r.slots@[k].time.0, d, r.occurrences@.len() as nat),
{
    let (events, failures) = load_all(texts);
    let occurrences = timetable(&events, language, from, count);
    let slots = group_by_time(&occurrences);
    Compiled { events, occurrences, slots, failures }
}

} // verus!
