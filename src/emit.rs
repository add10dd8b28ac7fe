//! Emission: concrete occurrences of events, and their grouping into time slots.
use vstd::prelude::*;
use crate::date::{Date, days_from, weekday_of};
use crate::expand::{DateSet, Recurrence, weeks_allow};
use crate::model::{Event, EventInfo, Platform, text_view};
use crate::resolve::{resolve, resolved_info, resolved_start, resolved_duration};
use crate::time::{Time, DAY_MINUTES};

verus! {

/// One concrete occurrence of an event, with everything the display layer needs.
#[derive(Clone, Debug)]
pub struct Occurrence {
    /// The event's number, shared by all its occurrences.
    pub id: u16,
    /// The name in the requested language, falling back to the event-wide name.
    pub name: String,
    /// The event-wide name.
    pub base_name: String,
    pub date: Date,
    /// Day of the week, 0 for Sunday through 6 for Saturday.
    pub day: u8,
    pub info: EventInfo,
    pub start: Time,
    pub duration: Time,
    pub platforms: Vec<Platform>,
    /// The date comes from an explicit list of confirmed dates.
    pub confirmed: bool,
}

/// All occurrences that start at one minute of the day, by weekday.
#[derive(Clone, Debug)]
pub struct TimeSlot {
    pub time: Time,
    /// For each weekday (0 for Sunday), the positions of its occurrences in the emitted list,
    /// ascending.
    pub days: Vec<Vec<usize>>,
}

fn copy_date_set(s: &DateSet) -> (r: DateSet)
    ensures
        forall|d: Date| r.has(d) == s.has(d),
        s is All <==> r is All,
{
    match s {
        DateSet::All(b) => DateSet::All(*b),
        DateSet::Dates(v) => {
            let c = v.clone();
            assert(c@ =~= v@);
            DateSet::Dates(c)
        },
    }
}

/// The scheduling parameters of `event`: its date range, the weekdays whose slot is present,
/// the weeks filter that resolves on each weekday, and its exception dates.
pub fn recurrence_of(event: &Event) -> (r: Recurrence)
    requires
        event.wf(),
    ensures
        r.wf(),
        r.start_date == event.start_date,
        r.end_date == event.end_date,
        forall|wd: int| 0 <= wd < 7 ==> #[trigger] r.enabled@[wd] == event.days.slot(wd) is Some,
        forall|wd: int, d: Date| 0 <= wd < 7 ==> (#[trigger] weeks_allow(r.weeks@[wd], d) <==> match resolved_info(*event, wd, None).weeks {
            Some(w) => crate::expand::list_has(w, d.week_of_month()),
            None => true,
        }),
        forall|d: Date| r.confirmed.has(d) == event.confirmed.has(d),
        forall|d: Date| r.canceled.has(d) == event.canceled.has(d),
{
    let mut enabled: Vec<bool> = Vec::new();
    let mut weeks: Vec<Option<Vec<u8>>> = Vec::new();
    let mut wd: u64 = 0;
    while wd < 7
        invariant
            event.wf(),
            wd <= 7,
            enabled@.len() == wd,
            weeks@.len() == wd,
            forall|j: int| 0 <= j < wd ==> #[trigger] enabled@[j] == event.days.slot(j) is Some,
            forall|j: int| 0 <= j < wd ==> match #[trigger] weeks@[j] {
                Some(w) => resolved_info(*event, j, None).weeks == Some(w@),
                None => resolved_info(*event, j, None).weeks is None,
            },
        decreases 7 - wd,
    {
        enabled.push(event.days.get(wd as u8).is_some());
        match resolve(event, wd, None) {
            Ok(res) => weeks.push(res.info.weeks),
            Err(_) => {
                weeks.push(None);
            },
        }
        wd = wd + 1;
    }
    let r = Recurrence {
        start_date: event.start_date,
        end_date: event.end_date,
        enabled,
        weeks,
        confirmed: copy_date_set(&event.confirmed),
        canceled: copy_date_set(&event.canceled),
    };
    assert forall|j: int, d: Date| 0 <= j < 7 implies (#[trigger] weeks_allow(r.weeks@[j], d) <==> match resolved_info(*event, j, None).weeks {
        Some(w) => crate::expand::list_has(w, d.week_of_month()),
        None => true,
    }) by {
        assert(r.weeks@[j] == weeks@[j]);
    }
    r
}

/// The view of an optional language tag.
pub open spec fn lang_view(language: Option<&String>) -> Option<Seq<char>> {
    match language {
        Some(t) => Some(t@),
        None => None,
    }
}

/// `o` is the occurrence of event `e`, numbered `id`, on date `d` in language `lang`.
pub open spec fn occurrence_of(o: Occurrence, e: Event, id: u16, lang: Option<Seq<char>>, d: Date) -> bool {
    &&& o.date == d
    &&& o.day as int == d.weekday()
    &&& o.id == id
    &&& o.info@ == resolved_info(e, o.day as int, lang)
    &&& o.name@ == name_or_empty(resolved_info(e, o.day as int, lang).name)
    &&& o.base_name@ == name_or_empty(text_view(e.info.name))
    &&& o.start == resolved_start(e, o.day as int)
    &&& o.duration == resolved_duration(e, o.day as int)
    &&& o.start.0 < DAY_MINUTES
    &&& o.platforms@ == e.platforms@
    &&& o.confirmed == e.confirmed is Dates
}

/// The name of a resolved info block, or the empty text.
pub open spec fn name_or_empty(n: Option<Seq<char>>) -> Seq<char> {
    match n {
        Some(s) => s,
        None => Seq::empty(),
    }
}

fn text_or_empty(o: &Option<String>) -> (r: String)
    ensures
        r@ == name_or_empty(text_view(*o)),
{
    match o {
        Some(s) => s.clone(),
        None => String::new(),
    }
}

/// The occurrences of `event` among the `count` days from `from`, in language `language`, one
/// per date of its schedule and in the same order.
pub fn occurrences(event: &Event, id: u16, language: Option<&String>, from: Date, count: u32) -> (r:
    Vec<Occurrence>)
    requires
        event.wf(),
        from.valid(),
    ensures
        r@.len() == event_schedule(*event, from, count as nat).len(),
        forall|i: int| 0 <= i < r@.len() ==> occurrence_of(#[trigger] r@[i], *event, id, lang_view(language), event_schedule(*event, from, count as nat)[i]),
{
    let rec = recurrence_of(event);
    let dates = rec.expand(from, count);
    proof {
        crate::date::lemma_days_from_valid(from, count as nat);
        assert forall|d: Date| d.valid() implies (rec.occurs(d) <==> event_occurs(*event, d)) by {
            let wd = d.weekday();
            assert(rec.enabled@[wd] == event.days.slot(wd) is Some);
            assert(weeks_allow(rec.weeks@[wd], d) <==> match resolved_info(*event, wd, None).weeks {
                Some(w) => crate::expand::list_has(w, d.week_of_month()),
                None => true,
            });
        }
        lemma_keep_agrees(rec, *event, days_from(from, count as nat));
        rec.lemma_keep_members(days_from(from, count as nat));
    }
    let base_name = text_or_empty(&event.info.name);
    let mut out: Vec<Occurrence> = Vec::new();
    let mut i: usize = 0;
    while i < dates.len()
        invariant
            event.wf(),
            i <= dates@.len(),
            out@.len() == i,
            dates@ == event_schedule(*event, from, count as nat),
            forall|k: int| 0 <= k < dates@.len() ==> (#[trigger] dates@[k]).valid(),
            base_name@ == name_or_empty(text_view(event.info.name)),
            forall|k: int| 0 <= k < i ==> occurrence_of(#[trigger] out@[k], *event, id, lang_view(language), dates@[k]),
        decreases dates@.len() - i,
    {
        let d = dates[i];
        let wd = weekday_of(d);
        let res = match resolve(event, wd as u64, language) {
            Ok(res) => res,
            Err(_) => {
                return out;
            },
        };
        let name = text_or_empty(&res.info.name);
        let platforms = event.platforms.clone();
        assert(platforms@ =~= event.platforms@);
        let confirmed = match &event.confirmed {
            DateSet::Dates(_) => true,
            DateSet::All(_) => false,
        };
        out.push(Occurrence {
            id,
            name,
            base_name: base_name.clone(),
            date: d,
            day: wd,
            info: res.info,
            start: res.start,
            duration: res.duration,
            platforms,
            confirmed,
        });
        i = i + 1;
    }
    out
}

/// Whether `event` takes place on `d`: within its date range, on a weekday whose slot is
/// present, let through by the weeks filter that resolves on that weekday, confirmed and not
/// canceled.
pub open spec fn event_occurs(e: Event, d: Date) -> bool {
    let wd = d.weekday();
    &&& (e.start_date matches Some(s) ==> !d.before(s))
    &&& (e.end_date matches Some(x) ==> !x.before(d))
    &&& e.days.slot(wd) is Some
    &&& match resolved_info(e, wd, None).weeks {
        Some(w) => crate::expand::list_has(w, d.week_of_month()),
        None => true,
    }
    &&& e.confirmed.has(d)
    &&& !e.canceled.has(d)
}

/// The dates of `s` on which `e` takes place, in their order in `s`.
pub open spec fn event_keep(e: Event, s: Seq<Date>) -> Seq<Date>
    decreases s.len(),
{
    if s.len() == 0 {
        Seq::empty()
    } else {
        let rest = event_keep(e, s.drop_first());
        if event_occurs(e, s[0]) {
            seq![s[0]] + rest
        } else {
            rest
        }
    }
}

/// The dates on which `e` takes place among the `count` days from `from`.
pub open spec fn event_schedule(e: Event, from: Date, count: nat) -> Seq<Date> {
    event_keep(e, days_from(from, count))
}

proof fn lemma_event_keep_members(e: Event, s: Seq<Date>)
    ensures
        forall|i: int| 0 <= i < event_keep(e, s).len() ==> event_occurs(e, #[trigger] event_keep(e, s)[i]),
    decreases s.len(),
{
    if s.len() > 0 {
        lemma_event_keep_members(e, s.drop_first());
        let rest = event_keep(e, s.drop_first());
        assert forall|i: int| 0 <= i < event_keep(e, s).len() implies event_occurs(e, #[trigger] event_keep(e, s)[i]) by {
            if event_occurs(e, s[0]) && i > 0 {
                assert(event_keep(e, s)[i] == rest[i - 1]);
            }
        }
    }
}

/// A date that an event lists both as confirmed and as canceled is never among its
/// occurrences.
pub proof fn lemma_event_canceled_dominates(e: Event, from: Date, count: nat, d: Date)
    requires
        e.confirmed matches DateSet::Dates(c) && c@.contains(d),
        e.canceled matches DateSet::Dates(x) && x@.contains(d),
    ensures
        !event_schedule(e, from, count).contains(d),
{
    lemma_event_keep_members(e, days_from(from, count));
}

proof fn lemma_keep_agrees(rec: Recurrence, e: Event, s: Seq<Date>)
    requires
        forall|d: Date| d.valid() ==> (rec.occurs(d) <==> event_occurs(e, d)),
        forall|i: int| 0 <= i < s.len() ==> (#[trigger] s[i]).valid(),
    ensures
        rec.keep(s) == event_keep(e, s),
    decreases s.len(),
{
    if s.len() > 0 {
        lemma_keep_agrees(rec, e, s.drop_first());
        assert(s[0].valid());
    }
}

/// The positions, ascending, of the first `n` occurrences that start at `time` on weekday `day`.
pub open spec fn slot_members(occ: Seq<Occurrence>, time: u32, day: int, n: nat) -> Seq<usize>
    decreases n,
{
    if n == 0 {
        Seq::empty()
    } else {
        let r = slot_members(occ, time, day, (n - 1) as nat);
        if occ[n - 1].start.0 == time && occ[n - 1].day as int == day {
            r.push((n - 1) as usize)
        } else {
            r
        }
    }
}

/// Some occurrence among the first `n` starts at `time`.
pub open spec fn starts_at(occ: Seq<Occurrence>, time: u32, n: int) -> bool {
    exists|j: int| 0 <= j < n && (#[trigger] occ[j]).start.0 == time
}

/// The distinct start times of `occ`, ascending.
fn start_times(occ: &Vec<Occurrence>) -> (r: Vec<u32>)
    ensures
        forall|a: int, b: int| 0 <= a < b < r@.len() ==> r@[a] < r@[b],
        forall|k: int| 0 <= k < r@.len() ==> starts_at(occ@, #[trigger] r@[k], occ@.len() as int),
        forall|j: int| 0 <= j < occ@.len() ==> r@.contains((#[trigger] occ@[j]).start.0),
{
    let mut times: Vec<u32> = Vec::new();
    let mut i: usize = 0;
    while i < occ.len()
        invariant
            i <= occ@.len(),
            forall|a: int, b: int| 0 <= a < b < times@.len() ==> times@[a] < times@[b],
            forall|k: int| 0 <= k < times@.len() ==> starts_at(occ@, #[trigger] times@[k], i as int),
            forall|j: int| 0 <= j < i ==> times@.contains((#[trigger] occ@[j]).start.0),
        decreases occ@.len() - i,
    {
        let t = occ[i].start.0;
        let mut p: usize = 0;
        while p < times.len() && times[p] < t
            invariant
                p <= times@.len(),
                forall|a: int| 0 <= a < p ==> times@[a] < t,
            decreases times@.len() - p,
        {
            p = p + 1;
        }
        let ghost old_times = times@;
        if p < times.len() && times[p] == t {
            assert(times@[p as int] == occ@[i as int].start.0);
        } else {
            times.insert(p, t);
            assert forall|a: int, b: int| 0 <= a < b < times@.len() implies times@[a] < times@[b] by {
                if b == p {
                    assert(old_times[a] < t);
                } else if a == p {
                    assert(times@[b] == old_times[b - 1]);
                    if b - 1 > p {
                        assert(old_times[p as int] < old_times[b - 1]);
                    }
                }
            }
            assert(times@[p as int] == t);
            assert forall|j: int| 0 <= j < i implies times@.contains((#[trigger] occ@[j]).start.0) by {
                let k = choose|k: int| 0 <= k < old_times.len() && old_times[k] == occ@[j].start.0;
                if k < p {
                    assert(times@[k] == old_times[k]);
                } else {
                    assert(times@[k + 1] == old_times[k]);
                }
            }
        }
        assert forall|k: int| 0 <= k < times@.len() implies starts_at(occ@, #[trigger] times@[k], i + 1) by {
            if times@[k] == t {
                assert(occ@[i as int].start.0 == t);
            } else {
                assert(old_times.contains(times@[k]));
                let k2 = choose|k2: int| 0 <= k2 < old_times.len() && old_times[k2] == times@[k];
                assert(starts_at(occ@, old_times[k2], i as int));
            }
        }
        assert(times@[if p < old_times.len() && old_times[p as int] == t { p as int } else { p as int }] == t);
        i = i + 1;
    }
    times
}

/// Positions of the occurrences that start at `time` on weekday `day`, ascending.
fn members(occ: &Vec<Occurrence>, time: u32, day: u8) -> (r: Vec<usize>)
    ensures
        r@ == slot_members(occ@, time, day as int, occ@.len() as nat),
{
    let mut r: Vec<usize> = Vec::new();
    let mut i: usize = 0;
    while i < occ.len()
        invariant
            i <= occ@.len(),
            r@ == slot_members(occ@, time, day as int, i as nat),
        decreases occ@.len() - i,
    {
        if occ[i].start.0 == time && occ[i].day == day {
            r.push(i);
        }
        i = i + 1;
    }
    r
}

/// Some slot of `slots` is at `t`.
pub open spec fn has_slot(slots: Seq<TimeSlot>, t: Time) -> bool {
    exists|k: int| 0 <= k < slots.len() && (#[trigger] slots[k]).time == t
}

/// Groups occurrences by start time: one slot per distinct start, ascending, each holding for
/// every weekday the positions of the occurrences that start then on that day.
pub fn group_by_time(occ: &Vec<Occurrence>) -> (r: Vec<TimeSlot>)
    ensures
        forall|a: int, b: int| 0 <= a < b < r@.len() ==> r@[a].time.0 < r@[b].time.0,
        forall|k: int| 0 <= k < r@.len() ==> starts_at(occ@, (#[trigger] r@[k]).time.0, occ@.len() as int),
        forall|j: int| 0 <= j < occ@.len() ==> has_slot(r@, (#[trigger] occ@[j]).start),
        forall|k: int| 0 <= k < r@.len() ==> (#[trigger] r@[k]).days@.len() == 7,
        forall|k: int, d: int| 0 <= k < r@.len() && 0 <= d < 7 ==> (#[trigger] r@[k].days@[d])@
            == slot_members(occ@, r@[k].time.0, d, occ@.len() as nat),
{
    let times = start_times(occ);
    let mut slots: Vec<TimeSlot> = Vec::new();
    let mut k: usize = 0;
    while k < times.len()
        invariant
            k <= times@.len(),
            slots@.len() == k,
            forall|a: int| 0 <= a < k ==> (#[trigger] slots@[a]).time.0 == times@[a],
            forall|a: int| 0 <= a < k ==> (#[trigger] slots@[a]).days@.len() == 7,
            forall|a: int, d: int| 0 <= a < k && 0 <= d < 7 ==> (#[trigger] slots@[a].days@[d])@
                == slot_members(occ@, slots@[a].time.0, d, occ@.len() as nat),
        decreases times@.len() - k,
    {
        let t = times[k];
        let mut days: Vec<Vec<usize>> = Vec::new();
        let mut d: u8 = 0;
        while d < 7
            invariant
                d <= 7,
                days@.len() == d,
                forall|e: int| 0 <= e < d ==> (#[trigger] days@[e])@ == slot_members(occ@, t, e, occ@.len() as nat),
            decreases 7 - d,
        {
            days.push(members(occ, t, d));
            d = d + 1;
        }
        slots.push(TimeSlot { time: Time(t), days });
        k = k + 1;
    }
    assert forall|j: int| 0 <= j < occ@.len() implies has_slot(slots@, (#[trigger] occ@[j]).start) by {
        let k = choose|k: int| 0 <= k < times@.len() && times@[k] == occ@[j].start.0;
        assert(slots@[k].time == occ@[j].start);
    }
    slots
}

} // verus!
