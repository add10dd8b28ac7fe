//! Override resolution: one info block and schedule for a weekday and a language.
use vstd::prelude::*;
use crate::model::{
    Event, EventDay, EventInfo, InfoView, Named, find_language, names_view, text_view,
};
use crate::time::{Time, DAY_MINUTES};

verus! {

/// An event's info, start and duration as they apply on one weekday in one language.
#[derive(Clone, Debug)]
pub struct Resolved {
    pub info: EventInfo,
    pub start: Time,
    pub duration: Time,
}

pub open spec fn first_of<T>(hi: Option<T>, lo: Option<T>) -> Option<T> {
    if hi is Some {
        hi
    } else {
        lo
    }
}

/// Each field of `hi` that is defined, else that field of `lo`; lists are never joined.
pub open spec fn overlay(hi: InfoView, lo: InfoView) -> InfoView {
    InfoView {
        name: first_of(hi.name, lo.name),
        description: first_of(hi.description, lo.description),
        web: first_of(hi.web, lo.web),
        poster: first_of(hi.poster, lo.poster),
        hashtag: first_of(hi.hashtag, lo.hashtag),
        twitter: first_of(hi.twitter, lo.twitter),
        group: first_of(hi.group, lo.group),
        discord: first_of(hi.discord, lo.discord),
        join: first_of(hi.join, lo.join),
        world: first_of(hi.world, lo.world),
        weeks: first_of(hi.weeks, lo.weeks),
    }
}

/// The info of a weekday slot; an absent slot defines nothing.
pub open spec fn slot_info(d: Option<EventDay>) -> InfoView {
    match d {
        Some(x) => x.info@,
        None => EventInfo::spec_empty()@,
    }
}

/// The four layers, highest first: the language's weekday slot, the language's own info, the
/// event's weekday slot, the event's own info.
pub open spec fn resolved_info(e: Event, wd: int, lang: Option<Seq<char>>) -> InfoView {
    let l = match lang {
        Some(t) => find_language(e.languages@, t),
        None => None,
    };
    let lang_day = match l {
        Some(x) => slot_info(x.days.slot(wd)),
        None => EventInfo::spec_empty()@,
    };
    let lang_info = match l {
        Some(x) => x.info@,
        None => EventInfo::spec_empty()@,
    };
    overlay(lang_day, overlay(lang_info, overlay(slot_info(e.days.slot(wd)), e.info@)))
}

/// Start on weekday `wd`: the slot's own start, else the event's.
pub open spec fn resolved_start(e: Event, wd: int) -> Time {
    match e.days.slot(wd) {
        Some(d) => match d.start {
            Some(t) => t,
            None => e.start,
        },
        None => e.start,
    }
}

/// Duration on weekday `wd`: the slot's own duration, else the event's.
pub open spec fn resolved_duration(e: Event, wd: int) -> Time {
    match e.days.slot(wd) {
        Some(d) => match d.duration {
            Some(t) => t,
            None => e.duration,
        },
        None => e.duration,
    }
}

fn copy_text(o: &Option<String>) -> (r: Option<String>)
    ensures
        text_view(r) == text_view(*o),
{
    match o {
        Some(s) => Some(s.clone()),
        None => None,
    }
}

fn copy_named(n: &Named) -> (r: Named)
    ensures
        r@ == n@,
{
    Named { name: n.name.clone(), id: n.id.clone() }
}

fn copy_names(v: &Vec<Named>) -> (r: Vec<Named>)
    ensures
        names_view(r@) == names_view(v@),
{
    let mut r: Vec<Named> = Vec::new();
    let mut i: usize = 0;
    while i < v.len()
        invariant
            i <= v@.len(),
            r@.len() == i,
            forall|j: int| 0 <= j < i ==> (#[trigger] r@[j])@ == v@[j]@,
        decreases v@.len() - i,
    {
        r.push(copy_named(&v[i]));
        i = i + 1;
    }
    assert(names_view(r@) =~= names_view(v@));
    r
}

fn copy_weeks(v: &Vec<u8>) -> (r: Vec<u8>)
    ensures
        r@ == v@,
{
    let r = v.clone();
    assert(r@ =~= v@);
    r
}

/// Overlays `hi` on `lo`: each field that `hi` defines replaces that of `lo`.
pub fn overlay_info(hi: &EventInfo, lo: EventInfo) -> (r: EventInfo)
    ensures
        r@ == overlay(hi@, lo@),
{
    EventInfo {
        name: if hi.name.is_some() { copy_text(&hi.name) } else { lo.name },
        description: if hi.description.is_some() { copy_text(&hi.description) } else { lo.description },
        web: if hi.web.is_some() { copy_text(&hi.web) } else { lo.web },
        poster: if hi.poster.is_some() { copy_text(&hi.poster) } else { lo.poster },
        hashtag: if hi.hashtag.is_some() { copy_text(&hi.hashtag) } else { lo.hashtag },
        twitter: if hi.twitter.is_some() { copy_text(&hi.twitter) } else { lo.twitter },
        group: if hi.group.is_some() { copy_text(&hi.group) } else { lo.group },
        discord: if hi.discord.is_some() { copy_text(&hi.discord) } else { lo.discord },
        join: match &hi.join {
            Some(v) => Some(copy_names(v)),
            None => lo.join,
        },
        world: match &hi.world {
            Some(w) => Some(copy_named(w)),
            None => lo.world,
        },
        weeks: match &hi.weeks {
            Some(w) => Some(copy_weeks(w)),
            None => lo.weeks,
        },
    }
}

/// The event defines nothing per weekday and nothing per language.
pub open spec fn no_overrides(e: Event) -> bool {
    &&& forall|wd: int|
        0 <= wd < 7 ==> (#[trigger] e.days.slot(wd) matches Some(d) ==> d.info@
            == EventInfo::spec_empty()@ && d.start is None && d.duration is None)
    &&& forall|i: int|
        0 <= i < e.languages@.len() ==> (#[trigger] e.languages@[i]).language.info@
            == EventInfo::spec_empty()@ && forall|wd: int|
            0 <= wd < 7 ==> #[trigger] slot_info(e.languages@[i].language.days.slot(wd))
                == EventInfo::spec_empty()@
}

proof fn lemma_found_language_listed(langs: Seq<crate::model::LanguageEntry>, t: Seq<char>)
    ensures
        find_language(langs, t) matches Some(x) ==> exists|i: int|
            0 <= i < langs.len() && (#[trigger] langs[i]).language == x,
    decreases langs.len(),
{
    if langs.len() > 0 && langs[0].tag@ != t {
        lemma_found_language_listed(langs.drop_first(), t);
        if let Some(x) = find_language(langs, t) {
            let i = choose|i: int|
                0 <= i < langs.drop_first().len() && (#[trigger] langs.drop_first()[i]).language
                    == x;
            assert(langs[i + 1].language == x);
        }
    }
}

/// Resolution is a function of the event, the weekday and the language alone: any two results
/// that [`resolve`] may return for the same arguments hold the same info, start and duration.
pub proof fn lemma_resolution_repeatable(
    e: Event,
    wd: int,
    lang: Option<Seq<char>>,
    r1: Resolved,
    r2: Resolved,
)
    requires
        r1.info@ == resolved_info(e, wd, lang),
        r1.start == resolved_start(e, wd),
        r1.duration == resolved_duration(e, wd),
        r2.info@ == resolved_info(e, wd, lang),
        r2.start == resolved_start(e, wd),
        r2.duration == resolved_duration(e, wd),
    ensures
        r1.info@ == r2.info@,
        r1.start == r2.start,
        r1.duration == r2.duration,
{
}

/// An event that overrides nothing per weekday or per language resolves to its own info,
/// start and duration on every weekday and in every language.
pub proof fn lemma_no_overrides_inherit(e: Event, wd: int, lang: Option<Seq<char>>)
    requires
        no_overrides(e),
        0 <= wd < 7,
    ensures
        resolved_info(e, wd, lang) == e.info@,
        resolved_start(e, wd) == e.start,
        resolved_duration(e, wd) == e.duration,
{
    if let Some(t) = lang {
        lemma_found_language_listed(e.languages@, t);
        if let Some(x) = find_language(e.languages@, t) {
            let i = choose|i: int| 0 <= i < e.languages@.len() && (#[trigger] e.languages@[i]).language == x;
            assert(slot_info(e.languages@[i].language.days.slot(wd)) == EventInfo::spec_empty()@);
        }
    }
    assert(slot_info(e.days.slot(wd)) == EventInfo::spec_empty()@);
}

/// Why a weekday index was rejected: it is not in 0 (Sunday) through 6 (Saturday).
#[derive(Clone, Copy, Debug, PartialEq, Eq, Structural)]
pub struct WeekdayIndexError(pub u64);

/// Resolves the info, start and duration of `event` on weekday `weekday` (0 for Sunday) in
/// language `language` (`None` for the default language).
pub fn resolve(event: &Event, weekday: u64, language: Option<&String>) -> (r: Result<
    Resolved,
    WeekdayIndexError,
>)
    requires
        event.wf(),
    ensures
        weekday >= 7 <==> r is Err,
        r matches Err(e) ==> e.0 == weekday,
        r matches Ok(res) ==> {
            &&& res.info@ == resolved_info(
                *event,
                weekday as int,
                match language {
                    Some(t) => Some(t@),
                    None => None,
                },
            )
            &&& res.start == resolved_start(*event, weekday as int)
            &&& res.duration == resolved_duration(*event, weekday as int)
            &&& res.start.0 < DAY_MINUTES
        },
{
    if weekday >= 7 {
        return Err(WeekdayIndexError(weekday));
    }
    let wd = weekday as u8;
    let slot = event.days.get(wd);
    let base = overlay_info(&event.info, EventInfo::empty());
    assert(base@ == event.info@);
    let mut info = match slot {
        Some(d) => overlay_info(&d.info, base),
        None => overlay_info(&EventInfo::empty(), base),
    };
    let lang = match language {
        Some(t) => event.language(t),
        None => None,
    };
    match lang {
        Some(l) => {
            info = overlay_info(&l.info, info);
            info = match l.days.get(wd) {
                Some(d) => overlay_info(&d.info, info),
                None => overlay_info(&EventInfo::empty(), info),
            };
        },
        None => {
            info = overlay_info(&EventInfo::empty(), info);
            info = overlay_info(&EventInfo::empty(), info);
        },
    }
    let (start, duration) = match slot {
        Some(d) => (
            match d.start {
                Some(t) => t,
                None => event.start,
            },
            match d.duration {
                Some(t) => t,
                None => event.duration,
            },
        ),
        None => (event.start, event.duration),
    };
    assert(event.days.slot(wd as int) matches Some(d) ==> d.wf());
    Ok(Resolved { info, start, duration })
}

} // verus!
