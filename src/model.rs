//! The typed form of one event document and of the site-wide metadata document.
use vstd::prelude::*;
use crate::date::Date;
use crate::expand::DateSet;
use crate::time::{Time, DAY_MINUTES};

verus! {

/// A platform on which an event can be joined.
#[derive(Clone, Copy, Debug, PartialEq, Eq, Structural)]
pub enum Platform {
    Pc,
    Quest,
}

/// A person or a world: a display name and an identifier.
#[derive(Clone, Debug)]
pub struct Named {
    pub name: String,
    pub id: String,
}

/// The descriptive fields of an event; `None` leaves a field to the layer below.
#[derive(Clone, Debug)]
pub struct EventInfo {
    pub name: Option<String>,
    pub description: Option<String>,
    pub web: Option<String>,
    pub poster: Option<String>,
    pub hashtag: Option<String>,
    pub twitter: Option<String>,
    pub group: Option<String>,
    pub discord: Option<String>,
    /// Co-hosts, in order.
    pub join: Option<Vec<Named>>,
    pub world: Option<Named>,
    /// Which occurrences of the weekday within a month the event takes place on.
    pub weeks: Option<Vec<u8>>,
}

/// The overrides that one weekday carries.
#[derive(Clone, Debug)]
pub struct EventDay {
    pub info: EventInfo,
    pub start: Option<Time>,
    pub duration: Option<Time>,
}

/// One optional slot per weekday.
#[derive(Clone, Debug)]
pub struct EventDays {
    pub sunday: Option<EventDay>,
    pub monday: Option<EventDay>,
    pub tuesday: Option<EventDay>,
    pub wednesday: Option<EventDay>,
    pub thursday: Option<EventDay>,
    pub friday: Option<EventDay>,
    pub saturday: Option<EventDay>,
}

/// The text overrides of one language.
#[derive(Clone, Debug)]
pub struct EventLanguage {
    pub info: EventInfo,
    pub days: EventDays,
}

/// A language tag with its overrides.
#[derive(Clone, Debug)]
pub struct LanguageEntry {
    pub tag: String,
    pub language: EventLanguage,
}

/// One recurring event.
#[derive(Clone, Debug)]
pub struct Event {
    pub info: EventInfo,
    pub start_date: Option<Date>,
    pub end_date: Option<Date>,
    pub timezone: String,
    /// Start as minutes from midnight.
    pub start: Time,
    pub duration: Time,
    pub platforms: Vec<Platform>,
    pub days: EventDays,
    /// Per-language overrides; no tag appears twice.
    pub languages: Vec<LanguageEntry>,
    pub confirmed: DateSet,
    pub canceled: DateSet,
}

/// The localized title, description and link of the site.
#[derive(Clone, Debug)]
pub struct MetaLanguage {
    pub title: Option<String>,
    pub description: Option<String>,
    pub link: Option<String>,
}

/// A language tag with its metadata.
#[derive(Clone, Debug)]
pub struct MetaEntry {
    pub tag: String,
    pub meta: MetaLanguage,
}

/// The site-wide metadata document.
#[derive(Clone, Debug)]
pub struct Meta {
    pub title: String,
    pub description: Option<String>,
    pub link: Option<String>,
    pub languages: Vec<MetaEntry>,
}

/// The mathematical form of a [`Named`].
pub struct NamedView {
    pub name: Seq<char>,
    pub id: Seq<char>,
}

impl View for Named {
    type V = NamedView;

    open spec fn view(&self) -> NamedView {
        NamedView { name: self.name@, id: self.id@ }
    }
}

pub open spec fn text_view(o: Option<String>) -> Option<Seq<char>> {
    match o {
        Some(s) => Some(s@),
        None => None,
    }
}

pub open spec fn names_view(v: Seq<Named>) -> Seq<NamedView> {
    v.map_values(|n: Named| n@)
}

/// The mathematical form of an [`EventInfo`].
pub struct InfoView {
    pub name: Option<Seq<char>>,
    pub description: Option<Seq<char>>,
    pub web: Option<Seq<char>>,
    pub poster: Option<Seq<char>>,
    pub hashtag: Option<Seq<char>>,
    pub twitter: Option<Seq<char>>,
    pub group: Option<Seq<char>>,
    pub discord: Option<Seq<char>>,
    pub join: Option<Seq<NamedView>>,
    pub world: Option<NamedView>,
    pub weeks: Option<Seq<u8>>,
}

impl View for EventInfo {
    type V = InfoView;

    open spec fn view(&self) -> InfoView {
        InfoView {
            name: text_view(self.name),
            description: text_view(self.description),
            web: text_view(self.web),
            poster: text_view(self.poster),
            hashtag: text_view(self.hashtag),
            twitter: text_view(self.twitter),
            group: text_view(self.group),
            discord: text_view(self.discord),
            join: match self.join {
                Some(v) => Some(names_view(v@)),
                None => None,
            },
            world: match self.world {
                Some(w) => Some(w@),
                None => None,
            },
            weeks: match self.weeks {
                Some(w) => Some(w@),
                None => None,
            },
        }
    }
}

impl EventInfo {
    /// The block that defines no field.
    pub open spec fn spec_empty() -> EventInfo {
        EventInfo {
            name: None,
            description: None,
            web: None,
            poster: None,
            hashtag: None,
            twitter: None,
            group: None,
            discord: None,
            join: None,
            world: None,
            weeks: None,
        }
    }

    /// The block that defines no field.
    pub fn empty() -> (r: EventInfo)
        ensures
            r == EventInfo::spec_empty(),
    {
        EventInfo {
            name: None,
            description: None,
            web: None,
            poster: None,
            hashtag: None,
            twitter: None,
            group: None,
            discord: None,
            join: None,
            world: None,
            weeks: None,
        }
    }
}

impl EventDay {
    /// A slot that enables its weekday and overrides nothing.
    pub open spec fn spec_plain() -> EventDay {
        EventDay { info: EventInfo::spec_empty(), start: None, duration: None }
    }

    /// A slot that enables its weekday and overrides nothing.
    pub fn plain() -> (r: EventDay)
        ensures
            r == EventDay::spec_plain(),
    {
        EventDay { info: EventInfo::empty(), start: None, duration: None }
    }

    pub open spec fn wf(self) -> bool {
        &&& (self.start matches Some(t) ==> t.0 < DAY_MINUTES)
    }
}

impl EventDays {
    /// The slot of weekday `wd` (0 for Sunday through 6 for Saturday).
    pub open spec fn slot(self, wd: int) -> Option<EventDay> {
        if wd == 0 {
            self.sunday
        } else if wd == 1 {
            self.monday
        } else if wd == 2 {
            self.tuesday
        } else if wd == 3 {
            self.wednesday
        } else if wd == 4 {
            self.thursday
        } else if wd == 5 {
            self.friday
        } else {
            self.saturday
        }
    }

    /// The slot of weekday `wd` (0 for Sunday through 6 for Saturday).
    pub fn get(&self, wd: u8) -> (r: &Option<EventDay>)
        requires
            wd < 7,
        ensures
            *r == self.slot(wd as int),
    {
        if wd == 0 {
            &self.sunday
        } else if wd == 1 {
            &self.monday
        } else if wd == 2 {
            &self.tuesday
        } else if wd == 3 {
            &self.wednesday
        } else if wd == 4 {
            &self.thursday
        } else if wd == 5 {
            &self.friday
        } else {
            &self.saturday
        }
    }

    /// Every weekday enabled, none overriding anything.
    pub open spec fn spec_every_day() -> EventDays {
        EventDays {
            sunday: Some(EventDay::spec_plain()),
            monday: Some(EventDay::spec_plain()),
            tuesday: Some(EventDay::spec_plain()),
            wednesday: Some(EventDay::spec_plain()),
            thursday: Some(EventDay::spec_plain()),
            friday: Some(EventDay::spec_plain()),
            saturday: Some(EventDay::spec_plain()),
        }
    }

    /// Every weekday enabled, none overriding anything.
    pub fn every_day() -> (r: EventDays)
        ensures
            r == EventDays::spec_every_day(),
    {
        EventDays {
            sunday: Some(EventDay::plain()),
            monday: Some(EventDay::plain()),
            tuesday: Some(EventDay::plain()),
            wednesday: Some(EventDay::plain()),
            thursday: Some(EventDay::plain()),
            friday: Some(EventDay::plain()),
            saturday: Some(EventDay::plain()),
        }
    }

    /// No weekday slot present.
    pub open spec fn spec_no_days() -> EventDays {
        EventDays {
            sunday: None,
            monday: None,
            tuesday: None,
            wednesday: None,
            thursday: None,
            friday: None,
            saturday: None,
        }
    }

    pub open spec fn wf(self) -> bool {
        forall|wd: int| 0 <= wd < 7 ==> (#[trigger] self.slot(wd) matches Some(d) ==> d.wf())
    }
}

/// The first entry of `langs` with tag `tag`.
pub open spec fn find_language(langs: Seq<LanguageEntry>, tag: Seq<char>) -> Option<EventLanguage>
    decreases langs.len(),
{
    if langs.len() == 0 {
        None
    } else if langs[0].tag@ == tag {
        Some(langs[0].language)
    } else {
        find_language(langs.drop_first(), tag)
    }
}

impl Event {
    /// The invariants that loading establishes.
    pub open spec fn wf(self) -> bool {
        &&& self.start.0 < DAY_MINUTES
        &&& self.days.wf()
        &&& self.start_date matches Some(d) ==> d.valid()
        &&& self.end_date matches Some(d) ==> d.valid()
        &&& forall|i: int, j: int|
            0 <= i < j < self.languages@.len() ==> #[trigger] self.languages@[i].tag@
                != #[trigger] self.languages@[j].tag@
    }

    /// The overrides of language `tag`, if the event has any.
    pub fn language(&self, tag: &String) -> (r: Option<&EventLanguage>)
        ensures
            r matches Some(l) ==> find_language(self.languages@, tag@) == Some(*l),
            r is None ==> find_language(self.languages@, tag@) is None,
    {
        let mut i: usize = 0;
        assert(self.languages@.subrange(0, self.languages@.len() as int) =~= self.languages@);
        while i < self.languages.len()
            invariant
                i <= self.languages@.len(),
                find_language(self.languages@, tag@) == find_language(
                    self.languages@.subrange(i as int, self.languages@.len() as int),
                    tag@,
                ),
            decreases self.languages@.len() - i,
        {
            let ghost rest = self.languages@.subrange(i as int, self.languages@.len() as int);
            assert(rest.drop_first() =~= self.languages@.subrange(
                i + 1,
                self.languages@.len() as int,
            ));
            if self.languages[i].tag == *tag {
                return Some(&self.languages[i].language);
            }
            i = i + 1;
        }
        None
    }
}

} // verus!
