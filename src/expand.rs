//! Recurrence expansion: from a weekly pattern and exception dates to concrete dates.
use vstd::prelude::*;
use crate::date::{Date, days_from, next_day, date_before, weekday_of};

verus! {

/// Either every date or no date (`All`), or an explicit list of dates.
#[derive(Clone, Debug)]
pub enum DateSet {
    All(bool),
    Dates(Vec<Date>),
}

impl DateSet {
    /// The set that holds every date.
    pub fn all() -> (r: Self)
        ensures
            r == DateSet::All(true),
    {
        DateSet::All(true)
    }

    /// The set that holds no date.
    pub fn none() -> (r: Self)
        ensures
            r == DateSet::All(false),
    {
        DateSet::All(false)
    }

    pub open spec fn has(self, d: Date) -> bool {
        match self {
            DateSet::All(b) => b,
            DateSet::Dates(v) => v@.contains(d),
        }
    }

    /// Whether `d` belongs to the set.
    pub fn contains(&self, d: Date) -> (r: bool)
        ensures
            r == self.has(d),
    {
        match self {
            DateSet::All(b) => *b,
            DateSet::Dates(v) => {
                let mut i: usize = 0;
                while i < v.len()
                    invariant
                        *self == DateSet::Dates(*v),
                        i <= v@.len(),
                        forall|j: int| 0 <= j < i ==> v@[j] != d,
                    decreases v@.len() - i,
                {
                    let x: Date = v[i];
                    if x == d {
                        assert(v@[i as int] == d);
                        assert(v@.contains(d));
                        return true;
                    }
                    i = i + 1;
                }
                false
            },
        }
    }
}

pub open spec fn list_has(s: Seq<u8>, v: int) -> bool {
    exists|i: int| 0 <= i < s.len() && s[i] as int == v
}

/// Whether the "nth weekday of the month" filter lets `d` through.
pub open spec fn weeks_allow(weeks: Option<Vec<u8>>, d: Date) -> bool {
    match weeks {
        None => true,
        Some(w) => list_has(w@, d.week_of_month()),
    }
}

/// The resolved scheduling parameters of one event.
#[derive(Clone, Debug)]
pub struct Recurrence {
    /// First date on which the event may occur, if bounded.
    pub start_date: Option<Date>,
    /// Last date on which the event may occur, if bounded.
    pub end_date: Option<Date>,
    /// Whether each weekday is enabled, indexed 0 (Sunday) through 6 (Saturday).
    pub enabled: Vec<bool>,
    /// The weeks filter that applies on each weekday, same indexing.
    pub weeks: Vec<Option<Vec<u8>>>,
    pub confirmed: DateSet,
    pub canceled: DateSet,
}

impl Recurrence {
    pub open spec fn wf(self) -> bool {
        self.enabled@.len() == 7 && self.weeks@.len() == 7
    }

    pub open spec fn in_range(self, d: Date) -> bool {
        &&& (self.start_date matches Some(s) ==> !d.before(s))
        &&& (self.end_date matches Some(e) ==> !e.before(d))
    }

    /// Whether the event takes place on `d`.
    pub open spec fn occurs(self, d: Date) -> bool {
        &&& self.in_range(d)
        &&& self.enabled@[d.weekday()]
        &&& weeks_allow(self.weeks@[d.weekday()], d)
        &&& self.confirmed.has(d)
        &&& !self.canceled.has(d)
    }

    /// The dates of `s` on which the event takes place, in their order in `s`.
    pub open spec fn keep(self, s: Seq<Date>) -> Seq<Date>
        decreases s.len(),
    {
        if s.len() == 0 {
            Seq::empty()
        } else {
            let rest = self.keep(s.drop_first());
            if self.occurs(s[0]) {
                seq![s[0]] + rest
            } else {
                rest
            }
        }
    }

    /// The occurrences within the horizon of `count` days from `from`.
    pub open spec fn schedule(self, from: Date, count: nat) -> Seq<Date> {
        self.keep(days_from(from, count))
    }

    /// Whether the event takes place on `d`.
    pub fn occurs_on(&self, d: Date) -> (r: bool)
        requires
            self.wf(),
            d.valid(),
        ensures
            r == self.occurs(d),
    {
        if let Some(s) = self.start_date {
            if date_before(d, s) {
                return false;
            }
        }
        if let Some(e) = self.end_date {
            if date_before(e, d) {
                return false;
            }
        }
        let wd = weekday_of(d) as usize;
        if !self.enabled[wd] {
            return false;
        }
        if let Some(w) = &self.weeks[wd] {
            if !week_listed(w, d) {
                return false;
            }
        }
        self.confirmed.contains(d) && !self.canceled.contains(d)
    }

    /// Every date on which the event takes place among the `count` days from `from`, in
    /// ascending order.
    pub fn expand(&self, from: Date, count: u32) -> (r: Vec<Date>)
        requires
            self.wf(),
            from.valid(),
        ensures
            r@ == self.schedule(from, count as nat),
            ascending(r@),
    {
        proof {
            lemma_days_from_ascending(from, count as nat);
            self.lemma_keep_ascending(days_from(from, count as nat));
        }
        let mut out: Vec<Date> = Vec::new();
        let mut cur: Date = from;
        let mut rem: u32 = count;
        while rem > 0
            invariant
                self.wf(),
                cur.valid(),
                out@ + self.keep(days_from(cur, rem as nat)) == self.schedule(from, count as nat),
                ascending(self.schedule(from, count as nat)),
            decreases rem,
        {
            let ghost days = days_from(cur, rem as nat);
            assert(days.drop_first() =~= match cur.succ() {
                Some(n) => days_from(n, (rem - 1) as nat),
                None => Seq::empty(),
            });
            if self.occurs_on(cur) {
                out.push(cur);
            }
            match next_day(cur) {
                Some(n) => {
                    proof {
                        assert(out@ + self.keep(days_from(n, (rem - 1) as nat))
                            =~= self.schedule(from, count as nat));
                    }
                    cur = n;
                    rem = rem - 1;
                },
                None => {
                    proof {
                        assert(self.keep(Seq::<Date>::empty()) =~= Seq::<Date>::empty());
                        assert(out@ =~= self.schedule(from, count as nat));
                    }
                    return out;
                },
            }
        }
        assert(out@ =~= self.schedule(from, count as nat));
        out
    }
}

/// Each date comes strictly before every later one.
pub open spec fn ascending(s: Seq<Date>) -> bool {
    forall|i: int, j: int| 0 <= i < j < s.len() ==> #[trigger] s[i].before(#[trigger] s[j])
}

/// A day comes before every later day of the horizon that starts with it.
pub proof fn lemma_days_from_ascending(from: Date, count: nat)
    requires
        from.valid(),
    ensures
        ascending(days_from(from, count)),
        forall|i: int| 0 < i < days_from(from, count).len() ==> from.before(
            #[trigger] days_from(from, count)[i]),
        count > 0 ==> days_from(from, count).len() > 0 && days_from(from, count)[0] == from,
    decreases count,
{
    if count > 0 {
        if let Some(n) = from.succ() {
            lemma_days_from_ascending(n, (count - 1) as nat);
            let rest = days_from(n, (count - 1) as nat);
            let s = days_from(from, count);
            assert(s == seq![from] + rest);
            assert forall|i: int| 0 < i < s.len() implies from.before(#[trigger] s[i]) by {
                assert(s[i] == rest[i - 1]);
                if i > 1 {
                    assert(n.before(rest[i - 1]));
                }
            }
            assert forall|i: int, j: int| 0 <= i < j < s.len() implies #[trigger] s[i].before(
                #[trigger] s[j]) by {
                if i > 0 {
                    assert(s[i] == rest[i - 1] && s[j] == rest[j - 1]);
                }
            }
        }
    }
}

impl Recurrence {
    /// Every kept date satisfies the pattern and was a date of the input.
    pub proof fn lemma_keep_members(self, s: Seq<Date>)
        ensures
            forall|i: int| 0 <= i < self.keep(s).len() ==> self.occurs(#[trigger] self.keep(s)[i])
                && s.contains(self.keep(s)[i]),
        decreases s.len(),
    {
        if s.len() > 0 {
            self.lemma_keep_members(s.drop_first());
            let rest = self.keep(s.drop_first());
            assert forall|i: int| 0 <= i < self.keep(s).len() implies self.occurs(
                #[trigger] self.keep(s)[i]) && s.contains(self.keep(s)[i]) by {
                if !(self.occurs(s[0]) && i == 0) {
                    let k = if self.occurs(s[0]) { i - 1 } else { i };
                    assert(self.keep(s)[i] == rest[k]);
                    let w = choose|w: int| 0 <= w < s.drop_first().len() && s.drop_first()[w] == rest[k];
                    assert(s[w + 1] == rest[k]);
                }
            }
        }
    }

    /// Keeping some dates of an ascending sequence leaves it ascending.
    pub proof fn lemma_keep_ascending(self, s: Seq<Date>)
        requires
            ascending(s),
        ensures
            ascending(self.keep(s)),
        decreases s.len(),
    {
        if s.len() > 0 {
            let tail = s.drop_first();
            assert(ascending(tail)) by {
                assert forall|i: int, j: int| 0 <= i < j < tail.len() implies #[trigger] tail[i].before(
                    #[trigger] tail[j]) by {
                    assert(s[i + 1].before(s[j + 1]));
                }
            }
            self.lemma_keep_ascending(tail);
            self.lemma_keep_members(tail);
            let rest = self.keep(tail);
            if self.occurs(s[0]) {
                let k = self.keep(s);
                assert forall|i: int, j: int| 0 <= i < j < k.len() implies #[trigger] k[i].before(
                    #[trigger] k[j]) by {
                    if i == 0 {
                        assert(k[j] == rest[j - 1]);
                        assert(tail.contains(rest[j - 1]));
                        let w = choose|w: int| 0 <= w < tail.len() && tail[w] == rest[j - 1];
                        assert(s[0].before(s[w + 1]));
                    } else {
                        assert(k[i] == rest[i - 1] && k[j] == rest[j - 1]);
                    }
                }
            }
        }
    }
}

/// A date listed as canceled never occurs, even where it is also listed as confirmed.
pub proof fn lemma_canceled_dominates(r: Recurrence, from: Date, count: nat, d: Date)
    requires
        r.confirmed matches DateSet::Dates(c) && c@.contains(d),
        r.canceled matches DateSet::Dates(x) && x@.contains(d),
    ensures
        !r.schedule(from, count).contains(d),
{
    r.lemma_keep_members(days_from(from, count));
}

/// The filter that lists only the first week keeps exactly the dates within a month's first
/// seven days.
pub proof fn lemma_first_week_filter(w: Vec<u8>, d: Date)
    requires
        w@ == seq![1u8],
        d.valid(),
    ensures
        weeks_allow(Some(w), d) <==> d.day <= 7,
{
    if d.day <= 7 {
        assert(w@[0] as int == d.week_of_month());
    }
}

fn week_listed(w: &Vec<u8>, d: Date) -> (r: bool)
    requires
        d.valid(),
    ensures
        r == list_has(w@, d.week_of_month()),
{
    let ord: u8 = (d.day - 1) / 7 + 1;
    let mut i: usize = 0;
    while i < w.len()
        invariant
            i <= w@.len(),
            ord as int == d.week_of_month(),
            forall|j: int| 0 <= j < i ==> w@[j] != ord,
        decreases w@.len() - i,
    {
        if w[i] == ord {
            return true;
        }
        i = i + 1;
    }
    false
}

} // verus!
