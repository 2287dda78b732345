//! Calendar event storage and lookup: fixed Persian events that recur on the
//! same month and day every year, plus Hijri events mapped onto a single
//! reference Persian year. The engine itself never depends on event data;
//! this table serves presentation code.

use vstd::prelude::*;

verus! {

/// A single calendar event.
#[derive(Debug)]
pub struct Event {
    /// Whether the event is an official public holiday.
    pub holiday: bool,
    /// The Persian month (1-12) the event falls on.
    pub month: u32,
    /// The Persian day of month the event falls on.
    pub day: u32,
    /// The event's title.
    pub title: String,
    /// The original Hijri month, for mapped Hijri events.
    pub hijri_month: Option<u32>,
    /// The original Hijri day, for mapped Hijri events.
    pub hijri_day: Option<u32>,
}

impl Event {
    /// A field-for-field copy.
    pub fn duplicate(&self) -> (r: Self)
        ensures
            r == *self,
    {
        Event {
            holiday: self.holiday,
            month: self.month,
            day: self.day,
            title: self.title.clone(),
            hijri_month: self.hijri_month,
            hijri_day: self.hijri_day,
        }
    }
}

/// The loaded event data: a reference year for the mapped Hijri events and
/// the two event lists. A reference year of 0 marks a table whose data
/// failed to load; lookups on it find nothing.
#[derive(Debug)]
pub struct EventTable {
    pub reference_year: i32,
    pub fixed_persian_events: Vec<Event>,
    pub mapped_hijri_events: Vec<Event>,
}

/// The events of a list that fall on the given month and day, in list order.
pub open spec fn spec_matching(s: Seq<Event>, month: u32, day: u32) -> Seq<Event>
    decreases s.len(),
{
    if s.len() == 0 {
        Seq::empty()
    } else {
        spec_matching(s.drop_last(), month, day).add(
            if s.last().month == month && s.last().day == day {
                seq![s.last()]
            } else {
                Seq::empty()
            },
        )
    }
}

/// Everything a date's query returns: the fixed events of that month and
/// day, then the mapped Hijri events when the queried year is the reference
/// year.
pub open spec fn spec_events_for_date(
    t: EventTable,
    query_year: i32,
    query_month: u32,
    query_day: u32,
) -> Seq<Event> {
    spec_matching(t.fixed_persian_events@, query_month, query_day).add(
        if query_year == t.reference_year {
            spec_matching(t.mapped_hijri_events@, query_month, query_day)
        } else {
            Seq::empty()
        },
    )
}

impl EventTable {
    /// Builds the table, stripping any stray Hijri fields off the fixed
    /// Persian events; the mapped Hijri events are kept as given.
    pub fn new(reference_year: i32, persian_events: Vec<Event>, hijri_events_mapping: Vec<Event>)
        -> (t: Self)
        ensures
            t.reference_year == reference_year,
            t.mapped_hijri_events@ == hijri_events_mapping@,
            t.fixed_persian_events@.len() == persian_events@.len(),
            forall|i: int|
                0 <= i < persian_events@.len() ==> {
                    let e = #[trigger] t.fixed_persian_events@[i];
                    &&& e.holiday == persian_events@[i].holiday
                    &&& e.month == persian_events@[i].month
                    &&& e.day == persian_events@[i].day
                    &&& e.title == persian_events@[i].title
                    &&& e.hijri_month is None
                    &&& e.hijri_day is None
                },
    {
        let mut fixed: Vec<Event> = Vec::new();
        let mut i: usize = 0;
        while i < persian_events.len()
            invariant
                0 <= i <= persian_events@.len(),
                fixed@.len() == i,
                forall|j: int|
                    0 <= j < i ==> {
                        let e = #[trigger] fixed@[j];
                        &&& e.holiday == persian_events@[j].holiday
                        &&& e.month == persian_events@[j].month
                        &&& e.day == persian_events@[j].day
                        &&& e.title == persian_events@[j].title
                        &&& e.hijri_month is None
                        &&& e.hijri_day is None
                    },
            decreases persian_events@.len() - i,
        {
            let src = &persian_events[i];
            fixed.push(
                Event {
                    holiday: src.holiday,
                    month: src.month,
                    day: src.day,
                    title: src.title.clone(),
                    hijri_month: None,
                    hijri_day: None,
                },
            );
            i = i + 1;
        }
        EventTable {
            reference_year,
            fixed_persian_events: fixed,
            mapped_hijri_events: hijri_events_mapping,
        }
    }
}

/// Collects the events of a list that fall on the given month and day.
fn matching_events(s: &Vec<Event>, month: u32, day: u32) -> (r: Vec<Event>)
    ensures
        r@ == spec_matching(s@, month, day),
{
    let mut r: Vec<Event> = Vec::new();
    let mut i: usize = 0;
    proof {
        assert(s@.subrange(0, 0) =~= Seq::<Event>::empty());
    }
    while i < s.len()
        invariant
            0 <= i <= s@.len(),
            r@ == spec_matching(s@.subrange(0, i as int), month, day),
        decreases s@.len() - i,
    {
        let ghost pre = s@.subrange(0, i as int);
        let ghost cur = s@.subrange(0, i as int + 1);
        proof {
            assert(cur.drop_last() =~= pre);
            assert(cur.last() == s@[i as int]);
        }
        let e = &s[i];
        if e.month == month && e.day == day {
            r.push(e.duplicate());
        }
        i = i + 1;
        proof {
            assert(r@ =~= spec_matching(s@.subrange(0, i as int), month, day));
        }
    }
    proof {
        assert(s@.subrange(0, s@.len() as int) =~= s@);
    }
    r
}

/// The events relevant to a date: fixed Persian events always, mapped Hijri
/// events only when the queried year is the table's reference year. An empty
/// result, or a table whose data failed to load, comes back as `None`.
pub fn get_events_for_date(
    table: &EventTable,
    query_year: i32,
    query_month: u32,
    query_day: u32,
) -> (r: Option<Vec<Event>>)
    ensures
        match r {
            Some(v) => table.reference_year != 0 && v@ == spec_events_for_date(
                *table,
                query_year,
                query_month,
                query_day,
            ) && v@.len() > 0,
            None => table.reference_year == 0 || spec_events_for_date(
                *table,
                query_year,
                query_month,
                query_day,
            ).len() == 0,
        },
{
    if table.reference_year == 0 {
        return None;
    }
    let mut results = matching_events(&table.fixed_persian_events, query_month, query_day);
    if query_year == table.reference_year {
        let mut mapped = matching_events(&table.mapped_hijri_events, query_month, query_day);
        results.append(&mut mapped);
    }
    proof {
        assert(results@ =~= spec_events_for_date(*table, query_year, query_month, query_day));
    }
    if results.len() == 0 {
        None
    } else {
        Some(results)
    }
}

/// The calendar-grid marker for a date: `*` when some relevant event is a
/// holiday, `+` when there are events but no holiday, nothing otherwise.
pub fn get_event_indicator(
    table: &EventTable,
    query_year: i32,
    query_month: u32,
    query_day: u32,
) -> (r: Option<char>)
    ensures
        match r {
            Some(c) => {
                let evs = spec_events_for_date(*table, query_year, query_month, query_day);
                &&& table.reference_year != 0
                &&& evs.len() > 0
                &&& c == if exists|i: int| 0 <= i < evs.len() && (#[trigger] evs[i]).holiday {
                    '*'
                } else {
                    '+'
                }
            },
            None => table.reference_year == 0 || spec_events_for_date(
                *table,
                query_year,
                query_month,
                query_day,
            ).len() == 0,
        },
{
    match get_events_for_date(table, query_year, query_month, query_day) {
        None => None,
        Some(evs) => {
            let mut i: usize = 0;
            let mut any_holiday = false;
            while i < evs.len()
                invariant
                    0 <= i <= evs@.len(),
                    any_holiday == exists|j: int| 0 <= j < i && (#[trigger] evs@[j]).holiday,
                decreases evs@.len() - i,
            {
                if evs[i].holiday {
                    any_holiday = true;
                }
                i = i + 1;
            }
            if any_holiday {
                Some('*')
            } else {
                Some('+')
            }
        },
    }
}

} // verus!
