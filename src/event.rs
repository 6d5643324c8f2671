//! Builds the calendar event of one ticket from its fields and schedule.
use vstd::prelude::*;

use crate::datetime::DateTime;
use crate::fields::{extract_fields, extract_spec, or_empty, ExtractedFields};
use crate::schedule::{fixed_end, normalize, start_spec, NormalizedSchedule};
use crate::text::{decimal, push_decimal, push_str};

verus! {

pub const ID_PREFIX: &'static str = "event_";

/// One ticket's event, ready to be written out.
pub struct CalendarEvent {
    pub id: String,
    pub created_at: DateTime,
    pub summary: String,
    pub location: String,
    pub start: DateTime,
    pub end: DateTime,
}

/// The identifier of an event made `secs` seconds after the Unix epoch.
pub open spec fn event_id_spec(secs: nat) -> Seq<char> {
    ID_PREFIX@ + decimal(secs, 1)
}

/// `"event_"` followed by `secs` in decimal.
pub fn event_id(secs: u64) -> (r: String)
    ensures
        r@ == event_id_spec(secs as nat),
{
    let mut r = String::new();
    push_str(&mut r, ID_PREFIX);
    push_decimal(&mut r, secs, 1);
    r
}

/// Combines fields and schedule into an event; a missing name or location becomes empty.
pub fn synthesize(
    fields: &ExtractedFields,
    schedule: &NormalizedSchedule,
    now_secs: u64,
    created_at: DateTime,
) -> (r: CalendarEvent)
    ensures
        r.id@ == event_id_spec(now_secs as nat),
        r.created_at == created_at,
        r.summary@ == or_empty(fields@.event_name),
        r.location@ == or_empty(fields@.location),
        r.start == schedule.start,
        r.end == schedule.end,
{
    CalendarEvent {
        id: event_id(now_secs),
        created_at,
        summary: fields.name_or_empty(),
        location: fields.location_or_empty(),
        start: schedule.start,
        end: schedule.end,
    }
}

/// Reads a model's answer and builds its event. `now` stands in for a start that does not
/// parse; `now_secs` (seconds since the Unix epoch) names the event; `created_at` is when it
/// was made, in UTC.
pub fn event_from_response(response: &str, now: DateTime, now_secs: u64, created_at: DateTime) -> (r:
    CalendarEvent)
    requires
        now.wf(),
        now.year < u16::MAX,
    ensures
        r.id@ == event_id_spec(now_secs as nat),
        r.created_at == created_at,
        r.summary@ == or_empty(extract_spec(response@).event_name),
        r.location@ == or_empty(extract_spec(response@).location),
        r.start == start_spec(extract_spec(response@).start_raw, now),
        r.start.wf(),
        r.end.wf(),
        r.start.before(r.end),
        match fixed_end(r.start, extract_spec(response@).end_raw) {
            Some(e) => r.end == e,
            None => r.end.seconds() == r.start.seconds() + 2 * 3600,
        },
{
    let fields = extract_fields(response);
    let schedule = normalize(&fields.start_raw, &fields.end_raw, now);
    synthesize(&fields, &schedule, now_secs, created_at)
}

} // verus!
