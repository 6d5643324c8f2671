//! Writes a calendar event as iCalendar text, and names its file.
use vstd::prelude::*;

use crate::datetime::DateTime;
use crate::event::CalendarEvent;
use crate::text::{chars_of, decimal, is_whitespace, is_ws, push_char, push_decimal, push_str};

verus! {

pub const CRLF: &'static str = "\r\n";

pub const BEGIN_CALENDAR: &'static str = "BEGIN:VCALENDAR";

pub const VERSION_LINE: &'static str = "VERSION:2.0";

pub const PRODUCT_LINE: &'static str = "PRODID:-//ticket_to_ics//EN";

pub const BEGIN_EVENT: &'static str = "BEGIN:VEVENT";

pub const END_EVENT: &'static str = "END:VEVENT";

pub const END_CALENDAR: &'static str = "END:VCALENDAR";

pub const UID_KEY: &'static str = "UID:";

pub const DTSTAMP_KEY: &'static str = "DTSTAMP:";

pub const SUMMARY_KEY: &'static str = "SUMMARY:";

pub const LOCATION_KEY: &'static str = "LOCATION:";

pub const DTSTART_KEY: &'static str = "DTSTART:";

pub const DTEND_KEY: &'static str = "DTEND:";

pub const EXTENSION: &'static str = ".ics";

/// The basic form `YYYYMMDDTHHMMSS`.
pub open spec fn stamp(dt: DateTime) -> Seq<char> {
    decimal(dt.year as nat, 4) + decimal(dt.month as nat, 2) + decimal(dt.day as nat, 2) + seq![
        'T',
    ] + decimal(dt.hour as nat, 2) + decimal(dt.minute as nat, 2) + decimal(dt.second as nat, 2)
}

/// How one character of a text value is written.
pub open spec fn escape_char(c: char) -> Seq<char> {
    if c == '\\' || c == ';' || c == ',' {
        seq!['\\', c]
    } else if c == '\n' {
        seq!['\\', 'n']
    } else if c == '\r' {
        seq!['\\', 'r']
    } else {
        seq![c]
    }
}

/// A text value with backslash, semicolon, comma and line breaks escaped.
pub open spec fn escape(s: Seq<char>) -> Seq<char>
    decreases s.len(),
{
    if s.len() == 0 {
        Seq::empty()
    } else {
        escape(s.drop_last()) + escape_char(s.last())
    }
}

/// The lines of `ev`'s calendar text, without their line ends.
pub open spec fn ics_lines(ev: &CalendarEvent) -> Seq<Seq<char>> {
    seq![
        BEGIN_CALENDAR@,
        VERSION_LINE@,
        PRODUCT_LINE@,
        BEGIN_EVENT@,
        UID_KEY@ + escape(ev.id@),
        DTSTAMP_KEY@ + stamp(ev.created_at).push('Z'),
        SUMMARY_KEY@ + escape(ev.summary@),
        LOCATION_KEY@ + escape(ev.location@),
        DTSTART_KEY@ + stamp(ev.start),
        DTEND_KEY@ + stamp(ev.end),
        END_EVENT@,
        END_CALENDAR@,
    ]
}

/// Each line followed by CR LF.
pub open spec fn join_lines(ls: Seq<Seq<char>>) -> Seq<char>
    decreases ls.len(),
{
    if ls.len() == 0 {
        Seq::empty()
    } else {
        join_lines(ls.drop_last()) + ls.last() + CRLF@
    }
}

/// The iCalendar text of `ev`: one event block inside one calendar.
pub open spec fn ics_spec(ev: &CalendarEvent) -> Seq<char> {
    join_lines(ics_lines(ev))
}

/// `summary` with each whitespace character made `'_'`, then the extension.
pub open spec fn filename_spec(summary: Seq<char>) -> Seq<char> {
    summary.map_values(|c: char| if is_ws(c) { '_' } else { c }) + EXTENSION@
}

fn push_stamp(s: &mut String, dt: &DateTime)
    ensures
        final(s)@ == old(s)@ + stamp(*dt),
{
    push_decimal(s, dt.year as u64, 4);
    push_decimal(s, dt.month as u64, 2);
    push_decimal(s, dt.day as u64, 2);
    push_char(s, 'T');
    push_decimal(s, dt.hour as u64, 2);
    push_decimal(s, dt.minute as u64, 2);
    push_decimal(s, dt.second as u64, 2);
    assert(final(s)@ =~= old(s)@ + stamp(*dt));
}

fn push_escaped(s: &mut String, t: &str)
    ensures
        final(s)@ == old(s)@ + escape(t@),
{
    let v = chars_of(t);
    let mut i: usize = 0;
    while i < v.len()
        invariant
            v@ == t@,
            i <= v@.len(),
            s@ == old(s)@ + escape(v@.take(i as int)),
        decreases v@.len() - i,
    {
        let c = v[i];
        if c == '\\' || c == ';' || c == ',' {
            push_char(s, '\\');
            push_char(s, c);
        } else if c == '\n' {
            push_char(s, '\\');
            push_char(s, 'n');
        } else if c == '\r' {
            push_char(s, '\\');
            push_char(s, 'r');
        } else {
            push_char(s, c);
        }
        assert(v@.take(i + 1).drop_last() =~= v@.take(i as int));
        i = i + 1;
        assert(s@ =~= old(s)@ + escape(v@.take(i as int)));
    }
    assert(v@.take(i as int) =~= t@);
}

/// The iCalendar text of `ev`.
pub fn to_ics(ev: &CalendarEvent) -> (r: String)
    ensures
        r@ == ics_spec(ev),
{
    let ghost ls = ics_lines(ev);
    let mut r = String::new();
    assert(r@ =~= join_lines(ls.take(0)));
    push_line(&mut r, BEGIN_CALENDAR);
    proof { lemma_join_step(ls, 0); }
    push_line(&mut r, VERSION_LINE);
    proof { lemma_join_step(ls, 1); }
    push_line(&mut r, PRODUCT_LINE);
    proof { lemma_join_step(ls, 2); }
    push_line(&mut r, BEGIN_EVENT);
    proof { lemma_join_step(ls, 3); }
    push_str(&mut r, UID_KEY);
    push_escaped(&mut r, ev.id.as_str());
    push_str(&mut r, CRLF);
    proof { lemma_join_step(ls, 4); }
    assert(r@ =~= join_lines(ls.take(5)));
    push_str(&mut r, DTSTAMP_KEY);
    push_stamp(&mut r, &ev.created_at);
    push_char(&mut r, 'Z');
    push_str(&mut r, CRLF);
    proof { lemma_join_step(ls, 5); }
    assert(r@ =~= join_lines(ls.take(6)));
    push_str(&mut r, SUMMARY_KEY);
    push_escaped(&mut r, ev.summary.as_str());
    push_str(&mut r, CRLF);
    proof { lemma_join_step(ls, 6); }
    assert(r@ =~= join_lines(ls.take(7)));
    push_str(&mut r, LOCATION_KEY);
    push_escaped(&mut r, ev.location.as_str());
    push_str(&mut r, CRLF);
    proof { lemma_join_step(ls, 7); }
    assert(r@ =~= join_lines(ls.take(8)));
    push_str(&mut r, DTSTART_KEY);
    push_stamp(&mut r, &ev.start);
    push_str(&mut r, CRLF);
    proof { lemma_join_step(ls, 8); }
    assert(r@ =~= join_lines(ls.take(9)));
    push_str(&mut r, DTEND_KEY);
    push_stamp(&mut r, &ev.end);
    push_str(&mut r, CRLF);
    proof { lemma_join_step(ls, 9); }
    assert(r@ =~= join_lines(ls.take(10)));
    push_line(&mut r, END_EVENT);
    proof { lemma_join_step(ls, 10); }
    push_line(&mut r, END_CALENDAR);
    proof { lemma_join_step(ls, 11); }
    assert(ls.take(12) =~= ls);
    r
}

proof fn lemma_join_step(ls: Seq<Seq<char>>, k: int)
    requires
        0 <= k < ls.len(),
    ensures
        join_lines(ls.take(k + 1)) == join_lines(ls.take(k)) + ls[k] + CRLF@,
{
    assert(ls.take(k + 1).drop_last() =~= ls.take(k));
}

fn push_line(s: &mut String, line: &str)
    ensures
        final(s)@ == old(s)@ + line@ + CRLF@,
{
    push_str(s, line);
    push_str(s, CRLF);
}

/// The file name for an event called `summary`: whitespace becomes `'_'`, and `.ics` follows.
pub fn output_filename(summary: &str) -> (r: String)
    ensures
        r@ == filename_spec(summary@),
{
    let v = chars_of(summary);
    let ghost f = |c: char| if is_ws(c) { '_' } else { c };
    let mut r = String::new();
    let mut i: usize = 0;
    while i < v.len()
        invariant
            v@ == summary@,
            i <= v@.len(),
            f == (|c: char| if is_ws(c) { '_' } else { c }),
            r@ == v@.take(i as int).map_values(f),
        decreases v@.len() - i,
    {
        if is_whitespace(v[i]) {
            push_char(&mut r, '_');
        } else {
            push_char(&mut r, v[i]);
        }
        i = i + 1;
        assert(r@ =~= v@.take(i as int).map_values(f));
    }
    assert(v@.take(i as int) =~= summary@);
    push_str(&mut r, EXTENSION);
    r
}

} // verus!
