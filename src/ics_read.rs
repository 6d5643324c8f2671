//! Reads back the event properties of iCalendar text.
use vstd::prelude::*;

use crate::datetime::{month_length, DateTime};
use crate::fields::{lemma_split_lines_nonempty, split_lines};
use crate::event::CalendarEvent;
use crate::ics::{
    escape, escape_char, ics_lines, ics_spec, join_lines, BEGIN_CALENDAR, BEGIN_EVENT, DTEND_KEY,
    DTSTAMP_KEY, DTSTART_KEY, END_CALENDAR, END_EVENT, LOCATION_KEY, PRODUCT_LINE, SUMMARY_KEY,
    UID_KEY, VERSION_LINE,
};
use crate::ics::stamp;
use crate::text::{chars_of, decimal, decimal_value, digit_char, lemma_decimal_len, lemma_decimal_value, pow10, has_prefix_at, is_digit, push_char, read_decimal, starts_with};

verus! {

/// The character that a backslash followed by `c` stands for.
pub open spec fn unescape_pair(c: char) -> char {
    if c == 'n' || c == 'N' {
        '\n'
    } else if c == 'r' {
        '\r'
    } else {
        c
    }
}

/// A text value with its escapes undone.
pub open spec fn unescape(s: Seq<char>) -> Seq<char>
    decreases s.len(),
{
    if s.len() == 0 {
        Seq::empty()
    } else if s[0] == '\\' && s.len() >= 2 {
        seq![unescape_pair(s[1])] + unescape(s.skip(2))
    } else {
        seq![s[0]] + unescape(s.skip(1))
    }
}

/// `l` without one trailing carriage return.
pub open spec fn strip_cr(l: Seq<char>) -> Seq<char> {
    if l.len() > 0 && l.last() == '\r' {
        l.drop_last()
    } else {
        l
    }
}

/// The raw values of the properties read so far.
pub struct PropsView {
    pub summary: Option<Seq<char>>,
    pub location: Option<Seq<char>>,
    pub start: Option<Seq<char>>,
    pub end: Option<Seq<char>>,
}

pub open spec fn apply_prop(p: PropsView, raw: Seq<char>) -> PropsView {
    let line = strip_cr(raw);
    if starts_with(line, SUMMARY_KEY@) {
        PropsView { summary: Some(unescape(line.skip(SUMMARY_KEY@.len() as int))), ..p }
    } else if starts_with(line, LOCATION_KEY@) {
        PropsView { location: Some(unescape(line.skip(LOCATION_KEY@.len() as int))), ..p }
    } else if starts_with(line, DTSTART_KEY@) {
        PropsView { start: Some(line.skip(DTSTART_KEY@.len() as int)), ..p }
    } else if starts_with(line, DTEND_KEY@) {
        PropsView { end: Some(line.skip(DTEND_KEY@.len() as int)), ..p }
    } else {
        p
    }
}

/// The properties that `lines` give; a later line overrides an earlier one.
pub open spec fn props_of(lines: Seq<Seq<char>>) -> PropsView
    decreases lines.len(),
{
    if lines.len() == 0 {
        PropsView { summary: None, location: None, start: None, end: None }
    } else {
        apply_prop(props_of(lines.drop_last()), lines.last())
    }
}

/// A moment in the basic form `YYYYMMDDTHHMMSS` (four or five year digits) that names a
/// real moment.
pub open spec fn parse_stamp_spec(s: Seq<char>) -> Option<DateTime> {
    let k = s.len() - 11;
    if 15 <= s.len() <= 16 && s[k + 4] == 'T' && (forall|i: int|
        0 <= i < s.len() && i != k + 4 ==> is_digit(#[trigger] s[i])) {
        let y = decimal_value(s.take(k));
        let dt = DateTime {
            year: y as u16,
            month: decimal_value(s.subrange(k, k + 2)) as u8,
            day: decimal_value(s.subrange(k + 2, k + 4)) as u8,
            hour: decimal_value(s.subrange(k + 5, k + 7)) as u8,
            minute: decimal_value(s.subrange(k + 7, k + 9)) as u8,
            second: decimal_value(s.subrange(k + 9, k + 11)) as u8,
        };
        if y <= u16::MAX && dt.wf() {
            Some(dt)
        } else {
            None
        }
    } else {
        None
    }
}

/// What a calendar text says of its event: summary, location, start and end.
pub open spec fn read_ics_spec(text: Seq<char>) -> Option<(Seq<char>, Seq<char>, DateTime, DateTime)> {
    let p = props_of(split_lines(text));
    if p.summary is Some && p.location is Some && p.start is Some && p.end is Some {
        match (parse_stamp_spec(p.start->0), parse_stamp_spec(p.end->0)) {
            (Some(s), Some(e)) => Some((p.summary->0, p.location->0, s, e)),
            _ => None,
        }
    } else {
        None
    }
}

} // verus!

verus! {

#[verifier::opaque]
pub open spec fn no_newline(s: Seq<char>) -> bool {
    forall|i: int| 0 <= i < s.len() ==> #[trigger] s[i] != '\n'
}

proof fn lemma_split_no_newline(a: Seq<char>, t: Seq<char>)
    requires
        no_newline(t),
    ensures
        split_lines(a + t) == split_lines(a).update(
            split_lines(a).len() - 1,
            split_lines(a).last() + t,
        ),
    decreases t.len(),
{
    reveal(no_newline);
    lemma_split_lines_nonempty(a);
    if t.len() == 0 {
        assert(a + t =~= a);
        assert(split_lines(a).last() + t =~= split_lines(a).last());
        assert(split_lines(a).update(split_lines(a).len() - 1, split_lines(a).last())
            =~= split_lines(a));
    } else {
        let u = t.drop_last();
        assert(no_newline(u)) by {
            assert forall|i: int| 0 <= i < u.len() implies #[trigger] u[i] != '\n' by {
                assert(u[i] == t[i]);
            }
        }
        lemma_split_no_newline(a, u);
        assert((a + t).drop_last() =~= a + u);
        assert((a + t).last() == t.last());
        assert(t.last() == t[t.len() - 1]);
        assert(t.last() != '\n');
        assert((split_lines(a).last() + u).push(t.last()) =~= split_lines(a).last() + t);
        assert(split_lines(a + t) =~= split_lines(a).update(
            split_lines(a).len() - 1,
            split_lines(a).last() + t,
        ));
    }
}

/// The pieces of text joined with CR LF, each with its carriage return.
pub open spec fn with_cr(ls: Seq<Seq<char>>) -> Seq<Seq<char>> {
    ls.map_values(|l: Seq<char>| l.push('\r'))
}

proof fn lemma_split_join(ls: Seq<Seq<char>>)
    requires
        forall|i: int| 0 <= i < ls.len() ==> no_newline(#[trigger] ls[i]),
    ensures
        split_lines(join_lines(ls)) == with_cr(ls).push(Seq::<char>::empty()),
    decreases ls.len(),
{
    reveal(no_newline);
    reveal_strlit("\r\n");
    if ls.len() == 0 {
        assert(with_cr(ls).push(Seq::<char>::empty()) =~= seq![Seq::<char>::empty()]);
    } else {
        let init = ls.drop_last();
        assert forall|i: int| 0 <= i < init.len() implies no_newline(#[trigger] init[i]) by {
            assert(init[i] == ls[i]);
        }
        lemma_split_join(init);
        let j = join_lines(init);
        let l = ls.last();
        assert(no_newline(l.push('\r'))) by {
            assert(no_newline(ls[ls.len() - 1]));
            assert forall|i: int| 0 <= i < l.push('\r').len() implies #[trigger] l.push('\r')[i]
                != '\n' by {
                if i < l.len() {
                    assert(l.push('\r')[i] == l[i]);
                }
            }
        }
        lemma_split_no_newline(j, l.push('\r'));
        assert(join_lines(ls) =~= (j + l.push('\r')).push('\n'));
        assert((j + l.push('\r')).push('\n').drop_last() =~= j + l.push('\r'));
        assert(split_lines(join_lines(ls)) == split_lines(j + l.push('\r')).push(
            Seq::<char>::empty(),
        ));
        assert(with_cr(ls) =~= with_cr(init).push(l.push('\r')));
        assert(split_lines(j).last() =~= Seq::<char>::empty());
        assert(Seq::<char>::empty() + l.push('\r') =~= l.push('\r'));
        assert(split_lines(join_lines(ls)) =~= with_cr(ls).push(Seq::<char>::empty()));
    }
}

proof fn lemma_escape_char_no_newline(c: char)
    ensures
        no_newline(escape_char(c)),
        escape_char(c).len() >= 1,
        escape_char(c).len() == 1 ==> escape_char(c)[0] == c && c != '\\',
{
    reveal(no_newline);
}

proof fn lemma_escape_no_newline(s: Seq<char>)
    ensures
        no_newline(escape(s)),
    decreases s.len(),
{
    reveal(no_newline);
    if s.len() > 0 {
        lemma_escape_no_newline(s.drop_last());
        lemma_escape_char_no_newline(s.last());
        let a = escape(s.drop_last());
        let b = escape_char(s.last());
        assert forall|i: int| 0 <= i < (a + b).len() implies #[trigger] (a + b)[i] != '\n' by {
            if i < a.len() {
                assert((a + b)[i] == a[i]);
            } else {
                assert((a + b)[i] == b[i - a.len()]);
            }
        }
    }
}

proof fn lemma_escape_first(s: Seq<char>)
    requires
        s.len() > 0,
    ensures
        escape(s) == escape_char(s[0]) + escape(s.drop_first()),
    decreases s.len(),
{
    if s.len() == 1 {
        assert(s.drop_last().len() == 0);
        assert(s.drop_first().len() == 0);
        assert(escape(s.drop_last()) =~= Seq::<char>::empty());
        assert(escape(s.drop_first()) =~= Seq::<char>::empty());
        assert(s.last() == s[0]);
        assert(escape(s) =~= escape_char(s[0]) + escape(s.drop_first()));
    } else {
        lemma_escape_first(s.drop_last());
        assert(s.drop_last().drop_first() =~= s.drop_first().drop_last());
        assert(s.drop_first().last() == s.last());
        assert(escape(s) =~= escape_char(s[0]) + escape(s.drop_first()));
    }
}

/// Undoing the escapes of an escaped value gives the value back.
pub proof fn lemma_unescape_escape(s: Seq<char>)
    ensures
        unescape(escape(s)) == s,
    decreases s.len(),
{
    if s.len() > 0 {
        lemma_escape_first(s);
        lemma_unescape_escape(s.drop_first());
        let e = escape_char(s[0]);
        let rest = escape(s.drop_first());
        let t = e + rest;
        if e.len() == 2 {
            assert(t.skip(2) =~= rest);
            assert(t[0] == '\\');
            assert(t[1] == e[1]);
        } else {
            lemma_escape_char_no_newline(s[0]);
            assert(t.skip(1) =~= rest);
            assert(t[0] == s[0]);
        }
        assert(seq![s[0]] + s.drop_first() =~= s);
    }
}

} // verus!

verus! {

proof fn lemma_two_digits(n: nat)
    requires
        n < 100,
    ensures
        decimal(n, 2).len() == 2,
        decimal_value(decimal(n, 2)) == n,
        forall|i: int| 0 <= i < 2 ==> is_digit(#[trigger] decimal(n, 2)[i]),
        no_newline(decimal(n, 2)),
{
    reveal(no_newline);
    reveal_with_fuel(pow10, 3);
    lemma_decimal_len(n, 2);
    lemma_decimal_value(n, 2);
}

proof fn lemma_year_digits(y: nat)
    requires
        y <= u16::MAX,
    ensures
        4 <= decimal(y, 4).len() <= 5,
        decimal_value(decimal(y, 4)) == y,
        forall|i: int| 0 <= i < decimal(y, 4).len() ==> is_digit(#[trigger] decimal(y, 4)[i]),
        no_newline(decimal(y, 4)),
{
    reveal(no_newline);
    reveal_with_fuel(pow10, 6);
    lemma_decimal_value(y, 4);
    if y < 10000 {
        lemma_decimal_len(y, 4);
    } else {
        assert(decimal(y, 4) == decimal(y / 10, 3).push(digit_char(y)));
        assert(decimal(y / 10, 3) == decimal(y / 100, 2).push(digit_char(y / 10)));
        assert(decimal(y / 100, 2) == decimal(y / 1000, 1).push(digit_char(y / 100)));
        assert(decimal(y / 1000, 1) == decimal(y / 10000, 0).push(digit_char(y / 1000)));
        assert(decimal(y / 10000, 0) == seq![digit_char(y / 10000)]);
    }
}

/// Reading back a written moment gives the moment.
pub proof fn lemma_stamp_round_trip(dt: DateTime)
    requires
        dt.wf(),
    ensures
        parse_stamp_spec(stamp(dt)) == Some(dt),
        no_newline(stamp(dt)),
{
    reveal(no_newline);
    let y = decimal(dt.year as nat, 4);
    let mo = decimal(dt.month as nat, 2);
    let d = decimal(dt.day as nat, 2);
    let h = decimal(dt.hour as nat, 2);
    let mi = decimal(dt.minute as nat, 2);
    let se = decimal(dt.second as nat, 2);
    lemma_year_digits(dt.year as nat);
    lemma_two_digits(dt.month as nat);
    lemma_two_digits(dt.day as nat);
    lemma_two_digits(dt.hour as nat);
    lemma_two_digits(dt.minute as nat);
    lemma_two_digits(dt.second as nat);
    let s = stamp(dt);
    let k = y.len() as int;
    assert(s =~= y + mo + d + seq!['T'] + h + mi + se);
    assert(s.len() == k + 11);
    assert(s.take(k) =~= y);
    assert(s.subrange(k, k + 2) =~= mo);
    assert(s.subrange(k + 2, k + 4) =~= d);
    assert(s[k + 4] == 'T');
    assert(s.subrange(k + 5, k + 7) =~= h);
    assert(s.subrange(k + 7, k + 9) =~= mi);
    assert(s.subrange(k + 9, k + 11) =~= se);
    assert forall|i: int| 0 <= i < s.len() && i != k + 4 implies is_digit(#[trigger] s[i]) by {
        if i < k {
            assert(s[i] == y[i]);
        } else if i < k + 2 {
            assert(s[i] == mo[i - k]);
        } else if i < k + 4 {
            assert(s[i] == d[i - k - 2]);
        } else if i < k + 7 {
            assert(s[i] == h[i - k - 5]);
        } else if i < k + 9 {
            assert(s[i] == mi[i - k - 7]);
        } else {
            assert(s[i] == se[i - k - 9]);
        }
    }
    assert forall|i: int| 0 <= i < s.len() implies #[trigger] s[i] != '\n' by {
        if i != k + 4 {
            assert(is_digit(s[i]));
        }
    }
}

} // verus!

verus! {

proof fn lemma_not_starts(line: Seq<char>, key: Seq<char>, i: int)
    requires
        0 <= i < line.len(),
        i < key.len(),
        line[i] != key[i],
    ensures
        !starts_with(line, key),
{
    if starts_with(line, key) {
        assert(line.take(key.len() as int)[i] == line[i]);
    }
}

proof fn lemma_keys()
    ensures
        SUMMARY_KEY@ == seq!['S', 'U', 'M', 'M', 'A', 'R', 'Y', ':'],
        LOCATION_KEY@ == seq!['L', 'O', 'C', 'A', 'T', 'I', 'O', 'N', ':'],
        DTSTART_KEY@ == seq!['D', 'T', 'S', 'T', 'A', 'R', 'T', ':'],
        DTEND_KEY@ == seq!['D', 'T', 'E', 'N', 'D', ':'],
{
    reveal_strlit("SUMMARY:");
    reveal_strlit("LOCATION:");
    reveal_strlit("DTSTART:");
    reveal_strlit("DTEND:");
    assert(SUMMARY_KEY@ =~= seq!['S', 'U', 'M', 'M', 'A', 'R', 'Y', ':']);
    assert(LOCATION_KEY@ =~= seq!['L', 'O', 'C', 'A', 'T', 'I', 'O', 'N', ':']);
    assert(DTSTART_KEY@ =~= seq!['D', 'T', 'S', 'T', 'A', 'R', 'T', ':']);
    assert(DTEND_KEY@ =~= seq!['D', 'T', 'E', 'N', 'D', ':']);
}

/// A line that starts with none of the keys' first letters changes nothing.
proof fn lemma_apply_other(p: PropsView, l: Seq<char>)
    requires
        l.len() > 0,
        l[0] != 'S' && l[0] != 'L' && l[0] != 'D',
    ensures
        apply_prop(p, l.push('\r')) == p,
{
    lemma_keys();
    assert(l.push('\r').drop_last() =~= l);
    lemma_not_starts(l, SUMMARY_KEY@, 0);
    lemma_not_starts(l, LOCATION_KEY@, 0);
    lemma_not_starts(l, DTSTART_KEY@, 0);
    lemma_not_starts(l, DTEND_KEY@, 0);
}

proof fn lemma_apply_key(p: PropsView, key: Seq<char>, v: Seq<char>)
    requires
        key == SUMMARY_KEY@ || key == LOCATION_KEY@ || key == DTSTART_KEY@ || key == DTEND_KEY@,
    ensures
        apply_prop(p, (key + v).push('\r')) == (if key == SUMMARY_KEY@ {
            PropsView { summary: Some(unescape(v)), ..p }
        } else if key == LOCATION_KEY@ {
            PropsView { location: Some(unescape(v)), ..p }
        } else if key == DTSTART_KEY@ {
            PropsView { start: Some(v), ..p }
        } else {
            PropsView { end: Some(v), ..p }
        }),
{
    lemma_keys();
    let l = key + v;
    assert(l.push('\r').drop_last() =~= l);
    assert(l.take(key.len() as int) =~= key);
    assert(l.skip(key.len() as int) =~= v);
    assert(l[0] == key[0]);
    if key == LOCATION_KEY@ {
        lemma_not_starts(l, SUMMARY_KEY@, 0);
    } else if key == DTSTART_KEY@ {
        lemma_not_starts(l, SUMMARY_KEY@, 0);
        lemma_not_starts(l, LOCATION_KEY@, 0);
    } else if key == DTEND_KEY@ {
        assert(l[2] == key[2]);
        lemma_not_starts(l, SUMMARY_KEY@, 0);
        lemma_not_starts(l, LOCATION_KEY@, 0);
        lemma_not_starts(l, DTSTART_KEY@, 2);
    }
}

proof fn lemma_apply_dtstamp(p: PropsView, v: Seq<char>)
    ensures
        apply_prop(p, (DTSTAMP_KEY@ + v).push('\r')) == p,
{
    lemma_keys();
    reveal_strlit("DTSTAMP:");
    assert(DTSTAMP_KEY@ =~= seq!['D', 'T', 'S', 'T', 'A', 'M', 'P', ':']);
    let l = DTSTAMP_KEY@ + v;
    assert(l.push('\r').drop_last() =~= l);
    assert(l[0] == 'D' && l[2] == 'S' && l[5] == 'M');
    lemma_not_starts(l, SUMMARY_KEY@, 0);
    lemma_not_starts(l, LOCATION_KEY@, 0);
    lemma_not_starts(l, DTSTART_KEY@, 5);
    lemma_not_starts(l, DTEND_KEY@, 2);
}

proof fn lemma_apply_summary(p: PropsView, v: Seq<char>)
    ensures
        apply_prop(p, (SUMMARY_KEY@ + v).push('\r')) == (PropsView { summary: Some(unescape(v)), ..p }),
{
    lemma_apply_key(p, SUMMARY_KEY@, v);
}

proof fn lemma_apply_location(p: PropsView, v: Seq<char>)
    ensures
        apply_prop(p, (LOCATION_KEY@ + v).push('\r')) == (PropsView { location: Some(unescape(v)), ..p }),
{
    lemma_keys();
    lemma_apply_key(p, LOCATION_KEY@, v);
}

proof fn lemma_apply_start(p: PropsView, v: Seq<char>)
    ensures
        apply_prop(p, (DTSTART_KEY@ + v).push('\r')) == (PropsView { start: Some(v), ..p }),
{
    lemma_keys();
    lemma_apply_key(p, DTSTART_KEY@, v);
}

proof fn lemma_apply_end(p: PropsView, v: Seq<char>)
    ensures
        apply_prop(p, (DTEND_KEY@ + v).push('\r')) == (PropsView { end: Some(v), ..p }),
{
    lemma_keys();
    lemma_apply_key(p, DTEND_KEY@, v);
}

proof fn lemma_props_step(ls: Seq<Seq<char>>, k: int)
    requires
        0 <= k < ls.len(),
    ensures
        props_of(ls.take(k + 1)) == apply_prop(props_of(ls.take(k)), ls[k]),
{
    assert(ls.take(k + 1).drop_last() =~= ls.take(k));
}

proof fn lemma_no_newline_concat(a: Seq<char>, b: Seq<char>)
    requires
        no_newline(a),
        no_newline(b),
    ensures
        no_newline(a + b),
{
    reveal(no_newline);
    assert forall|i: int| 0 <= i < (a + b).len() implies #[trigger] (a + b)[i] != '\n' by {
        if i < a.len() {
            assert((a + b)[i] == a[i]);
        } else {
            assert((a + b)[i] == b[i - a.len()]);
        }
    }
}

proof fn lemma_fixed_lines()
    ensures
        BEGIN_CALENDAR@.len() > 0 && BEGIN_CALENDAR@[0] == 'B' && no_newline(BEGIN_CALENDAR@),
        VERSION_LINE@.len() > 0 && VERSION_LINE@[0] == 'V' && no_newline(VERSION_LINE@),
        PRODUCT_LINE@.len() > 0 && PRODUCT_LINE@[0] == 'P' && no_newline(PRODUCT_LINE@),
        BEGIN_EVENT@.len() > 0 && BEGIN_EVENT@[0] == 'B' && no_newline(BEGIN_EVENT@),
        END_EVENT@.len() > 0 && END_EVENT@[0] == 'E' && no_newline(END_EVENT@),
        END_CALENDAR@.len() > 0 && END_CALENDAR@[0] == 'E' && no_newline(END_CALENDAR@),
        UID_KEY@.len() > 0 && UID_KEY@[0] == 'U' && no_newline(UID_KEY@),
        no_newline(DTSTAMP_KEY@),
        no_newline(SUMMARY_KEY@),
        no_newline(LOCATION_KEY@),
        no_newline(DTSTART_KEY@),
        no_newline(DTEND_KEY@),
{
    reveal(no_newline);
    reveal_strlit("BEGIN:VCALENDAR");
    reveal_strlit("VERSION:2.0");
    reveal_strlit("PRODID:-//ticket_to_ics//EN");
    reveal_strlit("BEGIN:VEVENT");
    reveal_strlit("END:VEVENT");
    reveal_strlit("END:VCALENDAR");
    reveal_strlit("UID:");
    reveal_strlit("DTSTAMP:");
    reveal_strlit("SUMMARY:");
    reveal_strlit("LOCATION:");
    reveal_strlit("DTSTART:");
    reveal_strlit("DTEND:");
}

proof fn lemma_head_props(lines: Seq<Seq<char>>, ls: Seq<Seq<char>>, v: Seq<char>)
    requires
        lines.len() == 12,
        ls.len() == 12,
        forall|k: int| 0 <= k < 12 ==> #[trigger] lines[k] == ls[k].push('\r'),
        forall|k: int| 0 <= k < 5 ==> (#[trigger] ls[k]).len() > 0 && ls[k][0] != 'S' && ls[k][0] != 'L' && ls[k][0] != 'D',
        ls[5] == DTSTAMP_KEY@ + v,
    ensures
        props_of(lines.take(6)) == (PropsView { summary: None, location: None, start: None, end: None }),
{
    let none_yet = PropsView { summary: None, location: None, start: None, end: None };
    assert(lines.take(0).len() == 0);
    lemma_props_step(lines, 0);
    lemma_apply_other(none_yet, ls[0]);
    lemma_props_step(lines, 1);
    lemma_apply_other(none_yet, ls[1]);
    lemma_props_step(lines, 2);
    lemma_apply_other(none_yet, ls[2]);
    lemma_props_step(lines, 3);
    lemma_apply_other(none_yet, ls[3]);
    lemma_props_step(lines, 4);
    lemma_apply_other(none_yet, ls[4]);
    lemma_props_step(lines, 5);
    lemma_apply_dtstamp(none_yet, v);
}

proof fn lemma_tail_props(
    lines: Seq<Seq<char>>,
    ls: Seq<Seq<char>>,
    es: Seq<char>,
    el: Seq<char>,
    ss: Seq<char>,
    se: Seq<char>,
)
    requires
        lines.len() == 12,
        ls.len() == 12,
        forall|k: int| 0 <= k < 12 ==> #[trigger] lines[k] == ls[k].push('\r'),
        props_of(lines.take(6)) == (PropsView { summary: None, location: None, start: None, end: None }),
        ls[6] == SUMMARY_KEY@ + es,
        ls[7] == LOCATION_KEY@ + el,
        ls[8] == DTSTART_KEY@ + ss,
        ls[9] == DTEND_KEY@ + se,
        forall|k: int| 10 <= k < 12 ==> (#[trigger] ls[k]).len() > 0 && ls[k][0] != 'S' && ls[k][0] != 'L' && ls[k][0] != 'D',
    ensures
        props_of(lines) == (PropsView {
            summary: Some(unescape(es)),
            location: Some(unescape(el)),
            start: Some(ss),
            end: Some(se),
        }),
{
    let none_yet = PropsView { summary: None, location: None, start: None, end: None };
    lemma_props_step(lines, 6);
    lemma_apply_summary(none_yet, es);
    let with_summary = PropsView { summary: Some(unescape(es)), ..none_yet };
    lemma_props_step(lines, 7);
    lemma_apply_location(with_summary, el);
    let with_location = PropsView { location: Some(unescape(el)), ..with_summary };
    lemma_props_step(lines, 8);
    lemma_apply_start(with_location, ss);
    let with_start = PropsView { start: Some(ss), ..with_location };
    lemma_props_step(lines, 9);
    lemma_apply_end(with_start, se);
    let with_end = PropsView { end: Some(se), ..with_start };
    lemma_props_step(lines, 10);
    lemma_apply_other(with_end, ls[10]);
    lemma_props_step(lines, 11);
    lemma_apply_other(with_end, ls[11]);
    assert(lines.take(12) =~= lines);
}

proof fn lemma_push_no_newline(s: Seq<char>, c: char)
    requires
        no_newline(s),
        c != '\n',
    ensures
        no_newline(s.push(c)),
{
    reveal(no_newline);
    assert forall|i: int| 0 <= i < s.push(c).len() implies #[trigger] s.push(c)[i] != '\n' by {
        if i < s.len() {
            assert(s.push(c)[i] == s[i]);
        }
    }
}

proof fn lemma_stamp_no_newline(dt: DateTime)
    requires
        dt.wf(),
    ensures
        no_newline(stamp(dt)),
{
    lemma_stamp_round_trip(dt);
}

proof fn lemma_lines_no_newline(ev: &CalendarEvent)
    requires
        ev.start.wf(),
        ev.end.wf(),
        ev.created_at.wf(),
    ensures
        forall|i: int| 0 <= i < ics_lines(ev).len() ==> no_newline(#[trigger] ics_lines(ev)[i]),
{
    let ls = ics_lines(ev);
    lemma_fixed_lines();
    lemma_stamp_no_newline(ev.start);
    lemma_stamp_no_newline(ev.end);
    lemma_stamp_no_newline(ev.created_at);
    lemma_escape_no_newline(ev.id@);
    lemma_escape_no_newline(ev.summary@);
    lemma_escape_no_newline(ev.location@);
    lemma_push_no_newline(stamp(ev.created_at), 'Z');
    lemma_no_newline_concat(UID_KEY@, escape(ev.id@));
    lemma_no_newline_concat(DTSTAMP_KEY@, stamp(ev.created_at).push('Z'));
    lemma_no_newline_concat(SUMMARY_KEY@, escape(ev.summary@));
    lemma_no_newline_concat(LOCATION_KEY@, escape(ev.location@));
    lemma_no_newline_concat(DTSTART_KEY@, stamp(ev.start));
    lemma_no_newline_concat(DTEND_KEY@, stamp(ev.end));
    assert forall|i: int| 0 <= i < ls.len() implies no_newline(#[trigger] ls[i]) by {
        if i == 0 {
            assert(ls[0] == BEGIN_CALENDAR@);
        } else if i == 1 {
            assert(ls[1] == VERSION_LINE@);
        } else if i == 2 {
            assert(ls[2] == PRODUCT_LINE@);
        } else if i == 3 {
            assert(ls[3] == BEGIN_EVENT@);
        } else if i == 4 {
            assert(ls[4] == UID_KEY@ + escape(ev.id@));
        } else if i == 5 {
            assert(ls[5] == DTSTAMP_KEY@ + stamp(ev.created_at).push('Z'));
        } else if i == 6 {
            assert(ls[6] == SUMMARY_KEY@ + escape(ev.summary@));
        } else if i == 7 {
            assert(ls[7] == LOCATION_KEY@ + escape(ev.location@));
        } else if i == 8 {
            assert(ls[8] == DTSTART_KEY@ + stamp(ev.start));
        } else if i == 9 {
            assert(ls[9] == DTEND_KEY@ + stamp(ev.end));
        } else if i == 10 {
            assert(ls[10] == END_EVENT@);
        } else {
            assert(ls[11] == END_CALENDAR@);
        }
    }
}

/// Reading back the calendar text of an event gives its summary, location, start and end.
#[verifier::rlimit(50)]
pub proof fn law_ics_round_trip(ev: &CalendarEvent)
    requires
        ev.start.wf(),
        ev.end.wf(),
        ev.created_at.wf(),
    ensures
        read_ics_spec(ics_spec(ev)) == Some((ev.summary@, ev.location@, ev.start, ev.end)),
{
    let ls = ics_lines(ev);
    lemma_lines_no_newline(ev);
    lemma_split_join(ls);
    lemma_fixed_lines();
    lemma_stamp_round_trip(ev.start);
    lemma_stamp_round_trip(ev.end);
    lemma_unescape_escape(ev.summary@);
    lemma_unescape_escape(ev.location@);
    let lines = with_cr(ls);
    let all = lines.push(Seq::<char>::empty());
    assert(all.drop_last() =~= lines);
    lemma_keys();
    assert(Seq::<char>::empty().push('\r').drop_last() =~= Seq::<char>::empty());
    assert(!starts_with(Seq::<char>::empty(), SUMMARY_KEY@));
    assert(!starts_with(Seq::<char>::empty(), LOCATION_KEY@));
    assert(!starts_with(Seq::<char>::empty(), DTSTART_KEY@));
    assert(!starts_with(Seq::<char>::empty(), DTEND_KEY@));
    assert(apply_prop(props_of(lines), Seq::<char>::empty()) == props_of(lines));
    assert forall|k: int| 0 <= k < 12 implies #[trigger] lines[k] == ls[k].push('\r') by {}
    assert((UID_KEY@ + escape(ev.id@))[0] == 'U');
    lemma_head_props(lines, ls, stamp(ev.created_at).push('Z'));
    lemma_tail_props(lines, ls, escape(ev.summary@), escape(ev.location@), stamp(ev.start), stamp(ev.end));
}

} // verus!

verus! {

/// The event properties read from calendar text.
pub struct ParsedEvent {
    pub summary: String,
    pub location: String,
    pub start: DateTime,
    pub end: DateTime,
}

/// The properties read so far; a moment is kept already parsed.
struct Props {
    summary: Option<String>,
    location: Option<String>,
    start: Option<Option<DateTime>>,
    end: Option<Option<DateTime>>,
}

spec fn parsed(o: Option<Seq<char>>) -> Option<Option<DateTime>> {
    match o {
        Some(s) => Some(parse_stamp_spec(s)),
        None => None,
    }
}

spec fn props_match(p: Props, v: PropsView) -> bool {
    &&& p.summary.is_some() == v.summary.is_some()
    &&& (p.summary matches Some(s) ==> s@ == v.summary->0)
    &&& p.location.is_some() == v.location.is_some()
    &&& (p.location matches Some(s) ==> s@ == v.location->0)
    &&& p.start == parsed(v.start)
    &&& p.end == parsed(v.end)
}

fn unescape_range(v: &Vec<char>, from: usize, to: usize) -> (r: String)
    requires
        from <= to <= v@.len(),
    ensures
        r@ == unescape(v@.subrange(from as int, to as int)),
{
    let mut r = String::new();
    let mut i: usize = from;
    while i < to
        invariant
            from <= i <= to <= v@.len(),
            r@ + unescape(v@.subrange(i as int, to as int)) == unescape(
                v@.subrange(from as int, to as int),
            ),
        decreases to - i,
    {
        let ghost w = v@.subrange(i as int, to as int);
        let ghost before = r@;
        if v[i] == '\\' && i + 1 < to {
            let c = v[i + 1];
            let u = if c == 'n' || c == 'N' {
                '\n'
            } else if c == 'r' {
                '\r'
            } else {
                c
            };
            push_char(&mut r, u);
            assert(w.skip(2) =~= v@.subrange(i + 2, to as int));
            assert(r@ + unescape(v@.subrange(i + 2, to as int)) =~= before + unescape(w));
            i = i + 2;
        } else {
            push_char(&mut r, v[i]);
            assert(w.skip(1) =~= v@.subrange(i + 1, to as int));
            assert(r@ + unescape(v@.subrange(i + 1, to as int)) =~= before + unescape(w));
            i = i + 1;
        }
    }
    assert(unescape(v@.subrange(to as int, to as int)) =~= Seq::<char>::empty());
    assert(r@ + Seq::<char>::empty() =~= r@);
    r
}

fn parse_stamp(v: &Vec<char>, from: usize, to: usize) -> (r: Option<DateTime>)
    requires
        from <= to <= v@.len(),
    ensures
        r == parse_stamp_spec(v@.subrange(from as int, to as int)),
{
    let ghost s = v@.subrange(from as int, to as int);
    let n = to - from;
    if n < 15 || n > 16 {
        return None;
    }
    let k = n - 11;
    if v[from + k + 4] != 'T' {
        return None;
    }
    let y = read_decimal(v, from, from + k);
    let mo = read_decimal(v, from + k, from + k + 2);
    let d = read_decimal(v, from + k + 2, from + k + 4);
    let h = read_decimal(v, from + k + 5, from + k + 7);
    let mi = read_decimal(v, from + k + 7, from + k + 9);
    let se = read_decimal(v, from + k + 9, to);
    assert(s.take(k as int) =~= v@.subrange(from as int, from + k));
    assert(s.subrange(k as int, k + 2) =~= v@.subrange(from + k, from + k + 2));
    assert(s.subrange(k + 2, k + 4) =~= v@.subrange(from + k + 2, from + k + 4));
    assert(s.subrange(k + 5, k + 7) =~= v@.subrange(from + k + 5, from + k + 7));
    assert(s.subrange(k + 7, k + 9) =~= v@.subrange(from + k + 7, from + k + 9));
    assert(s.subrange(k + 9, k + 11) =~= v@.subrange(from + k + 9, to as int));
    match (y, mo, d, h, mi, se) {
        (Some(y), Some(mo), Some(d), Some(h), Some(mi), Some(se)) => {
            assert forall|i: int| 0 <= i < s.len() && i != k + 4 implies is_digit(#[trigger] s[i]) by {
                assert(s[i] == v@[from + i]);
            }
            proof {
                reveal_with_fuel(pow10, 3);
            }
            if y > 65535 {
                return None;
            }
            let dt = DateTime {
                year: y as u16,
                month: mo as u8,
                day: d as u8,
                hour: h as u8,
                minute: mi as u8,
                second: se as u8,
            };
            if 1 <= dt.month && dt.month <= 12 && 1 <= dt.day && dt.day <= month_length(
                dt.year,
                dt.month,
            ) && dt.hour < 24 && dt.minute < 60 && dt.second < 60 {
                Some(dt)
            } else {
                None
            }
        },
        _ => {
            proof {
                if y is None {
                    let i = choose|i: int| from <= i < from + k && !is_digit(#[trigger] v@[i]);
                    assert(!is_digit(s[i - from]));
                } else if mo is None {
                    let i = choose|i: int| from + k <= i < from + k + 2 && !is_digit(#[trigger] v@[i]);
                    assert(!is_digit(s[i - from]));
                } else if d is None {
                    let i = choose|i: int| from + k + 2 <= i < from + k + 4 && !is_digit(#[trigger] v@[i]);
                    assert(!is_digit(s[i - from]));
                } else if h is None {
                    let i = choose|i: int| from + k + 5 <= i < from + k + 7 && !is_digit(#[trigger] v@[i]);
                    assert(!is_digit(s[i - from]));
                } else if mi is None {
                    let i = choose|i: int| from + k + 7 <= i < from + k + 9 && !is_digit(#[trigger] v@[i]);
                    assert(!is_digit(s[i - from]));
                } else {
                    let i = choose|i: int| from + k + 9 <= i < to && !is_digit(#[trigger] v@[i]);
                    assert(!is_digit(s[i - from]));
                }
            }
            None
        },
    }
}

} // verus!

verus! {

fn read_prop(p: &mut Props, pv: Ghost<PropsView>, v: &Vec<char>, from: usize, end: usize)
    requires
        from <= end <= v@.len(),
        props_match(*old(p), pv@),
    ensures
        props_match(*final(p), apply_prop(pv@, v@.subrange(from as int, end as int))),
{
    let to = if end > from && v[end - 1] == '\r' {
        end - 1
    } else {
        end
    };
    let ghost line = v@.subrange(from as int, to as int);
    assert(line == strip_cr(v@.subrange(from as int, end as int)));
    if has_prefix_at(v, from, to, SUMMARY_KEY) {
        let n = SUMMARY_KEY.unicode_len();
        assert(line.skip(n as int) =~= v@.subrange(from + n, to as int));
        p.summary = Some(unescape_range(v, from + n, to));
    } else if has_prefix_at(v, from, to, LOCATION_KEY) {
        let n = LOCATION_KEY.unicode_len();
        assert(line.skip(n as int) =~= v@.subrange(from + n, to as int));
        p.location = Some(unescape_range(v, from + n, to));
    } else if has_prefix_at(v, from, to, DTSTART_KEY) {
        let n = DTSTART_KEY.unicode_len();
        assert(line.skip(n as int) =~= v@.subrange(from + n, to as int));
        p.start = Some(parse_stamp(v, from + n, to));
    } else if has_prefix_at(v, from, to, DTEND_KEY) {
        let n = DTEND_KEY.unicode_len();
        assert(line.skip(n as int) =~= v@.subrange(from + n, to as int));
        p.end = Some(parse_stamp(v, from + n, to));
    }
}

/// Reads the summary, location, start and end of the event in calendar text; `None` where
/// one of them is missing or a moment does not parse.
pub fn read_ics(text: &str) -> (r: Option<ParsedEvent>)
    ensures
        match read_ics_spec(text@) {
            Some((s, l, st, en)) => r matches Some(e) && e.summary@ == s && e.location@ == l
                && e.start == st && e.end == en,
            None => r is None,
        },
{
    let v = chars_of(text);
    let n = v.len();
    let mut p = Props { summary: None, location: None, start: None, end: None };
    let mut start: usize = 0;
    let mut i: usize = 0;
    proof {
        assert(v@.take(0) =~= Seq::<char>::empty());
    }
    while i < n
        invariant
            n == v@.len(),
            start <= i <= n,
            split_lines(v@.take(i as int)).len() >= 1,
            split_lines(v@.take(i as int)).last() == v@.subrange(start as int, i as int),
            props_match(p, props_of(split_lines(v@.take(i as int)).drop_last())),
        decreases n - i,
    {
        let ghost before = split_lines(v@.take(i as int));
        assert(v@.take(i + 1).drop_last() =~= v@.take(i as int));
        assert(v@.take(i + 1).last() == v@[i as int]);
        if v[i] == '\n' {
            read_prop(&mut p, Ghost(props_of(before.drop_last())), &v, start, i);
            assert(before.drop_last().push(before.last()) =~= before);
            assert(split_lines(v@.take(i + 1)).drop_last() =~= before);
            start = i + 1;
        } else {
            assert(split_lines(v@.take(i + 1)).drop_last() =~= before.drop_last());
            assert(v@.subrange(start as int, i + 1) =~= v@.subrange(start as int, i as int).push(
                v@[i as int],
            ));
        }
        i = i + 1;
    }
    let ghost lines = split_lines(v@.take(n as int));
    read_prop(&mut p, Ghost(props_of(lines.drop_last())), &v, start, n);
    assert(lines.drop_last().push(lines.last()) =~= lines);
    assert(v@.take(n as int) =~= v@);
    match (p.summary, p.location, p.start, p.end) {
        (Some(summary), Some(location), Some(Some(start)), Some(Some(end))) => Some(
            ParsedEvent { summary, location, start, end },
        ),
        _ => None,
    }
}

} // verus!
