//! Field extraction: reads the labelled lines of a model's free-text answer.
use vstd::prelude::*;

use crate::text::{chars_of, has_prefix_at, starts_with, string_of, trim, trim_bounds};

verus! {

pub const EVENT_NAME_LABEL: &'static str = "Event name:";

pub const LOCATION_LABEL: &'static str = "Location of the event:";

pub const DATE_TIME_LABEL: &'static str = "Date and time:";

pub const DAYS_VALID_LABEL: &'static str = "Days during which the ticket is valid:";

/// The instruction sent with each ticket image: it asks for exactly the labelled lines
/// that `extract_fields` reads.
pub const INSTRUCTION_PROMPT: &'static str = "Read the ticket in the image and answer with these lines only:\nEvent name: <name>\nLocation of the event: <location>\nDate and time: <HH:DD:MM:YYYY>\n(if the event takes place over multiple days:)\nDays during which the ticket is valid: <DD:MM to DD:MM>";

/// The token that separates the first and last day of a validity range.
pub const RANGE_SEPARATOR: &'static str = " to ";

/// The fields read from one answer; a field with no line stays `None`.
pub struct ExtractedFields {
    pub event_name: Option<String>,
    pub location: Option<String>,
    pub start_raw: Option<String>,
    pub end_raw: Option<String>,
}

pub struct FieldsView {
    pub event_name: Option<Seq<char>>,
    pub location: Option<Seq<char>>,
    pub start_raw: Option<Seq<char>>,
    pub end_raw: Option<Seq<char>>,
}

pub open spec fn opt_view(o: Option<String>) -> Option<Seq<char>> {
    match o {
        Some(s) => Some(s@),
        None => None,
    }
}

impl View for ExtractedFields {
    type V = FieldsView;

    open spec fn view(&self) -> FieldsView {
        FieldsView {
            event_name: opt_view(self.event_name),
            location: opt_view(self.location),
            start_raw: opt_view(self.start_raw),
            end_raw: opt_view(self.end_raw),
        }
    }
}

pub open spec fn no_fields() -> FieldsView {
    FieldsView { event_name: None, location: None, start_raw: None, end_raw: None }
}

/// The lines of `s`: the pieces between `'\n'` characters (one more than there are `'\n'`).
pub open spec fn split_lines(s: Seq<char>) -> Seq<Seq<char>>
    decreases s.len(),
{
    if s.len() == 0 {
        seq![Seq::<char>::empty()]
    } else {
        let p = split_lines(s.drop_last());
        if s.last() == '\n' {
            p.push(Seq::<char>::empty())
        } else {
            p.update(p.len() - 1, p.last().push(s.last()))
        }
    }
}

pub proof fn lemma_split_lines_nonempty(s: Seq<char>)
    ensures
        split_lines(s).len() >= 1,
    decreases s.len(),
{
    if s.len() > 0 {
        lemma_split_lines_nonempty(s.drop_last());
    }
}

/// The first index at or after `from` where `p` occurs in `v`.
pub open spec fn find_from(v: Seq<char>, p: Seq<char>, from: int) -> Option<int>
    decreases v.len() + 1 - from,
{
    if from < 0 || from + p.len() > v.len() {
        None
    } else if v.subrange(from, from + p.len()) == p {
        Some(from)
    } else {
        find_from(v, p, from + 1)
    }
}

/// The text after `label` in `line`, without surrounding whitespace.
pub open spec fn value_after(line: Seq<char>, label: Seq<char>) -> Seq<char> {
    trim(line.skip(label.len() as int))
}

/// What one line does to the fields read so far.
pub open spec fn apply_line(f: FieldsView, line: Seq<char>) -> FieldsView {
    if starts_with(line, EVENT_NAME_LABEL@) {
        FieldsView { event_name: Some(value_after(line, EVENT_NAME_LABEL@)), ..f }
    } else if starts_with(line, LOCATION_LABEL@) {
        FieldsView { location: Some(value_after(line, LOCATION_LABEL@)), ..f }
    } else if starts_with(line, DATE_TIME_LABEL@) {
        FieldsView { start_raw: Some(value_after(line, DATE_TIME_LABEL@)), ..f }
    } else if starts_with(line, DAYS_VALID_LABEL@) {
        let v = value_after(line, DAYS_VALID_LABEL@);
        match find_from(v, RANGE_SEPARATOR@, 0) {
            Some(k) => FieldsView {
                start_raw: Some(trim(v.take(k))),
                end_raw: Some(trim(v.skip(k + RANGE_SEPARATOR@.len()))),
                ..f
            },
            None => FieldsView { start_raw: Some(v), end_raw: None, ..f },
        }
    } else {
        f
    }
}

/// The fields that `lines` give, read in order: a later line overrides an earlier one.
pub open spec fn extract_lines(lines: Seq<Seq<char>>) -> FieldsView
    decreases lines.len(),
{
    if lines.len() == 0 {
        no_fields()
    } else {
        apply_line(extract_lines(lines.drop_last()), lines.last())
    }
}

pub open spec fn extract_spec(response: Seq<char>) -> FieldsView {
    extract_lines(split_lines(response))
}

/// The first index at or after `from` where `p` occurs in `v[..to]`.
fn find_in(v: &Vec<char>, to: usize, p: &str, from: usize) -> (r: Option<usize>)
    requires
        from <= to <= v@.len(),
    ensures
        match r {
            Some(k) => find_from(v@.subrange(0, to as int), p@, from as int) == Some(k as int),
            None => find_from(v@.subrange(0, to as int), p@, from as int) is None,
        },
{
    let ghost w = v@.subrange(0, to as int);
    let mut i: usize = from;
    while i <= to
        invariant
            from <= i,
            to <= v@.len(),
            w == v@.subrange(0, to as int),
            find_from(w, p@, from as int) == find_from(w, p@, i as int),
            i <= to + 1,
        decreases to + 1 - i,
    {
        let hit = has_prefix_at(v, i, to, p);
        if hit {
            assert(w.subrange(i as int, i + p@.len()) =~= v@.subrange(i as int, to as int).take(
                p@.len() as int,
            ));
            return Some(i);
        }
        proof {
            if p@.len() <= to - i {
                assert(w.subrange(i as int, i + p@.len()) =~= v@.subrange(i as int, to as int).take(
                    p@.len() as int,
                ));
            }
        }
        if i == to {
            return None;
        }
        i = i + 1;
    }
    None
}

fn set_trimmed(v: &Vec<char>, from: usize, to: usize) -> (r: Option<String>)
    requires
        from <= to <= v@.len(),
    ensures
        opt_view(r) == Some(trim(v@.subrange(from as int, to as int))),
{
    let (a, b) = trim_bounds(v, from, to);
    Some(string_of(v, a, b))
}

/// Applies the line `v[from..to]` to `f`.
fn read_line(f: &mut ExtractedFields, v: &Vec<char>, from: usize, to: usize)
    requires
        from <= to <= v@.len(),
    ensures
        final(f)@ == apply_line(old(f)@, v@.subrange(from as int, to as int)),
{
    let ghost line = v@.subrange(from as int, to as int);
    if has_prefix_at(v, from, to, EVENT_NAME_LABEL) {
        let n = EVENT_NAME_LABEL.unicode_len();
        assert(line.skip(n as int) =~= v@.subrange(from + n, to as int));
        f.event_name = set_trimmed(v, from + n, to);
    } else if has_prefix_at(v, from, to, LOCATION_LABEL) {
        let n = LOCATION_LABEL.unicode_len();
        assert(line.skip(n as int) =~= v@.subrange(from + n, to as int));
        f.location = set_trimmed(v, from + n, to);
    } else if has_prefix_at(v, from, to, DATE_TIME_LABEL) {
        let n = DATE_TIME_LABEL.unicode_len();
        assert(line.skip(n as int) =~= v@.subrange(from + n, to as int));
        f.start_raw = set_trimmed(v, from + n, to);
    } else if has_prefix_at(v, from, to, DAYS_VALID_LABEL) {
        let n = DAYS_VALID_LABEL.unicode_len();
        assert(line.skip(n as int) =~= v@.subrange(from + n, to as int));
        let (a, b) = trim_bounds(v, from + n, to);
        let ghost val = v@.subrange(a as int, b as int);
        

        let found = find_in(v, b, RANGE_SEPARATOR, a);
        proof {
            lemma_find_shift(v@, a as int, b as int, RANGE_SEPARATOR@, 0);
        }
        match found {
            Some(k) => {
                let s = RANGE_SEPARATOR.unicode_len();
                proof {
                    lemma_find_bound(v@.subrange(0, b as int), RANGE_SEPARATOR@, a as int);
                }
                assert(val.take(k - a) =~= v@.subrange(a as int, k as int));
                assert(val.skip(k - a + s) =~= v@.subrange(k + s, b as int));
                f.start_raw = set_trimmed(v, a, k);
                f.end_raw = set_trimmed(v, k + s, b);
            },
            None => {
                f.start_raw = Some(string_of(v, a, b));
                f.end_raw = None;
            },
        }
    }
}

/// Where `find_from` lands in `v[..b]` from `a`, shifted by `a`, is where it lands in `v[a..b]`.
proof fn lemma_find_shift(v: Seq<char>, a: int, b: int, p: Seq<char>, j: int)
    requires
        0 <= a <= b <= v.len(),
        0 <= j,
    ensures
        match find_from(v.subrange(a, b), p, j) {
            Some(k) => find_from(v.subrange(0, b), p, a + j) == Some(a + k),
            None => find_from(v.subrange(0, b), p, a + j) is None,
        },
    decreases b - a + 1 - j,
{
    let w = v.subrange(a, b);
    let u = v.subrange(0, b);
    if j + p.len() > w.len() {
    } else {
        assert(w.subrange(j, j + p.len()) =~= u.subrange(a + j, a + j + p.len()));
        if w.subrange(j, j + p.len()) != p {
            lemma_find_shift(v, a, b, p, j + 1);
        }
    }
}

proof fn lemma_find_bound(v: Seq<char>, p: Seq<char>, from: int)
    requires
        0 <= from,
    ensures
        find_from(v, p, from) matches Some(k) ==> from <= k && k + p.len() <= v.len(),
    decreases v.len() + 1 - from,
{
    if from + p.len() <= v.len() && v.subrange(from, from + p.len()) != p {
        lemma_find_bound(v, p, from + 1);
    }
}

/// Reads the labelled fields of `response`, line by line; a later line overrides an earlier one.
pub fn extract_fields(response: &str) -> (r: ExtractedFields)
    ensures
        r@ == extract_spec(response@),
{
    let v = chars_of(response);
    let n = v.len();
    let mut f = ExtractedFields { event_name: None, location: None, start_raw: None, end_raw: None };
    let mut start: usize = 0;
    let mut i: usize = 0;
    proof {
        assert(v@.take(0) =~= Seq::<char>::empty());
    }
    while i < n
        invariant
            n == v@.len(),
            start <= i <= n,
            split_lines(v@.take(i as int)).len() >= 1,
            split_lines(v@.take(i as int)).last() == v@.subrange(start as int, i as int),
            f@ == extract_lines(split_lines(v@.take(i as int)).drop_last()),
        decreases n - i,
    {
        let ghost before = split_lines(v@.take(i as int));
        assert(v@.take(i + 1).drop_last() =~= v@.take(i as int));
        assert(v@.take(i + 1).last() == v@[i as int]);
        if v[i] == '\n' {
            read_line(&mut f, &v, start, i);
            assert(before.drop_last().push(before.last()) =~= before);
            assert(split_lines(v@.take(i + 1)).drop_last() =~= before);
            start = i + 1;
        } else {
            assert(split_lines(v@.take(i + 1)).drop_last() =~= before.drop_last());
            assert(v@.subrange(start as int, i + 1) =~= v@.subrange(start as int, i as int).push(
                v@[i as int],
            ));
        }
        i = i + 1;
    }
    let ghost lines = split_lines(v@.take(n as int));
    read_line(&mut f, &v, start, n);
    assert(lines.drop_last().push(lines.last()) =~= lines);
    assert(v@.take(n as int) =~= v@);
    f
}

impl ExtractedFields {
    /// The event's name, or the empty string where no line gave one.
    pub fn name_or_empty(&self) -> (r: String)
        ensures
            r@ == or_empty(self@.event_name),
    {
        match &self.event_name {
            Some(s) => s.clone(),
            None => String::new(),
        }
    }

    /// The event's location, or the empty string where no line gave one.
    pub fn location_or_empty(&self) -> (r: String)
        ensures
            r@ == or_empty(self@.location),
    {
        match &self.location {
            Some(s) => s.clone(),
            None => String::new(),
        }
    }
}

pub open spec fn or_empty(o: Option<Seq<char>>) -> Seq<char> {
    match o {
        Some(s) => s,
        None => Seq::empty(),
    }
}

} // verus!

verus! {

/// A name line is read as its exact trimmed suffix, wherever it stands among the lines,
/// provided no later line names the event: of several name lines, the last one wins.
pub proof fn law_last_name_line_wins(lines: Seq<Seq<char>>, k: int)
    requires
        0 <= k < lines.len(),
        starts_with(lines[k], EVENT_NAME_LABEL@),
        forall|j: int| k < j < lines.len() ==> !starts_with(#[trigger] lines[j], EVENT_NAME_LABEL@),
    ensures
        extract_lines(lines).event_name == Some(value_after(lines[k], EVENT_NAME_LABEL@)),
    decreases lines.len(),
{
    if k < lines.len() - 1 {
        let init = lines.drop_last();
        assert forall|j: int| k < j < init.len() implies !starts_with(
            #[trigger] init[j],
            EVENT_NAME_LABEL@,
        ) by {
            assert(init[j] == lines[j]);
        }
        law_last_name_line_wins(init, k);
        assert(!starts_with(lines[lines.len() - 1], EVENT_NAME_LABEL@));
    } else {
        assert(lines.drop_last().len() == k);
    }
}

/// A location line is read as its exact trimmed suffix, wherever it stands among the lines,
/// provided no later line gives a location: of several location lines, the last one wins.
pub proof fn law_last_location_line_wins(lines: Seq<Seq<char>>, k: int)
    requires
        0 <= k < lines.len(),
        starts_with(lines[k], LOCATION_LABEL@),
        forall|j: int| k < j < lines.len() ==> !starts_with(#[trigger] lines[j], LOCATION_LABEL@),
    ensures
        extract_lines(lines).location == Some(value_after(lines[k], LOCATION_LABEL@)),
    decreases lines.len(),
{
    reveal_strlit("Event name:");
    reveal_strlit("Location of the event:");
    if k < lines.len() - 1 {
        let init = lines.drop_last();
        assert forall|j: int| k < j < init.len() implies !starts_with(
            #[trigger] init[j],
            LOCATION_LABEL@,
        ) by {
            assert(init[j] == lines[j]);
        }
        law_last_location_line_wins(init, k);
        assert(!starts_with(lines[lines.len() - 1], LOCATION_LABEL@));
    } else {
        assert(lines.drop_last().len() == k);
        let l = lines[k];
        assert(l.take(LOCATION_LABEL@.len() as int)[0] == 'L');
        assert(!starts_with(l, EVENT_NAME_LABEL@)) by {
            if starts_with(l, EVENT_NAME_LABEL@) {
                assert(l.take(EVENT_NAME_LABEL@.len() as int)[0] == l[0]);
            }
        }
    }
}

/// A date line is read as its exact trimmed suffix, wherever it stands among the lines,
/// provided no later line gives a date or a validity range: the last such line wins.
pub proof fn law_last_date_line_wins(lines: Seq<Seq<char>>, k: int)
    requires
        0 <= k < lines.len(),
        starts_with(lines[k], DATE_TIME_LABEL@),
        forall|j: int|
            k < j < lines.len() ==> !starts_with(#[trigger] lines[j], DATE_TIME_LABEL@)
                && !starts_with(lines[j], DAYS_VALID_LABEL@),
    ensures
        extract_lines(lines).start_raw == Some(value_after(lines[k], DATE_TIME_LABEL@)),
    decreases lines.len(),
{
    reveal_strlit("Event name:");
    reveal_strlit("Location of the event:");
    reveal_strlit("Date and time:");
    if k < lines.len() - 1 {
        let init = lines.drop_last();
        assert forall|j: int| k < j < init.len() implies !starts_with(
            #[trigger] init[j],
            DATE_TIME_LABEL@,
        ) && !starts_with(init[j], DAYS_VALID_LABEL@) by {
            assert(init[j] == lines[j]);
        }
        law_last_date_line_wins(init, k);
        assert(!starts_with(lines[lines.len() - 1], DATE_TIME_LABEL@));
    } else {
        assert(lines.drop_last().len() == k);
        let l = lines[k];
        assert(l.take(DATE_TIME_LABEL@.len() as int)[0] == 'D');
        assert(!starts_with(l, EVENT_NAME_LABEL@)) by {
            if starts_with(l, EVENT_NAME_LABEL@) {
                assert(l.take(EVENT_NAME_LABEL@.len() as int)[0] == l[0]);
            }
        }
        assert(!starts_with(l, LOCATION_LABEL@)) by {
            if starts_with(l, LOCATION_LABEL@) {
                assert(l.take(LOCATION_LABEL@.len() as int)[0] == l[0]);
            }
        }
    }
}

} // verus!

verus! {

/// The two halves of a validity range, as the range line sets them.
pub open spec fn range_fields(v: Seq<char>) -> (Option<Seq<char>>, Option<Seq<char>>) {
    match find_from(v, RANGE_SEPARATOR@, 0) {
        Some(k) => (Some(trim(v.take(k))), Some(trim(v.skip(k + RANGE_SEPARATOR@.len())))),
        None => (Some(v), None),
    }
}

/// A validity-range line sets the start and last day from its trimmed halves, wherever it
/// stands among the lines, provided no later line gives a date or a range.
pub proof fn law_last_range_line_wins(lines: Seq<Seq<char>>, k: int)
    requires
        0 <= k < lines.len(),
        starts_with(lines[k], DAYS_VALID_LABEL@),
        forall|j: int|
            k < j < lines.len() ==> !starts_with(#[trigger] lines[j], DATE_TIME_LABEL@)
                && !starts_with(lines[j], DAYS_VALID_LABEL@),
    ensures
        (extract_lines(lines).start_raw, extract_lines(lines).end_raw) == range_fields(
            value_after(lines[k], DAYS_VALID_LABEL@),
        ),
    decreases lines.len(),
{
    reveal_strlit("Event name:");
    reveal_strlit("Location of the event:");
    reveal_strlit("Date and time:");
    reveal_strlit("Days during which the ticket is valid:");
    if k < lines.len() - 1 {
        let init = lines.drop_last();
        assert forall|j: int| k < j < init.len() implies !starts_with(
            #[trigger] init[j],
            DATE_TIME_LABEL@,
        ) && !starts_with(init[j], DAYS_VALID_LABEL@) by {
            assert(init[j] == lines[j]);
        }
        law_last_range_line_wins(init, k);
        assert(!starts_with(lines[lines.len() - 1], DATE_TIME_LABEL@));
        assert(!starts_with(lines[lines.len() - 1], DAYS_VALID_LABEL@));
    } else {
        assert(lines.drop_last().len() == k);
        let l = lines[k];
        assert(l.take(DAYS_VALID_LABEL@.len() as int)[0] == l[0]);
        assert(l.take(DAYS_VALID_LABEL@.len() as int)[2] == l[2]);
        assert(l[0] == 'D' && l[2] == 'y');
        assert(!starts_with(l, EVENT_NAME_LABEL@)) by {
            if starts_with(l, EVENT_NAME_LABEL@) {
                assert(l.take(EVENT_NAME_LABEL@.len() as int)[0] == l[0]);
            }
        }
        assert(!starts_with(l, LOCATION_LABEL@)) by {
            if starts_with(l, LOCATION_LABEL@) {
                assert(l.take(LOCATION_LABEL@.len() as int)[0] == l[0]);
            }
        }
        assert(!starts_with(l, DATE_TIME_LABEL@)) by {
            if starts_with(l, DATE_TIME_LABEL@) {
                assert(l.take(DATE_TIME_LABEL@.len() as int)[2] == l[2]);
            }
        }
    }
}

} // verus!
