use ticket_to_ics::datetime::{from_unix_seconds, DateTime};
use ticket_to_ics::encode::jpeg_data_uri;
use ticket_to_ics::event::{event_from_response, event_id, synthesize, CalendarEvent};
use ticket_to_ics::fields::extract_fields;
use ticket_to_ics::ics::{output_filename, to_ics};
use ticket_to_ics::ics_read::read_ics;
use ticket_to_ics::orchestrator::{Orchestrator, WatchEvent, WatchKind};
use ticket_to_ics::schedule::{normalize, parse_end, parse_start};

fn dt(year: u16, month: u8, day: u8, hour: u8, minute: u8, second: u8) -> DateTime {
    DateTime { year, month, day, hour, minute, second }
}

fn some(s: &str) -> Option<String> {
    Some(s.to_string())
}

#[test]
fn fields_read_in_any_order() {
    let a = extract_fields("Location of the event: Hall A\nEvent name:  Gala \nDate and time: 19:01:02:2024");
    assert_eq!(a.event_name, some("Gala"));
    assert_eq!(a.location, some("Hall A"));
    assert_eq!(a.start_raw, some("19:01:02:2024"));
    assert_eq!(a.end_raw, None);
    let b = extract_fields("Date and time: 19:01:02:2024\nEvent name: Gala\nLocation of the event: Hall A");
    assert_eq!(b.event_name, some("Gala"));
    assert_eq!(b.location, some("Hall A"));
    assert_eq!(b.start_raw, some("19:01:02:2024"));
}

#[test]
fn fields_last_duplicate_wins() {
    let f = extract_fields("Event name: First\nEvent name: Second\nnoise line\n");
    assert_eq!(f.event_name, some("Second"));
    assert_eq!(f.location, None);
}

#[test]
fn fields_absent_and_crlf() {
    let f = extract_fields("nothing useful here\r\nEvent name: Show\r\n");
    assert_eq!(f.event_name, some("Show"));
    assert_eq!(f.location, None);
    assert_eq!(f.start_raw, None);
    assert_eq!(f.name_or_empty(), "Show");
    assert_eq!(f.location_or_empty(), "");
    let empty = extract_fields("");
    assert_eq!(empty.event_name, None);
}

#[test]
fn fields_validity_range_is_split() {
    let f = extract_fields("Days during which the ticket is valid: 12:01 to 15:01");
    assert_eq!(f.start_raw, some("12:01"));
    assert_eq!(f.end_raw, some("15:01"));
}

#[test]
fn fields_validity_range_overrides_date() {
    let f = extract_fields("Date and time: 09:20:03:2025\nDays during which the ticket is valid: 12:01 to 15:01");
    assert_eq!(f.start_raw, some("12:01"));
    assert_eq!(f.end_raw, some("15:01"));
    let g = extract_fields("Days during which the ticket is valid: 12:01");
    assert_eq!(g.start_raw, some("12:01"));
    assert_eq!(g.end_raw, None);
}

#[test]
fn start_parses_independent_of_now() {
    assert_eq!(parse_start("09:20:03:2025"), Some(dt(2025, 3, 20, 9, 0, 0)));
    let a = normalize(&some("09:20:03:2025"), &None, dt(2000, 1, 1, 0, 0, 0));
    let b = normalize(&some("09:20:03:2025"), &None, dt(2030, 7, 4, 12, 30, 0));
    assert_eq!(a.start, dt(2025, 3, 20, 9, 0, 0));
    assert_eq!(a, b);
}

#[test]
fn start_rejects_malformed() {
    assert_eq!(parse_start("24:20:03:2025"), None);
    assert_eq!(parse_start("09:30:02:2025"), None);
    assert_eq!(parse_start("09:29:02:2024"), Some(dt(2024, 2, 29, 9, 0, 0)));
    assert_eq!(parse_start("9:20:03:2025"), None);
    assert_eq!(parse_start("09-20-03-2025"), None);
}

#[test]
fn unparsable_start_is_now() {
    let now = dt(2024, 5, 6, 7, 8, 9);
    let s = normalize(&some("not-a-date"), &None, now);
    assert_eq!(s.start, now);
    assert_eq!(s.end, dt(2024, 5, 6, 9, 8, 9));
    let t = normalize(&None, &None, now);
    assert_eq!(t.start, now);
}

#[test]
fn default_end_is_two_hours_later() {
    let s = normalize(&some("23:31:12:2024"), &None, dt(2000, 1, 1, 0, 0, 0));
    assert_eq!(s.start, dt(2024, 12, 31, 23, 0, 0));
    assert_eq!(s.end, dt(2025, 1, 1, 1, 0, 0));
    assert!(s.start.is_before(&s.end));
    let leap = normalize(&some("22:28:02:2024"), &None, dt(2000, 1, 1, 0, 0, 0));
    assert_eq!(leap.end, dt(2024, 2, 29, 0, 0, 0));
}

#[test]
fn last_day_ends_the_event() {
    let s = normalize(&some("20:15:06:2025"), &some("15:06"), dt(2000, 1, 1, 0, 0, 0));
    assert_eq!(s.end, dt(2025, 6, 15, 23, 59, 59));
    let rolled = normalize(&some("20:15:06:2025"), &some("10:06"), dt(2000, 1, 1, 0, 0, 0));
    assert_eq!(rolled.end, dt(2026, 6, 10, 23, 59, 59));
    let missing = normalize(&some("20:15:06:2025"), &some("29:02"), dt(2000, 1, 1, 0, 0, 0));
    assert_eq!(missing.end, dt(2025, 6, 15, 22, 0, 0));
    let bad = normalize(&some("20:15:06:2025"), &some("soon"), dt(2000, 1, 1, 0, 0, 0));
    assert_eq!(bad.end, dt(2025, 6, 15, 22, 0, 0));
}

#[test]
fn end_parse() {
    assert_eq!(parse_end("15:01"), Some((15, 1)));
    assert_eq!(parse_end("29:02"), Some((29, 2)));
    assert_eq!(parse_end("30:02"), None);
    assert_eq!(parse_end("00:05"), None);
    assert_eq!(parse_end("15:13"), None);
}

#[test]
fn event_ids() {
    assert_eq!(event_id(1700000000), "event_1700000000");
    assert_eq!(event_id(0), "event_0");
}

#[test]
fn unix_seconds_to_dates() {
    assert_eq!(from_unix_seconds(0), Some(dt(1970, 1, 1, 0, 0, 0)));
    assert_eq!(from_unix_seconds(1_700_000_000), Some(dt(2023, 11, 14, 22, 13, 20)));
    assert_eq!(from_unix_seconds(951_782_400), Some(dt(2000, 2, 29, 0, 0, 0)));
    assert_eq!(from_unix_seconds(u64::MAX), None);
}

#[test]
fn end_to_end_jazz_night() {
    let response = "Event name: Jazz Night\nLocation of the event: Blue Note\nDate and time: 20:15:06:2025";
    let ev = event_from_response(response, dt(2000, 1, 1, 0, 0, 0), 1_700_000_000, dt(2023, 11, 14, 22, 13, 20));
    assert_eq!(ev.summary, "Jazz Night");
    assert_eq!(ev.location, "Blue Note");
    assert_eq!(ev.start, dt(2025, 6, 15, 20, 0, 0));
    assert_eq!(ev.end, dt(2025, 6, 15, 22, 0, 0));
    assert_eq!(ev.id, "event_1700000000");
    assert_eq!(output_filename(&ev.summary), "Jazz_Night.ics");
}

#[test]
fn calendar_text() {
    let fields = extract_fields("Event name: Rock, Paper; Scissors\nLocation of the event: Arena");
    let sched = normalize(&some("20:15:06:2025"), &None, dt(2000, 1, 1, 0, 0, 0));
    let ev = synthesize(&fields, &sched, 42, dt(2025, 1, 2, 3, 4, 5));
    let text = to_ics(&ev);
    assert_eq!(
        text,
        "BEGIN:VCALENDAR\r\nVERSION:2.0\r\nPRODID:-//ticket_to_ics//EN\r\nBEGIN:VEVENT\r\n\
         UID:event_42\r\nDTSTAMP:20250102T030405Z\r\nSUMMARY:Rock\\, Paper\\; Scissors\r\n\
         LOCATION:Arena\r\nDTSTART:20250615T200000\r\nDTEND:20250615T220000\r\n\
         END:VEVENT\r\nEND:VCALENDAR\r\n"
    );
}

#[test]
fn filename_edge_cases() {
    assert_eq!(output_filename(""), ".ics");
    assert_eq!(output_filename("A\tB  C"), "A_B__C.ics");
}

#[test]
fn empty_fields_make_empty_event() {
    let fields = extract_fields("unrelated");
    let sched = normalize(&None, &None, dt(2024, 1, 1, 10, 0, 0));
    let ev: CalendarEvent = synthesize(&fields, &sched, 7, dt(2024, 1, 1, 10, 0, 0));
    assert_eq!(ev.summary, "");
    assert_eq!(ev.location, "");
    assert_eq!(ev.start, dt(2024, 1, 1, 10, 0, 0));
    assert_eq!(ev.end, dt(2024, 1, 1, 12, 0, 0));
}

#[test]
fn one_ticket_at_a_time() {
    let mut o = Orchestrator::new();
    assert!(!o.is_processing());
    let first = o.on_event(WatchEvent { kind: WatchKind::Created, paths: vec!["a.pdf".to_string()] });
    assert_eq!(first, some("a.pdf"));
    assert!(o.is_processing());
    let second = o.on_event(WatchEvent { kind: WatchKind::Created, paths: vec!["b.pdf".to_string()] });
    assert_eq!(second, None);
    assert_eq!(o.pending_len(), 1);
    let other = o.on_event(WatchEvent { kind: WatchKind::Other, paths: vec!["c.pdf".to_string()] });
    assert_eq!(other, None);
    assert_eq!(o.on_done(), some("b.pdf"));
    assert!(o.is_processing());
    assert_eq!(o.on_done(), None);
    assert!(!o.is_processing());
}

#[test]
fn created_event_with_several_paths() {
    let mut o = Orchestrator::new();
    let none = o.on_event(WatchEvent { kind: WatchKind::Created, paths: vec![] });
    assert_eq!(none, None);
    assert!(!o.is_processing());
    let paths = vec!["x".to_string(), "y".to_string(), "z".to_string()];
    assert_eq!(o.on_event(WatchEvent { kind: WatchKind::Created, paths }), some("x"));
    assert_eq!(o.on_done(), some("y"));
    assert_eq!(o.on_done(), some("z"));
    assert_eq!(o.on_done(), None);
}

#[test]
fn image_payload_is_base64() {
    assert_eq!(jpeg_data_uri(&b"abc".to_vec()), "data:image/jpeg;base64,YWJj");
    assert_eq!(jpeg_data_uri(&vec![0xffu8, 0xd8]), "data:image/jpeg;base64,/9g=");
}

#[test]
fn calendar_round_trip() {
    let fields = extract_fields("Event name: A\\B, C; D\nLocation of the event: Hall 9");
    let sched = normalize(&some("20:15:06:2025"), &some("16:06"), dt(2000, 1, 1, 0, 0, 0));
    let ev = synthesize(&fields, &sched, 1, dt(2025, 1, 1, 0, 0, 0));
    let back = read_ics(&to_ics(&ev)).expect("reads back");
    assert_eq!(back.summary, "A\\B, C; D");
    assert_eq!(back.location, "Hall 9");
    assert_eq!(back.start, dt(2025, 6, 15, 20, 0, 0));
    assert_eq!(back.end, dt(2025, 6, 16, 23, 59, 59));
}

#[test]
fn calendar_read_needs_all_properties() {
    assert!(read_ics("BEGIN:VEVENT\r\nSUMMARY:x\r\nLOCATION:y\r\nDTSTART:20250101T000000\r\n").is_none());
    assert!(read_ics("SUMMARY:x\nLOCATION:y\nDTSTART:20250101T000000\nDTEND:20251301T000000\n").is_none());
    let e = read_ics("SUMMARY:a\\nb\nLOCATION:y\nDTSTART:20250101T000000\nDTEND:20250101T010000").expect("reads");
    assert_eq!(e.summary, "a\nb");
    assert_eq!(e.end, dt(2025, 1, 1, 1, 0, 0));
}

#[test]
fn later_date_line_keeps_range_end() {
    let f = extract_fields("Days during which the ticket is valid: 12:01 to 15:01\nDate and time: 09:20:03:2025");
    assert_eq!(f.start_raw, some("09:20:03:2025"));
    assert_eq!(f.end_raw, some("15:01"));
}
