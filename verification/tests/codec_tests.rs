use tasker::codec;
use tasker::deadline::Deadline;
use tasker::id::TaskId;
use tasker::task::{Task, TaskCategory, TaskPriority, TaskStutus};

fn sample_deadline() -> Deadline {
    Deadline::checked(2024, 5, 17, 13, 45, 30, false, 5, 30).unwrap()
}

fn sample_task() -> Task {
    Task::from_parts(
        TaskId::from_value(0xa1a2a3a4b1b2c1c2d1d2d3d4d5d6d7d8),
        "Write report".to_string(),
        TaskCategory::Work,
        "Quarterly summary".to_string(),
        sample_deadline(),
        TaskPriority::High,
        "double-check numbers".to_string(),
        TaskStutus::Active,
    )
}

#[test]
fn encode_produces_exact_record() {
    let s: String = sample_task().into();
    assert_eq!(
        s,
        "a1a2a3a4-b1b2-c1c2-d1d2-d3d4d5d6d7d8^^Write report^^Work^^Quarterly summary\
         ^^2024-05-17 13:45:30 +05:30^^High^^double-check numbers^^Active"
    );
}

#[test]
fn decode_encode_round_trip() {
    let t = sample_task();
    let s = t.to_record();
    let back = Task::try_from(s.as_str()).expect("a record built by encode must decode");
    assert_eq!(back, t);
}

#[test]
fn encode_decode_round_trip() {
    let s = "a1a2a3a4-b1b2-c1c2-d1d2-d3d4d5d6d7d8^^Write report^^Work^^Quarterly summary\
             ^^2024-05-17 13:45:30 +05:30^^High^^double-check numbers^^Active";
    let t = Task::try_from(s).expect("a canonical record must decode");
    let again: String = t.into();
    assert_eq!(again, s);
}

#[test]
fn round_trip_keeps_every_field() {
    let t = sample_task();
    let back = Task::try_from(t.to_record().as_str()).unwrap();
    assert_eq!(back.uuid(), t.uuid());
    assert_eq!(back.title(), "Write report");
    assert_eq!(back.category(), TaskCategory::Work);
    assert_eq!(back.description(), "Quarterly summary");
    assert_eq!(*back.deadline(), sample_deadline());
    assert_eq!(back.priority(), TaskPriority::High);
    assert_eq!(back.notes(), "double-check numbers");
    assert_eq!(back.status(), TaskStutus::Active);
}

#[test]
fn decode_trims_free_text_fields() {
    let s = "a1a2a3a4-b1b2-c1c2-d1d2-d3d4d5d6d7d8^^  Spaced title  ^^Work^^ desc ^^2024-05-17 13:45:30 +05:30^^Low^^\tnotes\t^^Active";
    let t = Task::try_from(s).unwrap();
    assert_eq!(t.title(), "Spaced title");
    assert_eq!(t.description(), "desc");
    assert_eq!(t.notes(), "notes");
}

#[test]
fn decode_ignores_trailing_tokens() {
    let s = "a1a2a3a4-b1b2-c1c2-d1d2-d3d4d5d6d7d8^^T^^Work^^D^^2024-05-17 13:45:30 +05:30^^Low^^N^^Active^^extra^^more";
    let t = Task::try_from(s).unwrap();
    assert_eq!(t.status(), TaskStutus::Active);
}

#[test]
fn too_few_fields_fails_with_nonempty_errors() {
    let errs = Task::try_from("just^^three^^tokens").unwrap_err();
    assert!(!errs.is_empty());
    assert_eq!(errs[0], "Insufficient fields for parsing into Task");
}

#[test]
fn empty_line_fails() {
    assert!(Task::try_from("").is_err());
}

#[test]
fn bad_category_is_reported_and_other_fields_still_parse() {
    let s = "a1a2a3a4-b1b2-c1c2-d1d2-d3d4d5d6d7d8^^T^^Bogus^^D^^2024-05-17 13:45:30 +05:30^^Low^^N^^Active";
    let errs = Task::try_from(s).unwrap_err();
    assert_eq!(errs, vec!["Unable to convert Bogus to TaskCategory".to_string()]);
}

#[test]
fn every_bad_field_is_collected_in_order() {
    let s = "nonsense^^T^^Bogus^^D^^yesterday^^Soon^^N^^Paused";
    let errs = Task::try_from(s).unwrap_err();
    assert_eq!(
        errs,
        vec![
            "Unable to convert nonsense to TaskId".to_string(),
            "Unable to convert Bogus to TaskCategory".to_string(),
            "Unable to convert yesterday to Deadline".to_string(),
            "Unable to convert Soon to TaskPriority".to_string(),
            "Unable to convert Paused to TaskStutus".to_string(),
        ]
    );
}

#[test]
fn split_on_delim_matches_expected() {
    let parts = codec::split_on_delim("a^^b^^^^c");
    assert_eq!(parts, vec!["a".to_string(), "b".to_string(), "".to_string(), "c".to_string()]);
}

#[test]
fn id_text_round_trip() {
    let id = TaskId::from_value(0x0123456789abcdef0011223344556677);
    let text = id.to_text();
    assert_eq!(text, "01234567-89ab-cdef-0011-223344556677");
    assert_eq!(TaskId::try_from(text.as_str()).unwrap(), id);
}

#[test]
fn id_accepts_either_hex_case() {
    let upper = TaskId::try_from("A1A2A3A4-B1B2-C1C2-D1D2-D3D4D5D6D7D8").unwrap();
    let lower = TaskId::try_from("a1a2a3a4-b1b2-c1c2-d1d2-d3d4d5d6d7d8").unwrap();
    assert_eq!(upper, lower);
    assert_eq!(upper.value(), 0xa1a2a3a4b1b2c1c2d1d2d3d4d5d6d7d8);
    // re-encoding is always the lower-case canonical form
    assert_eq!(upper.to_text(), "a1a2a3a4-b1b2-c1c2-d1d2-d3d4d5d6d7d8");
}

#[test]
fn id_rejects_malformed_text() {
    let e = TaskId::try_from("xyz").unwrap_err();
    assert_eq!(e, "Unable to convert xyz to TaskId");
    assert!(TaskId::try_from("a1a2a3a4b1b2c1c2d1d2d3d4d5d6d7d8").is_err());
    assert!(TaskId::try_from("a1a2a3a4-b1b2-c1c2-d1d2+d3d4d5d6d7d8").is_err());
}

#[test]
fn deadline_text_round_trip() {
    let d = Deadline::checked(1999, 12, 31, 23, 59, 59, true, 11, 0).unwrap();
    let text = d.to_text();
    assert_eq!(text, "1999-12-31 23:59:59 -11:00");
    assert_eq!(Deadline::parse_text(text.as_str()), Some(d));
}

#[test]
fn deadline_accepts_common_timestamp_shapes() {
    let expected = Deadline::checked(2024, 1, 1, 0, 0, 0, false, 0, 0).unwrap();
    assert_eq!(Deadline::parse_text("2024-01-01T00:00:00+00:00"), Some(expected));
    assert_eq!(Deadline::parse_text("2024-01-01 00:00:00 +00:00"), Some(expected));
    assert_eq!(Deadline::parse_text("2024-01-01T00:00:00Z"), Some(expected));
    assert_eq!(Deadline::parse_text("2024-01-01 00:00:00 +0000"), Some(expected));
    let with_offset = Deadline::checked(2024, 5, 17, 13, 45, 30, false, 5, 30).unwrap();
    assert_eq!(
        Deadline::parse_text("2024-05-17 13:45:30.123456789 +05:30"),
        Some(with_offset)
    );
    assert_eq!(Deadline::parse_text("2024-05-17T13:45:30.5+05:30"), Some(with_offset));
}

#[test]
fn deadline_rejects_malformed_shapes() {
    assert_eq!(Deadline::parse_text("2024-01-01X00:00:00+00:00"), None);
    assert_eq!(Deadline::parse_text("2024-01-01T00:00:00"), None);
    assert_eq!(Deadline::parse_text("2024-01-01T00:00:00.+00:00"), None);
    assert_eq!(Deadline::parse_text("2024-01-01T00:00:00.123"), None);
    assert_eq!(Deadline::parse_text("2024-01-01T00:00:00 00:00"), None);
}

#[test]
fn rfc3339_style_record_decodes_and_reencodes_canonically() {
    let s = "67e55044-10b1-426f-9247-bb680e5fe0c8^^Title^^Work^^Desc^^2024-01-01T00:00:00+00:00^^High^^Notes^^Active";
    let t = Task::try_from(s).expect("a record with a T-separated deadline must decode");
    assert_eq!(t.uuid(), TaskId::try_from("67e55044-10b1-426f-9247-bb680e5fe0c8").unwrap());
    assert_eq!(t.title(), "Title");
    assert_eq!(t.category(), TaskCategory::Work);
    assert_eq!(t.description(), "Desc");
    assert_eq!(
        *t.deadline(),
        Deadline::checked(2024, 1, 1, 0, 0, 0, false, 0, 0).unwrap()
    );
    assert_eq!(t.priority(), TaskPriority::High);
    assert_eq!(t.notes(), "Notes");
    assert_eq!(t.status(), TaskStutus::Active);
    // re-encoding emits the canonical deadline form
    let again: String = t.into();
    assert_eq!(
        again,
        "67e55044-10b1-426f-9247-bb680e5fe0c8^^Title^^Work^^Desc\
         ^^2024-01-01 00:00:00 +00:00^^High^^Notes^^Active"
    );
}

#[test]
fn bad_category_is_the_only_error_beside_an_rfc3339_deadline() {
    let s = "67e55044-10b1-426f-9247-bb680e5fe0c8^^T^^Bogus^^D^^2024-01-01T00:00:00+00:00^^Low^^N^^Active";
    let errs = Task::try_from(s).unwrap_err();
    assert_eq!(errs, vec!["Unable to convert Bogus to TaskCategory".to_string()]);
}

#[test]
fn deadline_rejects_out_of_range_fields() {
    assert_eq!(Deadline::parse_text("2024-13-01 00:00:00 +00:00"), None);
    assert_eq!(Deadline::parse_text("2024-00-01 00:00:00 +00:00"), None);
    assert_eq!(Deadline::parse_text("2024-01-32 00:00:00 +00:00"), None);
    assert_eq!(Deadline::parse_text("2024-01-01 24:00:00 +00:00"), None);
    assert_eq!(Deadline::parse_text("2024-01-01 00:60:00 +00:00"), None);
    assert_eq!(Deadline::parse_text("not a date"), None);
    assert!(Deadline::checked(2024, 2, 35, 0, 0, 0, false, 0, 0).is_none());
}

#[test]
fn enum_names_parse_with_surrounding_whitespace() {
    assert_eq!(TaskCategory::try_from(" Work ").unwrap(), TaskCategory::Work);
    assert_eq!(TaskPriority::try_from("\tHigh").unwrap(), TaskPriority::High);
    assert_eq!(TaskStutus::try_from("Expired ").unwrap(), TaskStutus::Expired);
}

#[test]
fn trimming_strips_the_same_whitespace_as_std_trim() {
    assert_eq!(TaskPriority::try_from("Low\n").unwrap(), TaskPriority::Low);
    assert_eq!(TaskCategory::try_from("\u{a0}Health\u{a0}").unwrap(), TaskCategory::Health);
    assert_eq!(TaskStutus::try_from("\r\nDeleted\u{2009} ").unwrap(), TaskStutus::Deleted);
    let s = "a1a2a3a4-b1b2-c1c2-d1d2-d3d4d5d6d7d8^^\u{a0}padded title\u{3000}^^Work^^D^^2024-05-17 13:45:30 +05:30^^Low^^N^^Active";
    let t = Task::try_from(s).unwrap();
    assert_eq!(t.title(), "padded title");
    assert_eq!(t.title(), " padded title ".trim());
}

#[test]
fn enum_parse_rejects_unknown_names() {
    assert_eq!(
        TaskCategory::try_from("Bogus").unwrap_err(),
        "Unable to convert Bogus to TaskCategory"
    );
    assert_eq!(
        TaskPriority::try_from("Urgent").unwrap_err(),
        "Unable to convert Urgent to TaskPriority"
    );
    assert_eq!(
        TaskStutus::try_from("Paused").unwrap_err(),
        "Unable to convert Paused to TaskStutus"
    );
}

#[test]
fn enum_canonical_names_round_trip() {
    let c: String = TaskCategory::Health.into();
    assert_eq!(c, "Health");
    let p: String = TaskPriority::Medium.into();
    assert_eq!(p, "Medium");
    let s: String = TaskStutus::Cancelled.into();
    assert_eq!(s, "Cancelled");
}
