use modlog::{DecodeError, ModLogAction, ModLogEntry, ModLogMessage, Timestamp};

fn ts(year: u16, month: u8, day: u8, hour: u8, minute: u8, second: u8) -> Timestamp {
    Timestamp { year, month, day, hour, minute, second }
}

fn entry(action: ModLogAction) -> ModLogEntry {
    ModLogEntry {
        timestamp: ts(2024, 1, 1, 0, 0, 0),
        channel_id: 100,
        moderator_id: 7,
        moderator_name: String::from("mod"),
        moderator_discrim: 1,
        action,
    }
}

fn write_to_string(e: &ModLogEntry) -> String {
    let mut out = String::new();
    e.write(&mut out).unwrap();
    out
}

fn read_one(src: &str) -> Result<Option<ModLogEntry>, DecodeError> {
    let mut pos = 0usize;
    ModLogEntry::read(src, &mut pos)
}

#[test]
fn example_scenario() {
    let e = entry(ModLogAction::DeleteMessage(ModLogMessage {
        id: 55,
        content: String::from("bad"),
        attachments: vec![],
    }));
    let out = write_to_string(&e);
    assert_eq!(
        out,
        "{\"timestamp\":\"2024-01-01T00:00:00Z\",\"channel_id\":100,\"moderator_id\":7,\
         \"moderator_name\":\"mod\",\"moderator_discrim\":1,\"action\":{\"DeleteMessage\":\
         {\"id\":55,\"content\":\"bad\",\"attachments\":[]}}}\n"
    );
    assert_eq!(out.matches('\n').count(), 1);
    let mut pos = 0usize;
    let got = ModLogEntry::read(&out, &mut pos).unwrap().unwrap();
    assert_eq!(got, e);
    let second = ModLogEntry::read(&out, &mut pos).unwrap();
    assert!(second.is_none());
}

#[test]
fn round_trip_delete_message() {
    let e = entry(ModLogAction::DeleteMessage(ModLogMessage {
        id: 1,
        content: String::from("quote \" backslash \\ newline \n tab \t cr \r ctrl \u{1} done"),
        attachments: vec![String::from("https://example.invalid/a.png"), String::new()],
    }));
    let got = read_one(&write_to_string(&e)).unwrap().unwrap();
    assert_eq!(got, e);
}

#[test]
fn round_trip_delete_hour() {
    let e = entry(ModLogAction::DeleteHour(vec![
        ModLogMessage { id: 10, content: String::from("first"), attachments: vec![] },
        ModLogMessage {
            id: 11,
            content: String::new(),
            attachments: vec![String::from("one"), String::from("two"), String::from("three")],
        },
    ]));
    let got = read_one(&write_to_string(&e)).unwrap().unwrap();
    assert_eq!(got, e);
}

#[test]
fn round_trip_delete_hour_empty() {
    let e = entry(ModLogAction::DeleteHour(vec![]));
    let out = write_to_string(&e);
    assert!(out.contains("{\"DeleteHour\":[]}"));
    let got = read_one(&out).unwrap().unwrap();
    assert_eq!(got, e);
    match got.action {
        ModLogAction::DeleteHour(ms) => assert!(ms.is_empty()),
        _ => panic!("wrong variant"),
    }
}

#[test]
fn round_trip_reason() {
    let e = entry(ModLogAction::Reason(String::from("spam")));
    let got = read_one(&write_to_string(&e)).unwrap().unwrap();
    assert_eq!(got, e);
}

#[test]
fn round_trip_unicode_name() {
    let mut e = entry(ModLogAction::Reason(String::from("λόγος 日本語 ✓")));
    e.moderator_name = String::from("Ëmïlie🦀");
    let got = read_one(&write_to_string(&e)).unwrap().unwrap();
    assert_eq!(got, e);
}

#[test]
fn round_trip_numeric_extremes() {
    let mut e = entry(ModLogAction::Reason(String::from("r")));
    e.channel_id = u64::MAX;
    e.moderator_id = 0;
    e.moderator_discrim = u16::MAX;
    e.timestamp = ts(9999, 12, 31, 23, 59, 59);
    let out = write_to_string(&e);
    assert!(out.contains("\"channel_id\":18446744073709551615"));
    assert!(out.contains("\"timestamp\":\"9999-12-31T23:59:59Z\""));
    let got = read_one(&out).unwrap().unwrap();
    assert_eq!(got, e);
}

#[test]
fn two_lines_frame_independently() {
    let a = entry(ModLogAction::Reason(String::from("first entry")));
    let b = entry(ModLogAction::DeleteMessage(ModLogMessage {
        id: 9,
        content: String::from("second"),
        attachments: vec![String::from("x")],
    }));
    let mut out = String::new();
    a.write(&mut out).unwrap();
    b.write(&mut out).unwrap();
    assert_eq!(out.matches('\n').count(), 2);
    assert!(out.ends_with('\n'));
    let mut pos = 0usize;
    let ra = ModLogEntry::read(&out, &mut pos).unwrap().unwrap();
    let rb = ModLogEntry::read(&out, &mut pos).unwrap().unwrap();
    let rest = ModLogEntry::read(&out, &mut pos).unwrap();
    assert_eq!(ra, a);
    assert_eq!(rb, b);
    assert!(rest.is_none());
}

#[test]
fn end_of_stream_is_no_data() {
    assert!(read_one("").unwrap().is_none());
}

#[test]
fn missing_field_is_serialization_error() {
    // No moderator_discrim field.
    let line = "{\"timestamp\":\"2024-01-01T00:00:00Z\",\"channel_id\":100,\"moderator_id\":7,\
                \"moderator_name\":\"mod\",\"action\":{\"Reason\":\"x\"}}\n";
    assert!(matches!(read_one(line), Err(DecodeError::Serialization)));
}

#[test]
fn unknown_action_tag_is_serialization_error() {
    let line = "{\"timestamp\":\"2024-01-01T00:00:00Z\",\"channel_id\":100,\"moderator_id\":7,\
                \"moderator_name\":\"mod\",\"moderator_discrim\":1,\"action\":{\"Poke\":\"x\"}}\n";
    assert!(matches!(read_one(line), Err(DecodeError::Serialization)));
}

#[test]
fn truncated_line_is_serialization_error() {
    let line = "{\"timestamp\":\"2024-01-01T00:00:00Z\",\"channel_id\":10";
    assert!(matches!(read_one(line), Err(DecodeError::Serialization)));
}

#[test]
fn non_json_line_is_serialization_error() {
    assert!(matches!(read_one("hello world\n"), Err(DecodeError::Serialization)));
    assert!(matches!(read_one("\n"), Err(DecodeError::Serialization)));
}

#[test]
fn number_overflow_is_serialization_error() {
    // One more than u64::MAX.
    let line = "{\"timestamp\":\"2024-01-01T00:00:00Z\",\"channel_id\":18446744073709551616,\
                \"moderator_id\":7,\"moderator_name\":\"mod\",\"moderator_discrim\":1,\
                \"action\":{\"Reason\":\"x\"}}\n";
    assert!(matches!(read_one(line), Err(DecodeError::Serialization)));
}

#[test]
fn discrim_too_large_is_serialization_error() {
    let line = "{\"timestamp\":\"2024-01-01T00:00:00Z\",\"channel_id\":1,\"moderator_id\":7,\
                \"moderator_name\":\"mod\",\"moderator_discrim\":65536,\
                \"action\":{\"Reason\":\"x\"}}\n";
    assert!(matches!(read_one(line), Err(DecodeError::Serialization)));
}

#[test]
fn out_of_range_timestamp_is_serialization_error() {
    let line = "{\"timestamp\":\"2024-13-01T00:00:00Z\",\"channel_id\":1,\"moderator_id\":7,\
                \"moderator_name\":\"mod\",\"moderator_discrim\":1,\
                \"action\":{\"Reason\":\"x\"}}\n";
    assert!(matches!(read_one(line), Err(DecodeError::Serialization)));
}

#[test]
fn unterminated_last_line_is_parsed() {
    let e = entry(ModLogAction::Reason(String::from("tail")));
    let mut out = write_to_string(&e);
    out.pop();
    assert!(!out.ends_with('\n'));
    let mut pos = 0usize;
    let got = ModLogEntry::read(&out, &mut pos).unwrap().unwrap();
    assert_eq!(got, e);
    assert!(ModLogEntry::read(&out, &mut pos).unwrap().is_none());
}

#[test]
fn output_is_valid_json() {
    let e = entry(ModLogAction::DeleteMessage(ModLogMessage {
        id: 55,
        content: String::from("tricky \"content\" with \\ and \n and \u{7} bell"),
        attachments: vec![String::from("a\tb")],
    }));
    let out = write_to_string(&e);
    let v: serde_json::Value = serde_json::from_str(out.trim_end()).unwrap();
    assert_eq!(v.get("channel_id").and_then(|x| x.as_u64()), Some(100));
    assert_eq!(v.get("moderator_id").and_then(|x| x.as_u64()), Some(7));
    assert_eq!(v.get("moderator_name").and_then(|x| x.as_str()), Some("mod"));
    assert_eq!(v.get("moderator_discrim").and_then(|x| x.as_u64()), Some(1));
    assert_eq!(v.get("timestamp").and_then(|x| x.as_str()), Some("2024-01-01T00:00:00Z"));
    let action = v.get("action").unwrap();
    let msg = action.get("DeleteMessage").unwrap();
    assert_eq!(msg.get("id").and_then(|x| x.as_u64()), Some(55));
    assert_eq!(
        msg.get("content").and_then(|x| x.as_str()),
        Some("tricky \"content\" with \\ and \n and \u{7} bell")
    );
    let atts = msg.get("attachments").and_then(|x| x.as_array()).unwrap();
    assert_eq!(atts.len(), 1);
    assert_eq!(atts[0].as_str(), Some("a\tb"));
}

#[test]
fn delete_hour_is_json_array() {
    let e = entry(ModLogAction::DeleteHour(vec![
        ModLogMessage { id: 1, content: String::from("a"), attachments: vec![] },
        ModLogMessage { id: 2, content: String::from("b"), attachments: vec![] },
    ]));
    let out = write_to_string(&e);
    let v: serde_json::Value = serde_json::from_str(out.trim_end()).unwrap();
    let hour = v.get("action").and_then(|a| a.get("DeleteHour")).unwrap();
    let list = hour.as_array().unwrap();
    assert_eq!(list.len(), 2);
    assert_eq!(list[0].get("id").and_then(|x| x.as_u64()), Some(1));
    assert_eq!(list[1].get("id").and_then(|x| x.as_u64()), Some(2));
}

#[test]
fn leading_zero_numbers_are_rejected() {
    let line = "{\"timestamp\":\"2024-01-01T00:00:00Z\",\"channel_id\":007,\"moderator_id\":7,\
                \"moderator_name\":\"mod\",\"moderator_discrim\":1,\
                \"action\":{\"Reason\":\"x\"}}\n";
    assert!(matches!(read_one(line), Err(DecodeError::Serialization)));
}

#[test]
fn error_does_not_advance_position() {
    let mut src = String::from("garbage line\n");
    let e = entry(ModLogAction::Reason(String::from("after")));
    e.write(&mut src).unwrap();
    let mut pos = 0usize;
    assert!(ModLogEntry::read(&src, &mut pos).is_err());
    assert_eq!(pos, 0);
    // The caller resynchronizes by skipping past the bad line itself.
    pos = src.find('\n').unwrap() + 1;
    let got = ModLogEntry::read(&src, &mut pos).unwrap().unwrap();
    assert_eq!(got, e);
}

#[test]
fn timestamp_is_wf_check() {
    assert!(ts(2024, 1, 1, 0, 0, 0).is_wf());
    assert!(!ts(2024, 0, 1, 0, 0, 0).is_wf());
    assert!(!ts(2024, 13, 1, 0, 0, 0).is_wf());
    assert!(!ts(2024, 1, 32, 0, 0, 0).is_wf());
    assert!(!ts(2024, 1, 1, 24, 0, 0).is_wf());
    assert!(!ts(2024, 1, 1, 0, 60, 0).is_wf());
    assert!(!ts(2024, 1, 1, 0, 0, 60).is_wf());
    let e = entry(ModLogAction::Reason(String::from("x")));
    assert!(e.is_wf());
}

#[test]
fn control_characters_are_escaped_on_the_wire() {
    let e = entry(ModLogAction::Reason(String::from("a\u{1}b\u{1f}c")));
    let out = write_to_string(&e);
    assert!(out.contains("a\\u0001b\\u001fc"));
    assert_eq!(out.matches('\n').count(), 1);
    let got = read_one(&out).unwrap().unwrap();
    assert_eq!(got, e);
}
