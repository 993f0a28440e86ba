use rmonitor::protocol::{Flag, Record, RecordError};

fn decode_ok(line: &str) -> Record {
    match Record::decode(line) {
        Ok(r) => r,
        Err(e) => panic!("{:?} did not decode: {:?}", line, e),
    }
}

#[test]
fn heartbeat_with_blank_flag() {
    let r = decode_ok("$F,9999,\"00:00:00\",\"14:09:52\",\"00:59:59\",\"      \"");
    match r {
        Record::Heartbeat(h) => {
            assert_eq!(h.laps_to_go, 9999);
            assert_eq!(h.time_to_go, "00:00:00");
            assert_eq!(h.time_of_day, "14:09:52");
            assert_eq!(h.race_time, "00:59:59");
            assert_eq!(h.flag_status, Flag::NoFlag);
        }
        other => panic!("unexpected {:?}", other),
    }
}

#[test]
fn heartbeat_flags_by_token() {
    for (token, flag) in [
        ("Green ", Flag::Green),
        ("Yellow", Flag::Yellow),
        ("Red   ", Flag::Red),
        ("Finish", Flag::Finish),
    ] {
        let line = format!("$F,1,\"a\",\"b\",\"c\",\"{}\"", token);
        match decode_ok(&line) {
            Record::Heartbeat(h) => assert_eq!(h.flag_status, flag),
            other => panic!("unexpected {:?}", other),
        }
    }
}

#[test]
fn unknown_flag_reports_wire_field() {
    let r = Record::decode("$F,1,\"a\",\"b\",\"c\",\"Blue  \"");
    match r {
        Err(RecordError::UnknownFlagState(t)) => assert_eq!(t, "\"Blue  \""),
        other => panic!("unexpected {:?}", other),
    }
    // Flags are fixed width: no trimming
    assert!(matches!(
        Record::decode("$F,1,\"a\",\"b\",\"c\",\"Green\""),
        Err(RecordError::UnknownFlagState(_))
    ));
}

#[test]
fn flag_from_token_and_parse() {
    assert!(matches!(Flag::from_token("Yellow"), Ok(Flag::Yellow)));
    assert!(matches!(Flag::from_token("      "), Ok(Flag::NoFlag)));
    assert!(matches!(Flag::from_token("yellow"), Err(RecordError::UnknownFlagState(_))));
    let parsed: Result<Flag, RecordError> = "Finish".parse();
    assert!(matches!(parsed, Ok(Flag::Finish)));
}

#[test]
fn competitor_scenario() {
    match decode_ok("$A,\"1234BE\",\"12X\",52474,\"John\",\"Johnson\",\"USA\",5") {
        Record::Competitor(c) => {
            assert_eq!(c.registration_number, "1234BE");
            assert_eq!(c.transponder_number, 52474);
            assert_eq!(c.class_number, 5);
        }
        other => panic!("unexpected {:?}", other),
    }
}

#[test]
fn race_with_and_without_laps() {
    match decode_ok("$G,3,\"1234BE\",14,\"01:12:47.872\"") {
        Record::Race(r) => {
            assert_eq!(r.position, 3);
            assert_eq!(r.laps, Some(14));
        }
        other => panic!("unexpected {:?}", other),
    }
    match decode_ok("$G,3,\"1234BE\",,\"01:12:47.872\"") {
        Record::Race(r) => {
            assert_eq!(r.position, 3);
            assert_eq!(r.registration_number, "1234BE");
            assert_eq!(r.laps, None);
            assert_eq!(r.total_time, "01:12:47.872");
        }
        other => panic!("unexpected {:?}", other),
    }
    assert!(matches!(
        Record::decode("$G,3,\"1234BE\",x,\"01:12:47.872\""),
        Err(RecordError::InvalidIntegerField)
    ));
}

#[test]
fn unknown_token_is_unknown_record_type() {
    match Record::decode("$ZZZ,5,\"x\"") {
        Err(RecordError::UnknownRecordType(t)) => assert_eq!(t, "$ZZZ"),
        other => panic!("unexpected {:?}", other),
    }
}

#[test]
fn wrong_field_count_is_malformed_before_fields() {
    // The integer field is bad too, but the count is checked first
    assert!(matches!(Record::decode("$B,abc,\"x\",extra"), Err(RecordError::MalformedRecord)));
    assert!(matches!(Record::decode("$B,5"), Err(RecordError::MalformedRecord)));
    assert!(matches!(Record::decode("$F,invalid,data,here"), Err(RecordError::MalformedRecord)));
    assert!(matches!(Record::decode("$A,1,2,3"), Err(RecordError::MalformedRecord)));
    assert!(matches!(Record::decode("$J,\"1\",\"2\""), Err(RecordError::MalformedRecord)));
    assert!(matches!(Record::decode("$COR,1,2,3,4"), Err(RecordError::MalformedRecord)));
}

#[test]
fn lines_without_payload_are_malformed() {
    assert!(matches!(Record::decode("$F"), Err(RecordError::MalformedRecord)));
    assert!(matches!(Record::decode(""), Err(RecordError::MalformedRecord)));
    assert!(matches!(Record::decode("$ZZZ"), Err(RecordError::MalformedRecord)));
}

#[test]
fn integer_fields_are_strict_decimal() {
    for bad in ["abc", "256", "+5", "-5", " 5", "5 ", "\"5\"", "", "1,000"] {
        let line = format!("$B,{},\"x\"", bad);
        let r = Record::decode(&line);
        assert!(
            matches!(r, Err(RecordError::InvalidIntegerField) | Err(RecordError::MalformedRecord)),
            "{:?} gave {:?}",
            line,
            r
        );
    }
    assert!(matches!(Record::decode("$B,256,\"x\""), Err(RecordError::InvalidIntegerField)));
    assert!(matches!(Record::decode("$B,+5,\"x\""), Err(RecordError::InvalidIntegerField)));
    match decode_ok("$B,005,\"x\"") {
        Record::Run(r) => assert_eq!(r.number, 5),
        other => panic!("unexpected {:?}", other),
    }
    match decode_ok("$B,255,\"x\"") {
        Record::Run(r) => assert_eq!(r.number, 255),
        other => panic!("unexpected {:?}", other),
    }
    match decode_ok("$H,65535,\"x\",4294967295,\"t\"") {
        Record::PracticeQual(p) => {
            assert_eq!(p.position, 65535);
            assert_eq!(p.best_lap, 4294967295);
        }
        other => panic!("unexpected {:?}", other),
    }
    assert!(matches!(
        Record::decode("$H,65536,\"x\",1,\"t\""),
        Err(RecordError::InvalidIntegerField)
    ));
    assert!(matches!(
        Record::decode("$H,1,\"x\",4294967296,\"t\""),
        Err(RecordError::InvalidIntegerField)
    ));
}

#[test]
fn text_fields_lose_one_pair_of_quotes() {
    match decode_ok("$E,\"\",plain") {
        Record::Setting(s) => {
            assert_eq!(s.description, "");
            assert_eq!(s.value, "plain");
        }
        other => panic!("unexpected {:?}", other),
    }
    match decode_ok("$E,\"\"x\"\",\"") {
        Record::Setting(s) => {
            assert_eq!(s.description, "\"x\"");
            assert_eq!(s.value, "\"");
        }
        other => panic!("unexpected {:?}", other),
    }
    assert!(matches!(decode_ok("$E,\"open,\"closed\""), Record::Setting(_)));
    match decode_ok("$I,\"Zürich\",\"12 jan 01\"") {
        Record::Init(i) => assert_eq!(i.time, "Zürich"),
        other => panic!("unexpected {:?}", other),
    }
}

#[test]
fn line_crossing_optional_tail() {
    match decode_ok("$L,\"15\",\"P1\",\"SFP\",\"01/27/2009\",\"14:13:22.818\",7") {
        Record::LineCrossing(c) => {
            assert_eq!(c.driver_id, Some(7));
            assert_eq!(c.class_name, None);
        }
        other => panic!("unexpected {:?}", other),
    }
    match decode_ok("$L,\"15\",\"P1\",\"SFP\",\"01/27/2009\",\"14:13:22.818\",7,\"GT\"") {
        Record::LineCrossing(c) => {
            assert_eq!(c.driver_id, Some(7));
            assert_eq!(c.class_name, Some("GT".to_owned()));
        }
        other => panic!("unexpected {:?}", other),
    }
    assert!(matches!(
        Record::decode("$L,\"15\",\"P1\",\"SFP\",\"01/27/2009\""),
        Err(RecordError::MalformedRecord)
    ));
    assert!(matches!(
        Record::decode("$L,\"15\",\"P1\",\"SFP\",\"01/27/2009\",\"t\",1,\"PC\",\"x\""),
        Err(RecordError::MalformedRecord)
    ));
    assert!(matches!(
        Record::decode("$L,\"15\",\"P1\",\"SFP\",\"01/27/2009\",\"t\",,\"PC\""),
        Err(RecordError::InvalidIntegerField)
    ));
    assert!(matches!(
        Record::decode("$L,\"15\",\"P1\",\"SFP\",\"01/27/2009\",\"t\",300"),
        Err(RecordError::InvalidIntegerField)
    ));
}

const TRACK_HEAD: &str = "$T,\"Circuit\",\"C\",\"3.40\",";

fn track_line(count: &str, groups: usize, extra: &str) -> String {
    let mut line = format!("{}{}", TRACK_HEAD, count);
    for k in 0..groups {
        line.push_str(&format!(",\"S{}\",\"T{}\",\"T{}\",{}", k, k, k + 1, 1000 + k));
    }
    line.push_str(extra);
    line
}

#[test]
fn track_description_count_must_match_groups() {
    match decode_ok(&track_line("3", 3, "")) {
        Record::TrackDescription(td) => {
            assert_eq!(td.name, "Circuit");
            assert_eq!(td.short_name, "C");
            assert_eq!(td.distance, "3.40");
            assert_eq!(td.sections.len(), 3);
            for (k, s) in td.sections.iter().enumerate() {
                assert_eq!(s.name, format!("S{}", k));
                assert_eq!(s.start, format!("T{}", k));
                assert_eq!(s.end, format!("T{}", k + 1));
                assert_eq!(s.distance, 1000 + k as u32);
            }
        }
        other => panic!("unexpected {:?}", other),
    }
    assert!(matches!(
        Record::decode(&track_line("3", 2, "")),
        Err(RecordError::IncorrectSectionCount)
    ));
    assert!(matches!(
        Record::decode(&track_line("3", 4, "")),
        Err(RecordError::IncorrectSectionCount)
    ));
}

#[test]
fn track_description_drops_short_trailing_group() {
    match decode_ok(&track_line("2", 2, ",\"S9\",\"T9\",\"TA\"")) {
        Record::TrackDescription(td) => assert_eq!(td.sections.len(), 2),
        other => panic!("unexpected {:?}", other),
    }
    assert!(matches!(
        Record::decode(&track_line("3", 2, ",\"S9\",\"T9\",\"TA\"")),
        Err(RecordError::IncorrectSectionCount)
    ));
    // The dropped group is not read, not even its distance
    match decode_ok(&track_line("1", 1, ",x")) {
        Record::TrackDescription(td) => assert_eq!(td.sections.len(), 1),
        other => panic!("unexpected {:?}", other),
    }
}

#[test]
fn track_description_edge_cases() {
    match decode_ok(&track_line("0", 0, "")) {
        Record::TrackDescription(td) => assert!(td.sections.is_empty()),
        other => panic!("unexpected {:?}", other),
    }
    assert!(matches!(
        Record::decode("$T,\"Circuit\",\"C\",\"3.40\""),
        Err(RecordError::MalformedRecord)
    ));
    assert!(matches!(
        Record::decode(&track_line("two", 2, "")),
        Err(RecordError::InvalidIntegerField)
    ));
    assert!(matches!(
        Record::decode(&format!("{}1,\"S\",\"A\",\"B\",far", TRACK_HEAD)),
        Err(RecordError::InvalidIntegerField)
    ));
    // A bad distance is found before the count is compared
    assert!(matches!(
        Record::decode(&format!("{}5,\"S\",\"A\",\"B\",far", TRACK_HEAD)),
        Err(RecordError::InvalidIntegerField)
    ));
}
