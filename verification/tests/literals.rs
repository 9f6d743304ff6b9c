use signal_version_handover::{
    ComponentName, ContractVersion, Date, DecodeError, DivergencePayload, DivergenceReason,
    MarkerRequest, MirrorPayload, Operation, OperationKind, RawPayload, RecordKind,
    RecoveryRequest, Time,
};

fn parse_message(text: &str) -> DecodeError {
    DecodeError::Parse(text.to_string())
}

#[test]
fn date_literal_is_zero_padded() {
    assert_eq!(Date::new(2026, 5, 22).to_nota(), "2026-05-22");
    assert_eq!(Date::new(7, 1, 2).to_nota(), "0007-01-02");
    assert_eq!(Date::new(12345, 12, 31).to_nota(), "12345-12-31");
}

#[test]
fn date_literal_decodes() {
    assert_eq!(Date::from_nota_literal("2026-05-22"), Ok(Date::new(2026, 5, 22)));
    assert_eq!(Date::from_nota_literal("2026-5-22"), Ok(Date::new(2026, 5, 22)));
    assert_eq!(Date::from_nota_literal("+2026-05-+22"), Ok(Date::new(2026, 5, 22)));
}

#[test]
fn date_round_trips_through_its_literal() {
    for date in [
        Date::new(2026, 5, 22),
        Date::new(2024, 2, 29),
        Date::new(0, 1, 1),
        Date::new(65535, 12, 31),
    ] {
        assert_eq!(Date::from_nota_literal(&date.to_nota()), Ok(date));
    }
}

#[test]
fn date_literal_errors_name_the_literal() {
    assert_eq!(
        Date::from_nota_literal("2026/05/22"),
        Err(parse_message("date literal must be YYYY-MM-DD: 2026/05/22"))
    );
    assert_eq!(
        Date::from_nota_literal("2026-05-22-01"),
        Err(parse_message("date literal must be YYYY-MM-DD: 2026-05-22-01"))
    );
    assert_eq!(
        Date::from_nota_literal("70000-05-22"),
        Err(parse_message("invalid date year: 70000-05-22"))
    );
    assert_eq!(
        Date::from_nota_literal("-2026-05"),
        Err(parse_message("invalid date year: -2026-05"))
    );
    assert_eq!(
        Date::from_nota_literal("2026-x-22"),
        Err(parse_message("invalid date month: 2026-x-22"))
    );
    assert_eq!(
        Date::from_nota_literal("2026-05-256"),
        Err(parse_message("invalid date day: 2026-05-256"))
    );
    assert_eq!(
        Date::from_nota_literal("2026-05-"),
        Err(parse_message("invalid date day: 2026-05-"))
    );
    assert_eq!(
        Date::from_nota_literal("2026-13-01"),
        Err(parse_message("invalid date literal: 2026-13-01"))
    );
    assert_eq!(
        Date::from_nota_literal("2026-04-31"),
        Err(parse_message("invalid date literal: 2026-04-31"))
    );
    assert_eq!(
        Date::from_nota_literal("2026-01-00"),
        Err(parse_message("invalid date literal: 2026-01-00"))
    );
}

#[test]
fn leap_years_follow_the_gregorian_rule() {
    assert!(Date::is_leap_year(2024));
    assert!(Date::is_leap_year(2000));
    assert!(!Date::is_leap_year(1900));
    assert!(!Date::is_leap_year(2026));
    assert!(Date::new(2000, 2, 29).is_valid());
    assert!(!Date::new(1900, 2, 29).is_valid());
    assert!(!Date::new(2026, 2, 29).is_valid());
    assert!(Date::new(2026, 2, 28).is_valid());
    assert_eq!(
        Date::from_nota_literal("2026-02-29"),
        Err(parse_message("invalid date literal: 2026-02-29"))
    );
}

#[test]
fn time_literal_is_zero_padded() {
    assert_eq!(Time::new(11, 42, 0).to_nota(), "11:42:00");
    assert_eq!(Time::new(0, 0, 5).to_nota(), "00:00:05");
}

#[test]
fn time_literal_decodes_and_round_trips() {
    assert_eq!(Time::from_nota_literal("11:42:00"), Ok(Time::new(11, 42, 0)));
    assert_eq!(Time::from_nota_literal("1:2:3"), Ok(Time::new(1, 2, 3)));
    for time in [Time::new(0, 0, 0), Time::new(23, 59, 59), Time::new(11, 42, 0)] {
        assert_eq!(Time::from_nota_literal(&time.to_nota()), Ok(time));
    }
}

#[test]
fn time_literal_errors_name_the_literal() {
    assert_eq!(
        Time::from_nota_literal("11-42-00"),
        Err(parse_message("time literal must be HH:MM:SS: 11-42-00"))
    );
    assert_eq!(
        Time::from_nota_literal("aa:42:00"),
        Err(parse_message("invalid time hour: aa:42:00"))
    );
    assert_eq!(
        Time::from_nota_literal("11:300:00"),
        Err(parse_message("invalid time minute: 11:300:00"))
    );
    assert_eq!(
        Time::from_nota_literal("11:42:"),
        Err(parse_message("invalid time second: 11:42:"))
    );
    assert_eq!(
        Time::from_nota_literal("24:00:00"),
        Err(parse_message("invalid time literal: 24:00:00"))
    );
    assert_eq!(
        Time::from_nota_literal("23:60:00"),
        Err(parse_message("invalid time literal: 23:60:00"))
    );
    assert!(!Time::new(23, 59, 60).is_valid());
    assert!(Time::new(23, 59, 59).is_valid());
}

#[test]
fn raw_payload_literal_is_lowercase_hex() {
    assert_eq!(RawPayload::new(vec![1, 2, 0xab, 0xff]).to_nota(), "#0102abff");
    assert_eq!(RawPayload::new(vec![]).to_nota(), "#");
}

#[test]
fn raw_payload_literal_decodes_either_case() {
    assert_eq!(RawPayload::decode_literal("#0102ABff"), Ok(vec![1, 2, 0xab, 0xff]));
    assert_eq!(RawPayload::decode_literal("#"), Ok(vec![]));
    let bytes: Vec<u8> = (0..=255).collect();
    let literal = RawPayload::new(bytes.clone()).to_nota();
    assert_eq!(RawPayload::decode_literal(&literal), Ok(bytes));
}

#[test]
fn raw_payload_literal_errors_name_the_literal() {
    assert_eq!(
        RawPayload::decode_literal("0102"),
        Err(parse_message("raw payload must be a #hex literal: 0102"))
    );
    assert_eq!(
        RawPayload::decode_literal(""),
        Err(parse_message("raw payload must be a #hex literal: "))
    );
    assert_eq!(
        RawPayload::decode_literal("#012"),
        Err(parse_message("raw payload hex literal has odd length: #012"))
    );
    assert_eq!(
        RawPayload::decode_literal("#0g"),
        Err(parse_message("raw payload contains non-hex digit: #0g"))
    );
    assert_eq!(
        RawPayload::decode_literal("#\u{e9}"),
        Err(parse_message("raw payload contains non-hex digit: #\u{e9}"))
    );
    assert_eq!(
        RawPayload::decode_literal("#\u{e9}1"),
        Err(parse_message("raw payload hex literal has odd length: #\u{e9}1"))
    );
}

#[test]
fn raw_payload_digits_and_pairs() {
    assert_eq!(RawPayload::decode_digit(b'7', "#7"), Ok(7));
    assert_eq!(RawPayload::decode_digit(b'c', "#c"), Ok(12));
    assert_eq!(RawPayload::decode_digit(b'F', "#F"), Ok(15));
    assert_eq!(
        RawPayload::decode_digit(b'z', "#z"),
        Err(parse_message("raw payload contains non-hex digit: #z"))
    );
    assert_eq!(RawPayload::decode_byte(b"a5", "#a5"), Ok(0xa5));
    assert_eq!(
        RawPayload::decode_byte(b"5x", "#5x"),
        Err(parse_message("raw payload contains non-hex digit: #5x"))
    );
    assert_eq!(RawPayload::new(vec![4, 5]).into_bytes(), vec![4, 5]);
}

fn mirror() -> MirrorPayload {
    MirrorPayload {
        component: ComponentName::new("persona-spirit"),
        source_version: ContractVersion::new([1; 32]),
        target_version: ContractVersion::new([2; 32]),
        kind: RecordKind::new("Entry"),
        payload: vec![1, 2, 3],
    }
}

#[test]
fn mirror_payload_bytes_survive_their_literal() {
    let payload = mirror();
    assert_eq!(payload.payload_literal(), "#010203");
    let decoded = MirrorPayload::from_nota_fields(
        payload.component.clone(),
        payload.source_version,
        payload.target_version,
        payload.kind.clone(),
        &payload.payload_literal(),
    );
    assert_eq!(decoded, Ok(payload));
    assert_eq!(
        MirrorPayload::from_nota_fields(
            ComponentName::new("persona-spirit"),
            ContractVersion::new([1; 32]),
            ContractVersion::new([2; 32]),
            RecordKind::new("Entry"),
            "010203",
        ),
        Err(parse_message("raw payload must be a #hex literal: 010203"))
    );
}

#[test]
fn divergence_payload_bytes_survive_their_literal() {
    let payload = DivergencePayload {
        component: ComponentName::new("persona-spirit"),
        source_version: ContractVersion::new([1; 32]),
        target_version: ContractVersion::new([2; 32]),
        reason: DivergenceReason::NotRepresentable,
        kind: RecordKind::new("Entry"),
        payload: vec![0xde, 0xad],
    };
    assert_eq!(payload.payload_literal(), "#dead");
    let decoded = DivergencePayload::from_nota_fields(
        payload.component.clone(),
        payload.source_version,
        payload.target_version,
        payload.reason,
        payload.kind.clone(),
        &payload.payload_literal(),
    );
    assert_eq!(decoded, Ok(payload));
    assert_eq!(
        DivergencePayload::from_nota_fields(
            ComponentName::new("persona-spirit"),
            ContractVersion::new([1; 32]),
            ContractVersion::new([2; 32]),
            DivergenceReason::TargetRejected,
            RecordKind::new("Entry"),
            "#dea",
        ),
        Err(parse_message("raw payload hex literal has odd length: #dea"))
    );
}

#[test]
fn operation_kind_names_the_variant() {
    let component = ComponentName::new("persona-spirit");
    assert_eq!(component.as_str(), "persona-spirit");
    assert_eq!(RecordKind::new("Entry").as_str(), "Entry");
    assert_eq!(ContractVersion::new([9; 32]).as_bytes(), &[9; 32]);
    let ask = Operation::AskHandoverMarker(MarkerRequest { component: component.clone() });
    assert_eq!(ask.kind(), OperationKind::AskHandoverMarker);
    let recover = Operation::RecoverFromFailure(RecoveryRequest {
        component,
        failure_identifier: 7,
    });
    assert_eq!(recover.kind(), OperationKind::RecoverFromFailure);
    assert_eq!(Operation::Mirror(mirror()).kind(), OperationKind::Mirror);
}

#[test]
fn raw_payload_reencodes_in_lowercase() {
    let decoded = RawPayload::decode_literal("#0102ABff").expect("decode");
    assert_eq!(RawPayload::new(decoded).to_nota(), "#0102abff");
    let decoded = RawPayload::decode_literal("#DEADbeef").expect("decode");
    assert_eq!(RawPayload::new(decoded).to_nota(), "#deadbeef");
}
