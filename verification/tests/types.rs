use desktop_switcher::types::{
    Evidence, InputCode, InputCodeParseError, InputReading, InputSourceOption, MonitorIdentity,
    Transport, WriteOutcome,
};

/// A read-back is the monitor quoting its own register back. It is not a
/// witness to what the panel is displaying, and nothing shown to a person may
/// suggest that it is.
#[test]
fn a_read_back_never_reports_itself_as_confirmation() {
    let outcome = WriteOutcome::StoredByMonitor(InputCode(0x0F));
    let text = outcome.to_string().to_lowercase();
    assert!(
        !text.contains("confirm"),
        "a register read must not claim confirmation, said: {text}"
    );
    assert!(
        text.contains("not") && text.contains("display"),
        "it must say what it does not prove, said: {text}"
    );
}

/// Only a person who watched the screen gets to use that word.
#[test]
fn only_a_human_confirms() {
    assert!(WriteOutcome::ConfirmedByUser
        .to_string()
        .to_lowercase()
        .contains("confirm"));
    assert_eq!(
        WriteOutcome::ConfirmedByUser.evidence(),
        Evidence::UserConfirmed
    );
}

#[test]
fn hex_prefixed_codes_parse() {
    assert_eq!("0x11".parse::<InputCode>().unwrap(), InputCode(0x11));
    assert_eq!("0X0f".parse::<InputCode>().unwrap(), InputCode(0x0F));
    assert_eq!(" 0x1 ".parse::<InputCode>().unwrap(), InputCode(0x01));
}

#[test]
fn bare_numbers_are_refused_as_ambiguous() {
    // `11` must never silently become decimal 11 (0x0B).
    let err = "11".parse::<InputCode>().unwrap_err();
    assert!(matches!(err, InputCodeParseError::MissingHexPrefix(_)));
    assert!(err.to_string().contains("0x"));
}

#[test]
fn malformed_codes_are_refused() {
    assert!("0x".parse::<InputCode>().is_err());
    assert!("0xZZ".parse::<InputCode>().is_err());
    assert!("0x111".parse::<InputCode>().is_err());
    assert!("".parse::<InputCode>().is_err());
}

#[test]
fn codes_render_as_two_digit_hex() {
    assert_eq!(InputCode(0x0F).to_string(), "0x0F");
    assert_eq!(InputCode(0x11).to_string(), "0x11");
}

#[test]
fn only_user_confirmation_unlocks_switching() {
    assert!(Evidence::UserConfirmed.is_trusted_for_switching());
    for level in [
        Evidence::Unknown,
        Evidence::Reported,
        Evidence::ReadConfirmed,
        Evidence::WriteConfirmed,
    ] {
        assert!(!level.is_trusted_for_switching(), "{level:?} must not unlock");
    }
}

#[test]
fn accepted_write_is_not_treated_as_confirmed() {
    assert_eq!(WriteOutcome::Accepted.evidence(), Evidence::Unknown);
    assert!(!WriteOutcome::Accepted.is_failure());
    assert!(WriteOutcome::Accepted.to_string().contains("unconfirmed"));
}

#[test]
fn internal_panel_is_not_switchable() {
    assert!(!Transport::Wmi.supports_input_switching());
    assert!(Transport::DdcCi.supports_input_switching());
}

#[test]
fn every_code_reads_back_from_its_text() {
    for n in 0..=255u8 {
        let code = InputCode(n);
        assert_eq!(InputCode::from_str(&code.to_string()), Ok(code));
    }
}

#[test]
fn numbers_without_a_prefix_are_never_codes() {
    for text in ["0", "1", "15", "17", "FF", "x11", "00x11"] {
        assert!(InputCode::from_str(text).is_err(), "{text}");
    }
}

#[test]
fn readings_say_what_they_are() {
    assert_eq!(InputReading::Value(InputCode(0x11)).value(), Some(InputCode(0x11)));
    assert_eq!(
        InputReading::ReadFailed { detail: "no answer".into() }.value(),
        None
    );
    assert!(InputReading::ReadFailed { detail: "no answer".into() }
        .to_string()
        .contains("no answer"));
}

#[test]
fn standard_inputs_carry_their_names() {
    let option = InputSourceOption::standard(InputCode(0x11));
    assert_eq!(option.label.as_deref(), Some("HDMI-1"));
    assert_eq!(InputCode(0x0F).standard_label(), Some("DisplayPort-1"));
    assert_eq!(InputCode(0x42).standard_label(), None);
}

#[test]
fn a_panel_describes_itself_with_its_serial() {
    let identity = |serial: Option<&str>, model: Option<&str>| MonitorIdentity {
        backend_id: "port".into(),
        discovery_index: None,
        manufacturer: None,
        model: model.map(String::from),
        serial: serial.map(String::from),
        transport: Transport::DdcCi,
    };
    assert_eq!(identity(Some("SN"), Some("27P2DG5")).describe(), "27P2DG5 (s/n SN)");
    assert_eq!(identity(None, None).describe(), "unknown model (no serial in EDID)");
}
