use desktop_switcher::mccs::{
    extract_section, input_source_values, mccs_version, model, parse_vcp_features, values_of,
    MccsError,
};

/// What an AOC 27P2DG5 says of itself.
const AOC_REAL: &str = "(vcp(02 04 05 08 10 12 14(01 05 06 08 0B) 16 18 1A 52 60(01 03 11 0F ) 62 86(02 05) C8 C9 CC(01 02 03 04 05 06 07 09 0A 0B 0C 0D 0E 12 14 16 1E) B6 DF C6 DC(00 0B 0C 0D 0E 0F 10) D6(01 04) ED F8)prot(monitor)type(LCD)cmds(01 02 03 07 0C F3)mccs_ver(2.2)asset_eep(64)mpu_ver(005)model(27P2Q)mswhql(1))";

#[test]
fn parses_real_aoc_capability_string() {
    let values = input_source_values(AOC_REAL).unwrap().unwrap();
    assert_eq!(values, vec![0x01, 0x03, 0x11, 0x0F]);
    assert_eq!(model(AOC_REAL).as_deref(), Some("27P2Q"));
    assert_eq!(mccs_version(AOC_REAL).as_deref(), Some("2.2"));
}

#[test]
fn features_without_value_lists_are_kept_with_empty_values() {
    let features = parse_vcp_features(AOC_REAL).unwrap();
    assert_eq!(values_of(&features, 0x02), Some(vec![]));
    assert_eq!(
        values_of(&features, 0x14),
        Some(vec![0x01, 0x05, 0x06, 0x08, 0x0B])
    );
}

#[test]
fn does_not_mistake_a_value_for_the_input_feature() {
    // 0x60 appears here only as a *value* of feature 0xDC, and inside the
    // model text. Scanning the whole blob for `60` would find both.
    let caps = "(vcp(10 DC(60 61))prot(monitor)model(60))";
    assert_eq!(input_source_values(caps).unwrap(), None);
}

#[test]
fn a_feature_list_outside_the_vcp_section_is_not_read() {
    // Some vendors emit extra sections. Only `vcp(...)` defines features, so a
    // `60(...)` living anywhere else must be ignored.
    let caps = "(vcp(10 12)vendorspecific(60(01 0F))prot(monitor))";
    assert_eq!(input_source_values(caps).unwrap(), None);
}

#[test]
fn oversized_tokens_in_the_vcp_section_are_rejected() {
    // A 4-digit token means this is not the structure it is taken for. Better
    // to fail loudly than to silently read half the section.
    assert!(matches!(
        parse_vcp_features("(vcp(10 E060(01 02)))").unwrap_err(),
        MccsError::BadHexByte(_)
    ));
}

#[test]
fn handles_whitespace_variation() {
    let caps = "(vcp(  60(01   0F  )  10 )prot(monitor))";
    assert_eq!(
        input_source_values(caps).unwrap().unwrap(),
        vec![0x01, 0x0F]
    );
}

#[test]
fn missing_vcp_section_is_an_error_not_an_empty_list() {
    let err = input_source_values("(prot(monitor)type(LCD))").unwrap_err();
    assert_eq!(err, MccsError::NoVcpSection);
}

#[test]
fn unbalanced_parens_are_rejected() {
    assert_eq!(
        parse_vcp_features("(vcp(60(01 0F)").unwrap_err(),
        MccsError::UnbalancedParens
    );
}

#[test]
fn malformed_hex_is_rejected_rather_than_skipped() {
    assert!(matches!(
        parse_vcp_features("(vcp(60(01 ZZ))").unwrap_err(),
        MccsError::BadHexByte(_)
    ));
}

#[test]
fn feature_listed_with_empty_value_list_is_distinct_from_absent() {
    let caps = "(vcp(60()10))";
    assert_eq!(input_source_values(caps).unwrap(), Some(vec![]));
}

#[test]
fn sections_are_found_by_their_whole_key() {
    assert_eq!(extract_section(AOC_REAL, "type"), Some("LCD"));
    assert_eq!(extract_section(AOC_REAL, "nothing"), None);
}

#[test]
fn sections_stand_at_the_top_level() {
    let nested = "(vendor(vcp(60(01)))vcp(10))";
    assert_eq!(extract_section(nested, "vcp"), Some("10"));
    assert_eq!(extract_section(nested, "vendor"), Some("vcp(60(01))"));
    assert_eq!(input_source_values(nested).unwrap(), None);
    assert_eq!(model("(vendor(model(A))model(B))").as_deref(), Some("B"));
    assert_eq!(extract_section("(vendor(model(A)))", "model"), None);
    // The outermost brackets may be missing.
    assert_eq!(extract_section("vendor(vcp(60))vcp(10)", "vcp"), Some("10"));
    assert_eq!(extract_section("vendor (vcp(60)) vcp (10)", "vcp"), Some("10"));
}

#[test]
fn brackets_that_are_no_section_hide_nothing() {
    assert_eq!(extract_section("(a)vcp(10)", "vcp"), Some("10"));
    assert_eq!(extract_section("\t(vcp(10))", "vcp"), Some("10"));
    assert_eq!(extract_section("Capabilities: (vcp(10))", "vcp"), Some("10"));
    assert_eq!(extract_section("((vcp(10)))", "vcp"), Some("10"));
    assert_eq!(extract_section(")vcp(10)", "vcp"), Some("10"));
    assert_eq!(extract_section("(a)vendor(vcp(60))vcp(10)", "vcp"), Some("10"));
    assert_eq!(input_source_values("\t(vcp(60(0F 11)))").unwrap(), Some(vec![0x0F, 0x11]));
}

#[test]
fn every_error_says_something() {
    for e in [
        MccsError::NoVcpSection,
        MccsError::UnbalancedParens,
        MccsError::BadHexByte("ZZ".into()),
    ] {
        assert!(!e.to_string().is_empty());
    }
    assert!(MccsError::BadHexByte("ZZ".into()).to_string().contains("ZZ"));
}
