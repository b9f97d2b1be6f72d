use workgraph::trust::{parse_trust_level, TrustLevel};

#[test]
fn trust_levels_parse_in_any_case() {
    assert_eq!(parse_trust_level("verified"), Ok(TrustLevel::Verified));
    assert_eq!(parse_trust_level("Provisional"), Ok(TrustLevel::Provisional));
    assert_eq!(parse_trust_level("UNKNOWN"), Ok(TrustLevel::Unknown));
}

#[test]
fn bad_trust_level_is_refused() {
    assert_eq!(
        parse_trust_level("trusted"),
        Err("Invalid trust level 'trusted'. Expected: verified, provisional, unknown".to_string())
    );
}
