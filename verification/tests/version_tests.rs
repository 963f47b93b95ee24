use scoggle_gen::{validate_sbt_version, SBTVersion, SupportedSBTVersion};

#[test]
fn validate_sbt_version_valid() {
    assert_eq!(validate_sbt_version("1.4.5"), SBTVersion::Valid);
    assert_eq!(validate_sbt_version("1.4.6"), SBTVersion::Valid);
    assert_eq!(validate_sbt_version("1.5.0"), SBTVersion::Valid);
    assert_eq!(validate_sbt_version("1.6.5"), SBTVersion::Valid)
}

#[test]
fn validate_sbt_version_unsupported() {
    let supported_sbt_version = SupportedSBTVersion("1.4.5".to_string());
    assert_eq!(
        validate_sbt_version("0.13.1"),
        SBTVersion::UnsupportedVersion("0.13.1".to_string(), supported_sbt_version.clone())
    );
    assert_eq!(
        validate_sbt_version("1.4.4"),
        SBTVersion::UnsupportedVersion("1.4.4".to_string(), supported_sbt_version.clone())
    );
    assert_eq!(
        validate_sbt_version("1.3.6"),
        SBTVersion::UnsupportedVersion("1.3.6".to_string(), supported_sbt_version)
    );
}

#[test]
fn validate_sbt_version_unknown_version() {
    assert_eq!(
        validate_sbt_version("a.b.c"),
        SBTVersion::UnknownVersionString("a.b.c".to_string())
    );
    assert_eq!(
        validate_sbt_version("1.b.5"),
        SBTVersion::UnknownVersionString("1.b.5".to_string())
    );
}

#[test]
fn minor_above_four_is_valid_whatever_the_patch() {
    assert_eq!(validate_sbt_version("1.10.0"), SBTVersion::Valid);
    assert_eq!(validate_sbt_version("1.255.255"), SBTVersion::Valid);
    assert_eq!(validate_sbt_version("1.5.255"), SBTVersion::Valid);
}

#[test]
fn minor_four_needs_patch_five() {
    assert_eq!(validate_sbt_version("1.4.10"), SBTVersion::Valid);
    let supported = SupportedSBTVersion("1.4.5".to_string());
    assert_eq!(
        validate_sbt_version("1.4.0"),
        SBTVersion::UnsupportedVersion("1.4.0".to_string(), supported.clone())
    );
    assert_eq!(
        validate_sbt_version("1.0.0"),
        SBTVersion::UnsupportedVersion("1.0.0".to_string(), supported)
    );
}

#[test]
fn major_zero_is_unsupported_whatever_follows() {
    let supported = SupportedSBTVersion("1.4.5".to_string());
    assert_eq!(
        validate_sbt_version("0.13.18"),
        SBTVersion::UnsupportedVersion("0.13.18".to_string(), supported.clone())
    );
    assert_eq!(
        validate_sbt_version("0.x.!"),
        SBTVersion::UnsupportedVersion("0.x.!".to_string(), supported)
    );
}

#[test]
fn malformed_tokens_are_unknown() {
    assert_eq!(
        validate_sbt_version(""),
        SBTVersion::UnknownVersionString("".to_string())
    );
    assert_eq!(
        validate_sbt_version("1.2"),
        SBTVersion::UnknownVersionString("1.2".to_string())
    );
    assert_eq!(
        validate_sbt_version("1.2.3.4"),
        SBTVersion::UnknownVersionString("1.2.3.4".to_string())
    );
    assert_eq!(
        validate_sbt_version("2.0.0"),
        SBTVersion::UnknownVersionString("2.0.0".to_string())
    );
    assert_eq!(
        validate_sbt_version("1..5"),
        SBTVersion::UnknownVersionString("1..5".to_string())
    );
}

#[test]
fn minor_and_patch_are_not_bounded() {
    assert_eq!(validate_sbt_version("1.256.0"), SBTVersion::Valid);
    assert_eq!(validate_sbt_version("1.5.1000"), SBTVersion::Valid);
    assert_eq!(
        validate_sbt_version("1.99999999999999999999.0"),
        SBTVersion::Valid
    );
    let supported = SupportedSBTVersion("1.4.5".to_string());
    assert_eq!(
        validate_sbt_version("1.4.00000000000000000001"),
        SBTVersion::UnsupportedVersion("1.4.00000000000000000001".to_string(), supported)
    );
}

#[test]
fn plus_signed_parts_parse_as_numbers() {
    assert_eq!(validate_sbt_version("1.+5.0"), SBTVersion::Valid);
    assert_eq!(
        validate_sbt_version("1.+.0"),
        SBTVersion::UnknownVersionString("1.+.0".to_string())
    );
}
