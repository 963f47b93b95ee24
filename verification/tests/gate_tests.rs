use scoggle_gen::{verify_sbt_version, SBTVersion, SupportedSBTVersion};

#[test]
fn missing_manifest_fails_first() {
    let declaration = Some("sbt.version = 1.5.0".to_string());
    assert_eq!(
        verify_sbt_version(false, &declaration),
        SBTVersion::BuildSBTNotFound
    );
}

#[test]
fn missing_declaration_file_is_reported() {
    assert_eq!(
        verify_sbt_version(true, &None),
        SBTVersion::BuildPropertiesNotFound
    );
}

#[test]
fn declared_one_five_zero_is_valid() {
    let declaration = Some("sbt.version = 1.5.0".to_string());
    assert_eq!(verify_sbt_version(true, &declaration), SBTVersion::Valid);
}

#[test]
fn declared_zero_thirteen_is_unsupported() {
    let declaration = Some("sbt.version = 0.13.18".to_string());
    assert_eq!(
        verify_sbt_version(true, &declaration),
        SBTVersion::UnsupportedVersion(
            "0.13.18".to_string(),
            SupportedSBTVersion("1.4.5".to_string())
        )
    );
}

#[test]
fn content_without_declaration_line_is_unknown() {
    let content = "scala.version = 2.13.6\nname = demo\n";
    assert_eq!(
        verify_sbt_version(true, &Some(content.to_string())),
        SBTVersion::UnknownVersionString(content.to_string())
    );
}

#[test]
fn spacing_around_the_equals_sign_is_accepted() {
    assert_eq!(
        verify_sbt_version(true, &Some("sbt.version=1.4.5".to_string())),
        SBTVersion::Valid
    );
    assert_eq!(
        verify_sbt_version(true, &Some("sbt.version \t =   1.4.5".to_string())),
        SBTVersion::Valid
    );
    assert_eq!(
        verify_sbt_version(true, &Some("sbt.version\u{00A0}=\u{00A0}1.4.5".to_string())),
        SBTVersion::Valid
    );
}

#[test]
fn captured_token_is_trimmed_before_classification() {
    assert_eq!(
        verify_sbt_version(true, &Some("sbt.version = 1.4.4   \n".to_string())),
        SBTVersion::UnsupportedVersion(
            "1.4.4".to_string(),
            SupportedSBTVersion("1.4.5".to_string())
        )
    );
}

#[test]
fn first_declaration_line_wins() {
    let content = "# build properties\nsbt.version = 1.5.0\nsbt.version = 0.13.1\n";
    assert_eq!(
        verify_sbt_version(true, &Some(content.to_string())),
        SBTVersion::Valid
    );
}

#[test]
fn declaration_without_value_is_unknown() {
    let content = "sbt.version =\n";
    assert_eq!(
        verify_sbt_version(true, &Some(content.to_string())),
        SBTVersion::UnknownVersionString(content.to_string())
    );
}
