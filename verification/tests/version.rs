use eli_lib::version::{EdgelessVersion, EdgelessVersionIdentifier, ReleaseChannel, ReleaseStage};

#[test]
fn identifiers_print_the_way_they_parse() {
    for text in [
        "Edgeless_Alpha_4.1.2",
        "Edgeless_Beta_4.1.0",
        "Edgeless_Beta_Ofial_4.1.0_2",
        "Edgeless_Alpha_0.0.0_17",
    ] {
        let id = EdgelessVersionIdentifier::parse(text).unwrap();
        assert_eq!(id.to_string(), text);
        assert_eq!(EdgelessVersionIdentifier::parse(&id.to_string()).unwrap(), id);
    }
}

#[test]
fn parses_the_parts_of_an_identifier() {
    let id = EdgelessVersionIdentifier::parse("Edgeless_Beta_Ofial_4.1.0_2").unwrap();
    assert_eq!(id.stage, ReleaseStage::Beta);
    assert_eq!(id.channel, Some(ReleaseChannel::Official));
    assert_eq!(id.version, EdgelessVersion { major: 4, minor: 1, patch: 0 });
    assert_eq!(id.revision, Some(2));
}

#[test]
fn rejects_malformed_identifiers() {
    for text in ["", "Edgeless_Gamma_4.1.0", "Edgeless_Beta_4.1", "Edgeless_Beta_4.1.0_"] {
        assert!(EdgelessVersionIdentifier::parse(text).is_err(), "{text}");
    }
}
