use bridge::util::{accelerator_from_trigger_description, parse_default_name, stream_count};

#[test]
fn pulls_name_from_json() {
    assert_eq!(
        parse_default_name(r#"{"name":"bridge_main"}"#).as_deref(),
        Some("bridge_main")
    );
    assert_eq!(
        parse_default_name(r#"{ "name": "alsa_output.pci-0000" }"#).as_deref(),
        Some("alsa_output.pci-0000")
    );
}

#[test]
fn none_when_no_name() {
    assert_eq!(parse_default_name(r#"{"other":"x"}"#), None);
    assert_eq!(parse_default_name(""), None);
}

#[test]
fn unterminated_name_is_none() {
    assert_eq!(parse_default_name(r#"{"name": "abc"#), None);
    assert_eq!(parse_default_name(r#"{"name" "abc"}"#), None);
}

#[test]
fn stream_counts() {
    assert_eq!(stream_count(0), "No streams");
    assert_eq!(stream_count(1), "1 stream");
    assert_eq!(stream_count(12), "12 streams");
}

#[test]
fn accelerators() {
    assert_eq!(
        accelerator_from_trigger_description("Press <Shift><Control>Left"),
        "<Shift><Control>Left"
    );
    assert_eq!(accelerator_from_trigger_description("  Press F5 "), "F5");
    assert_eq!(accelerator_from_trigger_description("F5"), "F5");
    assert_eq!(accelerator_from_trigger_description("   "), "");
}
