use bridge::config::{Preset, Side, SinkConfig, SinkDef, SurroundConfig, presets_configured};
use bridge::role::Role;
use bridge::routing::{
    RoutingRule, RuleTarget, StreamInfo, would_match_disabled_index, winning_rule_index,
};
use bridge::volume::VolumeDisplay;

fn stream(id: u32, app: Option<&str>, bin: Option<&str>) -> StreamInfo {
    StreamInfo {
        node_id: id,
        app_name: app.map(|s| s.to_owned()),
        app_icon: None,
        binary: bin.map(|s| s.to_owned()),
        media_name: None,
    }
}

fn rule(names: &[&str], bins: &[&str], target: RuleTarget, enabled: bool) -> RoutingRule {
    RoutingRule {
        display_name: "r".to_owned(),
        match_app_names: names.iter().map(|s| s.to_string()).collect(),
        match_binaries: bins.iter().map(|s| s.to_string()).collect(),
        target,
        enabled,
    }
}

#[test]
fn targets_serialize_and_parse_back() {
    for t in [RuleTarget::Aux, RuleTarget::Main, RuleTarget::DirectHw("alsa_output.usb".to_owned())] {
        let text = t.serialize();
        let back = RuleTarget::parse(&text).unwrap();
        assert!(back.same_as(&t));
    }
    assert_eq!(RuleTarget::Aux.serialize(), "aux");
    assert_eq!(RuleTarget::DirectHw("x".to_owned()).serialize(), "hw:x");
}

#[test]
fn target_parse_rejects_unknown_and_empty_hw() {
    assert!(RuleTarget::parse("hw:").is_none());
    assert!(RuleTarget::parse("Aux").is_none());
    assert!(RuleTarget::parse("").is_none());
    assert!(matches!(RuleTarget::parse("main"), Some(RuleTarget::Main)));
    match RuleTarget::parse("hw:hw:1") {
        Some(RuleTarget::DirectHw(n)) => assert_eq!(n, "hw:1"),
        _ => panic!("expected a hardware target"),
    }
}

#[test]
fn target_node_names() {
    assert_eq!(RuleTarget::Aux.node_name(), "dashboard_aux");
    assert_eq!(RuleTarget::Main.node_name(), "dashboard_main");
    assert_eq!(RuleTarget::DirectHw("alsa_output.pci".to_owned()).node_name(), "alsa_output.pci");
}

#[test]
fn rules_match_on_every_constrained_property() {
    let firefox = stream(1, Some("Firefox"), Some("firefox"));
    let both = rule(&["Firefox"], &["firefox"], RuleTarget::Aux, true);
    assert!(both.matches(&firefox));
    assert_eq!(both.specificity(), 2);
    let wrong_bin = rule(&["Firefox"], &["chrome"], RuleTarget::Aux, true);
    assert!(!wrong_bin.matches(&firefox));
    let unconstrained = rule(&[], &[], RuleTarget::Aux, true);
    assert!(!unconstrained.matches(&firefox));
    assert_eq!(unconstrained.specificity(), 0);
    let no_binary = stream(2, Some("Firefox"), None);
    assert!(!wrong_bin.matches(&no_binary));
    assert!(rule(&["Firefox"], &[], RuleTarget::Main, true).matches(&no_binary));
}

#[test]
fn most_specific_enabled_rule_wins_and_ties_go_to_the_last() {
    let s = stream(7, Some("Spotify"), Some("spotify"));
    let rules = vec![
        rule(&["Spotify"], &[], RuleTarget::Aux, true),
        rule(&[], &["spotify"], RuleTarget::Main, true),
        rule(&["Spotify"], &["spotify"], RuleTarget::Main, false),
    ];
    assert_eq!(winning_rule_index(&rules, &s), Some(1));
    assert_eq!(would_match_disabled_index(&rules, &s), Some(2));
    let mut more = rules.clone();
    more.push(rule(&["Spotify"], &["spotify"], RuleTarget::Aux, true));
    assert_eq!(winning_rule_index(&more, &s), Some(3));
    assert_eq!(winning_rule_index(&rules, &stream(8, Some("Other"), None)), None);
}

#[test]
fn roles_and_sides_read_back_their_wire_names() {
    for r in Role::all() {
        assert_eq!(Role::from_wire(r.as_wire()), Some(r));
    }
    assert_eq!(Role::from_wire("surround"), Some(Role::Surround));
    assert_eq!(Role::from_wire("mic"), None);
    assert_eq!(Role::from(Side::Aux), Role::Aux);
    assert_eq!(Role::from(Side::Main), Role::Main);
    for s in [Side::Aux, Side::Main] {
        assert_eq!(Side::from_wire(s.as_wire()), Some(s));
    }
    assert_eq!(Side::from_wire("left"), None);
}

#[test]
fn volume_display_keys() {
    assert_eq!(VolumeDisplay::Decibel.as_key(), "db");
    assert_eq!(VolumeDisplay::Percentage.as_key(), "percent");
    assert_eq!(VolumeDisplay::from_key("percent"), VolumeDisplay::Percentage);
    assert_eq!(VolumeDisplay::from_key("db"), VolumeDisplay::Decibel);
    assert_eq!(VolumeDisplay::from_key("anything"), VolumeDisplay::Decibel);
    assert_eq!(VolumeDisplay::default(), VolumeDisplay::Decibel);
}

fn def(hw: &str) -> SinkDef {
    SinkDef {
        channels: 2,
        position: "FL,FR".to_owned(),
        hw_name: hw.to_owned(),
        display_name: String::new(),
    }
}

#[test]
fn sink_config_sides() {
    let mut cfg = SinkConfig { aux: def("a"), main: def("m") };
    assert_eq!(cfg.side(Side::Aux).hw_name, "a");
    cfg.set_side(Side::Main, def("n"));
    assert_eq!(cfg.side(Side::Main).hw_name, "n");
    assert_eq!(cfg.side(Side::Aux).hw_name, "a");
}

#[test]
fn presets_match_and_count() {
    let mut p = Preset::with_id("p1".to_owned());
    assert!(!p.is_valid());
    p.aux_hw = "usb".to_owned();
    assert!(p.is_valid());
    assert!(p.matches("usb", "anything"));
    assert!(!p.matches("pci", "anything"));
    let mut q = Preset::with_id("p2".to_owned());
    q.main_hw = "hdmi".to_owned();
    assert!(!presets_configured(&vec![p.clone()]));
    assert!(presets_configured(&vec![p.clone(), Preset::with_id("x".to_owned()), q.clone()]));
    assert!(!presets_configured(&vec![p, Preset::with_id("x".to_owned())]));
}

#[test]
fn setup_and_surround_configured() {
    let cfg = SinkConfig { aux: def("a"), main: def("") };
    assert!(!cfg.sides_configured());
    let cfg = SinkConfig { aux: def("a"), main: def("m") };
    assert!(cfg.sides_configured());
    assert!(!SurroundConfig::default().enabled());
    let s = SurroundConfig { hrir_path: "/h.wav".to_owned(), ..Default::default() };
    assert!(s.enabled());
}
