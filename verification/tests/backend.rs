use std::sync::Arc;
use std::sync::atomic::{AtomicU32, Ordering};

use bridge::backend::{
    Mirror, Notice, SURROUND_POSITION, retarget_decision, retarget_target, side_layout,
    test_tone_layout,
};
use bridge::config::{Side, SinkConfig, SinkDef};
use bridge::hw_device::HwDevice;
use bridge::idset::IdSet;
use bridge::pw_connection::Event;
use bridge::role::Role;
use bridge::routing::{RoutingRule, RuleTarget, StreamInfo};

fn stream(id: u32, app: &str) -> StreamInfo {
    StreamInfo {
        node_id: id,
        app_name: Some(app.to_owned()),
        app_icon: None,
        binary: None,
        media_name: None,
    }
}

fn rule_for(app: &str, target: RuleTarget) -> RoutingRule {
    RoutingRule {
        display_name: app.to_owned(),
        match_app_names: vec![app.to_owned()],
        match_binaries: vec![],
        target,
        enabled: true,
    }
}

fn device(id: u32, name: &str, display: &str) -> HwDevice {
    HwDevice {
        node_id: id,
        name: name.to_owned(),
        display_name: display.to_owned(),
        device_api: String::new(),
        device_bus: String::new(),
        profile_name: String::new(),
        channels: 2,
        position: "FL,FR".to_owned(),
    }
}

fn added(id: u32, app: &str) -> Event {
    Event::StreamAdded { info: stream(id, app), peak: Arc::new(AtomicU32::new(0)) }
}

#[test]
fn retargets_only_what_rules_take_and_clears_only_what_it_moved() {
    let rules = vec![rule_for("Spotify", RuleTarget::Aux)];
    let mut touched = IdSet::new();
    assert_eq!(retarget_decision(&stream(1, "Firefox"), &rules, &mut touched), None);
    assert!(!touched.contains(1));
    assert_eq!(
        retarget_decision(&stream(2, "Spotify"), &rules, &mut touched),
        Some((2, Some("dashboard_aux".to_owned())))
    );
    assert!(touched.contains(2));
    // the rule went away: the moved stream is handed back once
    assert_eq!(retarget_decision(&stream(2, "Spotify"), &vec![], &mut touched), Some((2, None)));
    assert!(!touched.contains(2));
    assert_eq!(retarget_decision(&stream(2, "Spotify"), &vec![], &mut touched), None);
}

#[test]
fn nothing_is_announced_before_the_first_settle() {
    let mut m = Mirror::new();
    let rules = vec![rule_for("Spotify", RuleTarget::Main)];
    let r = m.handle_event(Event::SinkAdded(device(5, "alsa_output.a", "A")), &rules);
    assert!(r.notices.is_empty());
    let r = m.handle_event(added(30, "Spotify"), &rules);
    assert!(r.notices.is_empty());
    assert!(r.retargets.is_empty());
    let r = m.handle_event(Event::Settled, &rules);
    assert!(r.create_temp_sinks);
    assert_eq!(r.notices, vec![Notice::SinksReady]);
    assert_eq!(r.retargets, vec![(30, Some("dashboard_main".to_owned()))]);
    let r = m.handle_event(Event::SinkAdded(device(6, "alsa_output.b", "B")), &rules);
    assert_eq!(r.notices, vec![Notice::SinksChanged]);
    assert_eq!(m.hw_sinks().len(), 2);
}

#[test]
fn streams_get_their_rule_when_they_appear() {
    let mut m = Mirror::new();
    let rules = vec![rule_for("Spotify", RuleTarget::DirectHw("alsa_output.usb".to_owned()))];
    m.handle_event(Event::Settled, &rules);
    let r = m.handle_event(added(40, "Spotify"), &rules);
    assert_eq!(r.retargets, vec![(40, Some("alsa_output.usb".to_owned()))]);
    assert_eq!(r.notices, vec![Notice::StreamsChanged]);
    let r = m.handle_event(added(41, "Firefox"), &rules);
    assert!(r.retargets.is_empty());
    assert_eq!(m.output_streams().len(), 2);
    assert!(m.stream_peak_atomic(40).is_some());
    // the rule is removed: only the moved stream is cleared
    let cleared = m.apply_rules_all(&vec![]);
    assert_eq!(cleared, vec![(40, None)]);
    assert!(m.apply_rules_all(&vec![]).is_empty());
    let r = m.handle_event(Event::StreamRemoved(40), &rules);
    assert_eq!(r.notices, vec![Notice::StreamsChanged]);
    assert!(m.stream_peak_atomic(40).is_none());
    let r = m.handle_event(Event::StreamRemoved(40), &rules);
    assert!(r.notices.is_empty());
}

#[test]
fn peaks_are_shared_with_the_meters() {
    let mut m = Mirror::new();
    let peak = Arc::new(AtomicU32::new(0));
    m.handle_event(Event::StreamAdded { info: stream(7, "x"), peak: Arc::clone(&peak) }, &vec![]);
    peak.store(99, Ordering::Relaxed);
    assert_eq!(m.stream_peak_atomic(7).unwrap().load(Ordering::Relaxed), 99);
}

#[test]
fn owned_devices_and_their_notices() {
    let mut m = Mirror::new();
    assert!(!m.owned_sinks_present());
    let r = m.handle_event(Event::NodeReady { role: Role::Aux, id: 1 }, &vec![]);
    assert_eq!(r.notices, vec![Notice::OwnedChanged]);
    m.handle_event(Event::NodeReady { role: Role::Main, id: 2 }, &vec![]);
    assert!(m.owned_sinks_present());
    assert!(m.present(Role::Main));
    let r = m.handle_event(Event::NodeReady { role: Role::Surround, id: 3 }, &vec![]);
    assert_eq!(r.notices, vec![Notice::SurroundReady]);
    let r = m.handle_event(Event::NodeRemoved { role: Role::Surround }, &vec![]);
    assert_eq!(r.notices, vec![Notice::SurroundRemoved]);
    let r = m.handle_event(Event::NodeRemoved { role: Role::Surround }, &vec![]);
    assert_eq!(r.notices, vec![Notice::SurroundRemoved]);
    let r = m.handle_event(Event::NodeRemoved { role: Role::Main }, &vec![]);
    assert_eq!(r.notices, vec![Notice::OwnedChanged]);
    let r = m.handle_event(Event::NodeRemoved { role: Role::Main }, &vec![]);
    assert!(r.notices.is_empty());
    assert!(!m.owned_sinks_present());
    let r = m.handle_event(Event::ModuleFailed { role: Role::Aux }, &vec![]);
    assert!(r.notices.is_empty() && r.retargets.is_empty() && !r.create_temp_sinks);
}

#[test]
fn aux_streams_and_defaults() {
    let mut m = Mirror::new();
    m.handle_event(added(1, "a"), &vec![]);
    m.handle_event(added(2, "b"), &vec![]);
    let r = m.handle_event(Event::AuxStreamsChanged(vec![2, 3, 2]), &vec![]);
    assert_eq!(r.notices, vec![Notice::AuxStreamsChanged]);
    assert_eq!(m.aux_stream_count(), 2);
    let aux = m.aux_streams();
    assert_eq!(aux.len(), 1);
    assert_eq!(aux[0].node_id, 2);
    assert_eq!(m.default_sink_name(), None);
    assert_eq!(m.main_is_default(), None);
    let r = m.handle_event(Event::DefaultSink(Some("{\"name\":\"dashboard_main\"}".to_owned())), &vec![]);
    assert_eq!(r.notices, vec![Notice::DefaultChanged]);
    assert_eq!(m.default_sink_name().as_deref(), Some("dashboard_main"));
    assert_eq!(m.main_is_default(), Some(true));
    assert_eq!(m.is_default("alsa_output.x"), Some(false));
    m.handle_event(Event::DefaultSink(Some("garbage".to_owned())), &vec![]);
    assert_eq!(m.default_sink_name(), None);
    let r = m.handle_event(Event::DefaultSource(Some("{ \"name\": \"alsa_input.usb\" }".to_owned())), &vec![]);
    assert_eq!(r.notices, vec![Notice::DefaultSourceChanged]);
    assert_eq!(m.default_source_name().as_deref(), Some("alsa_input.usb"));
}

#[test]
fn device_lists_sort_for_display() {
    let mut m = Mirror::new();
    m.handle_event(Event::SinkAdded(device(1, "alsa_output.z", "zeta")), &vec![]);
    m.handle_event(Event::SinkAdded(device(2, "alsa_output.a", "Alpha")), &vec![]);
    m.handle_event(Event::SourceAdded(device(3, "alsa_input.m", "Mic")), &vec![]);
    let names: Vec<String> = m.hw_sinks().iter().map(|d| d.display_name.clone()).collect();
    assert_eq!(names, vec!["Alpha".to_owned(), "zeta".to_owned()]);
    assert_eq!(m.hw_sources().len(), 1);
    let r = m.handle_event(Event::SourceRemoved(3), &vec![]);
    assert!(r.notices.is_empty());
    assert!(m.hw_sources().is_empty());
}

fn def(channels: u32, hw: &str) -> SinkDef {
    SinkDef {
        channels,
        position: "FL,FR".to_owned(),
        hw_name: hw.to_owned(),
        display_name: String::new(),
    }
}

#[test]
fn temp_sinks_only_for_sides_not_live() {
    let cfg = SinkConfig { aux: def(2, "usb"), main: def(2, "") };
    let mut m = Mirror::new();
    assert!(m.plan_temp_sinks(None).is_empty());
    assert!(!m.using_temp_sinks());
    let plan = m.plan_temp_sinks(Some(&cfg));
    assert_eq!(plan.len(), 2);
    assert_eq!(plan[0].0, Role::Aux);
    assert_eq!(plan[1].0, Role::Main);
    assert!(plan[0].1.starts_with("{\n      capture.props"));
    assert!(m.using_temp_sinks());
    m.handle_event(Event::NodeReady { role: Role::Aux, id: 1 }, &vec![]);
    m.handle_event(Event::NodeReady { role: Role::Main, id: 2 }, &vec![]);
    assert!(m.plan_temp_sinks(Some(&cfg)).is_empty());
    assert!(!m.using_temp_sinks());
}

#[test]
fn layouts_and_retarget_targets() {
    let cfg = SinkConfig { aux: def(1, "usb"), main: def(6, "") };
    assert_eq!(side_layout(&cfg, Side::Aux), (2, "FL,FR".to_owned()));
    assert_eq!(side_layout(&cfg, Side::Main), (6, "FL,FR".to_owned()));
    assert_eq!(test_tone_layout(Role::Surround, &cfg), (8, SURROUND_POSITION.to_owned()));
    assert_eq!(SURROUND_POSITION, "FL,FR,FC,LFE,RL,RR,SL,SR");
    assert_eq!(test_tone_layout(Role::Main, &cfg).0, 6);
    assert_eq!(retarget_target(""), None);
    assert_eq!(retarget_target("alsa_output.usb").as_deref(), Some("alsa_output.usb"));
}
