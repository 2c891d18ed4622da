use bridge::config::Preset;
use bridge::hw_sink::HwSink;
use bridge::quick_switch::{find_sink_position, preset_devices_present, quick_switch_plan};
use bridge::routing::{RoutingRule, RuleTarget, StreamInfo};
use bridge::routing_view::{
    group_streams, match_summary, routing_tile, rule_subtitle, sort_key, sort_stream_list,
    stream_row_text, target_choices, TileItem,
};

fn s(v: &[&str]) -> Vec<String> {
    v.iter().map(|x| x.to_string()).collect()
}

fn stream(id: u32, app: Option<&str>, bin: Option<&str>, media: Option<&str>) -> StreamInfo {
    StreamInfo {
        node_id: id,
        app_name: app.map(str::to_owned),
        app_icon: None,
        binary: bin.map(str::to_owned),
        media_name: media.map(str::to_owned),
    }
}

fn sink(id: u32, name: &str) -> HwSink {
    HwSink {
        node_id: id,
        name: name.to_owned(),
        display_name: format!("{name} out"),
        device_api: String::new(),
        device_bus: String::new(),
        profile_name: String::new(),
        channels: 2,
        position: "FL,FR".to_owned(),
    }
}

#[test]
fn rule_lines() {
    assert_eq!(match_summary(&s(&[])), None);
    assert_eq!(match_summary(&s(&["Firefox"])).as_deref(), Some("Firefox"));
    assert_eq!(match_summary(&s(&["a", "b", "c"])).as_deref(), Some("one of 3"));
    let mut rule = RoutingRule {
        display_name: "r".to_owned(),
        match_app_names: s(&["Firefox"]),
        match_binaries: s(&["a", "b"]),
        target: RuleTarget::Aux,
        enabled: true,
    };
    assert_eq!(rule_subtitle(&rule), "Firefox \u{b7} one of 2");
    rule.match_app_names.clear();
    assert_eq!(rule_subtitle(&rule), "one of 2");
    rule.match_binaries.clear();
    assert_eq!(rule_subtitle(&rule), "(no constraints)");
}

#[test]
fn route_choices_keep_a_gone_output() {
    let sinks = vec![sink(1, "usb")];
    let (choices, sel) = target_choices(&sinks, &RuleTarget::Main);
    assert_eq!(choices.len(), 3);
    assert_eq!(sel, 1);
    let (choices, sel) = target_choices(&sinks, &RuleTarget::DirectHw("usb".to_owned()));
    assert_eq!(choices.len(), 3);
    assert_eq!(sel, 2);
    let (choices, sel) = target_choices(&sinks, &RuleTarget::DirectHw("gone".to_owned()));
    assert_eq!(choices.len(), 4);
    assert_eq!(sel, 3);
    assert_eq!(choices[3].label, "gone");
}

#[test]
fn stream_lists() {
    let streams = vec![
        stream(5, Some("zed"), None, None),
        stream(6, None, Some("Alpha"), Some("m")),
        stream(7, Some("beta"), Some("b"), Some("song")),
    ];
    assert_eq!(sort_key(&streams[1]), "alpha");
    let sorted = sort_stream_list(&streams);
    let ids: Vec<u32> = sorted.iter().map(|x| x.node_id).collect();
    assert_eq!(ids, vec![6, 7, 5]);
    let grouped = group_streams(&vec![7, 9, 5], &streams);
    let ids: Vec<u32> = grouped.iter().map(|x| x.node_id).collect();
    assert_eq!(ids, vec![7, 5]);
    assert_eq!(stream_row_text(&streams[2]), ("beta".to_owned(), Some("b \u{b7} song".to_owned())));
    assert_eq!(stream_row_text(&streams[1]), ("Alpha".to_owned(), Some("m".to_owned())));
    assert_eq!(
        stream_row_text(&stream(8, None, None, None)),
        ("Unknown application".to_owned(), None)
    );
}

fn preset(aux: &str, main: &str) -> Preset {
    let mut p = Preset::with_id("id".to_owned());
    p.aux_hw = aux.to_owned();
    p.main_hw = main.to_owned();
    p
}

#[test]
fn quick_switch_alternates_between_presets() {
    let sinks = vec![sink(1, "usb"), sink(2, "hdmi"), sink(0, "gone")];
    let presets = vec![preset("usb", "hdmi"), preset("hdmi", "")];
    let plan = quick_switch_plan(false, &presets, "usb", "hdmi", &sinks).unwrap();
    assert_eq!(plan.aux_hw.as_deref(), Some("hdmi"));
    assert_eq!(plan.main_hw, None);
    let plan = quick_switch_plan(false, &presets, "hdmi", "hdmi", &sinks).unwrap();
    assert_eq!(plan.aux_hw.as_deref(), Some("usb"));
    assert_eq!(plan.main_hw.as_deref(), Some("hdmi"));
    assert!(quick_switch_plan(true, &presets, "usb", "hdmi", &sinks).is_none());
    assert!(quick_switch_plan(false, &presets[..1].to_vec(), "usb", "hdmi", &sinks).is_none());
    let absent = vec![preset("usb", "hdmi"), preset("missing", "")];
    assert!(quick_switch_plan(false, &absent, "usb", "hdmi", &sinks).is_none());
    assert!(!preset_devices_present(&preset("missing", ""), &sinks));
    assert!(preset_devices_present(&preset("", "usb"), &sinks));
    assert_eq!(find_sink_position(&sinks, "hdmi"), Some(1));
    assert_eq!(find_sink_position(&sinks, "gone"), None);
}

fn named_rule(name: &str, apps: &[&str], bins: &[&str], enabled: bool) -> RoutingRule {
    RoutingRule {
        display_name: name.to_owned(),
        match_app_names: s(apps),
        match_binaries: s(bins),
        target: RuleTarget::Aux,
        enabled,
    }
}

fn tile_fixture() -> (Vec<RoutingRule>, Vec<StreamInfo>) {
    let rules = vec![
        named_rule("Browser", &["Firefox"], &[], true),
        named_rule("Video", &[], &["mpv"], false),
        named_rule("Alpha", &["Nothing"], &[], true),
    ];
    let streams = vec![
        stream(10, Some("Firefox"), Some("firefox"), None),
        stream(11, Some("mpv Media Player"), Some("mpv"), None),
        stream(12, Some("VLC"), Some("vlc"), None),
        stream(13, Some("VLC"), Some("vlc"), None),
        stream(14, None, None, None),
    ];
    (rules, streams)
}

#[test]
fn routing_tile_assigns_streams() {
    let (rules, streams) = tile_fixture();
    let tile = routing_tile(&rules, &streams);
    // the enabled rule takes Firefox; the disabled rule keeps mpv listed
    assert_eq!(tile.matched, vec![vec![10], vec![11], vec![]]);
    assert_eq!(tile.unruled.len(), 2);
    // absent names sort first
    assert_eq!(tile.unruled[0], (None, None, vec![14]));
    assert_eq!(tile.unruled[1], (Some("VLC".to_owned()), Some("vlc".to_owned()), vec![12, 13]));
    assert!(tile.can_add);
}

#[test]
fn routing_tile_badge_counts_live_enabled_rules() {
    let (rules, streams) = tile_fixture();
    assert_eq!(routing_tile(&rules, &streams).active, 1);
    let mut all_on = rules.clone();
    all_on[1].enabled = true;
    assert_eq!(routing_tile(&all_on, &streams).active, 2);
}

#[test]
fn routing_tile_orders_by_activity_then_title() {
    let (rules, streams) = tile_fixture();
    let tile = routing_tile(&rules, &streams);
    assert_eq!(
        tile.items,
        vec![
            TileItem::Group(0),
            TileItem::Rule(0),
            TileItem::Rule(1),
            TileItem::Group(1),
            TileItem::Rule(2),
        ]
    );
}

#[test]
fn routing_tile_enabled_rule_wins_over_disabled() {
    let rules = vec![
        named_rule("Off", &["Firefox"], &["firefox"], false),
        named_rule("On", &["Firefox"], &[], true),
    ];
    let streams = vec![stream(1, Some("Firefox"), Some("firefox"), None)];
    let tile = routing_tile(&rules, &streams);
    assert_eq!(tile.matched, vec![vec![], vec![1]]);
    assert!(tile.unruled.is_empty());
}

#[test]
fn routing_tile_without_streams() {
    let rules = vec![named_rule("Browser", &["Firefox"], &[], true)];
    let tile = routing_tile(&rules, &Vec::new());
    assert!(!tile.can_add);
    assert_eq!(tile.active, 0);
    assert_eq!(tile.items, vec![TileItem::Rule(0)]);
}
