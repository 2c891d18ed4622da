use bridge::hw_sink::HwSink;
use bridge::routing::{RoutingRule, RuleTarget, StreamInfo};
use bridge::rule_builder::{
    build_groups, clause, distinct, field_subtitle, field_summary, group_subtitle, group_title,
    no_identity_message, preselected_groups, preview, preview_subtitle, preview_title, provisional_rule, rule_from,
    selected_streams, selected_titles, selection_properties, sentence, shared_identity,
    sort_streams, stream_sort_key, strip_binary_suffix, suggested_display_name,
};
use bridge::util::route_targets;

fn s(v: &[&str]) -> Vec<String> {
    v.iter().map(|x| x.to_string()).collect()
}

fn stream(id: u32, app: Option<&str>, bin: Option<&str>, media: Option<&str>) -> StreamInfo {
    StreamInfo {
        node_id: id,
        app_name: app.map(str::to_owned),
        app_icon: None,
        binary: bin.map(str::to_owned),
        media_name: media.map(str::to_owned),
    }
}

#[test]
fn binary_names_lose_their_suffix_and_gain_a_capital() {
    assert_eq!(strip_binary_suffix("spotify.bin"), "Spotify");
    assert_eq!(strip_binary_suffix("game.exe"), "Game");
    assert_eq!(strip_binary_suffix("Tool.app"), "Tool");
    assert_eq!(strip_binary_suffix("firefox"), "Firefox");
    assert_eq!(strip_binary_suffix(""), "");
    assert_eq!(strip_binary_suffix("ßcript"), "SScript");
}

#[test]
fn group_titles() {
    assert_eq!(group_title(&Some("Firefox".to_owned()), &Some("firefox".to_owned())), "Firefox");
    assert_eq!(group_title(&None, &Some("mpv.bin".to_owned())), "Mpv");
    assert_eq!(group_title(&None, &None), "Unknown app");
}

#[test]
fn distinct_keeps_first_occurrences() {
    assert_eq!(distinct(&s(&["a", "b", "a", "c", "b"])), s(&["a", "b", "c"]));
    assert!(distinct(&vec![]).is_empty());
}

#[test]
fn identity_and_sentences() {
    assert!(shared_identity(&s(&["a"]), &s(&["x", "y"])));
    assert!(!shared_identity(&s(&["a", "b"]), &s(&[])));
    assert_eq!(field_summary(&s(&[])), "");
    assert_eq!(field_summary(&s(&["a"])), "a");
    assert_eq!(field_summary(&s(&["a", "b"])), "a, b");
    assert_eq!(clause("name", &s(&[])), None);
    assert_eq!(clause("name", &s(&["Firefox"])).as_deref(), Some("name is Firefox"));
    assert_eq!(clause("binary", &s(&["a", "b", "c"])).as_deref(), Some("binary is one of 3"));
    assert_eq!(sentence(&s(&["A"]), &s(&["a"]), false, false), "Turn on a property below to match anything");
    assert_eq!(sentence(&s(&["A"]), &s(&["a"]), true, false), "Matches every stream where name is A");
    assert_eq!(
        sentence(&s(&["A"]), &s(&["a", "b"]), true, true),
        "Matches every stream where name is A and binary is one of 2"
    );
    assert_eq!(field_subtitle(&s(&["a"]), false, "name"), "Off \u{2014} matches any name");
    assert_eq!(field_subtitle(&s(&["a", "b"]), true, "name"), "a, b");
    assert_eq!(
        no_identity_message(&s(&["A", "B"])),
        "A and B share neither a name nor a binary. A rule targets one app identity. Add them as separate rules."
    );
    assert!(no_identity_message(&s(&["A", "B", "C"])).starts_with("A, B, C share neither"));
}

#[test]
fn groups_collect_streams_by_app() {
    let streams = vec![
        stream(1, Some("Firefox"), Some("firefox"), Some("Tab 1")),
        stream(2, Some("Spotify"), None, Some("Song")),
        stream(3, Some("Firefox"), Some("firefox"), Some("Tab 2")),
    ];
    let groups = build_groups(&streams);
    assert_eq!(groups.len(), 2);
    assert_eq!(groups[0].title, "Firefox");
    assert_eq!(groups[0].stream_idx, vec![0, 2]);
    assert_eq!(groups[0].media_names, s(&["Tab 1", "Tab 2"]));
    assert_eq!(groups[1].title, "Spotify");
    assert_eq!(group_subtitle(&groups[0]), "firefox \u{b7} 2 streams");
    assert_eq!(group_subtitle(&groups[1]), "1 stream");
    let checked = vec![true, true];
    let idx = selected_streams(&groups, &checked);
    assert_eq!(idx, vec![0, 2, 1]);
    assert_eq!(selected_titles(&groups, &checked), s(&["Firefox", "Spotify"]));
    let (names, bins) = selection_properties(&streams, &idx);
    assert_eq!(names, s(&["Firefox", "Firefox", "Spotify"]));
    assert_eq!(bins, s(&["firefox", "firefox"]));
    assert_eq!(distinct(&names), s(&["Firefox", "Spotify"]));
    assert_eq!(distinct(&bins), s(&["firefox"]));
}

fn targets() -> Vec<bridge::util::RouteTarget> {
    let hw = vec![HwSink {
        node_id: 9,
        name: "alsa_output.usb".to_owned(),
        display_name: "USB".to_owned(),
        device_api: String::new(),
        device_bus: String::new(),
        profile_name: String::new(),
        channels: 2,
        position: "FL,FR".to_owned(),
    }];
    route_targets(&hw)
}

#[test]
fn rules_from_the_controls() {
    let opts = targets();
    assert_eq!(opts.len(), 3);
    let r = rule_from(&s(&["Firefox"]), &s(&["firefox"]), true, false, "  Web  ", &opts, 2).unwrap();
    assert_eq!(r.display_name, "Web");
    assert_eq!(r.match_app_names, s(&["Firefox"]));
    assert!(r.match_binaries.is_empty());
    assert!(matches!(r.target, RuleTarget::DirectHw(ref n) if n == "alsa_output.usb"));
    assert!(r.enabled);
    assert!(rule_from(&s(&["Firefox"]), &s(&[]), false, true, "Web", &opts, 0).is_none());
    assert!(rule_from(&s(&["Firefox"]), &s(&[]), true, true, "   ", &opts, 0).is_none());
    assert!(rule_from(&s(&["a", "b"]), &s(&["x", "y"]), true, true, "Web", &opts, 0).is_none());
    assert!(rule_from(&s(&["a"]), &s(&[]), true, true, "Web", &opts, 3).is_none());
}

#[test]
fn provisional_rule_follows_the_checked_groups() {
    let streams = vec![
        stream(1, Some("Firefox"), Some("firefox"), None),
        stream(2, Some("Firefox"), Some("firefox-bin"), None),
    ];
    let groups = build_groups(&streams);
    let opts = targets();
    let checked = vec![true; groups.len()];
    let r = provisional_rule(&streams, &groups, &checked, true, true, "Fx", &opts, 0).unwrap();
    assert_eq!(r.match_app_names, s(&["Firefox"]));
    assert_eq!(r.match_binaries, s(&["firefox", "firefox-bin"]));
    assert!(matches!(r.target, RuleTarget::Aux));
    let (hits, caption) = preview(&Some(r), &streams);
    assert_eq!(hits, vec![true, true]);
    assert_eq!(caption, "2 of 2 streams playing right now match this rule");
    let (hits, caption) = preview(&None, &streams);
    assert_eq!(hits, vec![false, false]);
    assert_eq!(caption, "0 of 2 streams playing right now match this rule");
}

#[test]
fn stream_texts_and_sorting() {
    let a = stream(1, Some("zed"), Some("z"), Some("m"));
    let b = stream(2, Some("Alpha"), None, None);
    assert_eq!(preview_subtitle(&a), "z \u{b7} m");
    assert_eq!(preview_subtitle(&b), "");
    assert_eq!(stream_sort_key(&b), ("alpha".to_owned(), String::new(), String::new()));
    let sorted = sort_streams(vec![a.clone(), b.clone()]);
    assert_eq!(sorted[0].node_id, 2);
    assert_eq!(sorted[1].node_id, 1);
    assert_eq!(preview_title(&a), "zed");
    assert_eq!(preview_title(&stream(3, None, Some("bin"), None)), "bin");
    assert_eq!(preview_title(&stream(4, None, None, None)), "");
}

#[test]
fn suggested_names() {
    assert_eq!(suggested_display_name(&vec![]), "");
    assert_eq!(suggested_display_name(&vec![stream(1, None, Some("mpv.bin"), None)]), "Mpv");
    assert_eq!(
        suggested_display_name(&vec![stream(1, Some("A"), None, None), stream(2, Some("A"), None, None)]),
        "A"
    );
    assert_eq!(
        suggested_display_name(&vec![stream(1, Some("A"), None, None), stream(2, Some("B"), None, None)]),
        ""
    );
    assert_eq!(
        suggested_display_name(&vec![stream(1, Some("A"), None, None), stream(2, None, Some("a"), None)]),
        ""
    );
}

#[test]
fn unconstrained_rules_match_no_stream() {
    let rule = RoutingRule {
        display_name: "x".to_owned(),
        match_app_names: vec![],
        match_binaries: vec![],
        target: RuleTarget::Aux,
        enabled: true,
    };
    let (hits, _) = preview(&Some(rule), &vec![stream(1, Some("a"), Some("b"), None)]);
    assert_eq!(hits, vec![false]);
}

#[test]
fn preselects_groups_holding_given_streams() {
    let streams = vec![
        stream(1, Some("Firefox"), Some("firefox"), None),
        stream(2, Some("mpv"), Some("mpv"), None),
        stream(3, Some("Firefox"), Some("firefox"), None),
    ];
    let groups = build_groups(&streams);
    assert_eq!(groups.len(), 2);
    assert_eq!(preselected_groups(&groups, &streams, &vec![3]), vec![true, false]);
    assert_eq!(preselected_groups(&groups, &streams, &vec![2, 9]), vec![false, true]);
    assert_eq!(preselected_groups(&groups, &streams, &vec![]), vec![false, false]);
}
