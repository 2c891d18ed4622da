use bridge::config::{Side, SinkDef};
use bridge::pw_config::loopback_body;
use bridge::props::Props;
use bridge::pw_connection::{
    Event, Graph, OwnedNode, configured_default_value, default_channels, link_ends,
    metadata_event, metadata_wanted, node_to_bind, node_wanted, role_for_owned, role_for_pb, stream_info_from_props,
};
use bridge::role::{Role, RoleSlots};
use bridge::util::parse_default_name;

fn props(pairs: &[(&str, &str)]) -> Props {
    let mut p = Props::new();
    for (k, v) in pairs {
        p.insert(k, v);
    }
    p
}

fn aux_ids(events: &[Event]) -> Option<Vec<u32>> {
    events.iter().find_map(|e| match e {
        Event::AuxStreamsChanged(ids) => Some(ids.clone()),
        _ => None,
    })
}

#[test]
fn binds_ours_and_audio_nodes_only() {
    assert!(node_wanted(&props(&[("node.name", "bridge_aux")])));
    assert!(node_wanted(&props(&[("media.class", "Audio/Sink")])));
    assert!(node_wanted(&props(&[("media.class", "Stream/Output/Audio")])));
    assert!(node_wanted(&props(&[("media.class", "Audio/Source")])));
    assert!(!node_wanted(&props(&[("media.class", "Video/Source")])));
    assert!(!node_wanted(&props(&[("node.name", "dashboard_aux")])));
    assert!(!node_wanted(&props(&[])));
}

#[test]
fn link_ends_need_both_numbers() {
    assert_eq!(
        link_ends(&props(&[("link.output.node", "42"), ("link.input.node", "7")])),
        Some((42, 7))
    );
    assert_eq!(link_ends(&props(&[("link.output.node", "42")])), None);
    assert_eq!(link_ends(&props(&[("link.output.node", "x"), ("link.input.node", "7")])), None);
    assert_eq!(
        link_ends(&props(&[("link.output.node", "+3"), ("link.input.node", "4294967295")])),
        Some((3, 4294967295))
    );
    assert_eq!(
        link_ends(&props(&[("link.output.node", "1"), ("link.input.node", "4294967296")])),
        None
    );
}

#[test]
fn app_streams_from_props() {
    let p = props(&[
        ("media.class", "Stream/Output/Audio"),
        ("application.name", "Firefox"),
        ("application.icon-name", "firefox"),
        ("media.name", "Video"),
    ]);
    let s = stream_info_from_props(9, &p).unwrap();
    assert_eq!(s.node_id, 9);
    assert_eq!(s.app_name.as_deref(), Some("Firefox"));
    assert_eq!(s.app_icon.as_deref(), Some("firefox"));
    assert_eq!(s.binary, None);
    assert_eq!(s.media_name.as_deref(), Some("Video"));
    let ours = props(&[
        ("media.class", "Stream/Output/Audio"),
        ("application.name", "x"),
        ("bridge.pb-role", "aux"),
    ]);
    assert!(stream_info_from_props(1, &ours).is_none());
    let anonymous = props(&[("media.class", "Stream/Output/Audio"), ("media.name", "m")]);
    assert!(stream_info_from_props(1, &anonymous).is_none());
    let sink = props(&[("media.class", "Audio/Sink"), ("application.name", "x")]);
    assert!(stream_info_from_props(1, &sink).is_none());
}

#[test]
fn configured_default_round_trips() {
    let v = configured_default_value("dashboard_main");
    assert_eq!(v, "{\"name\":\"dashboard_main\"}");
    assert_eq!(parse_default_name(&v).as_deref(), Some("dashboard_main"));
}

#[test]
fn default_channel_counts() {
    assert_eq!(default_channels(Role::Surround), 8);
    assert_eq!(default_channels(Role::Aux), 2);
    assert_eq!(default_channels(Role::Main), 2);
}

#[test]
fn metadata_keys_followed() {
    assert!(matches!(
        metadata_event("default.audio.sink", Some("v".to_owned())),
        Some(Event::DefaultSink(Some(v))) if v == "v"
    ));
    assert!(matches!(metadata_event("default.audio.source", None), Some(Event::DefaultSource(None))));
    assert!(metadata_event("default.configured.audio.sink", None).is_none());
}

#[test]
fn role_lookup_by_node() {
    let mut owned: RoleSlots<OwnedNode> = RoleSlots::empty();
    owned.set(Role::Main, OwnedNode { id: 5, channels: 2 });
    owned.set(Role::Surround, OwnedNode { id: 6, channels: 8 });
    assert_eq!(role_for_owned(&owned, 6), Some(Role::Surround));
    assert_eq!(role_for_owned(&owned, 7), None);
    let mut pb: RoleSlots<u32> = RoleSlots::empty();
    pb.set(Role::Aux, 11);
    assert_eq!(role_for_pb(&pb, 11), Some(Role::Aux));
    assert_eq!(role_for_pb(&pb, 5), None);
}

fn aux_node(id: u32) -> (u32, Props) {
    (id, props(&[("bridge.role", "aux"), ("audio.channels", "6"), ("media.class", "Audio/Sink")]))
}

fn app_stream(name: &str) -> Props {
    props(&[("media.class", "Stream/Output/Audio"), ("application.name", name)])
}

fn link(out: u32, inp: u32) -> Props {
    props(&[("link.output.node", &out.to_string()), ("link.input.node", &inp.to_string())])
}

#[test]
fn classifies_nodes_in_order() {
    let mut g = Graph::new();
    let (id, p) = aux_node(10);
    let ev = g.classify_node(id, &p);
    assert!(matches!(ev[0], Event::NodeReady { role: Role::Aux, id: 10 }));
    assert_eq!(ev.len(), 1);
    assert_eq!(g.owned_node(Role::Aux), Some(OwnedNode { id: 10, channels: 6 }));
    let ev = g.classify_node(11, &props(&[("bridge.role", "surround")]));
    assert!(matches!(ev[0], Event::NodeReady { role: Role::Surround, id: 11 }));
    assert_eq!(g.owned_node(Role::Surround), Some(OwnedNode { id: 11, channels: 8 }));
    assert!(g.classify_node(12, &props(&[("bridge.pb-role", "aux")])).is_empty());
    assert_eq!(g.playback_node(Role::Aux), Some(12));
    let sink = props(&[
        ("media.class", "Audio/Sink"),
        ("node.name", "alsa_output.usb"),
        ("node.description", "USB"),
    ]);
    let ev = g.classify_node(13, &sink);
    assert!(matches!(&ev[0], Event::SinkAdded(d) if d.node_id == 13 && d.name == "alsa_output.usb"));
    let source = props(&[("media.class", "Audio/Source"), ("node.name", "alsa_input.usb")]);
    assert!(matches!(&g.classify_node(14, &source)[0], Event::SourceAdded(d) if d.node_id == 14));
    assert!(g.classify_node(15, &props(&[("media.class", "Midi/Bridge")])).is_empty());
    let mut nodes = g.owned_nodes();
    nodes.sort_by_key(|o| o.id);
    assert_eq!(nodes, vec![OwnedNode { id: 10, channels: 6 }, OwnedNode { id: 11, channels: 8 }]);
}

#[test]
fn aux_streams_follow_links_into_aux() {
    let mut g = Graph::new();
    let (id, p) = aux_node(10);
    g.classify_node(id, &p);
    let ev = g.classify_node(20, &app_stream("a"));
    assert!(matches!(&ev[0], Event::StreamAdded { info, .. } if info.node_id == 20));
    assert_eq!(ev.len(), 1);
    g.classify_node(21, &app_stream("b"));
    // a link into another node reports nothing
    assert!(g.add_link(100, &link(20, 99)).is_empty());
    assert_eq!(aux_ids(&g.add_link(101, &link(21, 10))), Some(vec![21]));
    assert_eq!(aux_ids(&g.add_link(102, &link(20, 10))), Some(vec![20, 21]));
    // a second link of the same stream changes nothing
    assert!(g.add_link(103, &link(20, 10)).is_empty());
    // a link from a non-stream does not count
    assert!(g.add_link(104, &link(55, 10)).is_empty());
    assert!(g.remove_global(103).is_empty());
    assert_eq!(aux_ids(&g.remove_global(102)), Some(vec![21]));
    let ev = g.remove_global(21);
    assert!(matches!(ev[0], Event::StreamRemoved(21)));
    assert_eq!(aux_ids(&ev), Some(vec![]));
    // losing the Aux sink empties nothing further once the list is empty
    let ev = g.remove_global(10);
    assert!(matches!(ev[0], Event::NodeRemoved { role: Role::Aux }));
    assert_eq!(ev.len(), 1);
}

#[test]
fn aux_arriving_late_reports_existing_links() {
    let mut g = Graph::new();
    g.classify_node(20, &app_stream("a"));
    assert!(g.add_link(100, &link(20, 10)).is_empty());
    let (id, p) = aux_node(10);
    let ev = g.classify_node(id, &p);
    assert_eq!(aux_ids(&ev), Some(vec![20]));
}

#[test]
fn removal_reports_what_the_global_was() {
    let mut g = Graph::new();
    g.classify_node(13, &props(&[("media.class", "Audio/Sink"), ("node.name", "alsa_output.x")]));
    g.classify_node(14, &props(&[("media.class", "Audio/Source"), ("node.name", "alsa_input.x")]));
    g.classify_node(12, &props(&[("bridge.pb-role", "main")]));
    assert!(matches!(g.remove_global(13)[0], Event::SinkRemoved(13)));
    assert!(matches!(g.remove_global(14)[0], Event::SourceRemoved(14)));
    assert!(g.remove_global(12).is_empty());
    assert_eq!(g.playback_node(Role::Main), None);
    assert!(g.remove_global(13).is_empty());
    assert!(g.remove_global(999).is_empty());
}

#[test]
fn loopback_loading_decisions() {
    let mut g = Graph::new();
    assert!(!g.skip_load(Role::Aux, &vec![]));
    let (id, p) = aux_node(10);
    g.classify_node(id, &p);
    assert!(g.skip_load(Role::Aux, &vec![]));
    assert!(!g.skip_load(Role::Aux, &vec![Role::Aux]));
    g.record_module(Role::Main);
    assert!(g.skip_load(Role::Main, &vec![Role::Main]));
    assert_eq!(g.take_modules(), vec![Role::Main]);
    assert!(!g.skip_load(Role::Main, &vec![]));
    assert!(g.take_modules().is_empty());
}

#[test]
fn binds_only_the_default_metadata_once() {
    let default = props(&[("metadata.name", "default")]);
    assert!(metadata_wanted(&default, false));
    assert!(!metadata_wanted(&default, true));
    assert!(!metadata_wanted(&props(&[("metadata.name", "route-settings")]), false));
    assert!(!metadata_wanted(&props(&[]), false));
}

#[test]
fn binds_a_wanted_node_once() {
    let sink = props(&[("media.class", "Audio/Sink")]);
    assert!(node_to_bind(&sink, false));
    assert!(!node_to_bind(&sink, true));
    assert!(!node_to_bind(&props(&[("media.class", "Video/Source")]), false));
}

#[test]
fn written_conf_is_classified_as_ours() {
    let def = SinkDef {
        channels: 2,
        position: "FL,FR".to_owned(),
        hw_name: "alsa_output.pci".to_owned(),
        display_name: "Speakers".to_owned(),
    };
    let body = loopback_body(Side::Aux, &def, false);
    assert!(body.contains("bridge.role  = aux"));
    assert!(body.contains("bridge.pb-role  = aux"));
    let mut g = Graph::new();
    g.classify_node(40, &props(&[("bridge.role", "aux")]));
    assert!(g.owned_node(Role::Aux).is_some());
}
