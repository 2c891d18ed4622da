use bridge::hw_sink::{channel_layout_label, hw_sink_from_props, normalize_position, HwSink};
use bridge::props::Props;

#[test]
fn hw_sink_position_formats() {
    assert_eq!(normalize_position("[ FL FR ]"), "FL,FR");
    assert_eq!(normalize_position("FL,FR"), "FL,FR");
    assert_eq!(normalize_position("[ FL, FR, LFE ]"), "FL,FR,LFE");
}

fn sink(api: &str, bus: &str, profile: &str, name: &str) -> HwSink {
    HwSink {
        node_id: 0,
        name: name.to_owned(),
        display_name: String::new(),
        device_api: api.to_owned(),
        device_bus: bus.to_owned(),
        profile_name: profile.to_owned(),
        channels: 2,
        position: "FL,FR".to_owned(),
    }
}

#[test]
fn hw_sink_connection_labels() {
    let bt = sink("bluez5", "", "a2dp-sink", "bluez_output.1");
    assert_eq!(bt.connection_label(), Some("Bluetooth"));

    let hdmi = sink(
        "alsa",
        "pci",
        "hdmi-stereo",
        "alsa_output.pci-0.1.hdmi-stereo",
    );
    assert_eq!(hdmi.connection_label(), Some("HDMI / DP"));

    let usb = sink(
        "alsa",
        "usb",
        "analog-stereo",
        "alsa_output.usb-RME.analog-stereo",
    );
    assert_eq!(usb.connection_label(), Some("USB"));

    let spdif_ucm = sink(
        "alsa",
        "usb",
        "HiFi: SPDIF: sink",
        "alsa_output.usb-Generic.HiFi__SPDIF__sink",
    );
    assert_eq!(spdif_ucm.connection_label(), Some("S/PDIF"));

    let spdif_acp = sink(
        "alsa",
        "pci",
        "iec958-stereo",
        "alsa_output.pci-0000_00_1f.3.iec958-stereo",
    );
    assert_eq!(spdif_acp.connection_label(), Some("S/PDIF"));

    let onboard = sink(
        "alsa",
        "pci",
        "analog-stereo",
        "alsa_output.pci-0000_00_1f.3.analog-stereo",
    );
    assert_eq!(onboard.connection_label(), Some("Built-in"));

    let fw = sink(
        "alsa",
        "firewire",
        "analog-stereo",
        "alsa_output.firewire-Focusrite.analog-stereo",
    );
    assert_eq!(fw.connection_label(), Some("FireWire"));

    let unknown = sink("alsa", "", "", "alsa_output.platform-something");
    assert_eq!(unknown.connection_label(), None);
}

#[test]
fn hw_sink_channel_labels() {
    assert_eq!(channel_layout_label(1, "MONO"), "Mono");
    assert_eq!(channel_layout_label(2, "FL,FR"), "Stereo");
    assert_eq!(channel_layout_label(3, "FL,FR,LFE"), "2.1 ch");
    assert_eq!(channel_layout_label(6, "FL,FR,FC,LFE,RL,RR"), "5.1 ch");
    assert_eq!(
        channel_layout_label(8, "FL,FR,FC,LFE,RL,RR,SL,SR"),
        "7.1 ch"
    );
    assert_eq!(channel_layout_label(4, "FL,FR,RL,RR"), "4.0 ch");
}

#[test]
fn hw_sink_props() {
    let mut p = Props::new();
    p.insert("media.class", "Audio/Sink");
    p.insert("node.name", "alsa_output.pci");
    p.insert("node.description", "Built-in Audio");
    p.insert("audio.channels", "nope");
    p.insert("audio.position", "[ ]");
    let s = hw_sink_from_props(4, &p).unwrap();
    assert_eq!(s.display_name, "Built-in Audio");
    // no fallback to the layout here: an unparsable count is stereo
    assert_eq!(s.channels, 2);
    // and an empty layout stays empty
    assert_eq!(s.position, "");

    let mut ours = Props::new();
    ours.insert("media.class", "Audio/Sink");
    ours.insert("node.name", "dashboard_main");
    assert!(hw_sink_from_props(1, &ours).is_none());
}
