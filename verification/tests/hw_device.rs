use bridge::hw_device::{
    channel_layout_label, normalize_position, sink_from_props, sorted_for_display,
    source_from_props, strip_device_serial, HwDevice,
};
use bridge::props::Props;

fn props(pairs: &[(&str, &str)]) -> Props {
    let mut p = Props::new();
    for (k, v) in pairs {
        p.insert(k, v);
    }
    p
}

// sinks and sources come from the same registry
// parser ignores the other class
#[test]
fn parsers_only_take_their_own_class() {
    let mic = props(&[
        ("media.class", "Audio/Source"),
        ("node.name", "alsa_input.usb-headset"),
        ("audio.channels", "1"),
    ]);
    let speakers = props(&[
        ("media.class", "Audio/Sink"),
        ("node.name", "alsa_output.pci-0000_00"),
    ]);

    assert!(source_from_props(1, &mic).is_some());
    assert!(sink_from_props(1, &mic).is_none());
    assert!(sink_from_props(2, &speakers).is_some());
    assert!(source_from_props(2, &speakers).is_none());

    // a mono mic with no layout
    assert_eq!(source_from_props(1, &mic).unwrap().position, "MONO");
}

#[test]
fn skips_our_own_virtual_devices() {
    let ours = props(&[("media.class", "Audio/Source"), ("node.name", "bridge_mic")]);
    assert!(source_from_props(3, &ours).is_none());
}

#[test]
fn layout_and_count_agree() {
    let no_count = props(&[
        ("media.class", "Audio/Source"),
        ("node.name", "alsa_input.usb-mic"),
        ("audio.position", "[ MONO ]"),
    ]);
    let mic = source_from_props(1, &no_count).unwrap();
    assert_eq!((mic.channels, mic.position.as_str()), (1, "MONO"));

    let four_channel = props(&[
        ("media.class", "Audio/Source"),
        ("node.name", "alsa_input.usb-scarlett"),
        ("audio.position", "[ AUX0 AUX1 AUX2 AUX3 ]"),
    ]);
    let interface = source_from_props(2, &four_channel).unwrap();
    assert_eq!(interface.channels, 4);
}

#[test]
fn strips_only_serials() {
    assert_eq!(
        strip_device_serial("ADI-2 DAC (12345678) Analog Stereo"),
        "ADI-2 DAC Analog Stereo"
    );
    assert_eq!(strip_device_serial("Scarlett 2i2 (A1B2C3D4)"), "Scarlett 2i2");
    assert_eq!(
        strip_device_serial("Built-in Audio (HDMI 2)"),
        "Built-in Audio (HDMI 2)"
    );
    assert_eq!(
        strip_device_serial("GB202 High Definition"),
        "GB202 High Definition"
    );
    assert_eq!(strip_device_serial(""), "");
}

#[test]
fn hw_device_position_formats() {
    assert_eq!(normalize_position("[ FL FR ]"), "FL,FR");
    assert_eq!(normalize_position("FL,FR"), "FL,FR");
    assert_eq!(normalize_position("[ FL, FR, LFE ]"), "FL,FR,LFE");
}

fn sink(api: &str, bus: &str, profile: &str, name: &str) -> HwDevice {
    HwDevice {
        node_id: 0,
        name: name.to_owned(),
        display_name: String::new(),
        device_api: api.to_owned(),
        device_bus: bus.to_owned(),
        profile_name: profile.to_owned(),
        channels: 2,
        position: "FL,FR".to_owned(),
    }
}

#[test]
fn hw_device_connection_labels() {
    let bt = sink("bluez5", "", "a2dp-sink", "bluez_output.1");
    assert_eq!(bt.connection_label(), Some("Bluetooth"));

    let hdmi = sink(
        "alsa",
        "pci",
        "hdmi-stereo",
        "alsa_output.pci-0.1.hdmi-stereo",
    );
    assert_eq!(hdmi.connection_label(), Some("HDMI / DP"));

    let usb = sink(
        "alsa",
        "usb",
        "analog-stereo",
        "alsa_output.usb-RME.analog-stereo",
    );
    assert_eq!(usb.connection_label(), Some("USB"));

    let spdif_ucm = sink(
        "alsa",
        "usb",
        "HiFi: SPDIF: sink",
        "alsa_output.usb-Generic.HiFi__SPDIF__sink",
    );
    assert_eq!(spdif_ucm.connection_label(), Some("S/PDIF"));

    let spdif_acp = sink(
        "alsa",
        "pci",
        "iec958-stereo",
        "alsa_output.pci-0000_00_1f.3.iec958-stereo",
    );
    assert_eq!(spdif_acp.connection_label(), Some("S/PDIF"));

    let onboard = sink(
        "alsa",
        "pci",
        "analog-stereo",
        "alsa_output.pci-0000_00_1f.3.analog-stereo",
    );
    assert_eq!(onboard.connection_label(), Some("Built-in"));

    // People still using FireWire?
    let fw = sink(
        "alsa",
        "firewire",
        "analog-stereo",
        "alsa_output.firewire-Focusrite.analog-stereo",
    );
    assert_eq!(fw.connection_label(), Some("FireWire"));

    let unknown = sink("alsa", "", "", "alsa_output.platform-something");
    assert_eq!(unknown.connection_label(), None);
}

#[test]
fn hw_device_channel_labels() {
    assert_eq!(channel_layout_label(1, "MONO"), "Mono");
    assert_eq!(channel_layout_label(2, "FL,FR"), "Stereo");
    assert_eq!(channel_layout_label(3, "FL,FR,LFE"), "2.1 ch");
    assert_eq!(channel_layout_label(6, "FL,FR,FC,LFE,RL,RR"), "5.1 ch");
    assert_eq!(
        channel_layout_label(8, "FL,FR,FC,LFE,RL,RR,SL,SR"),
        "7.1 ch"
    );
    assert_eq!(channel_layout_label(4, "FL,FR,RL,RR"), "4.0 ch");
}

#[test]
fn channel_label_edge_cases() {
    assert_eq!(channel_layout_label(0, ""), "");
    // more LFE channels than channels saturates at zero full-range channels
    assert_eq!(channel_layout_label(3, "LFE,LFE2,LFE3,LFE4"), "0.4 ch");
}

#[test]
fn device_fields_and_fallbacks() {
    let full = props(&[
        ("media.class", "Audio/Sink"),
        ("node.name", "alsa_output.usb-RME"),
        ("device.name", "alsa_card.usb-RME"),
        ("device.api", "alsa"),
        ("device.bus", "usb"),
        ("device.profile.name", "analog-stereo"),
        ("audio.channels", "6"),
        ("audio.position", "[ FL FR FC LFE RL RR ]"),
    ]);
    let d = sink_from_props(7, &full).unwrap();
    assert_eq!(d.node_id, 7);
    assert_eq!(d.display_name, "alsa_card.usb-RME");
    assert_eq!(d.device_bus, "usb");
    assert_eq!(d.channels, 6);
    assert_eq!(d.position, "FL,FR,FC,LFE,RL,RR");

    // no description of any kind: the node name is shown; no layout: stereo
    let bare = props(&[("media.class", "Audio/Sink"), ("node.name", "x")]);
    let d = sink_from_props(1, &bare).unwrap();
    assert_eq!(d.display_name, "x");
    assert_eq!(d.channels, 2);
    assert_eq!(d.position, "FL,FR");

    // an unparsable channel count falls back to the layout's count
    let odd = props(&[
        ("media.class", "Audio/Sink"),
        ("node.name", "y"),
        ("audio.channels", "+3x"),
        ("audio.position", "FL,FR,FC"),
    ]);
    assert_eq!(sink_from_props(1, &odd).unwrap().channels, 3);

    // no media class at all
    let none = props(&[("node.name", "z")]);
    assert!(sink_from_props(1, &none).is_none());
}

fn named(id: u32, display: &str) -> HwDevice {
    HwDevice {
        node_id: id,
        name: format!("node{id}"),
        display_name: display.to_owned(),
        device_api: String::new(),
        device_bus: String::new(),
        profile_name: String::new(),
        channels: 2,
        position: "FL,FR".to_owned(),
    }
}

#[test]
fn display_order_and_names() {
    let devices = vec![
        named(1, "Zeta (ABCDEF12)"),
        named(2, "alpha"),
        named(3, "Twin (11111111)"),
        named(4, "Twin (22222222)"),
        named(5, "Beta"),
    ];
    let sorted = sorted_for_display(devices);
    let names: Vec<&str> = sorted.iter().map(|d| d.display_name.as_str()).collect();
    // serials go when the short name stays unique; the twins keep theirs
    assert_eq!(
        names,
        vec!["alpha", "Beta", "Twin (11111111)", "Twin (22222222)", "Zeta"]
    );
    let ids: Vec<u32> = sorted.iter().map(|d| d.node_id).collect();
    assert_eq!(ids, vec![2, 5, 3, 4, 1]);
}

#[test]
fn equal_names_keep_their_order() {
    let sorted = sorted_for_display(vec![named(9, "Same"), named(3, "same"), named(5, "SAME")]);
    let ids: Vec<u32> = sorted.iter().map(|d| d.node_id).collect();
    assert_eq!(ids, vec![9, 3, 5]);
}
