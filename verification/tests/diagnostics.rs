use bridge::config::{SinkConfig, SinkDef, SurroundConfig};
use bridge::diagnostics::{diagnostic_report, DiagnosticInfo};
use bridge::volume::VolumeDisplay;

fn def(name: &str, hw: &str, ch: u32, pos: &str) -> SinkDef {
    SinkDef {
        channels: ch,
        position: pos.to_owned(),
        hw_name: hw.to_owned(),
        display_name: name.to_owned(),
    }
}

#[test]
fn diagnostic_report_lists_every_section() {
    let info = DiagnosticInfo {
        version: "0.3.0".to_owned(),
        kernel: "6.9.1".to_owned(),
        desktop: "GNOME".to_owned(),
        pipewire_version: "pw-cli 1.2.0".to_owned(),
        defaults: "(none)".to_owned(),
        links: "a -> b".to_owned(),
        nodes: "id 30".to_owned(),
        conf_path: "/home/u/.config/pipewire/pipewire.conf.d/10-dashboard.conf".to_owned(),
        conf: "context.modules = []".to_owned(),
        surround_conf: "(not present)".to_owned(),
        sinks: SinkConfig {
            aux: def("Headset", "alsa_output.usb", 2, "FL,FR"),
            main: def("Speakers", "alsa_output.pci", 6, "FL,FR,FC,LFE,RL,RR"),
        },
        surround: SurroundConfig {
            hrir_path: String::new(),
            hw_name: String::new(),
            display_name: String::new(),
        },
        surround_active: false,
        follows_main: true,
        keep_routing_open: false,
        volume_display: VolumeDisplay::Percentage,
        window_width: 900,
        window_height: -1,
        maximized: true,
    };
    let expected = "=== Bridge Diagnostic Report ===\n\
App version: 0.3.0\n\
\n\
--- System ---\n\
Kernel:  6.9.1\n\
Desktop: GNOME\n\
\n\
--- PipeWire ---\n\
pw-cli 1.2.0\n\
\n\
--- Default sink/source (pw-metadata) ---\n\
(none)\n\
\n\
--- Links (pw-link -l) ---\n\
a -> b\n\
\n\
--- Nodes (pw-cli ls Node) ---\n\
id 30\n\
\n\
--- Bridge Aux/Main config (/home/u/.config/pipewire/pipewire.conf.d/10-dashboard.conf) ---\n\
context.modules = []\n\
\n\
--- Bridge Surround config ---\n\
(not present)\n\
\n\
--- Config summary ---\n\
Aux:  \"Headset\" [alsa_output.usb] 2ch FL,FR\n\
Main: \"Speakers\" [alsa_output.pci] 6ch FL,FR,FC,LFE,RL,RR\n\
Surround: hrir=\"\" hw=\"\" name=\"\" active=false\n\
Prefs: default-follows-main=true keep-routing-open=false volume-display=percent\n\
Window: 900x-1 maximized=true";
    assert_eq!(diagnostic_report(&info), expected);
}
