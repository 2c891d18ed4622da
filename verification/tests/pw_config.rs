use bridge::config::{Side, SinkConfig, SinkDef};
use bridge::pw_config::{
    build_pw_config, build_surround_pw_config, config_dir, config_file, hrir_dir,
    imported_hrir_path, join_path, loopback_body, loopback_module_args, preview_files,
    surround_config_file, surround_preview_files, target_fragment,
};

fn def(channels: u32, position: &str, hw: &str) -> SinkDef {
    SinkDef {
        channels,
        position: position.to_owned(),
        hw_name: hw.to_owned(),
        display_name: String::new(),
    }
}

#[test]
fn paths_under_home() {
    assert_eq!(config_dir("/home/u"), "/home/u/.config/pipewire/pipewire.conf.d");
    assert_eq!(
        config_file("/home/u"),
        "/home/u/.config/pipewire/pipewire.conf.d/10-dashboard.conf"
    );
    assert_eq!(
        surround_config_file("/home/u/"),
        "/home/u/.config/pipewire/pipewire.conf.d/10-dashboard-surround.conf"
    );
    assert_eq!(hrir_dir("/root"), "/root/.config/pipewire/hrir");
    assert_eq!(
        imported_hrir_path("/root", "atmos.wav"),
        "/root/.config/pipewire/hrir/atmos.wav"
    );
    assert_eq!(join_path("", "x"), "x");
    assert_eq!(join_path("a/", "x"), "a/x");
}

#[test]
fn target_fragment_only_for_a_named_output() {
    assert_eq!(target_fragment(""), "");
    assert_eq!(target_fragment("alsa_output.usb"), "\n        target.object  = \"alsa_output.usb\"");
}

#[test]
fn loopback_body_exact() {
    let body = loopback_body(Side::Aux, &def(2, "FL,FR", ""), false);
    let expected = "      capture.props = {
        node.name        = dashboard_aux
        node.description = \"Dashboard - Aux\"
        media.class      = Audio/Sink
        audio.channels   = 2
        audio.position   = \"[ FL FR ]\"
        node.virtual     = true
        bridge.role  = aux
      }
      playback.props = {
        node.name           = dashboard_aux_pb
        audio.channels      = 2
        audio.position      = \"[ FL FR ]\"
        node.dont-fallback  = true
        node.linger         = true
        bridge.pb-role  = aux
      }";
    assert_eq!(body, expected);
}

#[test]
fn temp_loopback_args_keep_no_state_and_target_the_output() {
    let args = loopback_module_args(Side::Main, &def(6, "FL,FR,FC,LFE,RL,RR", "alsa_output.pci"));
    assert!(args.starts_with("{\n      capture.props = {\n        node.name        = dashboard_main\n"));
    assert!(args.ends_with("\n}"));
    assert!(args.contains("        node.virtual     = true\n        state.restore-props = false\n"));
    assert!(args.contains("audio.position   = \"[ FL FR FC LFE RL RR ]\""));
    assert!(args.contains("bridge.pb-role  = main\n        target.object  = \"alsa_output.pci\"\n      }"));
}

#[test]
fn persistent_conf_holds_both_sides() {
    let cfg = SinkConfig { aux: def(2, "FL,FR", "usb"), main: def(2, "FL,FR", "") };
    let conf = build_pw_config(&cfg);
    assert!(conf.starts_with("context.modules = [\n  {\n    name = libpipewire-module-loopback\n    args = {\n"));
    assert!(conf.contains("node.name        = dashboard_aux"));
    assert!(conf.contains("node.name        = dashboard_main"));
    assert!(!conf.contains("state.restore-props"));
    assert!(conf.ends_with("    }\n  }\n]\n"));
    let files = preview_files(&cfg, "/h");
    assert_eq!(files.len(), 1);
    assert_eq!(files[0].0, "/h/.config/pipewire/pipewire.conf.d/10-dashboard.conf");
    assert_eq!(files[0].1, conf);
}

#[test]
fn surround_conf_fills_in_hrir_and_target() {
    let conf = build_surround_pw_config("/h/hrir.wav", "alsa_output.usb");
    assert!(conf.contains("/h/hrir.wav"));
    assert!(!conf.contains("{hrir}"));
    assert!(!conf.contains("{hw_target}"));
    assert!(conf.contains("bridge.pb-role  = surround\n        target.object       = \"alsa_output.usb\""));
    let untargeted = build_surround_pw_config("/h/hrir.wav", "");
    assert!(untargeted.contains("bridge.pb-role  = surround\n      }"));
    let files = surround_preview_files("/h/hrir.wav", "", "/h");
    assert_eq!(files[0].0, "/h/.config/pipewire/pipewire.conf.d/10-dashboard-surround.conf");
    assert_eq!(files[0].1, untargeted);
}
