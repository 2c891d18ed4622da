use bridge::config::SinkDef;
use bridge::dashboard::{
    DeviceRow, ModeToggle, RestartNote, SurroundMode, controls, device_row, main_default_marks,
    main_subtitle, mode_swap, mode_toggle, side_dropdown, surround_view,
};
use bridge::hw_device::HwDevice;
use bridge::hw_sink::{HwSink, channels_caption};
use bridge::test_tone::{SweepPos, sweep_chunk};

fn sink(id: u32, name: &str) -> HwSink {
    HwSink {
        node_id: id,
        name: name.to_owned(),
        display_name: name.to_uppercase(),
        device_api: String::new(),
        device_bus: String::new(),
        profile_name: String::new(),
        channels: 2,
        position: "FL,FR".to_owned(),
    }
}

fn def(hw: &str, display: &str) -> SinkDef {
    SinkDef {
        channels: 6,
        position: "FL,FR,FC,LFE,RL,RR".to_owned(),
        hw_name: hw.to_owned(),
        display_name: display.to_owned(),
    }
}

#[test]
fn dropdown_selects_the_configured_output() {
    let sinks = vec![sink(1, "a"), sink(2, "b"), sink(3, "b")];
    let d = side_dropdown(&sinks, &def("b", "B"));
    assert!(!d.disconnected);
    assert_eq!(d.selected, 1);
    assert_eq!(d.entries.len(), 3);
    let d = side_dropdown(&sinks, &def("", ""));
    assert!(!d.disconnected);
    assert_eq!(d.selected, 0);
}

#[test]
fn dropdown_shows_a_gone_output_first() {
    let sinks = vec![sink(1, "a")];
    let d = side_dropdown(&sinks, &def("usb", "USB DAC"));
    assert!(d.disconnected);
    assert_eq!(d.selected, 0);
    assert_eq!(d.entries.len(), 2);
    assert_eq!(d.entries[0].node_id, 0);
    assert_eq!(d.entries[0].name, "usb");
    assert_eq!(d.entries[0].display_name, "Disconnected \u{2014} USB DAC");
    assert_eq!(d.entries[0].channels, 6);
    assert_eq!(d.entries[1].name, "a");
    let d = side_dropdown(&vec![], &def("usb", ""));
    assert_eq!(d.entries[0].display_name, "Disconnected");
}

#[test]
fn controls_follow_presence_and_connection() {
    let c = controls(true, false, true, false, true);
    assert!(c.aux && !c.main && !c.mix);
    assert!(!c.persist_banner);
    let c = controls(true, false, false, true, true);
    assert!(c.aux && c.main && c.mix && c.persist_banner);
    let c = controls(false, false, false, false, false);
    assert!(!c.aux && !c.main && !c.mix && !c.persist_banner);
    assert!(controls(false, false, false, false, true).persist_banner);
}

#[test]
fn default_marks() {
    assert_eq!(main_default_marks(false, Some(false)), (true, false));
    assert_eq!(main_default_marks(false, Some(true)), (false, true));
    assert_eq!(main_default_marks(false, None), (false, false));
    assert_eq!(main_default_marks(true, Some(false)), (false, false));
}

#[test]
fn surround_controls() {
    let v = surround_view(false, false, false, true, true, false);
    assert!(v.setup_button && !v.toggle_visible && !v.error_banner && !v.restart_banner);
    assert!(!v.pending && !v.dismissed);
    assert_eq!(v.mode, SurroundMode::Keep);
    let v = surround_view(true, false, false, false, false, true);
    assert!(v.error_banner);
    assert_eq!(v.mode, SurroundMode::FallBackToDirect);
    let v = surround_view(true, true, false, false, false, false);
    assert!(v.toggle_visible && !v.toggle_sensitive && v.restart_banner);
    assert_eq!(v.restart_note, RestartNote::AvailableAfterLogin);
    assert_eq!(v.mode, SurroundMode::ShowMode(false));
    let v = surround_view(true, true, true, true, false, true);
    assert!(v.restart_banner && v.pending);
    assert_eq!(v.restart_note, RestartNote::ChangesAfterLogin);
    let v = surround_view(true, true, true, true, true, true);
    assert!(!v.restart_banner && v.dismissed);
    let v = surround_view(true, true, true, false, true, true);
    assert!(!v.restart_banner && !v.dismissed);
    assert_eq!(v.restart_note, RestartNote::Unchanged);
}

#[test]
fn mode_switching() {
    let s = mode_swap(true, false, true);
    assert!(s.main_muted && !s.surround_muted && !s.shown_muted);
    let s = mode_swap(false, false, true);
    assert!(s.main_muted && s.surround_muted && s.shown_muted);
    assert_eq!(main_subtitle(true), "Bridge - Virtual Surround");
    assert_eq!(main_subtitle(false), "Bridge - Main");
    assert_eq!(mode_toggle(true, true, true, true, Some(true)), ModeToggle::Ignore);
    assert_eq!(mode_toggle(false, true, false, true, Some(true)), ModeToggle::Refuse);
    assert_eq!(
        mode_toggle(false, true, true, true, Some(true)),
        ModeToggle::Switch { want_surround: true, carry_default: true }
    );
    assert_eq!(
        mode_toggle(false, false, false, true, None),
        ModeToggle::Switch { want_surround: false, carry_default: false }
    );
}

fn hw(name: &str, display: &str, channels: u32, api: &str, bus: &str) -> HwDevice {
    HwDevice {
        node_id: 4,
        name: name.to_owned(),
        display_name: display.to_owned(),
        device_api: api.to_owned(),
        device_bus: bus.to_owned(),
        profile_name: String::new(),
        channels,
        position: "FL,FR".to_owned(),
    }
}

#[test]
fn device_rows() {
    assert!(matches!(device_row(&def("", ""), &vec![]), DeviceRow::NotConfigured));
    match device_row(&def("usb", "USB DAC"), &vec![hw("pci", "PCI", 2, "alsa", "pci")]) {
        DeviceRow::Disconnected { label, layout } => {
            assert_eq!(label, "Disconnected \u{2014} USB DAC");
            assert_eq!(layout, "5.1 ch");
        }
        _ => panic!("expected a disconnected row"),
    }
    match device_row(&def("usb", ""), &vec![hw("usb", "USB DAC", 2, "alsa", "usb")]) {
        DeviceRow::Live { name, layout, connection } => {
            assert_eq!(name, "USB DAC");
            assert_eq!(layout, "Stereo");
            assert_eq!(connection, Some("USB"));
        }
        _ => panic!("expected a live row"),
    }
}

#[test]
fn channel_captions() {
    let mut s = sink(1, "alsa_output.usb-RME.analog-stereo");
    s.device_api = "alsa".to_owned();
    s.device_bus = "usb".to_owned();
    s.profile_name = "analog-stereo".to_owned();
    assert_eq!(channels_caption(&s), "Stereo \u{b7} USB");
    s.channels = 0;
    assert_eq!(channels_caption(&s), "USB");
    let plain = sink(2, "alsa_output.platform-something");
    assert_eq!(channels_caption(&plain), "Stereo");
}

#[test]
fn sweep_steps_through_tones_and_pauses() {
    let order = vec![1usize, 0];
    let positions = vec![3u32, 6];
    let c = sweep_chunk(SweepPos { step: 0, step_samples: 0 }, &order, &positions, 100, 50, 64);
    assert_eq!(c.frames, 64);
    assert_eq!(c.tone, Some((1, true)));
    assert_eq!(c.next, SweepPos { step: 0, step_samples: 64 });
    assert!(!c.step_ended && !c.finished);
    let c = sweep_chunk(c.next, &order, &positions, 100, 50, 64);
    assert_eq!(c.frames, 36);
    assert!(c.step_ended);
    assert_eq!(c.next, SweepPos { step: 1, step_samples: 0 });
    let c = sweep_chunk(c.next, &order, &positions, 100, 50, 64);
    assert_eq!(c.tone, None);
    assert_eq!(c.frames, 50);
    assert_eq!(c.next.step, 2);
    let c = sweep_chunk(c.next, &order, &positions, 100, 50, 1000);
    assert_eq!(c.tone, Some((0, false)));
    let c = sweep_chunk(c.next, &order, &positions, 100, 50, 1000);
    assert!(c.finished);
    assert_eq!(c.next.step, 4);
}
