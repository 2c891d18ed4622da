//! What the mixer window decides from the backend's state: which output a
//! side's dropdown shows (with a placeholder for a configured output that
//! is gone), which controls are usable, and which default markers show.

use vstd::prelude::*;
use crate::config::SinkDef;
use crate::hw_device::{
    DeviceModel, HwDevice, channel_layout_label, connection_kind, device_views, layout_label,
    opt_str_view,
};
use crate::hw_sink::HwSink;
use crate::text::{copy_string, owned, push_str, str_eq};

verus! {

/// The configured output of a side is among the sinks.
pub open spec fn output_present(sinks: Seq<DeviceModel>, hw_name: Seq<char>) -> bool {
    exists|i: int| 0 <= i < sinks.len() && sinks[i].name == hw_name
}

/// The first sink named `hw_name`.
pub open spec fn first_named(sinks: Seq<DeviceModel>, hw_name: Seq<char>) -> int
    decreases sinks.len(),
{
    if sinks.len() == 0 || sinks[0].name == hw_name {
        0
    } else {
        1 + first_named(sinks.drop_first(), hw_name)
    }
}

/// The placeholder's label for a configured output that is gone.
pub open spec fn disconnected_label(display_name: Seq<char>) -> Seq<char> {
    if display_name.len() == 0 {
        "Disconnected"@
    } else {
        "Disconnected \u{2014} "@ + display_name
    }
}

/// The entry standing for the gone output: no node, the configured name,
/// layout and channel count.
pub open spec fn placeholder_of(def: SinkDef) -> DeviceModel {
    DeviceModel {
        node_id: 0,
        name: def.hw_name@,
        display_name: disconnected_label(def.display_name@),
        device_api: Seq::empty(),
        device_bus: Seq::empty(),
        profile_name: Seq::empty(),
        channels: def.channels,
        position: def.position@,
    }
}

/// A side's dropdown: its entries, the selected one, and whether the side's
/// configured output is gone (a placeholder then comes first, selected).
pub struct SideDropdown {
    pub entries: Vec<HwSink>,
    pub selected: u32,
    pub disconnected: bool,
}

pub open spec fn sink_views(v: Seq<HwSink>) -> Seq<DeviceModel> {
    v.map_values(|s: HwSink| s@)
}

/// The dropdown of a side configured as `def`, over the sinks in display
/// order.
pub open spec fn side_dropdown_spec(sinks: Seq<DeviceModel>, def: SinkDef) -> (
    Seq<DeviceModel>,
    int,
    bool,
) {
    let disconnected = def.hw_name@.len() > 0 && !output_present(sinks, def.hw_name@);
    if disconnected {
        (seq![placeholder_of(def)] + sinks, 0, true)
    } else if output_present(sinks, def.hw_name@) {
        (sinks, first_named(sinks, def.hw_name@), false)
    } else {
        (sinks, 0, false)
    }
}

proof fn lemma_first_named(sinks: Seq<DeviceModel>, hw_name: Seq<char>, i: int)
    requires
        0 <= i < sinks.len(),
        sinks[i].name == hw_name,
        forall|j: int| 0 <= j < i ==> sinks[j].name != hw_name,
    ensures
        first_named(sinks, hw_name) == i,
    decreases i,
{
    if i > 0 {
        lemma_first_named(sinks.drop_first(), hw_name, i - 1);
    }
}

/// Builds a side's dropdown from the sinks in display order.
pub fn side_dropdown(sinks: &Vec<HwSink>, def: &SinkDef) -> (r: SideDropdown)
    requires
        sinks@.len() < u32::MAX,
    ensures
        (sink_views(r.entries@), r.selected as int, r.disconnected) == side_dropdown_spec(
            sink_views(sinks@),
            *def,
        ),
{
    let ghost views = sink_views(sinks@);
    let mut found: Option<usize> = None;
    let mut i: usize = 0;
    while i < sinks.len()
        invariant
            i <= sinks@.len(),
            views == sink_views(sinks@),
            found matches Some(k) ==> k < sinks@.len() && views[k as int].name == def.hw_name@
                && forall|j: int| 0 <= j < k ==> views[j].name != def.hw_name@,
            found is None ==> forall|j: int| 0 <= j < i ==> views[j].name != def.hw_name@,
        decreases sinks@.len() - i,
    {
        if found.is_none() && str_eq(sinks[i].name.as_str(), def.hw_name.as_str()) {
            found = Some(i);
        }
        i = i + 1;
    }
    let mut entries: Vec<HwSink> = Vec::new();
    let mut k: usize = 0;
    while k < sinks.len()
        invariant
            k <= sinks@.len(),
            views == sink_views(sinks@),
            sink_views(entries@) == views.take(k as int),
        decreases sinks@.len() - k,
    {
        let ghost pre = entries@;
        entries.push(sinks[k].duplicate());
        assert(sink_views(entries@) =~= views.take(k + 1)) by {
            assert(sink_views(pre).len() == pre.len());
            assert forall|j: int| 0 <= j < k + 1 implies #[trigger] sink_views(entries@)[j]
                == views.take(k + 1)[j] by {
                if j < k {
                    assert(entries@[j] == pre[j]);
                    assert(sink_views(pre)[j] == views.take(k as int)[j]);
                }
            }
        }
        k = k + 1;
    }
    assert(views.take(k as int) =~= views);
    match found {
        Some(idx) => {
            proof {
                lemma_first_named(views, def.hw_name@, idx as int);
            }
            SideDropdown { entries, selected: idx as u32, disconnected: false }
        },
        None => {
            if def.hw_name.unicode_len() == 0 {
                proof {
                    assert(!output_present(views, def.hw_name@));
                }
                return SideDropdown { entries, selected: 0, disconnected: false };
            }
            let label = if def.display_name.unicode_len() == 0 {
                owned("Disconnected")
            } else {
                let mut l = owned("Disconnected \u{2014} ");
                push_str(&mut l, def.display_name.as_str());
                l
            };
            let placeholder = HwSink {
                node_id: 0,
                name: copy_string(&def.hw_name),
                display_name: label,
                device_api: String::new(),
                device_bus: String::new(),
                profile_name: String::new(),
                channels: def.channels,
                position: copy_string(&def.position),
            };
            let mut all: Vec<HwSink> = vec![placeholder];
            let ghost first = all@;
            let ghost ev = entries@;
            assert(sink_views(first) =~= seq![placeholder_of(*def)]);
            all.append(&mut entries);
            assert(sink_views(all@) =~= seq![placeholder_of(*def)] + views) by {
                assert(all@ == first + ev);
                assert(sink_views(ev) == views);
                assert(sink_views(first + ev) =~= sink_views(first) + sink_views(ev));
            }
            SideDropdown { entries: all, selected: 0, disconnected: true }
        },
    }
}

/// Which of the mixer's controls are usable.
#[derive(Copy, Clone, Debug, PartialEq, Eq, Structural)]
pub struct Controls {
    /// The Aux side's mute and test-tone buttons.
    pub aux: bool,
    /// The Main side's mute and test-tone buttons.
    pub main: bool,
    /// The crossfader.
    pub mix: bool,
    /// The banner offering to make the sinks persistent.
    pub persist_banner: bool,
}

/// The controls work once both virtual sinks exist, each side only while
/// its output is connected, the crossfader only while both are; the
/// persist banner shows after setup until persistent sinks are live.
pub open spec fn controls_spec(
    present: bool,
    aux_disconnected: bool,
    main_disconnected: bool,
    using_temp: bool,
    configured: bool,
) -> Controls {
    Controls {
        aux: present && !aux_disconnected,
        main: present && !main_disconnected,
        mix: present && !aux_disconnected && !main_disconnected,
        persist_banner: configured && !(present && !using_temp),
    }
}

pub fn controls(
    present: bool,
    aux_disconnected: bool,
    main_disconnected: bool,
    using_temp: bool,
    configured: bool,
) -> (r: Controls)
    ensures
        r == controls_spec(present, aux_disconnected, main_disconnected, using_temp, configured),
{
    let persistent = present && !using_temp;
    Controls {
        aux: present && !aux_disconnected,
        main: present && !main_disconnected,
        mix: present && !aux_disconnected && !main_disconnected,
        persist_banner: configured && !persistent,
    }
}

/// Main's default markers: (banner asking to make Main the default, tag
/// saying it is). Neither while Main's output is disconnected or the
/// default is unknown.
pub fn main_default_marks(main_disconnected: bool, is_default: Option<bool>) -> (r: (bool, bool))
    ensures
        r == (!main_disconnected && is_default == Some(false), !main_disconnected && is_default
            == Some(true)),
{
    if main_disconnected {
        return (false, false);
    }
    match is_default {
        Some(d) => (!d, d),
        None => (false, false),
    }
}

/// What the Main card's surround controls show.
#[derive(Copy, Clone, Debug, PartialEq, Eq, Structural)]
pub enum SurroundMode {
    /// Leave the mode as it is.
    Keep,
    /// Surround is active but its config no longer is usable: go back to
    /// direct output (and store that).
    FallBackToDirect,
    /// Set the Direct/Surround toggle to the active mode.
    ShowMode(bool),
}

/// The restart banner's text.
#[derive(Copy, Clone, Debug, PartialEq, Eq, Structural)]
pub enum RestartNote {
    /// First setup: the sink is not live yet.
    AvailableAfterLogin,
    /// The sink is live but the config changed.
    ChangesAfterLogin,
    Unchanged,
}

/// The surround controls of the Main card.
#[derive(Copy, Clone, Debug, PartialEq, Eq, Structural)]
pub struct SurroundView {
    pub setup_button: bool,
    pub toggle_visible: bool,
    pub toggle_sensitive: bool,
    pub error_banner: bool,
    pub restart_banner: bool,
    pub restart_note: RestartNote,
    /// A config change is still waiting for the next login.
    pub pending: bool,
    /// The user dismissed the restart banner.
    pub dismissed: bool,
    pub mode: SurroundMode,
}

/// The surround controls: the setup button until surround is configured,
/// the toggle once its HRIR file exists (usable while the sink is live),
/// an error while the file is missing, and a restart banner while the sink
/// waits for the next login (not live yet, or live with a pending change)
/// unless dismissed.
pub open spec fn surround_view_spec(
    configured: bool,
    hrir_ok: bool,
    present: bool,
    pending: bool,
    dismissed: bool,
    active: bool,
) -> SurroundView {
    let show_toggle = configured && hrir_ok;
    let pending2 = show_toggle && pending;
    let node_absent = show_toggle && !present;
    let reconfig = show_toggle && present && pending2;
    let waiting = node_absent || reconfig;
    let dismissed2 = waiting && dismissed;
    SurroundView {
        setup_button: !configured,
        toggle_visible: show_toggle,
        toggle_sensitive: present,
        error_banner: configured && !hrir_ok,
        restart_banner: waiting && !dismissed2,
        restart_note: if node_absent {
            RestartNote::AvailableAfterLogin
        } else if reconfig {
            RestartNote::ChangesAfterLogin
        } else {
            RestartNote::Unchanged
        },
        pending: pending2,
        dismissed: dismissed2,
        mode: if active && !show_toggle {
            SurroundMode::FallBackToDirect
        } else if show_toggle {
            SurroundMode::ShowMode(active)
        } else {
            SurroundMode::Keep
        },
    }
}

pub fn surround_view(
    configured: bool,
    hrir_ok: bool,
    present: bool,
    pending: bool,
    dismissed: bool,
    active: bool,
) -> (r: SurroundView)
    ensures
        r == surround_view_spec(configured, hrir_ok, present, pending, dismissed, active),
{
    let show_toggle = configured && hrir_ok;
    let pending = if !show_toggle {
        false
    } else {
        pending
    };
    let node_absent = show_toggle && !present;
    let reconfig = show_toggle && present && pending;
    let waiting = node_absent || reconfig;
    let dismissed = if !waiting {
        false
    } else {
        dismissed
    };
    let restart_note = if node_absent {
        RestartNote::AvailableAfterLogin
    } else if reconfig {
        RestartNote::ChangesAfterLogin
    } else {
        RestartNote::Unchanged
    };
    let mode = if active && !show_toggle {
        SurroundMode::FallBackToDirect
    } else if show_toggle {
        SurroundMode::ShowMode(active)
    } else {
        SurroundMode::Keep
    };
    SurroundView {
        setup_button: !configured,
        toggle_visible: show_toggle,
        toggle_sensitive: present,
        error_banner: configured && !hrir_ok,
        restart_banner: waiting && !dismissed,
        restart_note,
        pending,
        dismissed,
        mode,
    }
}

/// Switching the Main card between direct and surround output: the mutes
/// of both sinks and what the card's mute button shows.
#[derive(Copy, Clone, Debug, PartialEq, Eq, Structural)]
pub struct ModeSwap {
    pub main_muted: bool,
    pub surround_muted: bool,
    /// The mute state the card shows: that of the active sink.
    pub shown_muted: bool,
}

/// The inactive sink is muted; the active one gets back the user's mute.
pub open spec fn mode_swap_spec(want_surround: bool, surround_user_muted: bool, main_user_muted: bool) -> ModeSwap {
    if want_surround {
        ModeSwap { main_muted: true, surround_muted: surround_user_muted, shown_muted: surround_user_muted }
    } else {
        ModeSwap { main_muted: main_user_muted, surround_muted: true, shown_muted: main_user_muted }
    }
}

pub fn mode_swap(want_surround: bool, surround_user_muted: bool, main_user_muted: bool) -> (r: ModeSwap)
    ensures
        r == mode_swap_spec(want_surround, surround_user_muted, main_user_muted),
{
    if want_surround {
        ModeSwap { main_muted: true, surround_muted: surround_user_muted, shown_muted: surround_user_muted }
    } else {
        ModeSwap { main_muted: main_user_muted, surround_muted: true, shown_muted: main_user_muted }
    }
}

/// The Main card's subtitle in each mode.
pub fn main_subtitle(surround: bool) -> (r: &'static str)
    ensures
        r@ == (if surround {
            "Bridge - Virtual Surround"@
        } else {
            "Bridge - Main"@
        }),
{
    if surround {
        "Bridge - Virtual Surround"
    } else {
        "Bridge - Main"
    }
}

/// What a flip of the Direct/Surround toggle does.
#[derive(Copy, Clone, Debug, PartialEq, Eq, Structural)]
pub enum ModeToggle {
    /// The flip came from the card itself; nothing to do.
    Ignore,
    /// The surround sink is not live: flip the toggle back to direct.
    Refuse,
    /// Switch modes; `carry_default` moves the system default along.
    Switch { want_surround: bool, carry_default: bool },
}

/// A switch to surround needs the surround sink live; the system default
/// follows Main when the preference says so and Main's active sink is the
/// default.
pub open spec fn mode_toggle_spec(
    swap_in_progress: bool,
    want_surround: bool,
    surround_present: bool,
    default_follows_main: bool,
    active_is_default: Option<bool>,
) -> ModeToggle {
    if swap_in_progress {
        ModeToggle::Ignore
    } else if want_surround && !surround_present {
        ModeToggle::Refuse
    } else {
        ModeToggle::Switch {
            want_surround,
            carry_default: default_follows_main && active_is_default == Some(true),
        }
    }
}

pub fn mode_toggle(
    swap_in_progress: bool,
    want_surround: bool,
    surround_present: bool,
    default_follows_main: bool,
    active_is_default: Option<bool>,
) -> (r: ModeToggle)
    ensures
        r == mode_toggle_spec(
            swap_in_progress,
            want_surround,
            surround_present,
            default_follows_main,
            active_is_default,
        ),
{
    if swap_in_progress {
        ModeToggle::Ignore
    } else if want_surround && !surround_present {
        ModeToggle::Refuse
    } else {
        let carry = default_follows_main && match active_is_default {
            Some(d) => d,
            None => false,
        };
        ModeToggle::Switch { want_surround, carry_default: carry }
    }
}

/// The device row of a card's detail page.
pub enum DeviceRow {
    NotConfigured,
    /// The configured device is gone: its label and the configured layout.
    Disconnected { label: String, layout: String },
    /// The device is live: its name, layout and connection kind.
    Live { name: String, layout: String, connection: Option<&'static str> },
}

pub enum DeviceRowView {
    NotConfigured,
    Disconnected { label: Seq<char>, layout: Seq<char> },
    Live { name: Seq<char>, layout: Seq<char>, connection: Option<Seq<char>> },
}

impl View for DeviceRow {
    type V = DeviceRowView;

    open spec fn view(&self) -> DeviceRowView {
        match self {
            DeviceRow::NotConfigured => DeviceRowView::NotConfigured,
            DeviceRow::Disconnected { label, layout } => DeviceRowView::Disconnected {
                label: label@,
                layout: layout@,
            },
            DeviceRow::Live { name, layout, connection } => DeviceRowView::Live {
                name: name@,
                layout: layout@,
                connection: opt_str_view(*connection),
            },
        }
    }
}

/// The row for a card configured as `def`, given the live devices: the
/// first device with the configured name.
pub open spec fn device_row_spec(def: SinkDef, devices: Seq<DeviceModel>) -> DeviceRowView {
    if def.hw_name@.len() == 0 {
        DeviceRowView::NotConfigured
    } else if !output_present(devices, def.hw_name@) {
        DeviceRowView::Disconnected {
            label: disconnected_label(def.display_name@),
            layout: layout_label(def.channels, def.position@),
        }
    } else {
        let d = devices[first_named(devices, def.hw_name@)];
        DeviceRowView::Live {
            name: d.display_name,
            layout: layout_label(d.channels, d.position),
            connection: connection_kind(d.device_api, d.device_bus, d.profile_name, d.name),
        }
    }
}

pub fn device_row(def: &SinkDef, devices: &Vec<HwDevice>) -> (r: DeviceRow)
    ensures
        r@ == device_row_spec(*def, device_views(devices@)),
{
    if def.hw_name.unicode_len() == 0 {
        return DeviceRow::NotConfigured;
    }
    let ghost views = device_views(devices@);
    let mut i: usize = 0;
    while i < devices.len()
        invariant
            i <= devices@.len(),
            views == device_views(devices@),
            def.hw_name@.len() > 0,
            forall|j: int| 0 <= j < i ==> views[j].name != def.hw_name@,
        decreases devices@.len() - i,
    {
        if str_eq(devices[i].name.as_str(), def.hw_name.as_str()) {
            proof {
                assert(views[i as int] == devices@[i as int]@);
                lemma_first_named(views, def.hw_name@, i as int);
                assert(output_present(views, def.hw_name@));
            }
            let d = &devices[i];
            let r = DeviceRow::Live {
                name: copy_string(&d.display_name),
                layout: channel_layout_label(d.channels, d.position.as_str()),
                connection: d.connection_label(),
            };
            return r;
        }
        i = i + 1;
    }
    let label = if def.display_name.unicode_len() == 0 {
        owned("Disconnected")
    } else {
        let mut l = owned("Disconnected \u{2014} ");
        push_str(&mut l, def.display_name.as_str());
        l
    };
    DeviceRow::Disconnected { label, layout: channel_layout_label(def.channels, def.position.as_str()) }
}

} // verus!
