//! Hardware outputs as the mixer dashboard lists them.

use vstd::prelude::*;
use crate::hw_device::{device_from_props_spec, connection_kind, connection_kind_label, layout_label, normalized_position, opt_str_view, or_empty, DeviceModel};
use crate::props::{lookup, Props};
use crate::text::{chars_of, has_prefix, owned, parse_u32, parse_u32_spec, starts_with, str_eq};

verus! {

/// A hardware output as the registry reports it.
#[derive(Clone, Debug)]
pub struct HwSink {
    pub node_id: u32,
    pub name: String,
    pub display_name: String,
    pub device_api: String,
    pub device_bus: String,
    pub profile_name: String,
    pub channels: u32,
    pub position: String,
}

impl View for HwSink {
    type V = DeviceModel;

    open spec fn view(&self) -> DeviceModel {
        DeviceModel {
            node_id: self.node_id,
            name: self.name@,
            display_name: self.display_name@,
            device_api: self.device_api@,
            device_bus: self.device_bus@,
            profile_name: self.profile_name@,
            channels: self.channels,
            position: self.position@,
        }
    }
}

impl HwSink {
    /// A copy of the sink.
    pub fn duplicate(&self) -> (r: HwSink)
        ensures
            r@ == self@,
    {
        HwSink {
            node_id: self.node_id,
            name: self.name.clone(),
            display_name: self.display_name.clone(),
            device_api: self.device_api.clone(),
            device_bus: self.device_bus.clone(),
            profile_name: self.profile_name.clone(),
            channels: self.channels,
            position: self.position.clone(),
        }
    }

    /// Label for the connection hardware or transport type.
    pub fn connection_label(&self) -> (r: Option<&'static str>)
        ensures
            opt_str_view(r) == connection_kind(
                self.device_api@,
                self.device_bus@,
                self.profile_name@,
                self.name@,
            ),
    {
        connection_kind_label(
            self.device_api.as_str(),
            self.device_bus.as_str(),
            self.profile_name.as_str(),
            self.name.as_str(),
        )
    }
}

/// The output a node's properties describe, for sinks that are not our own
/// virtual sinks: `audio.channels` when it parses, else two; the reported
/// layout normalized, else "FL,FR".
pub open spec fn hw_sink_from_props_spec(node_id: u32, props: Seq<(Seq<char>, Seq<char>)>) -> Option<
    DeviceModel,
> {
    let node_name = or_empty(lookup(props, "node.name"@));
    if lookup(props, "media.class"@) != Some("Audio/Sink"@) {
        None
    } else if starts_with(node_name, "dashboard_"@) {
        None
    } else {
        Some(
            DeviceModel {
                node_id,
                name: node_name,
                display_name: match lookup(props, "node.description"@) {
                    Some(d) => d,
                    None => match lookup(props, "device.name"@) {
                        Some(d) => d,
                        None => node_name,
                    },
                },
                device_api: or_empty(lookup(props, "device.api"@)),
                device_bus: or_empty(lookup(props, "device.bus"@)),
                profile_name: or_empty(lookup(props, "device.profile.name"@)),
                channels: match lookup(props, "audio.channels"@) {
                    Some(s) => match parse_u32_spec(s) {
                        Some(c) => c,
                        None => 2,
                    },
                    None => 2,
                },
                position: match lookup(props, "audio.position"@) {
                    Some(p) => normalized_position(p),
                    None => "FL,FR"@,
                },
            },
        )
    }
}

pub open spec fn opt_sink_view(r: Option<HwSink>) -> Option<DeviceModel> {
    match r {
        Some(d) => Some(d@),
        None => None,
    }
}

fn prop_or_empty(props: &Props, key: &str) -> (r: String)
    ensures
        r@ == or_empty(lookup(props@, key@)),
{
    match props.get(key) {
        Some(v) => v,
        None => String::new(),
    }
}

/// Builds an HwSink from a node's info props; None for non-sinks or our
/// virtual sinks.
pub fn hw_sink_from_props(node_id: u32, props: &Props) -> (r: Option<HwSink>)
    ensures
        opt_sink_view(r) == hw_sink_from_props_spec(node_id, props@),
{
    match props.get("media.class") {
        Some(c) => {
            if !str_eq(c.as_str(), "Audio/Sink") {
                return None;
            }
        },
        None => {
            return None;
        },
    }
    let node_name = prop_or_empty(props, "node.name");
    if has_prefix(&chars_of(node_name.as_str()), &chars_of("dashboard_")) {
        return None;
    }
    let display_name = match props.get("node.description") {
        Some(d) => d,
        None => match props.get("device.name") {
            Some(d) => d,
            None => node_name.clone(),
        },
    };
    let device_api = prop_or_empty(props, "device.api");
    let device_bus = prop_or_empty(props, "device.bus");
    let profile_name = prop_or_empty(props, "device.profile.name");
    let channels: u32 = match props.get("audio.channels") {
        Some(s) => match parse_u32(s.as_str()) {
            Some(c) => c,
            None => 2,
        },
        None => 2,
    };
    let position = match props.get("audio.position") {
        Some(p) => crate::hw_device::normalize_position(p.as_str()),
        None => owned("FL,FR"),
    };
    Some(
        HwSink {
            node_id,
            name: node_name,
            display_name,
            device_api,
            device_bus,
            profile_name,
            channels,
            position,
        },
    )
}

/// Label for a channel layout: "Mono", "Stereo", or the surround
/// "{full}.{lfe}" form (e.g. 5.1, 7.1, 2.1, and 4.0).
pub fn channel_layout_label(channels: u32, position: &str) -> (r: String)
    ensures
        r@ == layout_label(channels, position@),
{
    crate::hw_device::channel_layout_label(channels, position)
}

/// SPA writes layouts space separated, such as `[ FL FR ]`; ours are comma
/// separated.
pub fn normalize_position(raw: &str) -> (r: String)
    ensures
        r@ == normalized_position(raw@),
{
    crate::hw_device::normalize_position(raw)
}

/// The caption under a side's output dropdown: the channel layout, then
/// the connection kind, joined by ` · ` when both are there.
pub open spec fn channels_caption_text(s: DeviceModel) -> Seq<char> {
    let layout = layout_label(s.channels, s.position);
    match connection_kind(s.device_api, s.device_bus, s.profile_name, s.name) {
        Some(conn) => if layout.len() == 0 {
            conn
        } else {
            layout + " \u{b7} "@ + conn
        },
        None => layout,
    }
}

/// The caption for the output a side routes to.
pub fn channels_caption(sink: &HwSink) -> (r: String)
    ensures
        r@ == channels_caption_text(sink@),
{
    let mut text = channel_layout_label(sink.channels, sink.position.as_str());
    match sink.connection_label() {
        Some(conn) => {
            if text.unicode_len() == 0 {
                text = crate::text::owned(conn);
            } else {
                crate::text::push_str(&mut text, " \u{b7} ");
                crate::text::push_str(&mut text, conn);
            }
        },
        None => {},
    }
    text
}

/// A node that both the output list and the sink parser accept gets the
/// same display name from either: its description first.
pub proof fn sink_and_device_names_agree(node_id: u32, props: Seq<(Seq<char>, Seq<char>)>)
    ensures
        (device_from_props_spec(node_id, props, "Audio/Sink"@), hw_sink_from_props_spec(node_id, props)) matches (
            Some(d),
            Some(s),
        ) ==> d.display_name == s.display_name,
        hw_sink_from_props_spec(node_id, props) matches Some(s) ==> (lookup(props, "node.description"@) matches Some(
            desc,
        ) ==> s.display_name == desc),
{
}

} // verus!
