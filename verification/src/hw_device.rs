//! Hardware sinks and sources: what the dropdowns list and how they label
//! each device.

use vstd::prelude::*;
use crate::order::{is_stable_order, stable_order, stably_sorted};
use crate::props::{lookup, Props};
use crate::text::{chars_of, contains, decimal, decimal_string, find_char, find_char_from, has_infix, has_prefix, is_hex, is_hex_digit, is_whitespace, is_ws, join, join_parts, lower_ascii_chars, lower_ascii_seq, lowercase, owned, parse_u32, parse_u32_spec, push_char, push_decimal, push_str, skip_ws, skip_ws_back, split, split_char, starts_with, str_eq, string_of_range, string_views, to_lowercase, trim_end, trim_start, views};

verus! {

/// A hardware output or input as the registry reports it.
#[derive(Clone, Debug)]
pub struct HwDevice {
    pub node_id: u32,
    pub name: String,
    pub display_name: String,
    pub device_api: String,
    pub device_bus: String,
    pub profile_name: String,
    pub channels: u32,
    pub position: String,
}

/// A device with its texts as character sequences.
pub struct DeviceModel {
    pub node_id: u32,
    pub name: Seq<char>,
    pub display_name: Seq<char>,
    pub device_api: Seq<char>,
    pub device_bus: Seq<char>,
    pub profile_name: Seq<char>,
    pub channels: u32,
    pub position: Seq<char>,
}

impl View for HwDevice {
    type V = DeviceModel;

    open spec fn view(&self) -> DeviceModel {
        DeviceModel {
            node_id: self.node_id,
            name: self.name@,
            display_name: self.display_name@,
            device_api: self.device_api@,
            device_bus: self.device_bus@,
            profile_name: self.profile_name@,
            channels: self.channels,
            position: self.position@,
        }
    }
}

impl HwDevice {
    /// A copy of the device.
    pub fn duplicate(&self) -> (r: HwDevice)
        ensures
            r@ == self@,
    {
        HwDevice {
            node_id: self.node_id,
            name: self.name.clone(),
            display_name: self.display_name.clone(),
            device_api: self.device_api.clone(),
            device_bus: self.device_bus.clone(),
            profile_name: self.profile_name.clone(),
            channels: self.channels,
            position: self.position.clone(),
        }
    }
}

/// The characters that separate channel names in a reported layout.
pub open spec fn is_position_sep(c: char) -> bool {
    c == ',' || c == '[' || c == ']' || is_ws(c)
}

/// Channel names read so far, and the one being read.
pub open spec fn tokens_acc(s: Seq<char>) -> (Seq<Seq<char>>, Seq<char>)
    decreases s.len(),
{
    if s.len() == 0 {
        (seq![], seq![])
    } else {
        let (done, cur) = tokens_acc(s.drop_last());
        if is_position_sep(s.last()) {
            (
                if cur.len() > 0 {
                    done.push(cur)
                } else {
                    done
                },
                seq![],
            )
        } else {
            (done, cur.push(s.last()))
        }
    }
}

/// The channel names of a layout: the non-empty runs between separators.
pub open spec fn position_tokens(s: Seq<char>) -> Seq<Seq<char>> {
    let (done, cur) = tokens_acc(s);
    if cur.len() > 0 {
        done.push(cur)
    } else {
        done
    }
}

/// A layout in our form: channel names joined by commas.
pub open spec fn normalized_position(s: Seq<char>) -> Seq<char> {
    join(position_tokens(s), ","@)
}

/// SPA writes layouts space separated, such as `[ FL FR ]`; ours are comma
/// separated.
pub fn normalize_position(raw: &str) -> (r: String)
    ensures
        r@ == normalized_position(raw@),
{
    let v = chars_of(raw);
    let mut done: Vec<Vec<char>> = Vec::new();
    let mut cur: Vec<char> = Vec::new();
    let mut i: usize = 0;
    while i < v.len()
        invariant
            i <= v@.len(),
            (views(done@), cur@) == tokens_acc(v@.take(i as int)),
        decreases v@.len() - i,
    {
        assert(v@.take(i + 1).drop_last() =~= v@.take(i as int));
        let c = v[i];
        if c == ',' || c == '[' || c == ']' || is_whitespace(c) {
            if cur.len() > 0 {
                let piece = cur;
                done.push(piece);
                assert(views(done@) =~= tokens_acc(v@.take(i as int)).0.push(piece@));
            }
            cur = Vec::new();
        } else {
            cur.push(c);
        }
        i = i + 1;
    }
    assert(v@.take(v@.len() as int) =~= v@);
    if cur.len() > 0 {
        let last = cur;
        done.push(last);
        assert(views(done@) =~= position_tokens(raw@));
    } else {
        assert(views(done@) =~= position_tokens(raw@));
    }
    join_parts(&done, ",")
}

/// Number of channels in a normalized layout: its comma separated pieces.
pub fn count_positions(position: &str) -> (r: u32)
    ensures
        r == split(position@, ',').len() as u32,
{
    let v = chars_of(position);
    let pieces = split_char(&v, ',');
    assert(pieces@.len() == views(pieces@).len());
    pieces.len() as u32
}

/// The layout assumed when a device reports none.
pub open spec fn default_position_spec(channels: u32) -> Seq<char> {
    if channels == 1 {
        "MONO"@
    } else {
        "FL,FR"@
    }
}

/// Fallback for a device that does not report `audio.position`.
pub fn default_position(channels: u32) -> (r: &'static str)
    ensures
        r@ == default_position_spec(channels),
{
    match channels {
        1 => "MONO",
        _ => "FL,FR",
    }
}

/// The text of an optional property, empty when missing.
pub open spec fn or_empty(o: Option<Seq<char>>) -> Seq<char> {
    match o {
        Some(s) => s,
        None => seq![],
    }
}

/// The layout a device reports, normalized, if it reports a non-empty one.
pub open spec fn reported_position(props: Seq<(Seq<char>, Seq<char>)>) -> Option<Seq<char>> {
    match lookup(props, "audio.position"@) {
        Some(p) => if normalized_position(p).len() > 0 {
            Some(normalized_position(p))
        } else {
            None
        },
        None => None,
    }
}

/// `audio.channels` when it parses; else the count of the reported layout;
/// else two.
pub open spec fn device_channels(props: Seq<(Seq<char>, Seq<char>)>) -> u32 {
    let parsed = match lookup(props, "audio.channels"@) {
        Some(s) => parse_u32_spec(s),
        None => None,
    };
    match parsed {
        Some(c) => c,
        None => match reported_position(props) {
            Some(p) => split(p, ',').len() as u32,
            None => 2,
        },
    }
}

/// The device a node's properties describe, for nodes of `class` that are
/// not our own virtual devices.
pub open spec fn device_from_props_spec(
    node_id: u32,
    props: Seq<(Seq<char>, Seq<char>)>,
    class: Seq<char>,
) -> Option<DeviceModel> {
    let node_name = or_empty(lookup(props, "node.name"@));
    if lookup(props, "media.class"@) != Some(class) {
        None
    } else if starts_with(node_name, "bridge_"@) {
        None
    } else {
        let display_name = match lookup(props, "node.description"@) {
            Some(d) => d,
            None => match lookup(props, "device.name"@) {
                Some(d) => d,
                None => node_name,
            },
        };
        let channels = device_channels(props);
        Some(
            DeviceModel {
                node_id,
                name: node_name,
                display_name,
                device_api: or_empty(lookup(props, "device.api"@)),
                device_bus: or_empty(lookup(props, "device.bus"@)),
                profile_name: or_empty(lookup(props, "device.profile.name"@)),
                channels,
                position: match reported_position(props) {
                    Some(p) => p,
                    None => default_position_spec(channels),
                },
            },
        )
    }
}

pub open spec fn opt_device_view(r: Option<HwDevice>) -> Option<DeviceModel> {
    match r {
        Some(d) => Some(d@),
        None => None,
    }
}

/// The text of a property, empty when missing.
fn prop_or_empty(props: &Props, key: &str) -> (r: String)
    ensures
        r@ == or_empty(lookup(props@, key@)),
{
    match props.get(key) {
        Some(v) => v,
        None => String::new(),
    }
}

/// The hardware output a node describes; None for anything else and for our
/// own virtual devices.
pub fn sink_from_props(node_id: u32, props: &Props) -> (r: Option<HwDevice>)
    ensures
        opt_device_view(r) == device_from_props_spec(node_id, props@, "Audio/Sink"@),
{
    device_from_props(node_id, props, "Audio/Sink")
}

/// The hardware input (the mic side) a node describes; None for anything
/// else.
pub fn source_from_props(node_id: u32, props: &Props) -> (r: Option<HwDevice>)
    ensures
        opt_device_view(r) == device_from_props_spec(node_id, props@, "Audio/Source"@),
{
    device_from_props(node_id, props, "Audio/Source")
}

/// The device of class `class` that a node's full property set describes.
pub fn device_from_props(node_id: u32, props: &Props, class: &str) -> (r: Option<HwDevice>)
    ensures
        opt_device_view(r) == device_from_props_spec(node_id, props@, class@),
{
    match props.get("media.class") {
        Some(c) => {
            if !str_eq(c.as_str(), class) {
                return None;
            }
        },
        None => {
            return None;
        },
    }
    let node_name = prop_or_empty(props, "node.name");
    let name_chars = chars_of(node_name.as_str());
    let ours = chars_of("bridge_");
    if has_prefix(&name_chars, &ours) {
        return None;
    }
    let display_name = match props.get("node.description") {
        Some(d) => d,
        None => match props.get("device.name") {
            Some(d) => d,
            None => node_name.clone(),
        },
    };
    let device_api = prop_or_empty(props, "device.api");
    let device_bus = prop_or_empty(props, "device.bus");
    let profile_name = prop_or_empty(props, "device.profile.name");
    let reported: Option<String> = match props.get("audio.position") {
        Some(p) => {
            let n = normalize_position(p.as_str());
            if n.as_str().is_empty() {
                None
            } else {
                Some(n)
            }
        },
        None => None,
    };
    assert(match reported {
        Some(p) => reported_position(props@) == Some(p@),
        None => reported_position(props@) is None,
    });
    let parsed: Option<u32> = match props.get("audio.channels") {
        Some(s) => parse_u32(s.as_str()),
        None => None,
    };
    let channels: u32 = match parsed {
        Some(c) => c,
        None => match &reported {
            Some(p) => count_positions(p.as_str()),
            None => 2,
        },
    };
    assert(channels == device_channels(props@));
    let position = match reported {
        Some(p) => p,
        None => owned(default_position(channels)),
    };
    Some(
        HwDevice {
            node_id,
            name: node_name,
            display_name,
            device_api,
            device_bus,
            profile_name,
            channels,
            position,
        },
    )
}

/// The connection a device uses, from its API, bus, profile and node name.
pub open spec fn connection_kind(
    api: Seq<char>,
    bus: Seq<char>,
    profile: Seq<char>,
    name: Seq<char>,
) -> Option<Seq<char>> {
    let profile = lower_ascii_seq(profile);
    let name = lower_ascii_seq(name);
    let is_hdmi = starts_with(profile, "hdmi"@) || contains(name, ".hdmi-"@);
    let is_spdif = contains(profile, "spdif"@) || contains(profile, "iec958"@) || contains(
        name,
        "spdif"@,
    ) || contains(name, "iec958"@);
    if api == "bluez5"@ || bus == "bluetooth"@ {
        Some("Bluetooth"@)
    } else if is_hdmi {
        Some("HDMI / DP"@)
    } else if is_spdif {
        Some("S/PDIF"@)
    } else if bus == "usb"@ {
        Some("USB"@)
    } else if bus == "firewire"@ {
        Some("FireWire"@)
    } else if bus == "pci"@ || bus == "isa"@ {
        Some("Built-in"@)
    } else {
        None
    }
}

pub open spec fn opt_str_view(r: Option<&'static str>) -> Option<Seq<char>> {
    match r {
        Some(s) => Some(s@),
        None => None,
    }
}

/// Label for the connection hardware or transport of a device.
pub fn connection_kind_label(api: &str, bus: &str, profile: &str, name: &str) -> (r: Option<
    &'static str,
>)
    ensures
        opt_str_view(r) == connection_kind(api@, bus@, profile@, name@),
{
    let profile = lower_ascii_chars(&chars_of(profile));
    let name = lower_ascii_chars(&chars_of(name));
    let is_hdmi = has_prefix(&profile, &chars_of("hdmi")) || has_infix(&name, &chars_of(".hdmi-"));
    let is_spdif = has_infix(&profile, &chars_of("spdif")) || has_infix(
        &profile,
        &chars_of("iec958"),
    ) || has_infix(&name, &chars_of("spdif")) || has_infix(&name, &chars_of("iec958"));
    if str_eq(api, "bluez5") || str_eq(bus, "bluetooth") {
        Some("Bluetooth")
    } else if is_hdmi {
        Some("HDMI / DP")
    } else if is_spdif {
        Some("S/PDIF")
    } else if str_eq(bus, "usb") {
        Some("USB")
    } else if str_eq(bus, "firewire") {
        Some("FireWire")
    } else if str_eq(bus, "pci") || str_eq(bus, "isa") {
        Some("Built-in")
    } else {
        None
    }
}

impl HwDevice {
    /// Label for the connection hardware or transport type.
    pub fn connection_label(&self) -> (r: Option<&'static str>)
        ensures
            opt_str_view(r) == connection_kind(
                self.device_api@,
                self.device_bus@,
                self.profile_name@,
                self.name@,
            ),
    {
        connection_kind_label(
            self.device_api.as_str(),
            self.device_bus.as_str(),
            self.profile_name.as_str(),
            self.name.as_str(),
        )
    }
}

/// Number of the first `n` pieces that name an LFE channel.
pub open spec fn lfe_count(pieces: Seq<Seq<char>>, n: int) -> nat
    decreases n,
{
    if n <= 0 {
        0
    } else {
        lfe_count(pieces, n - 1) + if starts_with(pieces[n - 1], "LFE"@) {
            1nat
        } else {
            0nat
        }
    }
}

/// LFE channels of a normalized layout.
pub open spec fn layout_lfe(position: Seq<char>) -> nat {
    lfe_count(split(position, ','), split(position, ',').len() as int)
}

/// `a - b`, or 0 when `b` is larger.
pub open spec fn saturating_sub(a: u32, b: u32) -> u32 {
    if b <= a {
        (a - b) as u32
    } else {
        0
    }
}

/// "Mono", "Stereo", or the surround form "{full}.{lfe} ch".
pub open spec fn layout_label(channels: u32, position: Seq<char>) -> Seq<char> {
    if channels == 0 {
        seq![]
    } else if channels == 1 {
        "Mono"@
    } else if channels == 2 {
        "Stereo"@
    } else {
        let lfe = layout_lfe(position) as u32;
        decimal(saturating_sub(channels, lfe) as nat) + "."@ + decimal(lfe as nat) + " ch"@
    }
}

/// Label for a channel layout: "Mono", "Stereo", or the surround
/// "{full}.{lfe}" form (e.g. 5.1, 7.1, 2.1, and 4.0).
pub fn channel_layout_label(channels: u32, position: &str) -> (r: String)
    ensures
        r@ == layout_label(channels, position@),
{
    match channels {
        0 => String::new(),
        1 => owned("Mono"),
        2 => owned("Stereo"),
        n => {
            let pieces = split_char(&chars_of(position), ',');
            let lfe_prefix = chars_of("LFE");
            let mut count: usize = 0;
            let mut i: usize = 0;
            while i < pieces.len()
                invariant
                    i <= pieces@.len(),
                    views(pieces@) == split(position@, ','),
                    lfe_prefix@ == "LFE"@,
                    count == lfe_count(views(pieces@), i as int),
                    count <= i,
                decreases pieces@.len() - i,
            {
                if has_prefix(&pieces[i], &lfe_prefix) {
                    count = count + 1;
                }
                i = i + 1;
            }
            let lfe = count as u32;
            let full = if lfe <= n {
                n - lfe
            } else {
                0
            };
            let mut out = decimal_string(full as u64);
            push_str(&mut out, ".");
            push_decimal(&mut out, lfe as u64);
            push_str(&mut out, " ch");
            out
        },
    }
}

/// Every character of `s` is a hex digit.
pub open spec fn all_hex(s: Seq<char>) -> bool {
    forall|i: int| 0 <= i < s.len() ==> is_hex(#[trigger] s[i])
}

/// `d` with a bracketed hex serial of six or more digits removed, and the
/// text around it joined by one space.
pub open spec fn strip_serial(d: Seq<char>) -> Seq<char> {
    match find_char(d, '(') {
        None => d,
        Some(open) => match find_char(d.skip(open + 1), ')') {
            None => d,
            Some(len) => {
                let inner = d.subrange(open + 1, open + 1 + len);
                if inner.len() >= 6 && all_hex(inner) {
                    let head = trim_end(d.take(open));
                    let tail = trim_start(d.skip(open + len + 2));
                    if head.len() > 0 && tail.len() > 0 {
                        head + seq![' '] + tail
                    } else {
                        head + tail
                    }
                } else {
                    d
                }
            },
        },
    }
}

/// A description without the device serial: "ADI-2 DAC (12345678) Analog
/// Stereo" reads "ADI-2 DAC Analog Stereo"; other brackets stay.
pub fn strip_device_serial(description: &str) -> (r: String)
    ensures
        r@ == strip_serial(description@),
{
    let v = chars_of(description);
    assert(v@.skip(0) =~= v@);
    let open = match find_char_from(&v, 0, '(') {
        Some(o) => o,
        None => {
            return owned(description);
        },
    };
    assert(open < v.len());
    assert(find_char(description@, '(') == Some(open as int));
    let len = match find_char_from(&v, open + 1, ')') {
        Some(close) => close - (open + 1),
        None => {
            assert(find_char(description@.skip(open + 1), ')') is None);
            return owned(description);
        },
    };
    assert(find_char(description@.skip(open + 1), ')') == Some(len as int));
    let ghost inner = v@.subrange(open + 1, open + 1 + len);
    let mut serial = len >= 6;
    let mut k: usize = 0;
    while k < len && serial
        invariant
            open + 1 + len < v@.len(),
            v.len() == v@.len(),
            k <= len,
            inner == v@.subrange(open + 1, open + 1 + len),
            serial ==> len >= 6 && forall|i: int| 0 <= i < k ==> is_hex(#[trigger] inner[i]),
            !serial ==> !(len >= 6 && all_hex(inner)),
        decreases len - k,
    {
        if !is_hex_digit(v[open + 1 + k]) {
            assert(!is_hex(inner[k as int]));
            serial = false;
        }
        k = k + 1;
    }
    if !serial {
        return owned(description);
    }
    assert(all_hex(inner));
    let head_end = skip_ws_back(&v, open);
    let tail_start = skip_ws(&v, open + len + 2);
    let mut out = string_of_range(&v, 0, head_end);
    assert(v@.subrange(0, head_end as int) =~= v@.take(head_end as int));
    assert(v@.skip(tail_start as int) =~= v@.subrange(tail_start as int, v@.len() as int));
    if head_end > 0 && tail_start < v.len() {
        push_char(&mut out, ' ');
    }
    let tail = string_of_range(&v, tail_start, v.len());
    push_str(&mut out, tail.as_str());
    out
}

/// Number of the first `n` names equal to `x`.
pub open spec fn count_equal(names: Seq<Seq<char>>, x: Seq<char>, n: int) -> nat
    decreases n,
{
    if n <= 0 {
        0
    } else {
        count_equal(names, x, n - 1) + if names[n - 1] == x {
            1nat
        } else {
            0nat
        }
    }
}

/// The descriptions without serials.
pub open spec fn stripped_names(devs: Seq<DeviceModel>) -> Seq<Seq<char>> {
    devs.map_values(|d: DeviceModel| strip_serial(d.display_name))
}

/// Device `i` shown under its short name when no other device has the same
/// short name.
pub open spec fn renamed_device(devs: Seq<DeviceModel>, i: int) -> DeviceModel {
    let names = stripped_names(devs);
    if count_equal(names, names[i], names.len() as int) == 1 {
        DeviceModel { display_name: names[i], ..devs[i] }
    } else {
        devs[i]
    }
}

/// The devices under their dropdown names.
pub open spec fn renamed_devices(devs: Seq<DeviceModel>) -> Seq<DeviceModel> {
    Seq::new(devs.len(), |i: int| renamed_device(devs, i))
}

/// The sort keys of the dropdown: lowercased names.
pub open spec fn display_keys(devs: Seq<DeviceModel>) -> Seq<Seq<char>> {
    devs.map_values(|d: DeviceModel| lowercase(d.display_name))
}

pub open spec fn device_views(v: Seq<HwDevice>) -> Seq<DeviceModel> {
    v.map_values(|d: HwDevice| d@)
}

/// Devices in the order of the dropdowns: a description loses its serial
/// when that leaves it unique, then all sort by name, case-insensitively.
pub fn sorted_for_display(devices: Vec<HwDevice>) -> (r: Vec<HwDevice>)
    ensures
        stably_sorted(
            device_views(r@),
            renamed_devices(device_views(devices@)),
            display_keys(renamed_devices(device_views(devices@))),
        ),
{
    let ghost devs = device_views(devices@);
    let n = devices.len();
    let mut stripped: Vec<String> = Vec::new();
    let mut i: usize = 0;
    while i < n
        invariant
            n == devices@.len(),
            devs == device_views(devices@),
            i <= n,
            stripped@.len() == i,
            forall|j: int| 0 <= j < i ==> #[trigger] stripped@[j]@ == stripped_names(devs)[j],
        decreases n - i,
    {
        stripped.push(strip_device_serial(devices[i].display_name.as_str()));
        i = i + 1;
    }
    assert(string_views(stripped@) =~= stripped_names(devs));
    let mut renamed: Vec<HwDevice> = Vec::new();
    let mut keys: Vec<Vec<char>> = Vec::new();
    i = 0;
    while i < n
        invariant
            n == devices@.len(),
            devs == device_views(devices@),
            string_views(stripped@) == stripped_names(devs),
            stripped@.len() == n,
            i <= n,
            renamed@.len() == i,
            keys@.len() == i,
            forall|j: int| 0 <= j < i ==> #[trigger] renamed@[j]@ == renamed_device(devs, j),
            forall|j: int| 0 <= j < i ==> #[trigger] keys@[j]@ == lowercase(renamed@[j].display_name@),
        decreases n - i,
    {
        let mut count: usize = 0;
        let mut k: usize = 0;
        while k < n
            invariant
                string_views(stripped@) == stripped_names(devs),
                stripped@.len() == n,
                i < n,
                k <= n,
                count <= k,
                count == count_equal(stripped_names(devs), stripped_names(devs)[i as int], k as int),
            decreases n - k,
        {
            assert(string_views(stripped@)[k as int] == stripped@[k as int]@);
            assert(string_views(stripped@)[i as int] == stripped@[i as int]@);
            if str_eq(stripped[k].as_str(), stripped[i].as_str()) {
                count = count + 1;
            }
            k = k + 1;
        }
        let mut d = devices[i].duplicate();
        if count == 1 {
            d.display_name = stripped[i].clone();
        }
        proof {
            assert(string_views(stripped@)[i as int] == stripped@[i as int]@);
            assert(d@ == renamed_device(devs, i as int));
        }
        keys.push(chars_of(to_lowercase(d.display_name.as_str()).as_str()));
        renamed.push(d);
        i = i + 1;
    }
    let ghost renamed_model = renamed_devices(devs);
    assert(device_views(renamed@) =~= renamed_model);
    assert(views(keys@) =~= display_keys(renamed_model));
    let order = stable_order(&keys);
    let mut out: Vec<HwDevice> = Vec::new();
    i = 0;
    while i < n
        invariant
            renamed@.len() == n,
            order@.len() == n,
            device_views(renamed@) == renamed_model,
            is_stable_order(views(keys@), order@),
            keys@.len() == n,
            i <= n,
            out@.len() == i,
            forall|j: int| 0 <= j < i ==> #[trigger] out@[j]@ == renamed_model[order@[j] as int],
        decreases n - i,
    {
        assert(order@[i as int] < n);
        out.push(renamed[order[i]].duplicate());
        i = i + 1;
    }
    assert(stably_sorted(device_views(out@), renamed_model, display_keys(renamed_model))) by {
        assert(is_stable_order(display_keys(renamed_model), order@));
        assert forall|j: int| 0 <= j < device_views(out@).len() implies device_views(out@)[j]
            == renamed_model[#[trigger] order@[j] as int] by {
            assert(out@[j]@ == renamed_model[order@[j] as int]);
        }
    }
    out
}

/// No character of `t` separates channel names.
pub open spec fn sep_free(t: Seq<char>) -> bool {
    forall|i: int| 0 <= i < t.len() ==> !is_position_sep(#[trigger] t[i])
}

proof fn lemma_tokens_append_word(s: Seq<char>, t: Seq<char>)
    requires
        sep_free(t),
    ensures
        tokens_acc(s + t) == (tokens_acc(s).0, tokens_acc(s).1 + t),
    decreases t.len(),
{
    if t.len() == 0 {
        assert(s + t =~= s);
        assert(tokens_acc(s).1 + t =~= tokens_acc(s).1);
    } else {
        let t1 = t.drop_last();
        assert(sep_free(t1));
        lemma_tokens_append_word(s, t1);
        assert((s + t).drop_last() =~= s + t1);
        assert((s + t).last() == t.last());
        assert(!is_position_sep(t[t.len() - 1]));
        assert(tokens_acc(s).1 + t1 + seq![t.last()] =~= tokens_acc(s).1 + t);
    }
}

proof fn lemma_tokens_of_join(ts: Seq<Seq<char>>)
    requires
        ts.len() > 0,
        forall|i: int| 0 <= i < ts.len() ==> (#[trigger] ts[i]).len() > 0 && sep_free(ts[i]),
    ensures
        tokens_acc(join(ts, ","@)) == (ts.drop_last(), ts.last()),
    decreases ts.len(),
{
    reveal_strlit(",");
    if ts.len() == 1 {
        lemma_tokens_append_word(seq![], ts[0]);
        assert(Seq::<char>::empty() + ts[0] =~= ts[0]);
        assert(Seq::<char>::empty() + ts[0] =~= ts[0]);
        assert(ts.drop_last() =~= Seq::<Seq<char>>::empty());
    } else {
        let front = ts.drop_last();
        assert forall|i: int| 0 <= i < front.len() implies (#[trigger] front[i]).len() > 0 && sep_free(
            front[i],
        ) by {
            assert(front[i] == ts[i]);
        }
        lemma_tokens_of_join(front);
        let j = join(front, ","@);
        assert(join(ts, ","@) == j + ","@ + ts.last());
        assert((j + ","@).drop_last() =~= j);
        assert((j + ","@).last() == ',');
        assert(front.last().len() > 0) by {
            assert(front.last() == ts[ts.len() - 2]);
        }
        assert(front.drop_last().push(front.last()) =~= front);
        assert(tokens_acc(j + ","@) == (front, Seq::<char>::empty()));
        assert(sep_free(ts.last())) by {
            assert(ts.last() == ts[ts.len() - 1]);
        }
        lemma_tokens_append_word(j + ","@, ts.last());
        assert(Seq::<char>::empty() + ts.last() =~= ts.last());
    }
}

proof fn lemma_tokens_clean(s: Seq<char>)
    ensures
        forall|i: int|
            0 <= i < tokens_acc(s).0.len() ==> (#[trigger] tokens_acc(s).0[i]).len() > 0 && sep_free(
                tokens_acc(s).0[i],
            ),
        sep_free(tokens_acc(s).1),
    decreases s.len(),
{
    if s.len() > 0 {
        lemma_tokens_clean(s.drop_last());
        let (done, cur) = tokens_acc(s.drop_last());
        if !is_position_sep(s.last()) {
            assert forall|i: int| 0 <= i < cur.push(s.last()).len() implies !is_position_sep(
                #[trigger] cur.push(s.last())[i],
            ) by {
                if i < cur.len() {
                    assert(cur.push(s.last())[i] == cur[i]);
                }
            }
        } else if cur.len() > 0 {
            assert forall|i: int| 0 <= i < done.push(cur).len() implies (#[trigger] done.push(
                cur,
            )[i]).len() > 0 && sep_free(done.push(cur)[i]) by {
                if i < done.len() {
                    assert(done.push(cur)[i] == done[i]);
                }
            }
        }
    }
}

/// Normalizing a layout that is already in our form changes nothing.
pub proof fn normalize_position_idempotent(s: Seq<char>)
    ensures
        normalized_position(normalized_position(s)) == normalized_position(s),
{
    let ts = position_tokens(s);
    lemma_tokens_clean(s);
    let (done, cur) = tokens_acc(s);
    assert forall|i: int| 0 <= i < ts.len() implies (#[trigger] ts[i]).len() > 0 && sep_free(ts[i]) by {
        if cur.len() > 0 {
            if i < done.len() {
                assert(ts[i] == done[i]);
            }
        }
    }
    if ts.len() == 0 {
        assert(join(ts, ","@) =~= Seq::<char>::empty());
        assert(tokens_acc(Seq::<char>::empty()) == (Seq::<Seq<char>>::empty(), Seq::<char>::empty()));
    } else {
        lemma_tokens_of_join(ts);
        assert(ts.last().len() > 0) by {
            assert(ts.last() == ts[ts.len() - 1]);
        }
        assert(ts.drop_last().push(ts.last()) =~= ts);
    }
}

/// A device that reports no usable channel count has as many channels as
/// its layout has positions.
pub proof fn layout_and_count_agree(node_id: u32, props: Seq<(Seq<char>, Seq<char>)>, class: Seq<char>)
    requires
        match lookup(props, "audio.channels"@) {
            Some(c) => parse_u32_spec(c) is None,
            None => true,
        },
    ensures
        device_from_props_spec(node_id, props, class) matches Some(d) ==> d.channels == split(
            d.position,
            ',',
        ).len() as u32,
{
    if reported_position(props) is None {
        reveal_strlit("FL,FR");
        let p = "FL,FR"@;
        assert(p.drop_last().drop_last().drop_last() =~= seq!['F', 'L']);
        assert(p.drop_last().drop_last().drop_last().drop_last().drop_last().len() == 0);
        reveal_with_fuel(crate::text::split_acc, 6);
        assert(split(p, ',').len() == 2);
    }
}

/// A device is shown under its node's description when the node has one,
/// else under its device name, else under its node name.
pub proof fn device_named_by_description_first(node_id: u32, props: Seq<(Seq<char>, Seq<char>)>, class: Seq<char>)
    ensures
        device_from_props_spec(node_id, props, class) matches Some(m) ==> {
            &&& (lookup(props, "node.description"@) matches Some(d) ==> m.display_name == d)
            &&& (lookup(props, "node.description"@) is None ==> (lookup(props, "device.name"@) matches Some(d)
                ==> m.display_name == d))
            &&& (lookup(props, "node.description"@) is None && lookup(props, "device.name"@) is None
                ==> m.display_name == m.name)
            &&& m.name == or_empty(lookup(props, "node.name"@))
        },
{
}

} // verus!
