//! What the PipeWire thread decides about the graph: which globals it binds,
//! how it classifies a node from its properties, which of our devices a
//! removed global was, and which app streams feed the Aux sink. The thread
//! itself (the main loop, the proxies, the metadata writes) stays with the
//! application; it hands these functions plain property sets and ids and
//! performs the events and requests they return.

use vstd::prelude::*;
use std::sync::Arc;
use std::sync::atomic::AtomicU32;
use crate::hw_device::{
    DeviceModel, HwDevice, device_from_props_spec, sink_from_props,
    source_from_props,
};
use crate::idset::{
    IdSet, ascending, elems, increasing, insert_sorted, lemma_ascending,
    lemma_ascending_exists, same_ids,
};
use crate::props::{Props, lookup};
use crate::role::{Role, RoleSlots, role_from_wire};
use crate::routing::{StreamInfo, StreamModel, opt_view};
use crate::table::Table;
use crate::text::{
    chars_of, has_prefix, parse_u32, parse_u32_spec, push_str, starts_with, str_eq,
};

verus! {

/// What the PipeWire thread reports to the main thread.
pub enum Event {
    Settled,
    SinkAdded(HwDevice),
    SinkRemoved(u32),
    SourceAdded(HwDevice),
    SourceRemoved(u32),
    NodeReady { role: Role, id: u32 },
    NodeRemoved { role: Role },
    ModuleFailed { role: Role },
    StreamAdded { info: StreamInfo, peak: Arc<AtomicU32> },
    StreamRemoved(u32),
    /// The app streams currently linked to the Aux sink, ascending.
    AuxStreamsChanged(Vec<u32>),
    DefaultSink(Option<String>),
    DefaultSource(Option<String>),
}

/// One of our loopback capture nodes.
#[derive(Copy, Clone, Debug, PartialEq, Eq, Structural)]
pub struct OwnedNode {
    pub id: u32,
    pub channels: u32,
}

/// Channel count of the virtual surround sink.
pub const SURROUND_CHANNELS: u32 = 8;

/// The property value under `key`, parsed as a `u32`.
pub open spec fn parsed_prop(props: Seq<(Seq<char>, Seq<char>)>, key: Seq<char>) -> Option<u32> {
    match lookup(props, key) {
        Some(v) => parse_u32_spec(v),
        None => None,
    }
}

/// `props.get(key).and_then(|s| s.parse().ok())`.
pub fn parsed_u32_prop(props: &Props, key: &str) -> (r: Option<u32>)
    ensures
        r == parsed_prop(props@, key@),
{
    match props.get(key) {
        Some(v) => parse_u32(v.as_str()),
        None => None,
    }
}

/// A registry node worth binding: one of ours (its name starts with
/// `bridge_`), or a sink, a source or an app's output stream.
pub open spec fn node_wanted_spec(props: Seq<(Seq<char>, Seq<char>)>) -> bool {
    let ours = match lookup(props, "node.name"@) {
        Some(n) => starts_with(n, "bridge_"@),
        None => false,
    };
    let class = lookup(props, "media.class"@);
    let wanted = class == Some("Audio/Sink"@) || class == Some("Audio/Source"@) || class == Some(
        "Stream/Output/Audio"@,
    );
    wanted || ours
}

/// Whether the thread binds a registry node with these properties.
pub fn node_wanted(props: &Props) -> (r: bool)
    ensures
        r == node_wanted_spec(props@),
{
    let ours = match props.get("node.name") {
        Some(n) => has_prefix(&chars_of(n.as_str()), &chars_of("bridge_")),
        None => false,
    };
    let wanted = match props.get("media.class") {
        Some(c) => str_eq(c.as_str(), "Audio/Sink") || str_eq(c.as_str(), "Audio/Source")
            || str_eq(c.as_str(), "Stream/Output/Audio"),
        None => false,
    };
    wanted || ours
}

/// Whether the thread binds a registry node it has not bound yet.
pub fn node_to_bind(props: &Props, already_bound: bool) -> (r: bool)
    ensures
        r == (node_wanted_spec(props@) && !already_bound),
{
    !already_bound && node_wanted(props)
}

/// Whether the thread binds a metadata object: the one named "default",
/// while none is bound yet.
pub fn metadata_wanted(props: &Props, already_bound: bool) -> (r: bool)
    ensures
        r == (lookup(props@, "metadata.name"@) == Some("default"@) && !already_bound),
{
    if already_bound {
        return false;
    }
    match props.get("metadata.name") {
        Some(n) => str_eq(n.as_str(), "default"),
        None => false,
    }
}

/// The (output node, input node) a link global joins, when both parse.
pub open spec fn link_ends_spec(props: Seq<(Seq<char>, Seq<char>)>) -> Option<(u32, u32)> {
    match (parsed_prop(props, "link.output.node"@), parsed_prop(props, "link.input.node"@)) {
        (Some(out), Some(inp)) => Some((out, inp)),
        _ => None,
    }
}

/// The two nodes a link global joins.
pub fn link_ends(props: &Props) -> (r: Option<(u32, u32)>)
    ensures
        r == link_ends_spec(props@),
{
    let out = parsed_u32_prop(props, "link.output.node");
    let inp = parsed_u32_prop(props, "link.input.node");
    match (out, inp) {
        (Some(o), Some(i)) => Some((o, i)),
        _ => None,
    }
}

/// The app stream a node's full property set describes: an output stream
/// that is not one of our loopbacks and names its app or its binary.
pub open spec fn stream_info_spec(id: u32, props: Seq<(Seq<char>, Seq<char>)>) -> Option<
    StreamModel,
> {
    let app_name = lookup(props, "application.name"@);
    let binary = lookup(props, "application.process.binary"@);
    if lookup(props, "media.class"@) != Some("Stream/Output/Audio"@) {
        None
    } else if lookup(props, "bridge.role"@) is Some || lookup(props, "bridge.pb-role"@) is Some {
        None
    } else if app_name is None && binary is None {
        None
    } else {
        Some(
            StreamModel {
                node_id: id,
                app_name,
                app_icon: lookup(props, "application.icon-name"@),
                binary,
                media_name: lookup(props, "media.name"@),
            },
        )
    }
}

pub open spec fn opt_stream_view(r: Option<StreamInfo>) -> Option<StreamModel> {
    match r {
        Some(s) => Some(s@),
        None => None,
    }
}

/// The app output stream that node `id` is, if it is one.
pub fn stream_info_from_props(id: u32, props: &Props) -> (r: Option<StreamInfo>)
    ensures
        opt_stream_view(r) == stream_info_spec(id, props@),
{
    match props.get("media.class") {
        Some(c) => {
            if !str_eq(c.as_str(), "Stream/Output/Audio") {
                return None;
            }
        },
        None => {
            return None;
        },
    }
    if props.get("bridge.role").is_some() || props.get("bridge.pb-role").is_some() {
        return None;
    }
    let app_name = props.get("application.name");
    let binary = props.get("application.process.binary");
    if app_name.is_none() && binary.is_none() {
        return None;
    }
    let app_icon = props.get("application.icon-name");
    let media_name = props.get("media.name");
    assert(opt_view(app_name) == lookup(props@, "application.name"@));
    assert(opt_view(binary) == lookup(props@, "application.process.binary"@));
    assert(opt_view(app_icon) == lookup(props@, "application.icon-name"@));
    assert(opt_view(media_name) == lookup(props@, "media.name"@));
    Some(StreamInfo { node_id: id, app_name, app_icon, binary, media_name })
}

/// The channel count our capture node of `role` falls back to when its
/// properties carry none (the confs write `audio.channels`).
pub open spec fn default_channels_spec(role: Role) -> u32 {
    match role {
        Role::Surround => SURROUND_CHANNELS,
        Role::Aux | Role::Main => 2,
    }
}

pub fn default_channels(role: Role) -> (r: u32)
    ensures
        r == default_channels_spec(role),
{
    match role {
        Role::Surround => SURROUND_CHANNELS,
        Role::Aux | Role::Main => 2,
    }
}

/// `{"name":"<name>"}`: the value of a `default.configured.audio.*` key.
pub open spec fn configured_default_text(name: Seq<char>) -> Seq<char> {
    "{\"name\":\""@ + name + "\"}"@
}

/// The SPA-JSON value that makes the node `name` the configured default.
pub fn configured_default_value(name: &str) -> (r: String)
    ensures
        r@ == configured_default_text(name@),
{
    let mut s = String::new();
    push_str(&mut s, "{\"name\":\"");
    push_str(&mut s, name);
    push_str(&mut s, "\"}");
    s
}

/// What an event says, with its texts as character sequences; a new
/// stream's peak atomic is left out.
pub enum EventView {
    Settled,
    SinkAdded(DeviceModel),
    SinkRemoved(u32),
    SourceAdded(DeviceModel),
    SourceRemoved(u32),
    NodeReady { role: Role, id: u32 },
    NodeRemoved { role: Role },
    ModuleFailed { role: Role },
    StreamAdded(StreamModel),
    StreamRemoved(u32),
    AuxStreamsChanged(Seq<u32>),
    DefaultSink(Option<Seq<char>>),
    DefaultSource(Option<Seq<char>>),
}

impl View for Event {
    type V = EventView;

    open spec fn view(&self) -> EventView {
        match self {
            Event::Settled => EventView::Settled,
            Event::SinkAdded(d) => EventView::SinkAdded(d@),
            Event::SinkRemoved(id) => EventView::SinkRemoved(*id),
            Event::SourceAdded(d) => EventView::SourceAdded(d@),
            Event::SourceRemoved(id) => EventView::SourceRemoved(*id),
            Event::NodeReady { role, id } => EventView::NodeReady { role: *role, id: *id },
            Event::NodeRemoved { role } => EventView::NodeRemoved { role: *role },
            Event::ModuleFailed { role } => EventView::ModuleFailed { role: *role },
            Event::StreamAdded { info, peak } => EventView::StreamAdded(info@),
            Event::StreamRemoved(id) => EventView::StreamRemoved(*id),
            Event::AuxStreamsChanged(ids) => EventView::AuxStreamsChanged(ids@),
            Event::DefaultSink(v) => EventView::DefaultSink(opt_view(*v)),
            Event::DefaultSource(v) => EventView::DefaultSource(opt_view(*v)),
        }
    }
}

pub open spec fn event_views(v: Seq<Event>) -> Seq<EventView> {
    v.map_values(|e: Event| e@)
}

/// The event a change of a `default` metadata key makes, if the key is one
/// the main thread follows.
pub open spec fn metadata_event_spec(key: Seq<char>, value: Option<Seq<char>>) -> Option<EventView> {
    if key == "default.audio.sink"@ {
        Some(EventView::DefaultSink(value))
    } else if key == "default.audio.source"@ {
        Some(EventView::DefaultSource(value))
    } else {
        None
    }
}

pub open spec fn opt_event_view(e: Option<Event>) -> Option<EventView> {
    match e {
        Some(e) => Some(e@),
        None => None,
    }
}

/// The event for a `default` metadata key that now holds `value` (None when
/// it was cleared).
pub fn metadata_event(key: &str, value: Option<String>) -> (r: Option<Event>)
    ensures
        opt_event_view(r) == metadata_event_spec(key@, opt_view(value)),
{
    if str_eq(key, "default.audio.sink") {
        Some(Event::DefaultSink(value))
    } else if str_eq(key, "default.audio.source") {
        Some(Event::DefaultSource(value))
    } else {
        None
    }
}

/// The first role, in the order Aux, Main, Surround, whose capture node is
/// `id`.
pub open spec fn owner_of(owned: Map<Role, OwnedNode>, id: u32) -> Option<Role> {
    if owned.contains_key(Role::Aux) && owned[Role::Aux].id == id {
        Some(Role::Aux)
    } else if owned.contains_key(Role::Main) && owned[Role::Main].id == id {
        Some(Role::Main)
    } else if owned.contains_key(Role::Surround) && owned[Role::Surround].id == id {
        Some(Role::Surround)
    } else {
        None
    }
}

/// The first role, in the order Aux, Main, Surround, whose playback node is
/// `id`.
pub open spec fn pb_owner_of(owned_pb: Map<Role, u32>, id: u32) -> Option<Role> {
    if owned_pb.contains_key(Role::Aux) && owned_pb[Role::Aux] == id {
        Some(Role::Aux)
    } else if owned_pb.contains_key(Role::Main) && owned_pb[Role::Main] == id {
        Some(Role::Main)
    } else if owned_pb.contains_key(Role::Surround) && owned_pb[Role::Surround] == id {
        Some(Role::Surround)
    } else {
        None
    }
}

/// The role whose capture node is `id`, if any.
pub fn role_for_owned(owned: &RoleSlots<OwnedNode>, id: u32) -> (r: Option<Role>)
    ensures
        r == owner_of(owned@, id),
        r matches Some(role) ==> owned@.contains_key(role) && owned@[role].id == id,
        r is None ==> forall|role: Role| #[trigger]
            owned@.contains_key(role) ==> owned@[role].id != id,
{
    let r = if matches!(owned.get(Role::Aux), Some(o) if o.id == id) {
        Some(Role::Aux)
    } else if matches!(owned.get(Role::Main), Some(o) if o.id == id) {
        Some(Role::Main)
    } else if matches!(owned.get(Role::Surround), Some(o) if o.id == id) {
        Some(Role::Surround)
    } else {
        None
    };
    proof {
        assert forall|role: Role| #[trigger] owned@.contains_key(role) && r is None implies owned@[
            role
        ].id != id by {
            match role {
                Role::Aux => {},
                Role::Main => {},
                Role::Surround => {},
            }
        }
    }
    r
}

/// The role whose playback node is `id`, if any.
pub fn role_for_pb(owned_pb: &RoleSlots<u32>, id: u32) -> (r: Option<Role>)
    ensures
        r == pb_owner_of(owned_pb@, id),
        r matches Some(role) ==> owned_pb@.contains_key(role) && owned_pb@[role] == id,
        r is None ==> forall|role: Role| #[trigger]
            owned_pb@.contains_key(role) ==> owned_pb@[role] != id,
{
    let r = if owned_pb.get(Role::Aux) == Some(id) {
        Some(Role::Aux)
    } else if owned_pb.get(Role::Main) == Some(id) {
        Some(Role::Main)
    } else if owned_pb.get(Role::Surround) == Some(id) {
        Some(Role::Surround)
    } else {
        None
    };
    proof {
        assert forall|role: Role| #[trigger] owned_pb@.contains_key(role) && r is None implies owned_pb@[
            role
        ] != id by {
            match role {
                Role::Aux => {},
                Role::Main => {},
                Role::Surround => {},
            }
        }
    }
    r
}

/// What a node's full property set makes of it.
pub enum NodeClass {
    /// One of our capture nodes, with its channel count.
    Owned(Role, u32),
    /// One of our playback nodes.
    Playback(Role),
    Stream(StreamModel),
    Sink(DeviceModel),
    Source(DeviceModel),
    Other,
}

/// The role value under `key`.
pub open spec fn prop_role(props: Seq<(Seq<char>, Seq<char>)>, key: Seq<char>) -> Option<Role> {
    match lookup(props, key) {
        Some(v) => role_from_wire(v),
        None => None,
    }
}

/// `props.get(key).and_then(Role::from_wire)`.
pub fn role_prop(props: &Props, key: &str) -> (r: Option<Role>)
    ensures
        r == prop_role(props@, key@),
{
    match props.get(key) {
        Some(v) => Role::from_wire(v.as_str()),
        None => None,
    }
}

/// How the thread classifies node `id` from its full property set: our
/// capture node, our playback node, an app stream, a hardware sink, a
/// hardware source, or none of these, tested in that order.
pub open spec fn classify_spec(id: u32, props: Seq<(Seq<char>, Seq<char>)>) -> NodeClass {
    match prop_role(props, "bridge.role"@) {
        Some(role) => NodeClass::Owned(
            role,
            match parsed_prop(props, "audio.channels"@) {
                Some(c) => c,
                None => default_channels_spec(role),
            },
        ),
        None => match prop_role(props, "bridge.pb-role"@) {
            Some(role) => NodeClass::Playback(role),
            None => match stream_info_spec(id, props) {
                Some(s) => NodeClass::Stream(s),
                None => match device_from_props_spec(id, props, "Audio/Sink"@) {
                    Some(d) => NodeClass::Sink(d),
                    None => match device_from_props_spec(id, props, "Audio/Source"@) {
                        Some(d) => NodeClass::Source(d),
                        None => NodeClass::Other,
                    },
                },
            },
        },
    }
}

/// The graph as the PipeWire thread knows it.
#[verifier::ext_equal]
pub struct GraphModel {
    /// Our capture nodes, by role.
    pub owned: Map<Role, OwnedNode>,
    /// Our playback nodes, by role.
    pub owned_pb: Map<Role, u32>,
    /// The hardware sinks reported to the main thread.
    pub sinks: Set<u32>,
    /// The hardware sources reported to the main thread.
    pub sources: Set<u32>,
    /// The app output streams.
    pub streams: Set<u32>,
    /// Every link: its id, with its (output node, input node).
    pub links: Map<u32, (u32, u32)>,
    /// The app streams last reported as linked to the Aux sink.
    pub reported: Seq<u32>,
    /// The roles whose loopback module this session loaded.
    pub modules: Set<Role>,
}

/// The id of our Aux capture node.
pub open spec fn aux_id(g: GraphModel) -> Option<u32> {
    if g.owned.contains_key(Role::Aux) {
        Some(g.owned[Role::Aux].id)
    } else {
        None
    }
}

/// The app streams with a link into our Aux sink.
pub open spec fn linked_to_aux(g: GraphModel) -> Set<u32> {
    Set::new(
        |x: u32|
            g.streams.contains(x) && (aux_id(g) matches Some(a) && exists|l: u32| #[trigger]
                g.links.contains_key(l) && g.links[l] == (x, a)),
    )
}

/// The last report is the ascending list of the app streams linked to Aux.
pub open spec fn in_sync(g: GraphModel) -> bool {
    increasing(g.reported) && elems(g.reported) == linked_to_aux(g)
}

/// Recomputing the Aux streams: a report goes out only when the ascending
/// list differs from the last one.
pub open spec fn refreshed(g: GraphModel) -> (GraphModel, Seq<EventView>) {
    let ids = ascending(linked_to_aux(g));
    if ids == g.reported {
        (g, seq![])
    } else {
        (GraphModel { reported: ids, ..g }, seq![EventView::AuxStreamsChanged(ids)])
    }
}

/// The graph and the events after node `id` is classified.
pub open spec fn after_classify(g: GraphModel, id: u32, props: Seq<(Seq<char>, Seq<char>)>) -> (
    GraphModel,
    Seq<EventView>,
) {
    match classify_spec(id, props) {
        NodeClass::Owned(role, channels) => {
            let (g2, ev) = refreshed(
                GraphModel { owned: g.owned.insert(role, OwnedNode { id, channels }), ..g },
            );
            (g2, seq![EventView::NodeReady { role, id }] + ev)
        },
        NodeClass::Playback(role) => (GraphModel { owned_pb: g.owned_pb.insert(role, id), ..g }, seq![]),
        NodeClass::Stream(info) => {
            let (g2, ev) = refreshed(GraphModel { streams: g.streams.insert(id), ..g });
            (g2, seq![EventView::StreamAdded(info)] + ev)
        },
        NodeClass::Sink(d) => (GraphModel { sinks: g.sinks.insert(id), ..g }, seq![EventView::SinkAdded(d)]),
        NodeClass::Source(d) => (
            GraphModel { sources: g.sources.insert(id), ..g },
            seq![EventView::SourceAdded(d)],
        ),
        NodeClass::Other => (g, seq![]),
    }
}

/// The graph and the events after a link global with these properties
/// appears: a link whose ends do not parse is ignored; one into the Aux
/// sink recomputes the Aux streams.
pub open spec fn after_link(g: GraphModel, id: u32, props: Seq<(Seq<char>, Seq<char>)>) -> (
    GraphModel,
    Seq<EventView>,
) {
    match link_ends_spec(props) {
        None => (g, seq![]),
        Some((out, inp)) => {
            let g1 = GraphModel { links: g.links.insert(id, (out, inp)), ..g };
            if aux_id(g) == Some(inp) {
                refreshed(g1)
            } else {
                (g1, seq![])
            }
        },
    }
}

/// The graph and the events after global `id` is removed: it is looked for
/// among our capture nodes, our playback nodes, the sinks, the sources, the
/// streams and the links, in that order, and dropped from the first that
/// holds it.
pub open spec fn after_remove(g: GraphModel, id: u32) -> (GraphModel, Seq<EventView>) {
    match owner_of(g.owned, id) {
        Some(role) => {
            let g1 = GraphModel { owned: g.owned.remove(role), ..g };
            if role == Role::Aux {
                let (g2, ev) = refreshed(g1);
                (g2, seq![EventView::NodeRemoved { role }] + ev)
            } else {
                (g1, seq![EventView::NodeRemoved { role }])
            }
        },
        None => match pb_owner_of(g.owned_pb, id) {
            Some(role) => (GraphModel { owned_pb: g.owned_pb.remove(role), ..g }, seq![]),
            None => if g.sinks.contains(id) {
                (GraphModel { sinks: g.sinks.remove(id), ..g }, seq![EventView::SinkRemoved(id)])
            } else if g.sources.contains(id) {
                (
                    GraphModel { sources: g.sources.remove(id), ..g },
                    seq![EventView::SourceRemoved(id)],
                )
            } else if g.streams.contains(id) {
                let (g2, ev) = refreshed(GraphModel { streams: g.streams.remove(id), ..g });
                (g2, seq![EventView::StreamRemoved(id)] + ev)
            } else if g.links.contains_key(id) {
                let inp = g.links[id].1;
                let g1 = GraphModel { links: g.links.remove(id), ..g };
                if aux_id(g) == Some(inp) {
                    refreshed(g1)
                } else {
                    (g1, seq![])
                }
            } else {
                (g, seq![])
            },
        },
    }
}

/// The graph state of the PipeWire thread, apart from the proxies it holds.
pub struct Graph {
    owned: RoleSlots<OwnedNode>,
    owned_pb: RoleSlots<u32>,
    hw: IdSet,
    hw_sources: IdSet,
    streams: IdSet,
    links: Table<(u32, u32)>,
    aux_stream_ids: Vec<u32>,
    modules: RoleSlots<bool>,
}

impl View for Graph {
    type V = GraphModel;

    closed spec fn view(&self) -> GraphModel {
        GraphModel {
            owned: self.owned@,
            owned_pb: self.owned_pb@,
            sinks: self.hw@,
            sources: self.hw_sources@,
            streams: self.streams@,
            links: self.links@,
            reported: self.aux_stream_ids@,
            modules: self.modules@.dom(),
        }
    }
}

proof fn lemma_event_views_concat(a: Seq<Event>, b: Seq<Event>)
    ensures
        event_views(a + b) == event_views(a) + event_views(b),
{
    assert(event_views(a + b) =~= event_views(a) + event_views(b));
}

impl Graph {
    /// A graph with nothing in it yet.
    pub fn new() -> (r: Graph)
        ensures
            r@ == (GraphModel {
                owned: Map::empty(),
                owned_pb: Map::empty(),
                sinks: Set::empty(),
                sources: Set::empty(),
                streams: Set::empty(),
                links: Map::empty(),
                reported: seq![],
                modules: Set::empty(),
            }),
            in_sync(r@),
    {
        let r = Graph {
            owned: RoleSlots::empty(),
            owned_pb: RoleSlots::empty(),
            hw: IdSet::new(),
            hw_sources: IdSet::new(),
            streams: IdSet::new(),
            links: Table::new(),
            aux_stream_ids: Vec::new(),
            modules: RoleSlots::empty(),
        };
        assert(r@.modules =~= Set::<Role>::empty());
        assert(elems(r@.reported) =~= linked_to_aux(r@));
        r
    }

    /// Recomputes the app streams linked to the Aux sink, reporting them
    /// when they changed.
    fn refresh(&mut self) -> (r: Vec<Event>)
        ensures
            (final(self)@, event_views(r@)) == refreshed(old(self)@),
    {
        let mut ids: Vec<u32> = Vec::new();
        match self.owned.get(Role::Aux) {
            Some(a) => {
                let outs = sources_into(&self.links, a.id);
                let mut i: usize = 0;
                while i < outs.len()
                    invariant
                        i <= outs@.len(),
                        increasing(ids@),
                        forall|x: u32|
                            elems(ids@).contains(x) <==> (self.streams@.contains(x) && exists|j: int|
                                0 <= j < i && outs@[j] == x),
                    decreases outs@.len() - i,
                {
                    let x = outs[i];
                    if self.streams.contains(x) {
                        insert_sorted(&mut ids, x);
                    }
                    proof {
                        assert(outs@[i as int] == x);
                    }
                    i = i + 1;
                }
                proof {
                    assert forall|x: u32|
                        elems(ids@).contains(x) == linked_to_aux(self@).contains(x) by {
                        if exists|j: int| 0 <= j < i && outs@[j] == x {
                            let j = choose|j: int| 0 <= j < i && outs@[j] == x;
                            assert(outs@.contains(x));
                        }
                        if outs@.contains(x) {
                            let j = choose|j: int| 0 <= j < outs@.len() && outs@[j] == x;
                            assert(0 <= j < i && outs@[j] == x);
                        }
                    }
                }
            },
            None => {},
        }
        assert(elems(ids@) =~= linked_to_aux(self@));
        proof {
            lemma_ascending(ids@);
        }
        if same_ids(&ids, &self.aux_stream_ids) {
            return Vec::new();
        }
        let reported = copy_ids(&ids);
        self.aux_stream_ids = ids;
        let r = vec![Event::AuxStreamsChanged(reported)];
        assert(event_views(r@) =~= seq![EventView::AuxStreamsChanged(reported@)]);
        assert(self@ =~= (GraphModel { reported: reported@, ..old(self)@ }));
        r
    }

    /// Classifies node `id` from its full property set, records it and
    /// gives the events for the main thread.
    pub fn classify_node(&mut self, id: u32, props: &Props) -> (r: Vec<Event>)
        ensures
            (final(self)@, event_views(r@)) == after_classify(old(self)@, id, props@),
    {
        if let Some(role) = role_prop(props, "bridge.role") {
            let channels = match parsed_u32_prop(props, "audio.channels") {
                Some(c) => c,
                None => default_channels(role),
            };
            self.owned.set(role, OwnedNode { id, channels });
            let ghost g1 = self@;
            assert(g1 =~= (GraphModel {
                owned: old(self)@.owned.insert(role, OwnedNode { id, channels }),
                ..old(self)@
            }));
            let mut ev = vec![Event::NodeReady { role, id }];
            let ghost first = ev@;
            let mut more = self.refresh();
            let ghost rest = more@;
            ev.append(&mut more);
            proof {
                lemma_event_views_concat(first, rest);
                assert(event_views(first) =~= seq![EventView::NodeReady { role, id }]);
            }
            return ev;
        }
        if let Some(role) = role_prop(props, "bridge.pb-role") {
            self.owned_pb.set(role, id);
            assert(self@ =~= (GraphModel { owned_pb: old(self)@.owned_pb.insert(role, id), ..old(self)@ }));
            let r: Vec<Event> = Vec::new();
            assert(event_views(r@) =~= seq![]);
            return r;
        }
        if let Some(info) = stream_info_from_props(id, props) {
            self.streams.insert(id);
            let ghost g1 = self@;
            assert(g1 =~= (GraphModel { streams: old(self)@.streams.insert(id), ..old(self)@ }));
            let ghost iv = info@;
            let mut ev = vec![Event::StreamAdded { info, peak: Arc::new(AtomicU32::new(0)) }];
            let ghost first = ev@;
            let mut more = self.refresh();
            let ghost rest = more@;
            ev.append(&mut more);
            proof {
                lemma_event_views_concat(first, rest);
                assert(event_views(first) =~= seq![EventView::StreamAdded(iv)]);
            }
            return ev;
        }
        if let Some(sink) = sink_from_props(id, props) {
            self.hw.insert(id);
            assert(self@ =~= (GraphModel { sinks: old(self)@.sinks.insert(id), ..old(self)@ }));
            let ghost dv = sink@;
            let r = vec![Event::SinkAdded(sink)];
            assert(event_views(r@) =~= seq![EventView::SinkAdded(dv)]);
            return r;
        }
        if let Some(source) = source_from_props(id, props) {
            self.hw_sources.insert(id);
            assert(self@ =~= (GraphModel { sources: old(self)@.sources.insert(id), ..old(self)@ }));
            let ghost dv = source@;
            let r = vec![Event::SourceAdded(source)];
            assert(event_views(r@) =~= seq![EventView::SourceAdded(dv)]);
            return r;
        }
        let r: Vec<Event> = Vec::new();
        assert(event_views(r@) =~= seq![]);
        r
    }
}

/// A copy of an id list.
pub fn copy_ids(v: &Vec<u32>) -> (r: Vec<u32>)
    ensures
        r@ == v@,
{
    let mut r: Vec<u32> = Vec::new();
    let mut i: usize = 0;
    while i < v.len()
        invariant
            i <= v@.len(),
            r@ == v@.take(i as int),
        decreases v@.len() - i,
    {
        r.push(v[i]);
        assert(v@.take(i + 1) =~= v@.take(i as int).push(v@[i as int]));
        i = i + 1;
    }
    assert(v@.take(i as int) =~= v@);
    r
}

impl Graph {
    /// Records a link global, recomputing the Aux streams when the link
    /// goes into the Aux sink.
    pub fn add_link(&mut self, id: u32, props: &Props) -> (r: Vec<Event>)
        ensures
            (final(self)@, event_views(r@)) == after_link(old(self)@, id, props@),
    {
        let (out, inp) = match link_ends(props) {
            Some(ends) => ends,
            None => {
                let r: Vec<Event> = Vec::new();
                assert(event_views(r@) =~= seq![]);
                return r;
            },
        };
        let touches_aux = match self.owned.get(Role::Aux) {
            Some(a) => a.id == inp,
            None => false,
        };
        self.links.insert(id, (out, inp));
        assert(self@ =~= (GraphModel { links: old(self)@.links.insert(id, (out, inp)), ..old(self)@ }));
        if touches_aux {
            self.refresh()
        } else {
            let r: Vec<Event> = Vec::new();
            assert(event_views(r@) =~= seq![]);
            r
        }
    }

    /// Drops global `id` from whatever the graph knew it as.
    pub fn remove_global(&mut self, id: u32) -> (r: Vec<Event>)
        ensures
            (final(self)@, event_views(r@)) == after_remove(old(self)@, id),
    {
        if let Some(role) = role_for_owned(&self.owned, id) {
            self.owned.clear(role);
            assert(self@ =~= (GraphModel { owned: old(self)@.owned.remove(role), ..old(self)@ }));
            let mut ev = vec![Event::NodeRemoved { role }];
            assert(event_views(ev@) =~= seq![EventView::NodeRemoved { role }]);
            if role == Role::Aux {
                let ghost first = ev@;
                let mut more = self.refresh();
                let ghost rest = more@;
                ev.append(&mut more);
                proof {
                    lemma_event_views_concat(first, rest);
                }
            }
            return ev;
        }
        if let Some(role) = role_for_pb(&self.owned_pb, id) {
            self.owned_pb.clear(role);
            assert(self@ =~= (GraphModel { owned_pb: old(self)@.owned_pb.remove(role), ..old(self)@ }));
            let r: Vec<Event> = Vec::new();
            assert(event_views(r@) =~= seq![]);
            return r;
        }
        if self.hw.remove(id) {
            assert(self@ =~= (GraphModel { sinks: old(self)@.sinks.remove(id), ..old(self)@ }));
            let r = vec![Event::SinkRemoved(id)];
            assert(event_views(r@) =~= seq![EventView::SinkRemoved(id)]);
            return r;
        }
        if self.hw_sources.remove(id) {
            assert(self@ =~= (GraphModel { sources: old(self)@.sources.remove(id), ..old(self)@ }));
            let r = vec![Event::SourceRemoved(id)];
            assert(event_views(r@) =~= seq![EventView::SourceRemoved(id)]);
            return r;
        }
        if self.streams.remove(id) {
            assert(self@ =~= (GraphModel { streams: old(self)@.streams.remove(id), ..old(self)@ }));
            let mut ev = vec![Event::StreamRemoved(id)];
            let ghost first = ev@;
            let mut more = self.refresh();
            let ghost rest = more@;
            ev.append(&mut more);
            proof {
                lemma_event_views_concat(first, rest);
                assert(event_views(first) =~= seq![EventView::StreamRemoved(id)]);
            }
            return ev;
        }
        assert(self@ == old(self)@);
        match self.links.remove(id) {
            Some((_, inp)) => {
                assert(self@ =~= (GraphModel { links: old(self)@.links.remove(id), ..old(self)@ }));
                let touches_aux = match self.owned.get(Role::Aux) {
                    Some(a) => a.id == inp,
                    None => false,
                };
                if touches_aux {
                    return self.refresh();
                }
                let r: Vec<Event> = Vec::new();
                assert(event_views(r@) =~= seq![]);
                r
            },
            None => {
                assert(old(self)@.links.remove(id) =~= old(self)@.links);
                assert(self@ =~= old(self)@);
                let r: Vec<Event> = Vec::new();
                assert(event_views(r@) =~= seq![]);
                r
            },
        }
    }

    /// Our capture node of `role`, if it is live.
    pub fn owned_node(&self, role: Role) -> (r: Option<OwnedNode>)
        ensures
            r == (if self@.owned.contains_key(role) {
                Some(self@.owned[role])
            } else {
                None
            }),
    {
        self.owned.get(role)
    }

    /// Our playback node of `role`, if it is live.
    pub fn playback_node(&self, role: Role) -> (r: Option<u32>)
        ensures
            r == (if self@.owned_pb.contains_key(role) {
                Some(self@.owned_pb[role])
            } else {
                None
            }),
    {
        self.owned_pb.get(role)
    }

    /// Every live capture node of ours.
    pub fn owned_nodes(&self) -> (r: Vec<OwnedNode>)
        ensures
            forall|o: OwnedNode|
                r@.contains(o) <==> exists|role: Role| #[trigger]
                    self@.owned.contains_key(role) && self@.owned[role] == o,
    {
        let roles = self.owned.roles();
        let mut r: Vec<OwnedNode> = Vec::new();
        let mut i: usize = 0;
        while i < roles.len()
            invariant
                i <= roles@.len(),
                forall|role: Role| roles@.contains(role) <==> self@.owned.contains_key(role),
                forall|o: OwnedNode|
                    r@.contains(o) <==> exists|j: int|
                        0 <= j < i && self@.owned.contains_key(roles@[j]) && self@.owned[roles@[j]]
                            == o,
            decreases roles@.len() - i,
        {
            let role = roles[i];
            let ghost pre = r@;
            assert(roles@.contains(role));
            match self.owned.get(role) {
                Some(o) => r.push(o),
                None => {},
            }
            proof {
                assert forall|o: OwnedNode|
                    r@.contains(o) <==> exists|j: int|
                        0 <= j < i + 1 && self@.owned.contains_key(roles@[j])
                            && self@.owned[roles@[j]] == o by {
                    if pre.contains(o) {
                        let k = choose|k: int| 0 <= k < pre.len() && pre[k] == o;
                        assert(r@[k] == o);
                    }
                    if r@.contains(o) && !pre.contains(o) {
                        let k = choose|k: int| 0 <= k < r@.len() && r@[k] == o;
                        assert(k == pre.len());
                        assert(roles@[i as int] == role);
                    }
                    if exists|j: int|
                        0 <= j < i + 1 && self@.owned.contains_key(roles@[j])
                            && self@.owned[roles@[j]] == o {
                        let j = choose|j: int|
                            0 <= j < i + 1 && self@.owned.contains_key(roles@[j])
                                && self@.owned[roles@[j]] == o;
                        if j == i {
                            assert(r@[pre.len() as int] == o);
                        }
                    }
                }
            }
            i = i + 1;
        }
        proof {
            assert forall|o: OwnedNode|
                r@.contains(o) <==> exists|role: Role| #[trigger]
                    self@.owned.contains_key(role) && self@.owned[role] == o by {
                if r@.contains(o) {
                    let j = choose|j: int|
                        0 <= j < i && self@.owned.contains_key(roles@[j]) && self@.owned[roles@[j]]
                            == o;
                    let role = roles@[j];
                    assert(self@.owned.contains_key(role) && self@.owned[role] == o);
                }
                if exists|role: Role| #[trigger]
                    self@.owned.contains_key(role) && self@.owned[role] == o {
                    let role = choose|role: Role| #[trigger]
                        self@.owned.contains_key(role) && self@.owned[role] == o;
                    assert(roles@.contains(role));
                    let j = choose|j: int| 0 <= j < roles@.len() && roles@[j] == role;
                    assert(0 <= j < i && self@.owned.contains_key(roles@[j]) && self@.owned[roles@[j]]
                        == o);
                }
            }
        }
        r
    }

    /// Whether a loopback for `role` must not be loaded: this session
    /// already loaded one, or the role is live (from a persistent conf) and
    /// is not being rebuilt.
    pub fn skip_load(&self, role: Role, rebuild: &Vec<Role>) -> (r: bool)
        ensures
            r == (self@.modules.contains(role) || (self@.owned.contains_key(role)
                && !rebuild@.contains(role))),
    {
        let live = self.owned.get(role).is_some();
        let loaded = self.modules.get(role).is_some();
        let mut rebuilding = false;
        let mut i: usize = 0;
        while i < rebuild.len()
            invariant
                i <= rebuild@.len(),
                rebuilding <==> exists|j: int| 0 <= j < i && rebuild@[j] == role,
            decreases rebuild@.len() - i,
        {
            if rebuild[i] == role {
                rebuilding = true;
            }
            i = i + 1;
        }
        loaded || (live && !rebuilding)
    }

    /// Records that this session loaded the loopback of `role`.
    pub fn record_module(&mut self, role: Role)
        ensures
            final(self)@ == (GraphModel { modules: old(self)@.modules.insert(role), ..old(self)@ }),
    {
        self.modules.set(role, true);
        assert(self@.modules =~= old(self)@.modules.insert(role));
        assert(self@ =~= (GraphModel { modules: old(self)@.modules.insert(role), ..old(self)@ }));
    }

    /// Forgets the loaded loopbacks, giving back their roles.
    pub fn take_modules(&mut self) -> (r: Vec<Role>)
        ensures
            forall|role: Role| r@.contains(role) <==> old(self)@.modules.contains(role),
            final(self)@ == (GraphModel { modules: Set::empty(), ..old(self)@ }),
    {
        let r = self.modules.roles();
        self.modules = RoleSlots::empty();
        assert(self@.modules =~= Set::<Role>::empty());
        assert(self@ =~= (GraphModel { modules: Set::empty(), ..old(self)@ }));
        r
    }
}

proof fn lemma_refreshed_in_sync(g: GraphModel)
    requires
        increasing(g.reported),
        exists|q: Seq<u32>| increasing(q) && elems(q) == linked_to_aux(g),
    ensures
        in_sync(refreshed(g).0),
        refreshed(g).0.owned == g.owned,
        refreshed(g).0.streams == g.streams,
        refreshed(g).0.links == g.links,
{
    let q = choose|q: Seq<u32>| increasing(q) && elems(q) == linked_to_aux(g);
    lemma_ascending(q);
}

proof fn lemma_refresh_from(g: GraphModel)
    requires
        increasing(g.reported),
        g.streams.finite(),
    ensures
        in_sync(refreshed(g).0),
        refreshed(g).0.streams == g.streams,
{
    let linked = linked_to_aux(g);
    assert(linked.subset_of(g.streams));
    vstd::set_lib::lemma_set_subset_finite(g.streams, linked);
    lemma_ascending_exists(linked);
    lemma_refreshed_in_sync(g);
}

/// Classifying a node keeps the Aux report in step with the app streams
/// linked into the Aux sink.
pub proof fn classify_keeps_aux_report(g: GraphModel, id: u32, props: Seq<(Seq<char>, Seq<char>)>)
    requires
        in_sync(g),
        g.streams.finite(),
    ensures
        in_sync(after_classify(g, id, props).0),
        after_classify(g, id, props).0.streams.finite(),
{
    match classify_spec(id, props) {
        NodeClass::Owned(role, channels) => {
            lemma_refresh_from(
                GraphModel { owned: g.owned.insert(role, OwnedNode { id, channels }), ..g },
            );
        },
        NodeClass::Playback(role) => {
            let g1 = GraphModel { owned_pb: g.owned_pb.insert(role, id), ..g };
            assert(linked_to_aux(g1) =~= linked_to_aux(g));
        },
        NodeClass::Stream(info) => {
            lemma_refresh_from(GraphModel { streams: g.streams.insert(id), ..g });
        },
        NodeClass::Sink(d) => {
            let g1 = GraphModel { sinks: g.sinks.insert(id), ..g };
            assert(linked_to_aux(g1) =~= linked_to_aux(g));
        },
        NodeClass::Source(d) => {
            let g1 = GraphModel { sources: g.sources.insert(id), ..g };
            assert(linked_to_aux(g1) =~= linked_to_aux(g));
        },
        NodeClass::Other => {},
    }
}

/// A new link keeps the Aux report in step with the app streams linked into
/// the Aux sink.
pub proof fn link_keeps_aux_report(g: GraphModel, id: u32, props: Seq<(Seq<char>, Seq<char>)>)
    requires
        in_sync(g),
        g.streams.finite(),
        !g.links.contains_key(id),
    ensures
        in_sync(after_link(g, id, props).0),
        after_link(g, id, props).0.streams.finite(),
{
    match link_ends_spec(props) {
        None => {},
        Some((out, inp)) => {
            let g1 = GraphModel { links: g.links.insert(id, (out, inp)), ..g };
            if aux_id(g) == Some(inp) {
                lemma_refresh_from(g1);
            } else {
                assert forall|x: u32| linked_to_aux(g1).contains(x) == linked_to_aux(g).contains(x) by {
                    if let Some(a) = aux_id(g) {
                        if exists|l: u32| #[trigger] g1.links.contains_key(l) && g1.links[l] == (x, a) {
                            let l = choose|l: u32| #[trigger]
                                g1.links.contains_key(l) && g1.links[l] == (x, a);
                            assert(l != id);
                            assert(g.links.contains_key(l) && g.links[l] == (x, a));
                        }
                        if exists|l: u32| #[trigger] g.links.contains_key(l) && g.links[l] == (x, a) {
                            let l = choose|l: u32| #[trigger]
                                g.links.contains_key(l) && g.links[l] == (x, a);
                            assert(g1.links.contains_key(l) && g1.links[l] == (x, a));
                        }
                    }
                }
                assert(linked_to_aux(g1) =~= linked_to_aux(g));
            }
        },
    }
}

/// Removing a global keeps the Aux report in step with the app streams
/// linked into the Aux sink.
pub proof fn remove_keeps_aux_report(g: GraphModel, id: u32)
    requires
        in_sync(g),
        g.streams.finite(),
    ensures
        in_sync(after_remove(g, id).0),
        after_remove(g, id).0.streams.finite(),
{
    match owner_of(g.owned, id) {
        Some(role) => {
            let g1 = GraphModel { owned: g.owned.remove(role), ..g };
            if role == Role::Aux {
                lemma_refresh_from(g1);
            } else {
                assert(aux_id(g1) == aux_id(g));
                assert(linked_to_aux(g1) =~= linked_to_aux(g));
            }
        },
        None => match pb_owner_of(g.owned_pb, id) {
            Some(role) => {
                let g1 = GraphModel { owned_pb: g.owned_pb.remove(role), ..g };
                assert(linked_to_aux(g1) =~= linked_to_aux(g));
            },
            None => if g.sinks.contains(id) {
                let g1 = GraphModel { sinks: g.sinks.remove(id), ..g };
                assert(linked_to_aux(g1) =~= linked_to_aux(g));
            } else if g.sources.contains(id) {
                let g1 = GraphModel { sources: g.sources.remove(id), ..g };
                assert(linked_to_aux(g1) =~= linked_to_aux(g));
            } else if g.streams.contains(id) {
                lemma_refresh_from(GraphModel { streams: g.streams.remove(id), ..g });
            } else if g.links.contains_key(id) {
                let inp = g.links[id].1;
                let g1 = GraphModel { links: g.links.remove(id), ..g };
                if aux_id(g) == Some(inp) {
                    lemma_refresh_from(g1);
                } else {
                    assert forall|x: u32|
                        linked_to_aux(g1).contains(x) == linked_to_aux(g).contains(x) by {
                        if let Some(a) = aux_id(g) {
                            if exists|l: u32| #[trigger]
                                g.links.contains_key(l) && g.links[l] == (x, a) {
                                let l = choose|l: u32| #[trigger]
                                    g.links.contains_key(l) && g.links[l] == (x, a);
                                assert(l != id);
                                assert(g1.links.contains_key(l) && g1.links[l] == (x, a));
                            }
                            if exists|l: u32| #[trigger]
                                g1.links.contains_key(l) && g1.links[l] == (x, a) {
                                let l = choose|l: u32| #[trigger]
                                    g1.links.contains_key(l) && g1.links[l] == (x, a);
                                assert(g.links.contains_key(l) && g.links[l] == (x, a));
                            }
                        }
                    }
                    assert(linked_to_aux(g1) =~= linked_to_aux(g));
                }
            } else {
            },
        },
    }
}

/// The output nodes of the links whose input node is `inp`.
fn sources_into(links: &Table<(u32, u32)>, inp: u32) -> (r: Vec<u32>)
    ensures
        forall|x: u32|
            r@.contains(x) <==> exists|l: u32| #[trigger]
                links@.contains_key(l) && links@[l] == (x, inp),
{
    let keys = links.keys();
    let mut r: Vec<u32> = Vec::new();
    let mut i: usize = 0;
    while i < keys.len()
        invariant
            i <= keys@.len(),
            forall|k: u32| keys@.contains(k) <==> links@.contains_key(k),
            forall|x: u32|
                r@.contains(x) <==> exists|j: int|
                    0 <= j < i && links@.contains_key(keys@[j]) && links@[keys@[j]] == (x, inp),
        decreases keys@.len() - i,
    {
        let k = keys[i];
        let ghost pre = r@;
        assert(keys@.contains(k));
        let ends = links.get(k);
        let mut hit = false;
        match ends {
            Some(e) => {
                if e.1 == inp {
                    r.push(e.0);
                    hit = true;
                }
            },
            None => {},
        }
        proof {
            assert forall|x: u32|
                r@.contains(x) <==> exists|j: int|
                    0 <= j < i + 1 && links@.contains_key(keys@[j]) && links@[keys@[j]] == (x, inp) by {
                if pre.contains(x) {
                    let m = choose|m: int| 0 <= m < pre.len() && pre[m] == x;
                    assert(r@[m] == x);
                }
                if r@.contains(x) && !pre.contains(x) {
                    let m = choose|m: int| 0 <= m < r@.len() && r@[m] == x;
                    assert(m == pre.len());
                    assert(hit);
                    assert(keys@[i as int] == k);
                }
                if exists|j: int|
                    0 <= j < i + 1 && links@.contains_key(keys@[j]) && links@[keys@[j]] == (x, inp) {
                    let j = choose|j: int|
                        0 <= j < i + 1 && links@.contains_key(keys@[j]) && links@[keys@[j]] == (
                            x,
                            inp,
                        );
                    if j == i {
                        assert(r@[pre.len() as int] == x);
                    }
                }
            }
        }
        i = i + 1;
    }
    proof {
        assert forall|x: u32|
            r@.contains(x) <==> exists|l: u32| #[trigger]
                links@.contains_key(l) && links@[l] == (x, inp) by {
            if r@.contains(x) {
                let j = choose|j: int|
                    0 <= j < i && links@.contains_key(keys@[j]) && links@[keys@[j]] == (x, inp);
                let l = keys@[j];
                assert(links@.contains_key(l) && links@[l] == (x, inp));
            }
            if exists|l: u32| #[trigger] links@.contains_key(l) && links@[l] == (x, inp) {
                let l = choose|l: u32| #[trigger] links@.contains_key(l) && links@[l] == (x, inp);
                assert(keys@.contains(l));
                let j = choose|j: int| 0 <= j < keys@.len() && keys@[j] == l;
                assert(0 <= j < i && links@.contains_key(keys@[j]) && links@[keys@[j]] == (x, inp));
            }
        }
    }
    r
}

/// The name written as the configured default reads back from the value,
/// for any node name without a double quote.
pub proof fn configured_default_reads_back(name: Seq<char>)
    requires
        forall|i: int| 0 <= i < name.len() ==> name[i] != '"',
    ensures
        crate::util::default_name_of(configured_default_text(name)) == Some(name),
{
    reveal_strlit("{\"name\":\"");
    reveal_strlit("\"}");
    reveal_strlit("\"name\"");
    let v = configured_default_text(name);
    let key = "\"name\""@;
    assert(!starts_with(v, key)) by {
        assert(v[0] == '{');
        assert(key[0] == '"');
        if starts_with(v, key) {
            assert(v.take(key.len() as int)[0] == key[0]);
        }
    }
    assert(starts_with(v.drop_first(), key)) by {
        assert(v.drop_first().take(6) =~= key);
    }
    assert(crate::text::find_seq(v.drop_first(), key) == Some(0int));
    assert(crate::text::find_seq(v, key) == Some(1int));
    let after_key = v.skip(7);
    assert(after_key =~= seq![':', '"'] + name + seq!['"', '}']);
    assert(crate::text::find_char(after_key, ':') == Some(0int));
    let after_colon = after_key.skip(1);
    assert(after_colon =~= seq!['"'] + name + seq!['"', '}']);
    assert(crate::text::find_char(after_colon, '"') == Some(0int));
    let rest = after_colon.skip(1);
    assert(rest =~= name + seq!['"', '}']);
    crate::text::lemma_find_char_unique(rest, '"', name.len() as int);
    assert(rest.take(name.len() as int) =~= name);
}

} // verus!
