//! The main thread's side of the audio backend: the mirror it keeps of
//! what the PipeWire thread reports, and what it decides from it (which
//! streams to retarget, which loopbacks to load, what to tell the windows).
//! The application owns the GObject, the signals and the connection; it
//! hands each event to [`Mirror::handle_event`] and performs the reaction.

use vstd::prelude::*;
use std::sync::Arc;
use std::sync::atomic::AtomicU32;
use crate::config::{Side, SinkConfig};
use crate::hw_device::{HwDevice, device_views, display_keys, renamed_devices, sorted_for_display};
use crate::idset::{IdSet, elems};
use crate::level_meter::share;
use crate::order::stably_sorted;
use crate::pw_config::{MAIN_SINK, loopback_module_args, loopback_body_text};
use crate::pw_connection::{Event, SURROUND_CHANNELS};
use crate::role::{Role, RoleSlots, role_of_side};
use crate::routing::{
    RoutingRule, StreamInfo, StreamModel, best_match_unique, copy_opt, is_best_match, opt_view,
    target_node, winning_rule_index,
};
use crate::table::Table;
use crate::text::{copy_string, owned, str_eq};
use crate::util::{default_name_of, parse_default_name};

verus! {

/// What the backend tells the windows after an event.
#[derive(Copy, Clone, Debug, PartialEq, Eq, Structural)]
pub enum Notice {
    SinksReady,
    SinksChanged,
    SourcesChanged,
    StreamsChanged,
    AuxStreamsChanged,
    DefaultChanged,
    DefaultSourceChanged,
    OwnedChanged,
    SurroundReady,
    SurroundRemoved,
}

/// A retarget request: the stream, and the node it should play to (None
/// hands it back to the session manager).
pub type Retarget = (u32, Option<String>);

pub open spec fn retarget_view(r: Retarget) -> (u32, Option<Seq<char>>) {
    (r.0, opt_view(r.1))
}

pub open spec fn retarget_views(v: Seq<Retarget>) -> Seq<(u32, Option<Seq<char>>)> {
    v.map_values(|r: Retarget| retarget_view(r))
}

pub open spec fn opt_retarget_view(r: Option<Retarget>) -> Option<(u32, Option<Seq<char>>)> {
    match r {
        Some(x) => Some(retarget_view(x)),
        None => None,
    }
}

/// The enabled rule that takes `info`.
pub open spec fn rule_winner(rules: Seq<RoutingRule>, info: StreamInfo) -> Option<usize> {
    choose|r: Option<usize>| is_best_match(rules, info, true, r)
}

/// The node the winning rule sends `info` to, if an enabled rule takes it.
pub open spec fn rule_target(rules: Seq<RoutingRule>, info: StreamInfo) -> Option<Seq<char>> {
    match rule_winner(rules, info) {
        Some(i) => Some(target_node(rules[i as int].target@)),
        None => None,
    }
}

/// The request that applying the rules to `info` sends: the rule's target,
/// or a clear; a clear only for a stream the backend retargeted before
/// (`touched`), so streams it never moved are left alone.
pub open spec fn retarget_of(rules: Seq<RoutingRule>, info: StreamInfo, touched: Set<u32>) -> Option<
    (u32, Option<Seq<char>>),
> {
    let t = rule_target(rules, info);
    if t is None && !touched.contains(info.node_id) {
        None
    } else {
        Some((info.node_id, t))
    }
}

/// The retargeted streams after the rules are applied to `info`.
pub open spec fn touched_after(rules: Seq<RoutingRule>, info: StreamInfo, touched: Set<u32>) -> Set<
    u32,
> {
    if rule_target(rules, info) is Some {
        touched.insert(info.node_id)
    } else {
        touched.remove(info.node_id)
    }
}

/// Applying the rules to the streams under `keys`, in that order: the
/// retargeted set afterwards and the requests sent.
pub open spec fn apply_all(
    rules: Seq<RoutingRule>,
    streams: Map<u32, StreamInfo>,
    keys: Seq<u32>,
    touched: Set<u32>,
) -> (Set<u32>, Seq<(u32, Option<Seq<char>>)>)
    decreases keys.len(),
{
    if keys.len() == 0 {
        (touched, seq![])
    } else {
        let (t1, r1) = apply_all(rules, streams, keys.drop_last(), touched);
        let info = streams[keys.last()];
        let more = match retarget_of(rules, info, t1) {
            Some(x) => seq![x],
            None => seq![],
        };
        (touched_after(rules, info, t1), r1 + more)
    }
}

proof fn lemma_rule_winner(rules: Seq<RoutingRule>, info: StreamInfo, w: Option<usize>)
    requires
        is_best_match(rules, info, true, w),
    ensures
        rule_winner(rules, info) == w,
{
    let c = rule_winner(rules, info);
    assert(is_best_match(rules, info, true, c));
    best_match_unique(rules, info, true, c, w);
}

/// Applies the rules to one stream: updates the retargeted set and gives
/// the request to send, if any.
pub fn retarget_decision(info: &StreamInfo, rules: &Vec<RoutingRule>, touched: &mut IdSet) -> (r:
    Option<Retarget>)
    ensures
        opt_retarget_view(r) == retarget_of(rules@, *info, old(touched)@),
        final(touched)@ == touched_after(rules@, *info, old(touched)@),
{
    let winner = winning_rule_index(rules, info);
    proof {
        lemma_rule_winner(rules@, *info, winner);
    }
    let target = match winner {
        Some(i) => Some(rules[i].target.node_name()),
        None => None,
    };
    if target.is_none() {
        let was = touched.remove(info.node_id);
        if !was {
            return None;
        }
    } else {
        touched.insert(info.node_id);
    }
    Some((info.node_id, target))
}

/// A stream the backend never retargeted is never cleared.
pub proof fn clear_only_touched(rules: Seq<RoutingRule>, info: StreamInfo, touched: Set<u32>)
    ensures
        retarget_of(rules, info, touched) == Some((info.node_id, None::<Seq<char>>)) ==> touched.contains(
            info.node_id,
        ),
{
}

/// After the rules are applied to a stream, it counts as retargeted exactly
/// when a rule takes it.
pub proof fn touched_iff_targeted(rules: Seq<RoutingRule>, info: StreamInfo, touched: Set<u32>)
    ensures
        touched_after(rules, info, touched).contains(info.node_id) <==> rule_target(rules, info) is Some,
        forall|k: u32|
            k != info.node_id ==> (touched_after(rules, info, touched).contains(k) <==> touched.contains(k)),
{
}

/// What the main thread knows of the graph.
#[verifier::ext_equal]
pub struct MirrorModel {
    pub sinks: Map<u32, HwDevice>,
    pub sources: Map<u32, HwDevice>,
    /// Our live virtual devices, by role.
    pub owned: Map<Role, u32>,
    pub streams: Map<u32, StreamInfo>,
    /// The app streams the PipeWire thread last reported as linked to Aux.
    pub aux_streams: Set<u32>,
    /// The peak atomic of each stream, written by its capture meter.
    pub peaks: Map<u32, Arc<AtomicU32>>,
    /// The streams whose target the backend has set.
    pub touched: Set<u32>,
    pub default_name: Option<Seq<char>>,
    pub default_source_name: Option<Seq<char>>,
    /// The first settle has happened: changes are announced from now on.
    pub installed: bool,
    /// A mixer side runs on a loopback loaded for this session only.
    pub using_temp: bool,
}

/// The backend's mirror of the PipeWire graph.
pub struct Mirror {
    sinks: Table<HwDevice>,
    sources: Table<HwDevice>,
    owned: RoleSlots<u32>,
    streams: Table<StreamInfo>,
    aux_stream_ids: IdSet,
    stream_peaks: Table<Arc<AtomicU32>>,
    touched: IdSet,
    default_name: Option<String>,
    default_source_name: Option<String>,
    installed: bool,
    using_temp: bool,
}

impl View for Mirror {
    type V = MirrorModel;

    closed spec fn view(&self) -> MirrorModel {
        MirrorModel {
            sinks: self.sinks@,
            sources: self.sources@,
            owned: self.owned@,
            streams: self.streams@,
            aux_streams: self.aux_stream_ids@,
            peaks: self.stream_peaks@,
            touched: self.touched@,
            default_name: opt_view(self.default_name),
            default_source_name: opt_view(self.default_source_name),
            installed: self.installed,
            using_temp: self.using_temp,
        }
    }
}

impl Mirror {
    /// The order the mirror keeps its streams in.
    pub closed spec fn stream_order(&self) -> Seq<u32> {
        self.streams.key_order()
    }

    /// Nothing known yet.
    pub fn new() -> (r: Mirror)
        ensures
            r@ == (MirrorModel {
                sinks: Map::empty(),
                sources: Map::empty(),
                owned: Map::empty(),
                streams: Map::empty(),
                aux_streams: Set::empty(),
                peaks: Map::empty(),
                touched: Set::empty(),
                default_name: None,
                default_source_name: None,
                installed: false,
                using_temp: false,
            }),
    {
        Mirror {
            sinks: Table::new(),
            sources: Table::new(),
            owned: RoleSlots::empty(),
            streams: Table::new(),
            aux_stream_ids: IdSet::new(),
            stream_peaks: Table::new(),
            touched: IdSet::new(),
            default_name: None,
            default_source_name: None,
            installed: false,
            using_temp: false,
        }
    }

    /// Applies the rules to every stream, in the mirror's order: the
    /// retarget requests to send.
    pub fn apply_rules_all(&mut self, rules: &Vec<RoutingRule>) -> (r: Vec<Retarget>)
        ensures
            (final(self)@.touched, retarget_views(r@)) == apply_all(
                rules@,
                old(self)@.streams,
                old(self).stream_order(),
                old(self)@.touched,
            ),
            final(self)@ == (MirrorModel {
                touched: apply_all(
                    rules@,
                    old(self)@.streams,
                    old(self).stream_order(),
                    old(self)@.touched,
                ).0,
                ..old(self)@
            }),
            final(self).stream_order() == old(self).stream_order(),
    {
        let keys = self.streams.keys();
        let mut out: Vec<Retarget> = Vec::new();
        let mut i: usize = 0;
        while i < keys.len()
            invariant
                i <= keys@.len(),
                keys@ == old(self).stream_order(),
                forall|k: u32| keys@.contains(k) <==> self@.streams.contains_key(k),
                self@ == (MirrorModel { touched: self@.touched, ..old(self)@ }),
                self.stream_order() == old(self).stream_order(),
                (self@.touched, retarget_views(out@)) == apply_all(
                    rules@,
                    old(self)@.streams,
                    keys@.take(i as int),
                    old(self)@.touched,
                ),
            decreases keys@.len() - i,
        {
            let k = keys[i];
            assert(keys@.contains(k));
            let info = self.streams.get(k).unwrap();
            let ghost before = self@.touched;
            let ghost pre = out@;
            let decided = retarget_decision(info, rules, &mut self.touched);
            let ghost dv = opt_retarget_view(decided);
            match decided {
                Some(x) => out.push(x),
                None => {},
            }
            proof {
                assert(keys@.take(i + 1).drop_last() =~= keys@.take(i as int));
                assert(keys@.take(i + 1).last() == k);
                match dv {
                    Some(x) => {
                        assert(retarget_views(out@) =~= retarget_views(pre) + seq![x]);
                    },
                    None => {
                        assert(retarget_views(out@) =~= retarget_views(pre) + seq![]);
                    },
                }
            }
            i = i + 1;
        }
        assert(keys@.take(i as int) =~= keys@);
        out
    }
}

/// What the application does after an event: load the missing loopbacks,
/// send these retarget requests, then emit these notices.
pub struct Reaction {
    pub create_temp_sinks: bool,
    pub retargets: Vec<Retarget>,
    pub notices: Vec<Notice>,
}

/// The default node name a `default.audio.*` value carries.
pub open spec fn default_from(raw: Option<String>) -> Option<Seq<char>> {
    match raw {
        Some(v) => default_name_of(v@),
        None => None,
    }
}

/// The mirror after an event, whether to load the missing loopbacks, the
/// retarget requests, and the notices. Changes are announced only once the
/// graph first settled; the first settle loads the loopbacks and applies the
/// rules to every stream in `order`.
pub open spec fn after_event(
    m: MirrorModel,
    order: Seq<u32>,
    e: Event,
    rules: Seq<RoutingRule>,
) -> (MirrorModel, bool, Seq<(u32, Option<Seq<char>>)>, Seq<Notice>) {
    let changed = |n: Notice, when: bool| if when {
        seq![n]
    } else {
        seq![]
    };
    match e {
        Event::Settled => {
            let (t, r) = apply_all(rules, m.streams, order, m.touched);
            (MirrorModel { touched: t, installed: true, ..m }, true, r, seq![Notice::SinksReady])
        },
        Event::SinkAdded(d) => (
            MirrorModel { sinks: m.sinks.insert(d.node_id, d), ..m },
            false,
            seq![],
            changed(Notice::SinksChanged, m.installed),
        ),
        Event::SinkRemoved(id) => (
            MirrorModel { sinks: m.sinks.remove(id), ..m },
            false,
            seq![],
            changed(Notice::SinksChanged, m.sinks.contains_key(id) && m.installed),
        ),
        Event::SourceAdded(d) => (
            MirrorModel { sources: m.sources.insert(d.node_id, d), ..m },
            false,
            seq![],
            changed(Notice::SourcesChanged, m.installed),
        ),
        Event::SourceRemoved(id) => (
            MirrorModel { sources: m.sources.remove(id), ..m },
            false,
            seq![],
            changed(Notice::SourcesChanged, m.sources.contains_key(id) && m.installed),
        ),
        Event::NodeReady { role, id } => (
            MirrorModel { owned: m.owned.insert(role, id), ..m },
            false,
            seq![],
            if role == Role::Surround {
                seq![Notice::SurroundReady]
            } else {
                seq![Notice::OwnedChanged]
            },
        ),
        Event::NodeRemoved { role } => (
            MirrorModel { owned: m.owned.remove(role), ..m },
            false,
            seq![],
            if role == Role::Surround {
                seq![Notice::SurroundRemoved]
            } else {
                changed(Notice::OwnedChanged, m.owned.contains_key(role))
            },
        ),
        Event::ModuleFailed { role } => (m, false, seq![], seq![]),
        Event::StreamAdded { info, peak } => {
            let t = if m.installed {
                touched_after(rules, info, m.touched)
            } else {
                m.touched
            };
            let r = if m.installed {
                match retarget_of(rules, info, m.touched) {
                    Some(x) => seq![x],
                    None => seq![],
                }
            } else {
                seq![]
            };
            (
                MirrorModel {
                    touched: t,
                    peaks: m.peaks.insert(info.node_id, peak),
                    streams: m.streams.insert(info.node_id, info),
                    ..m
                },
                false,
                r,
                changed(Notice::StreamsChanged, m.installed),
            )
        },
        Event::StreamRemoved(id) => (
            MirrorModel {
                touched: m.touched.remove(id),
                peaks: m.peaks.remove(id),
                streams: m.streams.remove(id),
                ..m
            },
            false,
            seq![],
            changed(Notice::StreamsChanged, m.streams.contains_key(id) && m.installed),
        ),
        Event::AuxStreamsChanged(ids) => (
            MirrorModel { aux_streams: elems(ids@), ..m },
            false,
            seq![],
            seq![Notice::AuxStreamsChanged],
        ),
        Event::DefaultSink(raw) => (
            MirrorModel { default_name: default_from(raw), ..m },
            false,
            seq![],
            seq![Notice::DefaultChanged],
        ),
        Event::DefaultSource(raw) => (
            MirrorModel { default_source_name: default_from(raw), ..m },
            false,
            seq![],
            seq![Notice::DefaultSourceChanged],
        ),
    }
}

fn notices_if(n: Notice, when: bool) -> (r: Vec<Notice>)
    ensures
        r@ == (if when {
            seq![n]
        } else {
            seq![]
        }),
{
    if when {
        vec![n]
    } else {
        Vec::new()
    }
}

fn id_set_of(ids: &Vec<u32>) -> (r: IdSet)
    ensures
        r@ == elems(ids@),
{
    let mut r = IdSet::new();
    let mut i: usize = 0;
    while i < ids.len()
        invariant
            i <= ids@.len(),
            r@ == elems(ids@.take(i as int)),
        decreases ids@.len() - i,
    {
        r.insert(ids[i]);
        proof {
            assert(ids@.take(i + 1) =~= ids@.take(i as int).push(ids@[i as int]));
            assert forall|x: u32| #[trigger]
                elems(ids@.take(i + 1)).contains(x) == elems(ids@.take(i as int)).insert(
                    ids@[i as int],
                ).contains(x) by {
                let t = ids@.take(i as int);
                if t.push(ids@[i as int]).contains(x) {
                    let k = choose|k: int|
                        0 <= k < t.len() + 1 && t.push(ids@[i as int])[k] == x;
                    if k < t.len() {
                        assert(t[k] == x);
                    }
                }
                if t.contains(x) {
                    let k = choose|k: int| 0 <= k < t.len() && t[k] == x;
                    assert(t.push(ids@[i as int])[k] == x);
                }
                if x == ids@[i as int] {
                    assert(t.push(ids@[i as int])[t.len() as int] == x);
                }
            }
            assert(elems(ids@.take(i + 1)) =~= elems(ids@.take(i as int)).insert(ids@[i as int]));
        }
        i = i + 1;
    }
    assert(ids@.take(i as int) =~= ids@);
    r
}

fn default_of(raw: Option<String>) -> (r: Option<String>)
    ensures
        opt_view(r) == default_from(raw),
{
    match raw {
        Some(v) => parse_default_name(v.as_str()),
        None => None,
    }
}

impl Mirror {
    /// Updates the mirror from one event of the PipeWire thread.
    pub fn handle_event(&mut self, e: Event, rules: &Vec<RoutingRule>) -> (r: Reaction)
        ensures
            (final(self)@, r.create_temp_sinks, retarget_views(r.retargets@), r.notices@)
                == after_event(old(self)@, old(self).stream_order(), e, rules@),
    {
        let ghost m = self@;
        let ghost e0 = e;
        let none: Vec<Retarget> = Vec::new();
        assert(retarget_views(none@) =~= seq![]);
        match e {
            Event::Settled => {
                self.installed = true;
                let retargets = self.apply_rules_all(rules);
                assert(self@ =~= (MirrorModel { touched: self@.touched, installed: true, ..m }));
                Reaction { create_temp_sinks: true, retargets, notices: vec![Notice::SinksReady] }
            },
            Event::SinkAdded(d) => {
                let id = d.node_id;
                self.sinks.insert(id, d);
                assert(self@ =~= (MirrorModel { sinks: m.sinks.insert(id, d), ..m }));
                Reaction {
                    create_temp_sinks: false,
                    retargets: none,
                    notices: notices_if(Notice::SinksChanged, self.installed),
                }
            },
            Event::SinkRemoved(id) => {
                let dropped = self.sinks.remove(id).is_some();
                assert(self@ =~= (MirrorModel { sinks: m.sinks.remove(id), ..m }));
                Reaction {
                    create_temp_sinks: false,
                    retargets: none,
                    notices: notices_if(Notice::SinksChanged, dropped && self.installed),
                }
            },
            Event::SourceAdded(d) => {
                let id = d.node_id;
                self.sources.insert(id, d);
                assert(self@ =~= (MirrorModel { sources: m.sources.insert(id, d), ..m }));
                Reaction {
                    create_temp_sinks: false,
                    retargets: none,
                    notices: notices_if(Notice::SourcesChanged, self.installed),
                }
            },
            Event::SourceRemoved(id) => {
                let dropped = self.sources.remove(id).is_some();
                assert(self@ =~= (MirrorModel { sources: m.sources.remove(id), ..m }));
                Reaction {
                    create_temp_sinks: false,
                    retargets: none,
                    notices: notices_if(Notice::SourcesChanged, dropped && self.installed),
                }
            },
            Event::NodeReady { role, id } => {
                self.owned.set(role, id);
                assert(self@ =~= (MirrorModel { owned: m.owned.insert(role, id), ..m }));
                let n = if role == Role::Surround {
                    Notice::SurroundReady
                } else {
                    Notice::OwnedChanged
                };
                Reaction { create_temp_sinks: false, retargets: none, notices: vec![n] }
            },
            Event::NodeRemoved { role } => {
                let dropped = self.owned.clear(role);
                assert(self@ =~= (MirrorModel { owned: m.owned.remove(role), ..m }));
                let notices = if role == Role::Surround {
                    vec![Notice::SurroundRemoved]
                } else {
                    notices_if(Notice::OwnedChanged, dropped)
                };
                Reaction { create_temp_sinks: false, retargets: none, notices }
            },
            Event::ModuleFailed { role } => {
                Reaction { create_temp_sinks: false, retargets: none, notices: Vec::new() }
            },
            Event::StreamAdded { info, peak } => {
                let live = self.installed;
                let mut retargets: Vec<Retarget> = Vec::new();
                if live {
                    match retarget_decision(&info, rules, &mut self.touched) {
                        Some(x) => retargets.push(x),
                        None => {},
                    }
                }
                let id = info.node_id;
                self.stream_peaks.insert(id, peak);
                self.streams.insert(id, info);
                assert(self@ =~= (MirrorModel {
                    touched: self@.touched,
                    peaks: m.peaks.insert(id, peak),
                    streams: m.streams.insert(id, info),
                    ..m
                }));
                assert(retarget_views(retargets@) =~= after_event(m, old(self).stream_order(), e0, rules@).2);
                Reaction {
                    create_temp_sinks: false,
                    retargets,
                    notices: notices_if(Notice::StreamsChanged, live),
                }
            },
            Event::StreamRemoved(id) => {
                self.touched.remove(id);
                self.stream_peaks.remove(id);
                let dropped = self.streams.remove(id).is_some();
                assert(self@ =~= (MirrorModel {
                    touched: m.touched.remove(id),
                    peaks: m.peaks.remove(id),
                    streams: m.streams.remove(id),
                    ..m
                }));
                Reaction {
                    create_temp_sinks: false,
                    retargets: none,
                    notices: notices_if(Notice::StreamsChanged, dropped && self.installed),
                }
            },
            Event::AuxStreamsChanged(ids) => {
                self.aux_stream_ids = id_set_of(&ids);
                assert(self@ =~= (MirrorModel { aux_streams: elems(ids@), ..m }));
                Reaction {
                    create_temp_sinks: false,
                    retargets: none,
                    notices: vec![Notice::AuxStreamsChanged],
                }
            },
            Event::DefaultSink(raw) => {
                self.default_name = default_of(raw);
                assert(self@ =~= (MirrorModel { default_name: default_from(raw), ..m }));
                Reaction {
                    create_temp_sinks: false,
                    retargets: none,
                    notices: vec![Notice::DefaultChanged],
                }
            },
            Event::DefaultSource(raw) => {
                self.default_source_name = default_of(raw);
                assert(self@ =~= (MirrorModel { default_source_name: default_from(raw), ..m }));
                Reaction {
                    create_temp_sinks: false,
                    retargets: none,
                    notices: vec![Notice::DefaultSourceChanged],
                }
            },
        }
    }
}

/// `ks` lists the ids of `dom`, each once.
pub open spec fn is_key_order(ks: Seq<u32>, dom: Set<u32>) -> bool {
    ks.no_duplicates() && forall|k: u32| ks.contains(k) <==> dom.contains(k)
}

/// The devices under `ks`, in that order.
pub open spec fn devices_in(m: Map<u32, HwDevice>, ks: Seq<u32>) -> Seq<crate::hw_device::DeviceModel> {
    ks.map_values(|k: u32| m[k]@)
}

/// The streams under `ks`, in that order.
pub open spec fn streams_in(m: Map<u32, StreamInfo>, ks: Seq<u32>) -> Seq<StreamModel> {
    ks.map_values(|k: u32| m[k]@)
}

/// The loopback module arguments for one side, unless its device is live.
pub open spec fn side_entry(owned: Map<Role, u32>, cfg: SinkConfig, side: Side) -> Seq<
    (Role, Seq<char>),
> {
    if owned.contains_key(role_of_side(side)) {
        seq![]
    } else {
        seq![(role_of_side(side), "{\n"@ + loopback_body_text(side, cfg.side_spec(side), true) + "\n}"@)]
    }
}

/// The loopbacks to load for this session: one per configured side whose
/// device is not already live from a persistent conf; none before setup.
pub open spec fn temp_configs(owned: Map<Role, u32>, cfg: Option<SinkConfig>) -> Seq<(Role, Seq<char>)> {
    match cfg {
        None => seq![],
        Some(c) => side_entry(owned, c, Side::Aux) + side_entry(owned, c, Side::Main),
    }
}

pub open spec fn config_views(v: Seq<(Role, String)>) -> Seq<(Role, Seq<char>)> {
    v.map_values(|c: (Role, String)| (c.0, c.1@))
}

/// Some loopback to load serves a mixer side.
pub open spec fn serves_output(v: Seq<(Role, Seq<char>)>) -> bool {
    exists|i: int| 0 <= i < v.len() && (v[i].0 == Role::Aux || v[i].0 == Role::Main)
}

/// `None` for an empty name (the system default), else the name.
pub open spec fn retarget_target_spec(hw_name: Seq<char>) -> Option<Seq<char>> {
    if hw_name.len() == 0 {
        None
    } else {
        Some(hw_name)
    }
}

/// The live-routing target of one of our sinks: an empty name hands the
/// sink back to the system default.
pub fn retarget_target(hw_name: &str) -> (r: Option<String>)
    ensures
        opt_view(r) == retarget_target_spec(hw_name@),
{
    if hw_name.unicode_len() == 0 {
        None
    } else {
        Some(owned(hw_name))
    }
}

/// Channel count and positions of a side's test tone: at least two
/// channels.
pub open spec fn side_layout_spec(cfg: SinkConfig, side: Side) -> (u32, Seq<char>) {
    let def = cfg.side_spec(side);
    (if def.channels < 2 {
        2
    } else {
        def.channels
    }, def.position@)
}

pub fn side_layout(cfg: &SinkConfig, side: Side) -> (r: (u32, String))
    ensures
        (r.0, r.1@) == side_layout_spec(*cfg, side),
{
    let def = cfg.side(side);
    let channels = if def.channels < 2 {
        2
    } else {
        def.channels
    };
    (channels, copy_string(&def.position))
}

/// Positions of the virtual surround sink's channels.
pub const SURROUND_POSITION: &'static str = "FL,FR,FC,LFE,RL,RR,SL,SR";

/// Channel count and positions the test tone of `role` plays.
pub open spec fn test_tone_layout_spec(role: Role, cfg: SinkConfig) -> (u32, Seq<char>) {
    match role {
        Role::Aux => side_layout_spec(cfg, Side::Aux),
        Role::Main => side_layout_spec(cfg, Side::Main),
        Role::Surround => (SURROUND_CHANNELS, SURROUND_POSITION@),
    }
}

pub fn test_tone_layout(role: Role, cfg: &SinkConfig) -> (r: (u32, String))
    ensures
        (r.0, r.1@) == test_tone_layout_spec(role, *cfg),
{
    match role {
        Role::Aux => side_layout(cfg, Side::Aux),
        Role::Main => side_layout(cfg, Side::Main),
        Role::Surround => (SURROUND_CHANNELS, owned(SURROUND_POSITION)),
    }
}

impl Mirror {
    /// The order the mirror keeps its sinks in.
    pub closed spec fn sink_order(&self) -> Seq<u32> {
        self.sinks.key_order()
    }

    /// The order the mirror keeps its sources in.
    pub closed spec fn source_order(&self) -> Seq<u32> {
        self.sources.key_order()
    }

    fn sorted_devices(t: &Table<HwDevice>) -> (r: Vec<HwDevice>)
        ensures
            is_key_order(t.key_order(), t@.dom()),
            stably_sorted(
                device_views(r@),
                renamed_devices(devices_in(t@, t.key_order())),
                display_keys(renamed_devices(devices_in(t@, t.key_order()))),
            ),
    {
        let keys = t.keys();
        let mut devs: Vec<HwDevice> = Vec::new();
        let mut i: usize = 0;
        while i < keys.len()
            invariant
                i <= keys@.len(),
                forall|k: u32| keys@.contains(k) <==> t@.contains_key(k),
                device_views(devs@) == devices_in(t@, keys@.take(i as int)),
            decreases keys@.len() - i,
        {
            let k = keys[i];
            assert(keys@.contains(k));
            let d = t.get(k).unwrap();
            assert(*d == t@[k]);
            let ghost pre = devs@;
            devs.push(d.duplicate());
            assert(keys@.take(i + 1) =~= keys@.take(i as int).push(k));
            assert(devs@[pre.len() as int]@ == t@[k]@);
            assert forall|j: int| 0 <= j < devs@.len() implies #[trigger] device_views(devs@)[j]
                == devices_in(t@, keys@.take(i + 1))[j] by {
                assert(device_views(pre).len() == pre.len());
                assert(pre.len() == i);
                if j < pre.len() {
                    assert(devs@[j] == pre[j]);
                    assert(device_views(pre)[j] == devices_in(t@, keys@.take(i as int))[j]);
                } else {
                    assert(keys@.take(i + 1)[j] == k);
                }
            }
            assert(device_views(pre).len() == pre.len());
            assert(device_views(devs@).len() == devices_in(t@, keys@.take(i + 1)).len());
            assert(device_views(devs@) =~= devices_in(t@, keys@.take(i + 1)));
            i = i + 1;
        }
        assert(keys@.take(i as int) =~= keys@);
        proof {
            assert forall|k: u32| keys@.contains(k) <==> t@.dom().contains(k) by {}
        }
        sorted_for_display(devs)
    }

    /// The hardware sinks, in the order of the dropdowns.
    pub fn hw_sinks(&self) -> (r: Vec<HwDevice>)
        ensures
            is_key_order(self.sink_order(), self@.sinks.dom()),
            stably_sorted(
                device_views(r@),
                renamed_devices(devices_in(self@.sinks, self.sink_order())),
                display_keys(renamed_devices(devices_in(self@.sinks, self.sink_order()))),
            ),
    {
        Mirror::sorted_devices(&self.sinks)
    }

    /// The hardware sources, in the order of the dropdowns.
    pub fn hw_sources(&self) -> (r: Vec<HwDevice>)
        ensures
            is_key_order(self.source_order(), self@.sources.dom()),
            stably_sorted(
                device_views(r@),
                renamed_devices(devices_in(self@.sources, self.source_order())),
                display_keys(renamed_devices(devices_in(self@.sources, self.source_order()))),
            ),
    {
        Mirror::sorted_devices(&self.sources)
    }

    /// Every app output stream.
    pub fn output_streams(&self) -> (r: Vec<StreamInfo>)
        ensures
            is_key_order(self.stream_order(), self@.streams.dom()),
            crate::routing::stream_views(r@) == streams_in(self@.streams, self.stream_order()),
    {
        let keys = self.streams.keys();
        let mut out: Vec<StreamInfo> = Vec::new();
        let mut i: usize = 0;
        while i < keys.len()
            invariant
                i <= keys@.len(),
                forall|k: u32| keys@.contains(k) <==> self@.streams.contains_key(k),
                crate::routing::stream_views(out@) == streams_in(self@.streams, keys@.take(i as int)),
            decreases keys@.len() - i,
        {
            let k = keys[i];
            assert(keys@.contains(k));
            let st = self.streams.get(k).unwrap();
            assert(*st == self@.streams[k]);
            let ghost pre = out@;
            out.push(st.duplicate());
            assert(keys@.take(i + 1) =~= keys@.take(i as int).push(k));
            assert(out@[pre.len() as int]@ == self@.streams[k]@);
            assert forall|j: int| 0 <= j < out@.len() implies #[trigger] crate::routing::stream_views(
                out@,
            )[j] == streams_in(self@.streams, keys@.take(i + 1))[j] by {
                assert(crate::routing::stream_views(pre).len() == pre.len());
                assert(pre.len() == i);
                if j < pre.len() {
                    assert(out@[j] == pre[j]);
                    assert(crate::routing::stream_views(pre)[j] == streams_in(
                        self@.streams,
                        keys@.take(i as int),
                    )[j]);
                } else {
                    assert(keys@.take(i + 1)[j] == k);
                }
            }
            assert(crate::routing::stream_views(pre).len() == pre.len());
            assert(crate::routing::stream_views(out@).len() == streams_in(
                self@.streams,
                keys@.take(i + 1),
            ).len());
            assert(crate::routing::stream_views(out@) =~= streams_in(
                self@.streams,
                keys@.take(i + 1),
            ));
            i = i + 1;
        }
        assert(keys@.take(i as int) =~= keys@);
        out
    }

    /// The app streams linked to the Aux sink that the mirror knows.
    pub fn aux_streams(&self) -> (r: Vec<StreamInfo>)
        ensures
            exists|ks: Seq<u32>|
                #[trigger] is_key_order(ks, self@.aux_streams.intersect(self@.streams.dom()))
                    && crate::routing::stream_views(r@) == streams_in(self@.streams, ks),
    {
        let ids = self.aux_stream_ids.to_vec();
        let mut ks: Vec<u32> = Vec::new();
        let mut out: Vec<StreamInfo> = Vec::new();
        let mut i: usize = 0;
        while i < ids.len()
            invariant
                i <= ids@.len(),
                ids@.no_duplicates(),
                forall|x: u32| ids@.contains(x) <==> self@.aux_streams.contains(x),
                ks@.no_duplicates(),
                forall|k: u32|
                    ks@.contains(k) <==> (self@.streams.contains_key(k) && exists|j: int|
                        0 <= j < i && ids@[j] == k),
                crate::routing::stream_views(out@) == streams_in(self@.streams, ks@),
            decreases ids@.len() - i,
        {
            let k = ids[i];
            let ghost pre = ks@;
            match self.streams.get(k) {
                Some(st) => {
                    let ghost pre_out = out@;
                    out.push(st.duplicate());
                    ks.push(k);
                    assert(out@[pre_out.len() as int]@ == self@.streams[k]@);
                    assert forall|j: int| 0 <= j < out@.len() implies #[trigger] crate::routing::stream_views(
                        out@,
                    )[j] == streams_in(self@.streams, ks@)[j] by {
                        assert(crate::routing::stream_views(pre_out).len() == pre_out.len());
                        assert(pre_out.len() == pre.len());
                        if j < pre_out.len() {
                            assert(out@[j] == pre_out[j]);
                            assert(ks@[j] == pre[j]);
                            assert(crate::routing::stream_views(pre_out)[j] == streams_in(
                                self@.streams,
                                pre,
                            )[j]);
                        }
                    }
                    assert(crate::routing::stream_views(pre_out).len() == pre_out.len());
                    assert(crate::routing::stream_views(out@).len() == streams_in(self@.streams, ks@).len());
                    assert(crate::routing::stream_views(out@) =~= streams_in(self@.streams, ks@));
                },
                None => {},
            }
            proof {
                assert(!pre.contains(k)) by {
                    if pre.contains(k) {
                        let j = choose|j: int| 0 <= j < i && ids@[j] == k;
                        assert(ids@[i as int] == k);
                    }
                }
                assert forall|a: int, b: int|
                    0 <= a < ks@.len() && 0 <= b < ks@.len() && a != b implies ks@[a] != ks@[b] by {
                    if a == pre.len() && b < pre.len() {
                        assert(pre.contains(pre[b]));
                    } else if b == pre.len() && a < pre.len() {
                        assert(pre.contains(pre[a]));
                    } else if a < pre.len() && b < pre.len() {
                        assert(ks@[a] == pre[a]);
                        assert(ks@[b] == pre[b]);
                    }
                }
                assert forall|x: u32|
                    ks@.contains(x) <==> (self@.streams.contains_key(x) && exists|j: int|
                        0 <= j < i + 1 && ids@[j] == x) by {
                    if pre.contains(x) {
                        let m = choose|m: int| 0 <= m < pre.len() && pre[m] == x;
                        assert(ks@[m] == x);
                    }
                    if ks@.contains(x) && !pre.contains(x) {
                        let m = choose|m: int| 0 <= m < ks@.len() && ks@[m] == x;
                        assert(m == pre.len());
                        assert(ids@[i as int] == x);
                    }
                    if self@.streams.contains_key(x) && exists|j: int| 0 <= j < i + 1 && ids@[j] == x {
                        let j = choose|j: int| 0 <= j < i + 1 && ids@[j] == x;
                        if j == i {
                            assert(ks@[pre.len() as int] == x);
                        }
                    }
                }
            }
            i = i + 1;
        }
        proof {
            assert forall|k: u32|
                ks@.contains(k) <==> self@.aux_streams.intersect(self@.streams.dom()).contains(k) by {
                if ks@.contains(k) {
                    let j = choose|j: int| 0 <= j < i && ids@[j] == k;
                    assert(ids@.contains(k));
                }
                if self@.aux_streams.contains(k) && self@.streams.contains_key(k) {
                    assert(ids@.contains(k));
                    let j = choose|j: int| 0 <= j < ids@.len() && ids@[j] == k;
                    assert(0 <= j < i && ids@[j] == k);
                }
            }
            assert(is_key_order(ks@, self@.aux_streams.intersect(self@.streams.dom())));
        }
        out
    }

    /// The number of app streams linked to the Aux sink.
    pub fn aux_stream_count(&self) -> (r: usize)
        ensures
            r == self@.aux_streams.len(),
    {
        self.aux_stream_ids.len()
    }

    /// Whether our device of `role` is live.
    pub fn present(&self, role: Role) -> (r: bool)
        ensures
            r == self@.owned.contains_key(role),
    {
        self.owned.get(role).is_some()
    }

    /// Whether both mixer sides are live.
    pub fn owned_sinks_present(&self) -> (r: bool)
        ensures
            r == (self@.owned.contains_key(Role::Aux) && self@.owned.contains_key(Role::Main)),
    {
        self.present(Role::Aux) && self.present(Role::Main)
    }

    /// True while a mixer side runs on a loopback loaded for this session
    /// rather than one from the persistent conf.
    pub fn using_temp_sinks(&self) -> (r: bool)
        ensures
            r == self@.using_temp,
    {
        self.using_temp
    }

    /// The loopbacks to load for this session (`cfg` is the saved mixer
    /// config, None before setup); records whether one serves a mixer side.
    pub fn plan_temp_sinks(&mut self, cfg: Option<&SinkConfig>) -> (r: Vec<(Role, String)>)
        ensures
            config_views(r@) == temp_configs(
                old(self)@.owned,
                match cfg {
                    Some(c) => Some(*c),
                    None => None,
                },
            ),
            final(self)@ == (MirrorModel { using_temp: serves_output(config_views(r@)), ..old(self)@ }),
    {
        let mut configs: Vec<(Role, String)> = Vec::new();
        match cfg {
            Some(c) => {
                if !self.present(Role::Aux) {
                    configs.push((Role::Aux, loopback_module_args(Side::Aux, c.side(Side::Aux))));
                }
                let ghost first = config_views(configs@);
                assert(first =~= side_entry(self@.owned, *c, Side::Aux));
                if !self.present(Role::Main) {
                    configs.push((Role::Main, loopback_module_args(Side::Main, c.side(Side::Main))));
                }
                assert(config_views(configs@) =~= first + side_entry(self@.owned, *c, Side::Main));
            },
            None => {
                assert(config_views(configs@) =~= seq![]);
            },
        }
        let mut outputs = false;
        let mut i: usize = 0;
        while i < configs.len()
            invariant
                i <= configs@.len(),
                outputs <==> exists|j: int|
                    0 <= j < i && (configs@[j].0 == Role::Aux || configs@[j].0 == Role::Main),
            decreases configs@.len() - i,
        {
            if configs[i].0 == Role::Aux || configs[i].0 == Role::Main {
                outputs = true;
            }
            i = i + 1;
        }
        proof {
            let v = config_views(configs@);
            assert(outputs == serves_output(v)) by {
                if outputs {
                    let j = choose|j: int|
                        0 <= j < i && (configs@[j].0 == Role::Aux || configs@[j].0 == Role::Main);
                    assert(v[j].0 == configs@[j].0);
                }
                if serves_output(v) {
                    let j = choose|j: int| 0 <= j < v.len() && (v[j].0 == Role::Aux || v[j].0 == Role::Main);
                    assert(v[j].0 == configs@[j].0);
                }
            }
        }
        self.using_temp = outputs;
        configs
    }

    /// The node name of the system default sink.
    pub fn default_sink_name(&self) -> (r: Option<String>)
        ensures
            opt_view(r) == self@.default_name,
    {
        copy_opt(&self.default_name)
    }

    /// Whether `name` is the system default sink; None while unknown.
    pub fn is_default(&self, name: &str) -> (r: Option<bool>)
        ensures
            r == (match self@.default_name {
                Some(current) => Some(current == name@),
                None => None,
            }),
    {
        match &self.default_name {
            Some(current) => Some(str_eq(current.as_str(), name)),
            None => None,
        }
    }

    /// Whether our Main sink is the system default; None while unknown.
    pub fn main_is_default(&self) -> (r: Option<bool>)
        ensures
            r == (match self@.default_name {
                Some(current) => Some(current == MAIN_SINK@),
                None => None,
            }),
    {
        self.is_default(MAIN_SINK)
    }

    /// The node name of the system default source.
    pub fn default_source_name(&self) -> (r: Option<String>)
        ensures
            opt_view(r) == self@.default_source_name,
    {
        copy_opt(&self.default_source_name)
    }

    /// The peak atomic of stream `id`, if the mirror knows the stream.
    pub fn stream_peak_atomic(&self, id: u32) -> (r: Option<Arc<AtomicU32>>)
        ensures
            r == (if self@.peaks.contains_key(id) {
                Some(self@.peaks[id])
            } else {
                None
            }),
    {
        match self.stream_peaks.get(id) {
            Some(a) => Some(share(a)),
            None => None,
        }
    }
}

/// Applying the rules to every stream clears only streams the backend had
/// retargeted, and leaves exactly the streams that a rule takes counted as
/// retargeted (the others keep their standing).
pub proof fn apply_all_clears_only_touched(
    rules: Seq<RoutingRule>,
    streams: Map<u32, StreamInfo>,
    keys: Seq<u32>,
    touched: Set<u32>,
)
    requires
        keys.no_duplicates(),
        forall|i: int| 0 <= i < keys.len() ==> #[trigger] streams[keys[i]].node_id == keys[i],
    ensures
        forall|j: int|
            0 <= j < apply_all(rules, streams, keys, touched).1.len()
                && (#[trigger] apply_all(rules, streams, keys, touched).1[j]).1 is None
                ==> touched.contains(apply_all(rules, streams, keys, touched).1[j].0),
        forall|i: int|
            0 <= i < keys.len() ==> (apply_all(rules, streams, keys, touched).0.contains(
                #[trigger] keys[i],
            ) <==> rule_target(rules, streams[keys[i]]) is Some),
        forall|k: u32|
            !keys.contains(k) ==> (#[trigger] apply_all(rules, streams, keys, touched).0.contains(k)
                <==> touched.contains(k)),
    decreases keys.len(),
{
    if keys.len() > 0 {
        let front = keys.drop_last();
        let last = keys.last();
        assert(front.no_duplicates());
        assert forall|i: int| 0 <= i < front.len() implies #[trigger] streams[front[i]].node_id
            == front[i] by {
            assert(front[i] == keys[i]);
        }
        apply_all_clears_only_touched(rules, streams, front, touched);
        let (t1, r1) = apply_all(rules, streams, front, touched);
        let info = streams[last];
        assert(info.node_id == last) by {
            assert(streams[keys[keys.len() - 1]].node_id == keys[keys.len() - 1]);
        }
        assert(!front.contains(last)) by {
            if front.contains(last) {
                let m = choose|m: int| 0 <= m < front.len() && front[m] == last;
                assert(keys[m] == keys[keys.len() - 1]);
            }
        }
        assert(t1.contains(last) <==> touched.contains(last));
        let r = apply_all(rules, streams, keys, touched).1;
        assert forall|j: int| 0 <= j < r.len() && (#[trigger] r[j]).1 is None implies touched.contains(
            r[j].0,
        ) by {
            if j < r1.len() {
                assert(r[j] == r1[j]);
            } else {
                assert(r[j] == retarget_of(rules, info, t1).unwrap());
            }
        }
        let t = apply_all(rules, streams, keys, touched).0;
        assert forall|i: int| 0 <= i < keys.len() implies (t.contains(#[trigger] keys[i])
            <==> rule_target(rules, streams[keys[i]]) is Some) by {
            if i < front.len() {
                assert(keys[i] == front[i]);
                assert(keys[i] != last) by {
                    assert(front.contains(front[i]));
                }
            }
        }
        assert forall|k: u32| !keys.contains(k) implies (#[trigger] t.contains(k) <==> touched.contains(
            k,
        )) by {
            assert(k != last) by {
                assert(keys[keys.len() - 1] == last);
            }
            assert(!front.contains(k)) by {
                if front.contains(k) {
                    let m = choose|m: int| 0 <= m < front.len() && front[m] == k;
                    assert(keys[m] == k);
                }
            }
        }
    }
}

} // verus!
