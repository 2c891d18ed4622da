//! What the routing tile shows: a line per rule, the streams under each
//! rule, and the route choices of a rule.

use vstd::prelude::*;
use crate::hw_sink::HwSink;
use crate::order::{
    is_stable_order, is_stable_tuple_order, lemma_lex_irreflexive, lemma_lex_total, lemma_lex_transitive,
    lex_less, lex_lt, stable_order, stable_tuple_order, stably_sorted, tuple_views,
};
use crate::routing::{
    RoutingRule, RuleModel, RuleTarget, StreamInfo, StreamModel, TargetModel, best_match_unique,
    copy_opt, is_best_match, opt_eq, opt_view, stream_views, winning_rule_index,
    would_match_disabled_index,
};
use crate::text::{chars_of, decimal, lowercase, owned, push_decimal, push_str, string_views, to_lowercase, views};
use crate::util::{route_targets, RouteTarget};

verus! {

/// How a rule's match list reads: nothing, the one value, or how many.
pub open spec fn match_summary_text(values: Seq<Seq<char>>) -> Option<Seq<char>> {
    if values.len() == 0 {
        None
    } else if values.len() == 1 {
        Some(values[0])
    } else {
        Some("one of "@ + decimal(values.len()))
    }
}

pub fn match_summary(values: &Vec<String>) -> (r: Option<String>)
    ensures
        crate::util::opt_string_view(r) == match_summary_text(string_views(values@)),
{
    if values.len() == 0 {
        None
    } else if values.len() == 1 {
        Some(values[0].clone())
    } else {
        let mut s = owned("one of ");
        push_decimal(&mut s, values.len() as u64);
        Some(s)
    }
}

/// The subtitle of a rule line: the summaries of its names and binaries.
pub open spec fn rule_subtitle_text(rule: RuleModel) -> Seq<char> {
    match (match_summary_text(rule.app_names), match_summary_text(rule.binaries)) {
        (None, None) => "(no constraints)"@,
        (Some(a), None) => a,
        (None, Some(b)) => b,
        (Some(a), Some(b)) => a + " · "@ + b,
    }
}

pub fn rule_subtitle(rule: &RoutingRule) -> (r: String)
    ensures
        r@ == rule_subtitle_text(rule@),
{
    match (match_summary(&rule.match_app_names), match_summary(&rule.match_binaries)) {
        (None, None) => owned("(no constraints)"),
        (Some(a), None) => a,
        (None, Some(b)) => b,
        (Some(a), Some(b)) => {
            let mut s = a;
            push_str(&mut s, " · ");
            push_str(&mut s, b.as_str());
            s
        },
    }
}

/// The stream with node id `id` among `streams`: the first one.
pub open spec fn stream_with_id(streams: Seq<StreamModel>, id: u32) -> Option<StreamModel>
    decreases streams.len(),
{
    if streams.len() == 0 {
        None
    } else if streams[0].node_id == id {
        Some(streams[0])
    } else {
        stream_with_id(streams.drop_first(), id)
    }
}

/// The known streams among `ids`, in the order of `ids`.
pub open spec fn streams_for(ids: Seq<u32>, streams: Seq<StreamModel>) -> Seq<StreamModel>
    decreases ids.len(),
{
    if ids.len() == 0 {
        seq![]
    } else {
        let prev = streams_for(ids.drop_last(), streams);
        match stream_with_id(streams, ids.last()) {
            Some(s) => prev.push(s),
            None => prev,
        }
    }
}

fn find_stream(streams: &Vec<StreamInfo>, id: u32) -> (r: Option<usize>)
    ensures
        match stream_with_id(stream_views(streams@), id) {
            Some(s) => r matches Some(k) && k < streams@.len() && streams@[k as int]@ == s,
            None => r is None,
        },
{
    let ghost ss = stream_views(streams@);
    let mut i: usize = 0;
    assert(ss.skip(0) =~= ss);
    while i < streams.len()
        invariant
            ss == stream_views(streams@),
            i <= streams@.len(),
            stream_with_id(ss, id) == stream_with_id(ss.skip(i as int), id),
        decreases streams@.len() - i,
    {
        assert(ss.skip(i as int)[0] == streams@[i as int]@);
        if streams[i].node_id == id {
            return Some(i);
        }
        assert(ss.skip(i as int).drop_first() =~= ss.skip(i + 1));
        i = i + 1;
    }
    None
}

/// The known streams among `ids`, in the order of `ids`.
pub fn group_streams(ids: &Vec<u32>, streams: &Vec<StreamInfo>) -> (r: Vec<StreamInfo>)
    ensures
        stream_views(r@) == streams_for(ids@, stream_views(streams@)),
{
    let mut out: Vec<StreamInfo> = Vec::new();
    let mut i: usize = 0;
    while i < ids.len()
        invariant
            i <= ids@.len(),
            stream_views(out@) == streams_for(ids@.take(i as int), stream_views(streams@)),
        decreases ids@.len() - i,
    {
        assert(ids@.take(i + 1).drop_last() =~= ids@.take(i as int));
        assert(ids@.take(i + 1).last() == ids@[i as int]);
        match find_stream(streams, ids[i]) {
            Some(k) => {
                out.push(streams[k].duplicate());
            },
            None => {},
        }
        assert(stream_views(out@) =~= streams_for(ids@.take(i + 1), stream_views(streams@)));
        i = i + 1;
    }
    assert(ids@.take(ids@.len() as int) =~= ids@);
    out
}

pub open spec fn route_models(v: Seq<RouteTarget>) -> Seq<(Seq<char>, TargetModel)> {
    v.map_values(|c: RouteTarget| (c.label@, c.target@))
}

/// The route choices of a rule: the usual ones, plus a hardware target that
/// is no longer connected, under its node name.
pub open spec fn choices_for(base: Seq<(Seq<char>, TargetModel)>, current: TargetModel) -> Seq<(Seq<char>, TargetModel)> {
    match current {
        TargetModel::DirectHw(name) => if (exists|i: int| 0 <= i < base.len() && #[trigger] base[i].1 == current) {
            base
        } else {
            base.push((name, current))
        },
        _ => base,
    }
}

/// The first position of `current` among the choices, or 0.
pub open spec fn is_choice_index(choices: Seq<(Seq<char>, TargetModel)>, current: TargetModel, k: u32) -> bool {
    if exists|i: int| 0 <= i < choices.len() && #[trigger] choices[i].1 == current {
        k < choices.len() && choices[k as int].1 == current && forall|i: int| 0 <= i < k ==> #[trigger] choices[i].1 != current
    } else {
        k == 0
    }
}

/// The route choices for a rule, and the position of its current target.
pub fn target_choices(hw_sinks: &Vec<HwSink>, current: &RuleTarget) -> (r: (Vec<RouteTarget>, u32))
    requires
        hw_sinks@.len() + 3 <= u32::MAX,
    ensures
        ({
            let base = hw_sinks@.map_values(|s: HwSink| (s.display_name@, TargetModel::DirectHw(s.name@)));
            let std = seq![("Aux"@, TargetModel::Aux), ("Main"@, TargetModel::Main)] + base;
            &&& route_models(r.0@) == choices_for(std, current@)
            &&& is_choice_index(route_models(r.0@), current@, r.1)
        }),
{
    let mut choices = route_targets(hw_sinks);
    let ghost std = seq![("Aux"@, TargetModel::Aux), ("Main"@, TargetModel::Main)] + hw_sinks@.map_values(|s: HwSink| (s.display_name@, TargetModel::DirectHw(s.name@)));
    assert forall|i: int| 0 <= i < std.len() implies route_models(choices@)[i] == std[i] by {
        if i >= 2 {
            let j = i - 2;
            assert(choices@[j + 2].label@ == hw_sinks@[j].display_name@);
        }
    }
    assert(route_models(choices@) =~= std);
    let mut pos: usize = 0;
    let mut found = false;
    while pos < choices.len() && !found
        invariant
            pos <= choices@.len(),
            found ==> pos < choices@.len() && choices@[pos as int].target@ == current@,
            forall|i: int| 0 <= i < pos ==> #[trigger] choices@[i].target@ != current@,
        decreases choices@.len() - pos + (if found { 0int } else { 1int }),
    {
        if choices[pos].target.same_as(current) {
            found = true;
        } else {
            pos = pos + 1;
        }
    }
    let ghost models = route_models(choices@);
    proof {
        if found {
            assert(models[pos as int].1 == current@);
            assert(models == std);
            assert forall|i: int| 0 <= i < pos implies #[trigger] models[i].1 != current@ by {
                assert(models[i].1 == choices@[i].target@);
            }
            assert(choices_for(std, current@) == std);
            assert(is_choice_index(models, current@, pos as u32));
        } else {
            assert forall|i: int| 0 <= i < models.len() implies #[trigger] models[i].1 != current@ by {
                assert(models[i].1 == choices@[i].target@);
            }
        }
    }
    if found {
        return (choices, pos as u32);
    }
    match current {
        RuleTarget::DirectHw(name) => {
            choices.push(RouteTarget { label: name.clone(), target: RuleTarget::DirectHw(name.clone()) });
            proof {
                assert(route_models(choices@) =~= models.push((name@, current@)));
                let m2 = route_models(choices@);
                assert(m2[models.len() as int].1 == current@);
                assert forall|i: int| 0 <= i < models.len() implies #[trigger] m2[i].1 != current@ by {
                    assert(m2[i] == models[i]);
                }
            }
            (choices, pos as u32)
        },
        _ => (choices, 0),
    }
}

/// The sort key of the stream list: lowercased app name, else binary.
pub open spec fn stream_list_key(s: StreamModel) -> Seq<char> {
    lowercase(
        match s.app_name {
            Some(a) => a,
            None => match s.binary {
                Some(b) => b,
                None => seq![],
            },
        },
    )
}

pub fn sort_key(info: &StreamInfo) -> (r: String)
    ensures
        r@ == stream_list_key(info@),
{
    let name = match &info.app_name {
        Some(a) => a.clone(),
        None => match &info.binary {
            Some(b) => b.clone(),
            None => String::new(),
        },
    };
    to_lowercase(name.as_str())
}

pub open spec fn stream_list_keys(v: Seq<StreamModel>) -> Seq<Seq<char>> {
    v.map_values(|s: StreamModel| stream_list_key(s))
}

/// The streams of a popover list, sorted by app name.
pub fn sort_stream_list(streams: &Vec<StreamInfo>) -> (r: Vec<StreamInfo>)
    ensures
        stably_sorted(stream_views(r@), stream_views(streams@), stream_list_keys(stream_views(streams@))),
{
    let ghost ss = stream_views(streams@);
    let mut keys: Vec<Vec<char>> = Vec::new();
    let mut i: usize = 0;
    while i < streams.len()
        invariant
            ss == stream_views(streams@),
            i <= streams@.len(),
            keys@.len() == i,
            forall|j: int| 0 <= j < i ==> #[trigger] keys@[j]@ == stream_list_key(ss[j]),
        decreases streams@.len() - i,
    {
        keys.push(chars_of(sort_key(&streams[i]).as_str()));
        i = i + 1;
    }
    assert(views(keys@) =~= stream_list_keys(ss));
    let order = stable_order(&keys);
    let mut out: Vec<StreamInfo> = Vec::new();
    let mut q: usize = 0;
    while q < order.len()
        invariant
            ss == stream_views(streams@),
            is_stable_order(views(keys@), order@),
            keys@.len() == streams@.len(),
            q <= order@.len(),
            out@.len() == q,
            forall|m: int| 0 <= m < q ==> #[trigger] out@[m]@ == ss[order@[m] as int],
        decreases order@.len() - q,
    {
        assert(order@[q as int] < keys@.len());
        out.push(streams[order[q]].duplicate());
        q = q + 1;
    }
    assert(stably_sorted(stream_views(out@), ss, stream_list_keys(ss))) by {
        assert(is_stable_order(stream_list_keys(ss), order@));
        assert forall|m: int| 0 <= m < stream_views(out@).len() implies stream_views(out@)[m]
            == ss[#[trigger] order@[m] as int] by {
            assert(out@[m]@ == ss[order@[m] as int]);
        }
    }
    out
}

/// The title of a stream row: app name, else binary, else "Unknown
/// application".
pub open spec fn stream_row_title_text(s: StreamModel) -> Seq<char> {
    match s.app_name {
        Some(a) => a,
        None => match s.binary {
            Some(b) => b,
            None => "Unknown application"@,
        },
    }
}

/// The subtitle of a stream row: the binary (when the title is the app
/// name) and the media name, whichever are present; None when neither is.
pub open spec fn stream_row_subtitle_text(s: StreamModel) -> Option<Seq<char>> {
    let bin = if s.app_name is Some {
        s.binary
    } else {
        None
    };
    match (bin, s.media_name) {
        (Some(b), Some(m)) => Some(b + " · "@ + m),
        (Some(b), None) => Some(b),
        (None, Some(m)) => Some(m),
        (None, None) => None,
    }
}

/// The title and subtitle of a stream row.
pub fn stream_row_text(info: &StreamInfo) -> (r: (String, Option<String>))
    ensures
        r.0@ == stream_row_title_text(info@),
        crate::util::opt_string_view(r.1) == stream_row_subtitle_text(info@),
{
    let title = match &info.app_name {
        Some(a) => a.clone(),
        None => match &info.binary {
            Some(b) => b.clone(),
            None => owned("Unknown application"),
        },
    };
    let bin = if info.app_name.is_some() {
        match &info.binary {
            Some(b) => Some(b.clone()),
            None => None,
        }
    } else {
        None
    };
    let subtitle = match (bin, &info.media_name) {
        (Some(b), Some(m)) => {
            let mut s = b;
            push_str(&mut s, " · ");
            push_str(&mut s, m.as_str());
            Some(s)
        },
        (Some(b), None) => Some(b),
        (None, Some(m)) => Some(m.clone()),
        (None, None) => None,
    };
    (title, subtitle)
}

/// Rule `i` governs the stream: it is the enabled rule the stream follows,
/// or, when no enabled rule takes it, the disabled rule that would (so the
/// stream stays listed under it).
pub open spec fn governs(rules: Seq<RoutingRule>, s: StreamInfo, i: usize) -> bool {
    is_best_match(rules, s, true, Some(i)) || (is_best_match(rules, s, true, None)
        && is_best_match(rules, s, false, Some(i)))
}

/// No rule, enabled or disabled, takes the stream.
pub open spec fn unruled_stream(rules: Seq<RoutingRule>, s: StreamInfo) -> bool {
    is_best_match(rules, s, true, None) && is_best_match(rules, s, false, None)
}

/// `g` is the rule that governs the stream, or None when it is unruled.
pub open spec fn governor_is(rules: Seq<RoutingRule>, s: StreamInfo, g: Option<usize>) -> bool {
    match g {
        Some(i) => governs(rules, s, i),
        None => unruled_stream(rules, s),
    }
}

/// A stream has one governor at most.
pub proof fn lemma_governor_unique(rules: Seq<RoutingRule>, s: StreamInfo, g: Option<usize>, i: usize)
    requires
        governor_is(rules, s, g),
    ensures
        governs(rules, s, i) <==> g == Some(i),
        unruled_stream(rules, s) <==> g is None,
{
    match g {
        Some(j) => {
            if is_best_match(rules, s, true, Some(j)) {
                if is_best_match(rules, s, true, Some(i)) {
                    best_match_unique(rules, s, true, Some(j), Some(i));
                }
                if is_best_match(rules, s, true, None) {
                    best_match_unique(rules, s, true, Some(j), None);
                }
            } else {
                if is_best_match(rules, s, true, Some(i)) {
                    best_match_unique(rules, s, true, None, Some(i));
                }
                if is_best_match(rules, s, false, Some(i)) {
                    best_match_unique(rules, s, false, Some(j), Some(i));
                }
                if is_best_match(rules, s, false, None) {
                    best_match_unique(rules, s, false, Some(j), None);
                }
            }
        },
        None => {
            if is_best_match(rules, s, true, Some(i)) {
                best_match_unique(rules, s, true, None, Some(i));
            }
            if is_best_match(rules, s, false, Some(i)) {
                best_match_unique(rules, s, false, None, Some(i));
            }
        },
    }
}

/// The rule that governs the stream, if any.
fn governor(rules: &Vec<RoutingRule>, info: &StreamInfo) -> (g: Option<usize>)
    ensures
        governor_is(rules@, *info, g),
{
    match winning_rule_index(rules, info) {
        Some(i) => Some(i),
        None => would_match_disabled_index(rules, info),
    }
}

/// The node ids of the streams rule `i` governs, in stream order.
pub open spec fn governed_ids(rules: Seq<RoutingRule>, ss: Seq<StreamInfo>, i: usize) -> Seq<u32>
    decreases ss.len(),
{
    if ss.len() == 0 {
        seq![]
    } else {
        let prev = governed_ids(rules, ss.drop_last(), i);
        if governs(rules, ss.last(), i) {
            prev.push(ss.last().node_id)
        } else {
            prev
        }
    }
}

/// How many of the first `n` rules are enabled and govern a live stream.
pub open spec fn active_count(rules: Seq<RoutingRule>, ss: Seq<StreamInfo>, n: int) -> nat
    decreases n,
{
    if n <= 0 {
        0
    } else {
        active_count(rules, ss, n - 1) + if rules[n - 1].enabled && governed_ids(
            rules,
            ss,
            (n - 1) as usize,
        ).len() > 0 {
            1nat
        } else {
            0nat
        }
    }
}

/// The governor of each stream, in stream order.
fn governors(rules: &Vec<RoutingRule>, streams: &Vec<StreamInfo>) -> (gov: Vec<Option<usize>>)
    ensures
        gov@.len() == streams@.len(),
        forall|k: int| 0 <= k < streams@.len() ==> governor_is(rules@, streams@[k], #[trigger] gov@[k]),
{
    let mut gov: Vec<Option<usize>> = Vec::new();
    let mut k: usize = 0;
    while k < streams.len()
        invariant
            k <= streams@.len(),
            gov@.len() == k,
            forall|kk: int| 0 <= kk < k ==> governor_is(rules@, streams@[kk], #[trigger] gov@[kk]),
        decreases streams@.len() - k,
    {
        gov.push(governor(rules, &streams[k]));
        k = k + 1;
    }
    gov
}

/// The node ids of the streams rule `i` governs.
fn ids_governed_by(streams: &Vec<StreamInfo>, gov: &Vec<Option<usize>>, i: usize, Ghost(rules): Ghost<Seq<RoutingRule>>) -> (ids: Vec<u32>)
    requires
        gov@.len() == streams@.len(),
        forall|k: int| 0 <= k < streams@.len() ==> governor_is(rules, streams@[k], #[trigger] gov@[k]),
    ensures
        ids@ == governed_ids(rules, streams@, i),
{
    let mut ids: Vec<u32> = Vec::new();
    let mut k: usize = 0;
    while k < streams.len()
        invariant
            k <= streams@.len(),
            gov@.len() == streams@.len(),
            forall|kk: int| 0 <= kk < streams@.len() ==> governor_is(rules, streams@[kk], #[trigger] gov@[kk]),
            ids@ == governed_ids(rules, streams@.take(k as int), i),
        decreases streams@.len() - k,
    {
        proof {
            lemma_governor_unique(rules, streams@[k as int], gov@[k as int], i);
            assert(streams@.take(k + 1).drop_last() =~= streams@.take(k as int));
            assert(streams@.take(k + 1).last() == streams@[k as int]);
        }
        match gov[k] {
            Some(j) => {
                if j == i {
                    ids.push(streams[k].node_id);
                }
            },
            None => {},
        }
        k = k + 1;
    }
    assert(streams@.take(streams@.len() as int) =~= streams@);
    ids
}

/// The (app name, binary) pair an unruled stream is grouped by.
pub open spec fn key_of(s: StreamInfo) -> (Option<Seq<char>>, Option<Seq<char>>) {
    (opt_view(s.app_name), opt_view(s.binary))
}

/// `Option<String>`'s order: absent first, then by text.
pub open spec fn opt_lt(a: Option<Seq<char>>, b: Option<Seq<char>>) -> bool {
    match (a, b) {
        (None, Some(_)) => true,
        (Some(x), Some(y)) => lex_lt(x, y),
        _ => false,
    }
}

/// The order of the (app name, binary) pairs: by app name, then binary.
pub open spec fn key_lt(a: (Option<Seq<char>>, Option<Seq<char>>), b: (Option<Seq<char>>, Option<Seq<char>>)) -> bool {
    opt_lt(a.0, b.0) || (a.0 == b.0 && opt_lt(a.1, b.1))
}

proof fn lemma_opt_order(a: Option<Seq<char>>, b: Option<Seq<char>>, c: Option<Seq<char>>)
    ensures
        !opt_lt(a, a),
        opt_lt(a, b) || opt_lt(b, a) || a == b,
        opt_lt(a, b) && opt_lt(b, c) ==> opt_lt(a, c),
{
    match a {
        Some(x) => lemma_lex_irreflexive(x),
        None => {},
    }
    match (a, b) {
        (Some(x), Some(y)) => lemma_lex_total(x, y),
        _ => {},
    }
    match (a, b, c) {
        (Some(x), Some(y), Some(z)) => if lex_lt(x, y) && lex_lt(y, z) {
            lemma_lex_transitive(x, y, z);
        },
        _ => {},
    }
}

/// `key_lt` is a strict total order.
pub proof fn lemma_key_order(
    a: (Option<Seq<char>>, Option<Seq<char>>),
    b: (Option<Seq<char>>, Option<Seq<char>>),
    c: (Option<Seq<char>>, Option<Seq<char>>),
)
    ensures
        !key_lt(a, a),
        key_lt(a, b) || key_lt(b, a) || a == b,
        key_lt(a, b) && key_lt(b, c) ==> key_lt(a, c),
{
    lemma_opt_order(a.0, b.0, c.0);
    lemma_opt_order(a.1, b.1, c.1);
    lemma_opt_order(b.0, a.0, c.0);
    lemma_opt_order(a.0, c.0, b.0);
    lemma_opt_order(b.0, c.0, a.0);
}

fn opt_less(a: &Option<String>, b: &Option<String>) -> (r: bool)
    ensures
        r == opt_lt(opt_view(*a), opt_view(*b)),
{
    match (a, b) {
        (None, Some(_)) => true,
        (Some(x), Some(y)) => lex_less(&chars_of(x.as_str()), &chars_of(y.as_str())),
        _ => false,
    }
}

pub open spec fn pair_view(k: (Option<String>, Option<String>)) -> (Option<Seq<char>>, Option<Seq<char>>) {
    (opt_view(k.0), opt_view(k.1))
}

pub open spec fn pair_views(v: Seq<(Option<String>, Option<String>)>) -> Seq<(Option<Seq<char>>, Option<Seq<char>>)> {
    v.map_values(|k: (Option<String>, Option<String>)| pair_view(k))
}

/// Strictly ascending, so each pair once.
pub open spec fn ascending_keys(ks: Seq<(Option<Seq<char>>, Option<Seq<char>>)>) -> bool {
    forall|i: int, j: int| 0 <= i < j < ks.len() ==> key_lt(#[trigger] ks[i], #[trigger] ks[j])
}

/// Some unruled stream among `ss` is grouped under `key`.
pub open spec fn key_of_unruled(rules: Seq<RoutingRule>, ss: Seq<StreamInfo>, key: (Option<Seq<char>>, Option<Seq<char>>)) -> bool {
    exists|s: int| 0 <= s < ss.len() && unruled_stream(rules, ss[s]) && key_of(ss[s]) == key
}

proof fn lemma_key_of_unruled_grows(rules: Seq<RoutingRule>, ss: Seq<StreamInfo>, k: int, key: (Option<Seq<char>>, Option<Seq<char>>))
    requires
        0 <= k < ss.len(),
        key_of_unruled(rules, ss.take(k), key),
    ensures
        key_of_unruled(rules, ss.take(k + 1), key),
{
    let s = choose|s: int| 0 <= s < ss.take(k).len() && unruled_stream(rules, ss.take(k)[s]) && key_of(ss.take(k)[s]) == key;
    assert(ss.take(k + 1)[s] == ss.take(k)[s]);
}

/// The pairs of the unruled streams, ascending, each once.
fn unruled_keys(streams: &Vec<StreamInfo>, gov: &Vec<Option<usize>>, Ghost(rules): Ghost<Seq<RoutingRule>>) -> (keys: Vec<(Option<String>, Option<String>)>)
    requires
        gov@.len() == streams@.len(),
        forall|k: int| 0 <= k < streams@.len() ==> governor_is(rules, streams@[k], #[trigger] gov@[k]),
    ensures
        ascending_keys(pair_views(keys@)),
        forall|e: int| 0 <= e < keys@.len() ==> key_of_unruled(rules, streams@, #[trigger] pair_view(keys@[e])),
        forall|s: int| 0 <= s < streams@.len() && unruled_stream(rules, streams@[s]) ==> pair_views(keys@).contains(
            #[trigger] key_of(streams@[s]),
        ),
{
    let mut keys: Vec<(Option<String>, Option<String>)> = Vec::new();
    let mut k: usize = 0;
    while k < streams.len()
        invariant
            k <= streams@.len(),
            gov@.len() == streams@.len(),
            forall|kk: int| 0 <= kk < streams@.len() ==> governor_is(rules, streams@[kk], #[trigger] gov@[kk]),
            ascending_keys(pair_views(keys@)),
            forall|e: int| 0 <= e < keys@.len() ==> key_of_unruled(rules, streams@.take(k as int), #[trigger] pair_view(keys@[e])),
            forall|kk: int| 0 <= kk < k && unruled_stream(rules, streams@[kk]) ==> pair_views(keys@).contains(
                #[trigger] key_of(streams@[kk]),
            ),
        decreases streams@.len() - k,
    {
        proof {
            lemma_governor_unique(rules, streams@[k as int], gov@[k as int], 0);
        }
        if gov[k].is_none() {
            let ghost key = key_of(streams@[k as int]);
            let ghost old_keys = keys@;
            let app = copy_opt(&streams[k].app_name);
            let bin = copy_opt(&streams[k].binary);
            // the first position whose pair does not sort before the stream's
            let mut p: usize = 0;
            while p < keys.len() && (opt_less(&keys[p].0, &app) || (opt_eq(&keys[p].0, &app) && opt_less(&keys[p].1, &bin)))
                invariant
                    p <= keys@.len(),
                    keys@ == old_keys,
                    (opt_view(app), opt_view(bin)) == key,
                    forall|e: int| 0 <= e < p ==> key_lt(#[trigger] pair_view(keys@[e]), key),
                decreases keys@.len() - p,
            {
                p = p + 1;
            }
            assert(p == keys@.len() || !key_lt(pair_view(keys@[p as int]), key));
            let found = p < keys.len() && opt_eq(&keys[p].0, &app) && opt_eq(&keys[p].1, &bin);
            if found {
                proof {
                    assert(pair_views(keys@)[p as int] == key);
                    assert forall|e: int| 0 <= e < keys@.len() implies key_of_unruled(rules, streams@.take(k + 1), #[trigger] pair_view(keys@[e])) by {
                        lemma_key_of_unruled_grows(rules, streams@, k as int, pair_view(keys@[e]));
                    }
                }
            } else {
                proof {
                    if p < keys@.len() {
                        let kp = pair_view(keys@[p as int]);
                        assert(!key_lt(kp, key));
                        assert(kp != key);
                        lemma_key_order(kp, key, kp);
                        assert(key_lt(key, kp));
                    }
                    assert forall|e: int| p <= e < keys@.len() implies key_lt(key, #[trigger] pair_view(keys@[e])) by {
                        let kp = pair_view(keys@[p as int]);
                        assert(kp != key);
                        lemma_key_order(key, kp, pair_view(keys@[e]));
                        if e > p {
                            assert(pair_views(keys@)[p as int] == kp);
                            assert(pair_views(keys@)[e] == pair_view(keys@[e]));
                            assert(key_lt(pair_views(keys@)[p as int], pair_views(keys@)[e]));
                        }
                    }
                }
                keys.insert(p, (app, bin));
                proof {
                    let ks = pair_views(keys@);
                    assert(ks =~= pair_views(old_keys).insert(p as int, key));
                    assert forall|i: int, j: int| 0 <= i < j < ks.len() implies key_lt(#[trigger] ks[i], #[trigger] ks[j]) by {
                        let ok = pair_views(old_keys);
                        if j < p {
                            assert(key_lt(ok[i], ok[j]));
                        } else if j == p {
                            assert(key_lt(pair_view(old_keys[i]), key));
                        } else if i < p {
                            assert(key_lt(pair_view(old_keys[i]), key));
                            assert(key_lt(key, pair_view(old_keys[j - 1])));
                            lemma_key_order(ok[i], key, ok[j - 1]);
                        } else if i == p {
                            assert(key_lt(key, pair_view(old_keys[j - 1])));
                        } else {
                            assert(key_lt(ok[i - 1], ok[j - 1]));
                        }
                    }
                    assert forall|e: int| 0 <= e < keys@.len() implies key_of_unruled(rules, streams@.take(k + 1), #[trigger] pair_view(keys@[e])) by {
                        if e < p {
                            assert(pair_view(keys@[e]) == pair_view(old_keys[e]));
                            lemma_key_of_unruled_grows(rules, streams@, k as int, pair_view(old_keys[e]));
                        } else if e == p {
                            assert(streams@.take(k + 1)[k as int] == streams@[k as int]);
                            assert(key_of(streams@[k as int]) == pair_view(keys@[e]));
                        } else {
                            assert(pair_view(keys@[e]) == pair_view(old_keys[e - 1]));
                            lemma_key_of_unruled_grows(rules, streams@, k as int, pair_view(old_keys[e - 1]));
                        }
                    }
                    assert forall|kk: int| 0 <= kk < k + 1 && unruled_stream(rules, streams@[kk]) implies ks.contains(
                        #[trigger] key_of(streams@[kk])) by {
                        if kk < k {
                            let e = choose|e: int| 0 <= e < old_keys.len() && pair_views(old_keys)[e] == key_of(streams@[kk]);
                            if e < p {
                                assert(ks[e] == key_of(streams@[kk]));
                            } else {
                                assert(ks[e + 1] == key_of(streams@[kk]));
                            }
                        } else {
                            assert(ks[p as int] == key);
                        }
                    }
                }
            }
        } else {
            proof {
                assert forall|e: int| 0 <= e < keys@.len() implies key_of_unruled(rules, streams@.take(k + 1), #[trigger] pair_view(keys@[e])) by {
                    lemma_key_of_unruled_grows(rules, streams@, k as int, pair_view(keys@[e]));
                }
            }
        }
        k = k + 1;
    }
    assert(streams@.take(k as int) =~= streams@);
    keys
}

/// The node ids of the unruled streams grouped under `key`, in stream order.
pub open spec fn unruled_ids(rules: Seq<RoutingRule>, ss: Seq<StreamInfo>, key: (Option<Seq<char>>, Option<Seq<char>>)) -> Seq<u32>
    decreases ss.len(),
{
    if ss.len() == 0 {
        seq![]
    } else {
        let prev = unruled_ids(rules, ss.drop_last(), key);
        if unruled_stream(rules, ss.last()) && key_of(ss.last()) == key {
            prev.push(ss.last().node_id)
        } else {
            prev
        }
    }
}

proof fn lemma_unruled_ids_nonempty(rules: Seq<RoutingRule>, ss: Seq<StreamInfo>, key: (Option<Seq<char>>, Option<Seq<char>>))
    requires
        key_of_unruled(rules, ss, key),
    ensures
        unruled_ids(rules, ss, key).len() > 0,
    decreases ss.len(),
{
    let s = choose|s: int| 0 <= s < ss.len() && unruled_stream(rules, ss[s]) && key_of(ss[s]) == key;
    if s < ss.len() - 1 {
        assert(ss.drop_last()[s] == ss[s]);
        lemma_unruled_ids_nonempty(rules, ss.drop_last(), key);
    }
}

/// The node ids of the unruled streams grouped under the pair `(app, bin)`.
fn ids_grouped_by(
    streams: &Vec<StreamInfo>,
    gov: &Vec<Option<usize>>,
    app: &Option<String>,
    bin: &Option<String>,
    Ghost(rules): Ghost<Seq<RoutingRule>>,
) -> (ids: Vec<u32>)
    requires
        gov@.len() == streams@.len(),
        forall|k: int| 0 <= k < streams@.len() ==> governor_is(rules, streams@[k], #[trigger] gov@[k]),
    ensures
        ids@ == unruled_ids(rules, streams@, (opt_view(*app), opt_view(*bin))),
{
    let ghost key = (opt_view(*app), opt_view(*bin));
    let mut ids: Vec<u32> = Vec::new();
    let mut k: usize = 0;
    while k < streams.len()
        invariant
            k <= streams@.len(),
            gov@.len() == streams@.len(),
            forall|kk: int| 0 <= kk < streams@.len() ==> governor_is(rules, streams@[kk], #[trigger] gov@[kk]),
            key == (opt_view(*app), opt_view(*bin)),
            ids@ == unruled_ids(rules, streams@.take(k as int), key),
        decreases streams@.len() - k,
    {
        proof {
            lemma_governor_unique(rules, streams@[k as int], gov@[k as int], 0);
            assert(streams@.take(k + 1).drop_last() =~= streams@.take(k as int));
            assert(streams@.take(k + 1).last() == streams@[k as int]);
        }
        let same = opt_eq(&streams[k].app_name, app) && opt_eq(&streams[k].binary, bin);
        proof {
            let ks = key_of(streams@[k as int]);
            if same {
                assert(ks.0 == key.0 && ks.1 == key.1);
                assert(ks == key);
            }
            if ks == key {
                assert(ks.0 == key.0 && ks.1 == key.1);
            }
        }
        if gov[k].is_none() && same {
            ids.push(streams[k].node_id);
        }
        k = k + 1;
    }
    assert(streams@.take(streams@.len() as int) =~= streams@);
    ids
}

/// An unruled group: its app name, its binary, and its streams' node ids.
pub open spec fn group_key(g: (Option<String>, Option<String>, Vec<u32>)) -> (Option<Seq<char>>, Option<Seq<char>>) {
    (opt_view(g.0), opt_view(g.1))
}

pub open spec fn group_keys(v: Seq<(Option<String>, Option<String>, Vec<u32>)>) -> Seq<(Option<Seq<char>>, Option<Seq<char>>)> {
    v.map_values(|g: (Option<String>, Option<String>, Vec<u32>)| group_key(g))
}

/// The title a group sorts by: its app name, else its binary, else empty.
pub open spec fn group_sort_title(key: (Option<Seq<char>>, Option<Seq<char>>)) -> Seq<char> {
    match key.0 {
        Some(a) => a,
        None => match key.1 {
            Some(b) => b,
            None => seq![],
        },
    }
}

/// A rule's activity mark in the tile's sort key: rules governing no live
/// stream sort after the rest.
pub open spec fn idle_mark(idle: bool) -> Seq<char> {
    if idle {
        seq!['1']
    } else {
        seq!['0']
    }
}

/// The tile's sort key of rule `i`.
pub open spec fn rule_item_key(rules: Seq<RoutingRule>, ss: Seq<StreamInfo>, i: int) -> Seq<Seq<char>> {
    seq![idle_mark(governed_ids(rules, ss, i as usize).len() == 0), lowercase(rules[i].display_name@)]
}

/// The tile's sort key of an unruled group: live, by lowercased title.
pub open spec fn group_item_key(key: (Option<Seq<char>>, Option<Seq<char>>)) -> Seq<Seq<char>> {
    seq![idle_mark(false), lowercase(group_sort_title(key))]
}

/// The sort keys of the tile's items: the rules in order, then the groups.
pub open spec fn tile_keys(
    rules: Seq<RoutingRule>,
    ss: Seq<StreamInfo>,
    groups: Seq<(Option<Seq<char>>, Option<Seq<char>>)>,
) -> Seq<Seq<Seq<char>>> {
    Seq::new(rules.len(), |i: int| rule_item_key(rules, ss, i)) + groups.map_values(
        |k: (Option<Seq<char>>, Option<Seq<char>>)| group_item_key(k),
    )
}

/// A line of the routing tile: a rule, or an unruled group, by position.
#[derive(Clone, Copy, Debug, PartialEq, Eq, Structural)]
pub enum TileItem {
    Rule(usize),
    Group(usize),
}

/// The position of an item among the rules followed by the groups.
pub open spec fn item_index(it: TileItem, n: nat) -> usize {
    match it {
        TileItem::Rule(i) => i,
        TileItem::Group(g) => (n + g) as usize,
    }
}

pub open spec fn item_indices(v: Seq<TileItem>, n: nat) -> Seq<usize> {
    v.map_values(|it: TileItem| item_index(it, n))
}

/// What the routing tile shows.
pub struct RoutingTile {
    /// Per rule, the node ids of the live streams it governs.
    pub matched: Vec<Vec<u32>>,
    /// The streams no rule takes, grouped by (app name, binary), ascending.
    pub unruled: Vec<(Option<String>, Option<String>, Vec<u32>)>,
    /// The badge: enabled rules that govern a live stream.
    pub active: usize,
    /// The lines, in display order.
    pub items: Vec<TileItem>,
    /// Add Rule is offered while a stream plays.
    pub can_add: bool,
}

/// The routing tile for the saved rules and the live streams. Each stream
/// goes under the enabled rule it follows, else the disabled rule that
/// would take it, else the group of its (app name, binary) pair. Lines are
/// ordered by live activity, then by lowercased title.
pub fn routing_tile(rules: &Vec<RoutingRule>, streams: &Vec<StreamInfo>) -> (r: RoutingTile)
    requires
        rules@.len() + streams@.len() <= usize::MAX,
    ensures
        r.matched@.len() == rules@.len(),
        forall|i: int| 0 <= i < rules@.len() ==> (#[trigger] r.matched@[i])@ == governed_ids(rules@, streams@, i as usize),
        forall|e: int| 0 <= e < r.unruled@.len() ==> {
            &&& (#[trigger] r.unruled@[e]).2@ == unruled_ids(rules@, streams@, group_key(r.unruled@[e]))
            &&& r.unruled@[e].2@.len() > 0
        },
        ascending_keys(group_keys(r.unruled@)),
        forall|k: int| 0 <= k < streams@.len() && unruled_stream(rules@, streams@[k]) ==> group_keys(r.unruled@).contains(
            #[trigger] key_of(streams@[k]),
        ),
        r.active == active_count(rules@, streams@, rules@.len() as int),
        is_stable_tuple_order(tile_keys(rules@, streams@, group_keys(r.unruled@)), item_indices(r.items@, rules@.len())),
        forall|m: int| 0 <= m < r.items@.len() ==> (#[trigger] r.items@[m] matches TileItem::Rule(i) ==> i < rules@.len()),
        r.can_add == (streams@.len() > 0),
{
    let gov = governors(rules, streams);
    let ghost rs = rules@;
    let mut matched: Vec<Vec<u32>> = Vec::new();
    let mut active: usize = 0;
    let mut sort_keys: Vec<Vec<Vec<char>>> = Vec::new();
    let mut i: usize = 0;
    while i < rules.len()
        invariant
            rs == rules@,
            i <= rules@.len(),
            gov@.len() == streams@.len(),
            forall|k: int| 0 <= k < streams@.len() ==> governor_is(rs, streams@[k], #[trigger] gov@[k]),
            matched@.len() == i,
            forall|ii: int| 0 <= ii < i ==> (#[trigger] matched@[ii])@ == governed_ids(rs, streams@, ii as usize),
            active == active_count(rs, streams@, i as int),
            active <= i,
            sort_keys@.len() == i,
            forall|ii: int| 0 <= ii < i ==> (#[trigger] sort_keys@[ii])@.len() == 2,
            forall|ii: int| 0 <= ii < i ==> tuple_views(sort_keys@)[ii] == rule_item_key(rs, streams@, ii),
        decreases rules@.len() - i,
    {
        let ids = ids_governed_by(streams, &gov, i, Ghost(rs));
        let idle = ids.len() == 0;
        if rules[i].enabled && !idle {
            active = active + 1;
        }
        let mut mark: Vec<char> = Vec::new();
        mark.push(if idle { '1' } else { '0' });
        proof {
            assert(mark@ =~= idle_mark(governed_ids(rs, streams@, i).len() == 0));
        }
        let title = chars_of(to_lowercase(rules[i].display_name.as_str()).as_str());
        let mut key: Vec<Vec<char>> = Vec::new();
        key.push(mark);
        key.push(title);
        proof {
            assert(views(key@) =~= rule_item_key(rs, streams@, i as int));
        }
        sort_keys.push(key);
        matched.push(ids);
        i = i + 1;
    }
    let keys = unruled_keys(streams, &gov, Ghost(rs));
    let mut unruled: Vec<(Option<String>, Option<String>, Vec<u32>)> = Vec::new();
    let mut e: usize = 0;
    while e < keys.len()
        invariant
            rs == rules@,
            gov@.len() == streams@.len(),
            forall|k: int| 0 <= k < streams@.len() ==> governor_is(rs, streams@[k], #[trigger] gov@[k]),
            forall|f: int| 0 <= f < keys@.len() ==> key_of_unruled(rs, streams@, #[trigger] pair_view(keys@[f])),
            e <= keys@.len(),
            unruled@.len() == e,
            forall|f: int| 0 <= f < e ==> group_key(#[trigger] unruled@[f]) == pair_view(keys@[f]),
            forall|f: int| 0 <= f < e ==> {
                &&& (#[trigger] unruled@[f]).2@ == unruled_ids(rs, streams@, group_key(unruled@[f]))
                &&& unruled@[f].2@.len() > 0
            },
            sort_keys@.len() == rules@.len() + e,
            forall|ii: int| 0 <= ii < sort_keys@.len() ==> (#[trigger] sort_keys@[ii])@.len() == 2,
            forall|ii: int| 0 <= ii < rules@.len() ==> tuple_views(sort_keys@)[ii] == rule_item_key(rs, streams@, ii),
            forall|f: int| 0 <= f < e ==> tuple_views(sort_keys@)[rules@.len() + f] == group_item_key(pair_view(keys@[f])),
        decreases keys@.len() - e,
    {
        let app = copy_opt(&keys[e].0);
        let bin = copy_opt(&keys[e].1);
        let ids = ids_grouped_by(streams, &gov, &app, &bin, Ghost(rs));
        proof {
            assert(pair_view(keys@[e as int]) == (opt_view(app), opt_view(bin)));
            lemma_unruled_ids_nonempty(rs, streams@, pair_view(keys@[e as int]));
        }
        let title: String = match &app {
            Some(a) => a.clone(),
            None => match &bin {
                Some(b) => b.clone(),
                None => String::new(),
            },
        };
        proof {
            assert(title@ == group_sort_title(pair_view(keys@[e as int])));
        }
        let mut mark: Vec<char> = Vec::new();
        mark.push('0');
        proof {
            assert(mark@ =~= idle_mark(false));
        }
        let mut key: Vec<Vec<char>> = Vec::new();
        key.push(mark);
        key.push(chars_of(to_lowercase(title.as_str()).as_str()));
        proof {
            assert(views(key@) =~= group_item_key(pair_view(keys@[e as int])));
        }
        sort_keys.push(key);
        unruled.push((app, bin, ids));
        e = e + 1;
    }
    proof {
        assert(group_keys(unruled@) =~= pair_views(keys@));
        assert(tuple_views(sort_keys@) =~= tile_keys(rs, streams@, group_keys(unruled@)));
    }
    let order = stable_tuple_order(&sort_keys);
    let n = rules.len();
    let mut items: Vec<TileItem> = Vec::new();
    let mut m: usize = 0;
    while m < order.len()
        invariant
            n == rules@.len(),
            is_stable_tuple_order(tuple_views(sort_keys@), order@),
            sort_keys@.len() == n + unruled@.len(),
            m <= order@.len(),
            items@.len() == m,
            forall|mm: int| 0 <= mm < m ==> item_index(#[trigger] items@[mm], n as nat) == order@[mm],
            forall|mm: int| 0 <= mm < m ==> (#[trigger] items@[mm] matches TileItem::Rule(i) ==> i < n),
        decreases order@.len() - m,
    {
        let k = order[m];
        if k < n {
            items.push(TileItem::Rule(k));
        } else {
            items.push(TileItem::Group(k - n));
        }
        m = m + 1;
    }
    proof {
        assert(item_indices(items@, n as nat) =~= order@);
    }
    RoutingTile { matched, unruled, active, items, can_add: streams.len() > 0 }
}

} // verus!
