//! Routing rules and the matcher that picks the rule a stream follows.

use vstd::prelude::*;
use crate::pw_config::{AUX_SINK, MAIN_SINK};
use crate::text::{chars_of, has_prefix, owned, push_str, str_eq, string_of_range, string_views, starts_with};

verus! {

/// Where a rule sends the streams it matches.
#[derive(Clone, Debug, PartialEq, Eq)]
pub enum RuleTarget {
    Aux,
    Main,
    DirectHw(String),
}

/// A target as text: which sink, and for hardware the node name.
pub enum TargetModel {
    Aux,
    Main,
    DirectHw(Seq<char>),
}

impl View for RuleTarget {
    type V = TargetModel;

    open spec fn view(&self) -> TargetModel {
        match self {
            RuleTarget::Aux => TargetModel::Aux,
            RuleTarget::Main => TargetModel::Main,
            RuleTarget::DirectHw(n) => TargetModel::DirectHw(n@),
        }
    }
}

/// The stored form of a target.
pub open spec fn target_text(t: TargetModel) -> Seq<char> {
    match t {
        TargetModel::Aux => "aux"@,
        TargetModel::Main => "main"@,
        TargetModel::DirectHw(n) => "hw:"@ + n,
    }
}

/// The target a stored form names, if any.
pub open spec fn parse_target(s: Seq<char>) -> Option<TargetModel> {
    if s == "aux"@ {
        Some(TargetModel::Aux)
    } else if s == "main"@ {
        Some(TargetModel::Main)
    } else if starts_with(s, "hw:"@) && s.len() > 3 {
        Some(TargetModel::DirectHw(s.skip(3)))
    } else {
        None
    }
}

pub open spec fn opt_target_view(r: Option<RuleTarget>) -> Option<TargetModel> {
    match r {
        Some(t) => Some(t@),
        None => None,
    }
}

/// The node a target routes to.
pub open spec fn target_node(t: TargetModel) -> Seq<char> {
    match t {
        TargetModel::Aux => AUX_SINK@,
        TargetModel::Main => MAIN_SINK@,
        TargetModel::DirectHw(n) => n,
    }
}

impl RuleTarget {
    /// The stored form: `aux`, `main`, or `hw:` and the hardware node name.
    pub fn serialize(&self) -> (r: String)
        ensures
            r@ == target_text(self@),
    {
        match self {
            RuleTarget::Aux => owned("aux"),
            RuleTarget::Main => owned("main"),
            RuleTarget::DirectHw(n) => {
                let mut s = owned("hw:");
                push_str(&mut s, n.as_str());
                s
            },
        }
    }

    /// Reads a stored form back; `hw:` needs a name after it.
    pub fn parse(s: &str) -> (r: Option<RuleTarget>)
        ensures
            opt_target_view(r) == parse_target(s@),
    {
        if str_eq(s, "aux") {
            Some(RuleTarget::Aux)
        } else if str_eq(s, "main") {
            Some(RuleTarget::Main)
        } else {
            let v = chars_of(s);
            let prefix = chars_of("hw:");
            proof {
                reveal_strlit("hw:");
            }
            if has_prefix(&v, &prefix) && v.len() > 3 {
                let name = string_of_range(&v, 3, v.len());
                assert(name@ =~= s@.skip(3));
                Some(RuleTarget::DirectHw(name))
            } else {
                None
            }
        }
    }

    /// The node a matching stream is sent to.
    pub fn node_name(&self) -> (r: String)
        ensures
            r@ == target_node(self@),
    {
        match self {
            RuleTarget::Aux => owned(AUX_SINK),
            RuleTarget::Main => owned(MAIN_SINK),
            RuleTarget::DirectHw(n) => n.clone(),
        }
    }

    /// Whether two targets name the same place.
    pub fn same_as(&self, other: &RuleTarget) -> (r: bool)
        ensures
            r == (self@ == other@),
    {
        match (self, other) {
            (RuleTarget::Aux, RuleTarget::Aux) => true,
            (RuleTarget::Main, RuleTarget::Main) => true,
            (RuleTarget::DirectHw(x), RuleTarget::DirectHw(y)) => str_eq(x.as_str(), y.as_str()),
            _ => false,
        }
    }
}

/// A stored target reads back as the target that was stored; a hardware
/// target needs a non-empty name (`hw:` alone does not parse).
pub proof fn target_round_trip(t: TargetModel)
    requires
        t matches TargetModel::DirectHw(n) ==> n.len() > 0,
    ensures
        parse_target(target_text(t)) == Some(t),
{
    reveal_strlit("aux");
    reveal_strlit("main");
    reveal_strlit("hw:");
    match t {
        TargetModel::DirectHw(n) => {
            let s = "hw:"@ + n;
            assert(s.take(3) =~= "hw:"@);
            assert(s.skip(3) =~= n);
            assert(s != "aux"@) by {
                assert(s[0] != "aux"@[0]);
            }
            assert(s != "main"@) by {
                assert(s[0] != "main"@[0]);
            }
        },
        _ => {
            assert("aux"@ != "main"@) by {
                assert("aux"@[0] != "main"@[0]);
            }
        },
    }
}

/// A stored form that reads back is exactly the form of what it read as.
pub proof fn target_parse_exact(s: Seq<char>)
    ensures
        parse_target(s) matches Some(t) ==> target_text(t) == s,
{
    reveal_strlit("hw:");
    if let Some(TargetModel::DirectHw(n)) = parse_target(s) {
        assert(s =~= "hw:"@ + s.skip(3));
    }
}

/// A stream as the matcher sees it.
#[derive(Clone, Debug)]
pub struct StreamInfo {
    pub node_id: u32,
    pub app_name: Option<String>,
    pub app_icon: Option<String>,
    pub binary: Option<String>,
    pub media_name: Option<String>,
}

/// A routing rule: the app names and binaries it matches (an empty list
/// matches any value), where it sends them, and whether it is on.
#[derive(Clone, Debug)]
pub struct RoutingRule {
    pub display_name: String,
    pub match_app_names: Vec<String>,
    pub match_binaries: Vec<String>,
    pub target: RuleTarget,
    pub enabled: bool,
}

/// A rule with its texts as character sequences.
pub struct RuleModel {
    pub display_name: Seq<char>,
    pub app_names: Seq<Seq<char>>,
    pub binaries: Seq<Seq<char>>,
    pub target: TargetModel,
    pub enabled: bool,
}

impl View for RoutingRule {
    type V = RuleModel;

    open spec fn view(&self) -> RuleModel {
        RuleModel {
            display_name: self.display_name@,
            app_names: string_views(self.match_app_names@),
            binaries: string_views(self.match_binaries@),
            target: self.target@,
            enabled: self.enabled,
        }
    }
}

/// A copy of an optional string.
pub fn copy_opt(o: &Option<String>) -> (r: Option<String>)
    ensures
        opt_view(r) == opt_view(*o),
{
    match o {
        Some(s) => Some(s.clone()),
        None => None,
    }
}

/// Whether two optional strings hold the same text, or are both absent.
pub fn opt_eq(a: &Option<String>, b: &Option<String>) -> (r: bool)
    ensures
        r == (opt_view(*a) == opt_view(*b)),
{
    match (a, b) {
        (Some(x), Some(y)) => str_eq(x.as_str(), y.as_str()),
        (None, None) => true,
        _ => false,
    }
}

/// A stream with its texts as character sequences.
pub struct StreamModel {
    pub node_id: u32,
    pub app_name: Option<Seq<char>>,
    pub app_icon: Option<Seq<char>>,
    pub binary: Option<Seq<char>>,
    pub media_name: Option<Seq<char>>,
}

impl View for StreamInfo {
    type V = StreamModel;

    open spec fn view(&self) -> StreamModel {
        StreamModel {
            node_id: self.node_id,
            app_name: opt_view(self.app_name),
            app_icon: opt_view(self.app_icon),
            binary: opt_view(self.binary),
            media_name: opt_view(self.media_name),
        }
    }
}

pub open spec fn stream_views(v: Seq<StreamInfo>) -> Seq<StreamModel> {
    v.map_values(|s: StreamInfo| s@)
}

impl StreamInfo {
    /// A copy of the stream description.
    pub fn duplicate(&self) -> (r: StreamInfo)
        ensures
            r@ == self@,
    {
        StreamInfo {
            node_id: self.node_id,
            app_name: copy_opt(&self.app_name),
            app_icon: copy_opt(&self.app_icon),
            binary: copy_opt(&self.binary),
            media_name: copy_opt(&self.media_name),
        }
    }
}

pub open spec fn opt_view(o: Option<String>) -> Option<Seq<char>> {
    match o {
        Some(s) => Some(s@),
        None => None,
    }
}

/// `value` is present and one of `set`.
pub open spec fn listed(set: Seq<Seq<char>>, value: Option<Seq<char>>) -> bool {
    match value {
        Some(v) => set.contains(v),
        None => false,
    }
}

/// Number of properties the rule constrains.
pub open spec fn rule_specificity(rule: RoutingRule) -> nat {
    (if rule.match_app_names@.len() > 0 {
        1nat
    } else {
        0nat
    }) + (if rule.match_binaries@.len() > 0 {
        1nat
    } else {
        0nat
    })
}

/// The rule constrains something, and the stream meets every constraint.
pub open spec fn rule_matches(rule: RoutingRule, info: StreamInfo) -> bool {
    &&& rule.match_app_names@.len() == 0 || listed(
        string_views(rule.match_app_names@),
        opt_view(info.app_name),
    )
    &&& rule.match_binaries@.len() == 0 || listed(
        string_views(rule.match_binaries@),
        opt_view(info.binary),
    )
    &&& rule_specificity(rule) > 0
}

impl RoutingRule {
    /// Higher specificity (more constrained properties) wins ties.
    pub fn specificity(&self) -> (r: usize)
        ensures
            r == rule_specificity(*self),
    {
        (if !self.match_app_names.is_empty() {
            1usize
        } else {
            0usize
        }) + (if !self.match_binaries.is_empty() {
            1usize
        } else {
            0usize
        })
    }

    pub fn matches(&self, info: &StreamInfo) -> (r: bool)
        ensures
            r == rule_matches(*self, *info),
    {
        if !self.match_app_names.is_empty() && !contains(&self.match_app_names, &info.app_name) {
            return false;
        }
        if !self.match_binaries.is_empty() && !contains(&self.match_binaries, &info.binary) {
            return false;
        }
        self.specificity() > 0
    }
}

/// A rule that constrains nothing matches no stream.
pub proof fn unconstrained_rule_matches_nothing(rule: RoutingRule, info: StreamInfo)
    requires
        rule.match_app_names@.len() == 0,
        rule.match_binaries@.len() == 0,
    ensures
        !rule_matches(rule, info),
{
}

/// Whether `value` is present and one of `set`.
pub fn contains(set: &Vec<String>, value: &Option<String>) -> (r: bool)
    ensures
        r == listed(string_views(set@), opt_view(*value)),
{
    match value {
        Some(v) => {
            let mut i: usize = 0;
            while i < set.len()
                invariant
                    i <= set@.len(),
                    opt_view(*value) == Some(v@),
                    forall|j: int| 0 <= j < i ==> set@[j]@ != v@,
                decreases set@.len() - i,
            {
                if str_eq(set[i].as_str(), v.as_str()) {
                    assert(string_views(set@)[i as int] == v@);
                    assert(string_views(set@).contains(v@));
                    return true;
                }
                i = i + 1;
            }
            assert(!string_views(set@).contains(v@)) by {
                if string_views(set@).contains(v@) {
                    let j = choose|j: int| 0 <= j < set@.len() && string_views(set@)[j] == v@;
                    assert(set@[j]@ == v@);
                }
            }
            false
        },
        None => false,
    }
}

/// Rule `i` is enabled as asked and matches the stream.
pub open spec fn candidate(rules: Seq<RoutingRule>, info: StreamInfo, enabled: bool, i: int) -> bool {
    0 <= i < rules.len() && rules[i].enabled == enabled && rule_matches(rules[i], info)
}

/// `r` is what picking the most specific candidate gives, the last one
/// among equally specific candidates (as `Iterator::max_by_key` does), or
/// `None` when no rule is a candidate.
pub open spec fn is_best_match(
    rules: Seq<RoutingRule>,
    info: StreamInfo,
    enabled: bool,
    r: Option<usize>,
) -> bool {
    match r {
        None => forall|j: int| !candidate(rules, info, enabled, j),
        Some(i) => {
            &&& candidate(rules, info, enabled, i as int)
            &&& forall|j: int|
                #[trigger] candidate(rules, info, enabled, j) ==> rule_specificity(rules[j])
                    <= rule_specificity(rules[i as int])
            &&& forall|j: int|
                i < j && #[trigger] candidate(rules, info, enabled, j) ==> rule_specificity(rules[j])
                    < rule_specificity(rules[i as int])
        },
    }
}

/// The best match is unique.
pub proof fn best_match_unique(
    rules: Seq<RoutingRule>,
    info: StreamInfo,
    enabled: bool,
    a: Option<usize>,
    b: Option<usize>,
)
    requires
        is_best_match(rules, info, enabled, a),
        is_best_match(rules, info, enabled, b),
    ensures
        a == b,
{
    match (a, b) {
        (Some(x), Some(y)) => {
            assert(candidate(rules, info, enabled, x as int));
            assert(candidate(rules, info, enabled, y as int));
        },
        (Some(x), None) => {
            assert(candidate(rules, info, enabled, x as int));
        },
        (None, Some(y)) => {
            assert(candidate(rules, info, enabled, y as int));
        },
        _ => {},
    }
}

/// The enabled rule a stream follows.
pub fn winning_rule_index(rules: &Vec<RoutingRule>, info: &StreamInfo) -> (r: Option<usize>)
    ensures
        is_best_match(rules@, *info, true, r),
{
    best_match_index(rules, info, true)
}

/// The disabled rule that would take the stream, so it stays listed under it.
pub fn would_match_disabled_index(rules: &Vec<RoutingRule>, info: &StreamInfo) -> (r: Option<
    usize,
>)
    ensures
        is_best_match(rules@, *info, false, r),
{
    best_match_index(rules, info, false)
}

/// The most specific matching rule among those enabled as asked.
pub fn best_match_index(rules: &Vec<RoutingRule>, info: &StreamInfo, enabled: bool) -> (r: Option<
    usize,
>)
    ensures
        is_best_match(rules@, *info, enabled, r),
{
    let mut best: Option<usize> = None;
    let mut best_spec: usize = 0;
    let mut i: usize = 0;
    while i < rules.len()
        invariant
            i <= rules@.len(),
            match best {
                None => forall|j: int| 0 <= j < i ==> !candidate(rules@, *info, enabled, j),
                Some(b) => {
                    &&& b < i
                    &&& candidate(rules@, *info, enabled, b as int)
                    &&& best_spec == rule_specificity(rules@[b as int])
                    &&& forall|j: int|
                        0 <= j < i && #[trigger] candidate(rules@, *info, enabled, j)
                            ==> rule_specificity(rules@[j]) <= best_spec
                    &&& forall|j: int|
                        b < j < i && #[trigger] candidate(rules@, *info, enabled, j)
                            ==> rule_specificity(rules@[j]) < best_spec
                },
            },
        decreases rules@.len() - i,
    {
        let rule = &rules[i];
        if rule.enabled == enabled && rule.matches(info) {
            let s = rule.specificity();
            let take = match best {
                None => true,
                Some(_) => s >= best_spec,
            };
            if take {
                best = Some(i);
                best_spec = s;
            }
        }
        i = i + 1;
    }
    best
}

} // verus!
