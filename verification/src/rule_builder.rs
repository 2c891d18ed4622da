//! Building a routing rule from live streams: streams are grouped by app
//! identity, the picked groups give the names and binaries to match on, and
//! the switches, the name entry and the route choice complete the rule.
//! Texts here are plain; the display layer escapes them for markup.

use vstd::prelude::*;
use crate::order::{is_stable_order, stable_order, stably_sorted, stable_tuple_order, stably_sorted_by_tuples, is_stable_tuple_order, tuple_views};
use crate::routing::{opt_eq, opt_view, copy_opt, RoutingRule, RuleTarget, StreamInfo, StreamModel, stream_views, rule_matches};
use crate::text::{chars_of, decimal_string, ends_with, has_suffix, lowercase, owned, push_str, string_of_range, string_views, str_eq, to_lowercase, uppercase, char_to_uppercase, views, join, join_strings, decimal, push_decimal, skip_ws, skip_ws_back, trim, lemma_trim_window};
use crate::util::{stream_count, stream_count_text, RouteTarget};

verus! {

/// The stem of a binary name, without a `.bin`, `.exe` or `.app` suffix.
pub open spec fn binary_stem(binary: Seq<char>) -> Seq<char> {
    if ends_with(binary, ".bin"@) {
        binary.take(binary.len() - 4)
    } else if ends_with(binary, ".exe"@) {
        binary.take(binary.len() - 4)
    } else if ends_with(binary, ".app"@) {
        binary.take(binary.len() - 4)
    } else {
        binary
    }
}

/// A binary name made presentable: its stem with the first letter in
/// upper case.
pub open spec fn presentable_binary(binary: Seq<char>) -> Seq<char> {
    let stem = binary_stem(binary);
    if stem.len() == 0 {
        stem
    } else {
        uppercase(stem[0]) + stem.drop_first()
    }
}

/// Strips the suffix from a binary name and capitalises it.
pub fn strip_binary_suffix(binary: &str) -> (r: String)
    ensures
        r@ == presentable_binary(binary@),
{
    let v = chars_of(binary);
    proof {
        reveal_strlit(".bin");
        reveal_strlit(".exe");
        reveal_strlit(".app");
    }
    let stem_len = if has_suffix(&v, &chars_of(".bin")) || has_suffix(&v, &chars_of(".exe"))
        || has_suffix(&v, &chars_of(".app")) {
        v.len() - 4
    } else {
        v.len()
    };
    assert(v@.take(stem_len as int) =~= binary_stem(binary@));
    if stem_len == 0 {
        return String::new();
    }
    let mut out = char_to_uppercase(v[0]);
    let rest = string_of_range(&v, 1, stem_len);
    push_str(&mut out, rest.as_str());
    assert(v@.subrange(1, stem_len as int) =~= v@.take(stem_len as int).drop_first());
    out
}

/// The title of a group of streams: the app name, else the presentable
/// binary, else "Unknown app".
pub open spec fn group_title_text(app_name: Option<Seq<char>>, binary: Option<Seq<char>>) -> Seq<char> {
    match app_name {
        Some(a) => a,
        None => match binary {
            Some(b) => presentable_binary(b),
            None => "Unknown app"@,
        },
    }
}

pub fn group_title(app_name: &Option<String>, binary: &Option<String>) -> (r: String)
    ensures
        r@ == group_title_text(opt_view(*app_name), opt_view(*binary)),
{
    match app_name {
        Some(a) => a.clone(),
        None => match binary {
            Some(b) => strip_binary_suffix(b.as_str()),
            None => owned("Unknown app"),
        },
    }
}

/// The first occurrence of each value among the first `n`, in order.
pub open spec fn distinct_prefix(values: Seq<Seq<char>>, n: int) -> Seq<Seq<char>>
    decreases n,
{
    if n <= 0 {
        seq![]
    } else {
        let prev = distinct_prefix(values, n - 1);
        if prev.contains(values[n - 1]) {
            prev
        } else {
            prev.push(values[n - 1])
        }
    }
}

/// The first occurrence of each value, in order.
pub open spec fn distinct_seq(values: Seq<Seq<char>>) -> Seq<Seq<char>> {
    distinct_prefix(values, values.len() as int)
}

proof fn lemma_distinct_prefix(values: Seq<Seq<char>>, n: int)
    requires
        0 <= n <= values.len(),
    ensures
        distinct_prefix(values, n).no_duplicates(),
        forall|x: Seq<char>| distinct_prefix(values, n).contains(x) <==> exists|j: int| 0 <= j < n && values[j] == x,
    decreases n,
{
    if n > 0 {
        lemma_distinct_prefix(values, n - 1);
        let prev = distinct_prefix(values, n - 1);
        assert forall|x: Seq<char>| distinct_prefix(values, n).contains(x) <==> exists|j: int| 0 <= j < n && values[j] == x by {
            if distinct_prefix(values, n).contains(x) {
                if prev.contains(x) {
                    let j = choose|j: int| 0 <= j < n - 1 && values[j] == x;
                } else {
                    assert(x == values[n - 1]);
                }
            }
            if exists|j: int| 0 <= j < n && values[j] == x {
                let j = choose|j: int| 0 <= j < n && values[j] == x;
                if j < n - 1 {
                    assert(prev.contains(x));
                    if !prev.contains(values[n - 1]) {
                        assert(prev.push(values[n - 1])[prev.index_of(x)] == x);
                    }
                } else {
                    if !prev.contains(values[n - 1]) {
                        assert(prev.push(values[n - 1])[prev.len() as int] == x);
                    }
                }
            }
        }
    }
}

/// The distinct values keep their first occurrences, in order, and hold
/// each value once.
pub proof fn distinct_contents(values: Seq<Seq<char>>)
    ensures
        distinct_seq(values).no_duplicates(),
        forall|x: Seq<char>| distinct_seq(values).contains(x) <==> values.contains(x),
{
    lemma_distinct_prefix(values, values.len() as int);
    assert forall|x: Seq<char>| distinct_seq(values).contains(x) <==> values.contains(x) by {
        if values.contains(x) {
            let j = choose|j: int| 0 <= j < values.len() && values[j] == x;
        }
    }
}

/// The values without repeats, each where it first occurs.
pub fn distinct(values: &Vec<String>) -> (r: Vec<String>)
    ensures
        string_views(r@) == distinct_seq(string_views(values@)),
{
    let ghost vs = string_views(values@);
    let mut out: Vec<String> = Vec::new();
    let mut i: usize = 0;
    while i < values.len()
        invariant
            vs == string_views(values@),
            i <= values@.len(),
            string_views(out@) == distinct_prefix(vs, i as int),
        decreases values@.len() - i,
    {
        let mut seen = false;
        let mut k: usize = 0;
        while k < out.len()
            invariant
                vs == string_views(values@),
                i < values@.len(),
                k <= out@.len(),
                seen == exists|j: int| 0 <= j < k && out@[j]@ == values@[i as int]@,
            decreases out@.len() - k,
        {
            if str_eq(out[k].as_str(), values[i].as_str()) {
                seen = true;
            }
            k = k + 1;
        }
        proof {
            let prev = distinct_prefix(vs, i as int);
            assert(vs[i as int] == values@[i as int]@);
            if seen {
                let j = choose|j: int| 0 <= j < out@.len() && out@[j]@ == values@[i as int]@;
                assert(prev[j] == out@[j]@);
            } else {
                assert forall|j: int| 0 <= j < prev.len() implies prev[j] != vs[i as int] by {
                    assert(prev[j] == out@[j]@);
                }
            }
        }
        if !seen {
            out.push(values[i].clone());
            assert(string_views(out@) =~= distinct_prefix(vs, i + 1));
        }
        i = i + 1;
    }
    out
}

/// A selection can become a rule when it shares one app name or one binary.
pub open spec fn shared_identity_spec(names: Seq<Seq<char>>, bins: Seq<Seq<char>>) -> bool {
    names.len() == 1 || bins.len() == 1
}

pub fn shared_identity(names: &Vec<String>, bins: &Vec<String>) -> (r: bool)
    ensures
        r == shared_identity_spec(string_views(names@), string_views(bins@)),
{
    names.len() == 1 || bins.len() == 1
}


/// The app identity of a stream: its app name and its binary.
pub type Identity = (Option<Seq<char>>, Option<Seq<char>>);

pub open spec fn identity(s: StreamModel) -> Identity {
    (s.app_name, s.binary)
}

/// The identities among the first `n` streams, in order of first appearance.
pub open spec fn identities(streams: Seq<StreamModel>, n: int) -> Seq<Identity>
    decreases n,
{
    if n <= 0 {
        seq![]
    } else {
        let prev = identities(streams, n - 1);
        if prev.contains(identity(streams[n - 1])) {
            prev
        } else {
            prev.push(identity(streams[n - 1]))
        }
    }
}

/// The indices among the first `n` streams whose identity is `k`, in order.
pub open spec fn members(streams: Seq<StreamModel>, k: Identity, n: int) -> Seq<usize>
    decreases n,
{
    if n <= 0 {
        seq![]
    } else {
        let prev = members(streams, k, n - 1);
        if identity(streams[n - 1]) == k {
            prev.push((n - 1) as usize)
        } else {
            prev
        }
    }
}

/// The line shown for one stream of a group.
pub open spec fn media_label(s: StreamModel) -> Seq<char> {
    match s.media_name {
        Some(m) => m,
        None => "Untitled stream"@,
    }
}

/// Streams that share an app identity.
pub struct Group {
    pub title: String,
    pub binary: Option<String>,
    /// The icon name of the group's first stream, for the display layer to
    /// resolve against its icon theme.
    pub app_icon: Option<String>,
    /// Indices into the stream list.
    pub stream_idx: Vec<usize>,
    pub media_names: Vec<String>,
}

pub struct GroupModel {
    pub title: Seq<char>,
    pub binary: Option<Seq<char>>,
    pub app_icon: Option<Seq<char>>,
    pub stream_idx: Seq<usize>,
    pub media_names: Seq<Seq<char>>,
}

impl View for Group {
    type V = GroupModel;

    open spec fn view(&self) -> GroupModel {
        GroupModel {
            title: self.title@,
            binary: opt_view(self.binary),
            app_icon: opt_view(self.app_icon),
            stream_idx: self.stream_idx@,
            media_names: string_views(self.media_names@),
        }
    }
}

impl Group {
    pub fn duplicate(&self) -> (r: Group)
        ensures
            r@ == self@,
    {
        let mut media: Vec<String> = Vec::new();
        let mut i: usize = 0;
        while i < self.media_names.len()
            invariant
                i <= self.media_names@.len(),
                media@.len() == i,
                forall|j: int| 0 <= j < i ==> #[trigger] media@[j]@ == self.media_names@[j]@,
            decreases self.media_names@.len() - i,
        {
            media.push(self.media_names[i].clone());
            i = i + 1;
        }
        assert(string_views(media@) =~= string_views(self.media_names@));
        Group {
            title: self.title.clone(),
            binary: copy_opt(&self.binary),
            app_icon: copy_opt(&self.app_icon),
            stream_idx: self.stream_idx.clone(),
            media_names: media,
        }
    }
}

pub open spec fn group_views(v: Seq<Group>) -> Seq<GroupModel> {
    v.map_values(|g: Group| g@)
}

/// The group of the streams with identity `k`.
pub open spec fn group_for(streams: Seq<StreamModel>, k: Identity) -> GroupModel {
    let idx = members(streams, k, streams.len() as int);
    GroupModel {
        title: group_title_text(k.0, k.1),
        binary: k.1,
        app_icon: streams[idx[0] as int].app_icon,
        stream_idx: idx,
        media_names: idx.map_values(|i: usize| media_label(streams[i as int])),
    }
}

/// One group per identity, in order of first appearance.
pub open spec fn groups_in_order(streams: Seq<StreamModel>) -> Seq<GroupModel> {
    identities(streams, streams.len() as int).map_values(|k: Identity| group_for(streams, k))
}

/// The sort keys of the groups: their lowercased titles.
pub open spec fn group_keys(groups: Seq<GroupModel>) -> Seq<Seq<char>> {
    groups.map_values(|g: GroupModel| lowercase(g.title))
}

proof fn lemma_identities(streams: Seq<StreamModel>, n: int)
    requires
        0 <= n <= streams.len(),
        n <= usize::MAX,
    ensures
        identities(streams, n).no_duplicates(),
        forall|k: Identity| identities(streams, n).contains(k) <==> members(streams, k, n).len() > 0,
        forall|k: Identity| #[trigger] members(streams, k, n).len() > 0 ==> identity(streams[members(streams, k, n)[0] as int]) == k,
        forall|k: Identity, i: int| 0 <= i < members(streams, k, n).len() ==> #[trigger] members(streams, k, n)[i] < n,
    decreases n,
{
    if n > 0 {
        lemma_identities(streams, n - 1);
        let prev = identities(streams, n - 1);
        let key = identity(streams[n - 1]);
        assert forall|k: Identity| identities(streams, n).contains(k) <==> members(streams, k, n).len() > 0 by {
            if k == key {
                if !prev.contains(key) {
                    assert(identities(streams, n)[prev.len() as int] == key);
                }
            } else {
                if identities(streams, n).contains(k) && !prev.contains(key) {
                    let j = identities(streams, n).index_of(k);
                    assert(j < prev.len());
                    assert(prev[j] == k);
                }
                if prev.contains(k) && !prev.contains(key) {
                    assert(identities(streams, n)[prev.index_of(k)] == k);
                }
            }
        }
        assert forall|k: Identity| #[trigger] members(streams, k, n).len() > 0 implies identity(streams[members(streams, k, n)[0] as int]) == k by {
            if members(streams, k, n - 1).len() == 0 && k == key {
                assert(members(streams, k, n)[0] == (n - 1) as usize);
            } else if members(streams, k, n - 1).len() > 0 {
                assert(members(streams, k, n)[0] == members(streams, k, n - 1)[0]);
            }
        }
        assert forall|k: Identity, i: int| 0 <= i < members(streams, k, n).len() implies #[trigger] members(streams, k, n)[i] < n by {
            if i < members(streams, k, n - 1).len() {
                assert(members(streams, k, n)[i] == members(streams, k, n - 1)[i]);
            }
        }
    }
}

pub open spec fn identity_of(app: &Option<String>, bin: &Option<String>) -> Identity {
    (opt_view(*app), opt_view(*bin))
}

/// Groups the streams by app identity, sorted by title case-insensitively
/// (groups with equal titles keep the order in which they first appear).
pub fn build_groups(streams: &Vec<StreamInfo>) -> (r: Vec<Group>)
    ensures
        stably_sorted(
            group_views(r@),
            groups_in_order(stream_views(streams@)),
            group_keys(groups_in_order(stream_views(streams@))),
        ),
{
    let ghost ss = stream_views(streams@);
    let n = streams.len();
    let mut order: Vec<(Option<String>, Option<String>)> = Vec::new();
    let mut buckets: Vec<Vec<usize>> = Vec::new();
    let mut i: usize = 0;
    while i < n
        invariant
            n == streams@.len(),
            ss == stream_views(streams@),
            i <= n,
            order@.len() == buckets@.len(),
            order@.len() == identities(ss, i as int).len(),
            forall|p: int| 0 <= p < order@.len() ==> identity_of(&#[trigger] order@[p].0, &order@[p].1) == identities(ss, i as int)[p],
            forall|p: int| 0 <= p < buckets@.len() ==> #[trigger] buckets@[p]@ == members(ss, identities(ss, i as int)[p], i as int),
        decreases n - i,
    {
        proof {
            lemma_identities(ss, i as int);
        }
        let ghost key = identity(ss[i as int]);
        let s = &streams[i];
        assert(identity_of(&s.app_name, &s.binary) == key);
        let mut p: usize = 0;
        let mut found = false;
        while p < order.len() && !found
            invariant
                order@.len() == buckets@.len(),
                order@.len() == identities(ss, i as int).len(),
                forall|q: int| 0 <= q < order@.len() ==> identity_of(&#[trigger] order@[q].0, &order@[q].1) == identities(ss, i as int)[q],
                p <= order@.len(),
                key == identity_of(&s.app_name, &s.binary),
                found ==> p < order@.len() && identities(ss, i as int)[p as int] == key,
                !found ==> forall|q: int| 0 <= q < p ==> identities(ss, i as int)[q] != key,
            decreases order@.len() - p + (if found { 0int } else { 1int }),
        {
            if opt_eq(&order[p].0, &s.app_name) && opt_eq(&order[p].1, &s.binary) {
                found = true;
            } else {
                p = p + 1;
            }
        }
        let ghost prev_ids = identities(ss, i as int);
        let ghost old_buckets = buckets@;
        if found {
            let mut b = buckets.remove(p);
            b.push(i);
            buckets.insert(p, b);
            proof {
                assert(prev_ids.contains(key));
                assert(identities(ss, i + 1) == prev_ids);
                assert forall|q: int| 0 <= q < buckets@.len() implies #[trigger] buckets@[q]@ == members(ss, identities(ss, i + 1)[q], i + 1) by {
                    if q == p {
                    } else {
                        assert(buckets@[q] == old_buckets[q]);
                        assert(prev_ids[q] != key) by {
                            assert(prev_ids.no_duplicates());
                        }
                    }
                }
            }
        } else {
            order.push((copy_opt(&s.app_name), copy_opt(&s.binary)));
            let mut b: Vec<usize> = Vec::new();
            b.push(i);
            buckets.push(b);
            proof {
                assert(!prev_ids.contains(key)) by {
                    if prev_ids.contains(key) {
                        let q = prev_ids.index_of(key);
                    }
                }
                assert(identities(ss, i + 1) == prev_ids.push(key));
                assert(members(ss, key, i as int).len() == 0);
                assert(buckets@[prev_ids.len() as int]@ =~= members(ss, key, i + 1));
                assert forall|q: int| 0 <= q < buckets@.len() implies #[trigger] buckets@[q]@ == members(ss, identities(ss, i + 1)[q], i + 1) by {
                    if q < prev_ids.len() {
                        assert(buckets@[q] == old_buckets[q]);
                        assert(prev_ids[q] != key);
                    }
                }
                assert forall|q: int| 0 <= q < order@.len() implies identity_of(&#[trigger] order@[q].0, &order@[q].1) == identities(ss, i + 1)[q] by {
                }
            }
        }
        i = i + 1;
    }
    proof {
        lemma_identities(ss, n as int);
    }
    let ghost unsorted = groups_in_order(ss);
    let mut groups: Vec<Group> = Vec::new();
    let mut keys: Vec<Vec<char>> = Vec::new();
    let mut p: usize = 0;
    while p < order.len()
        invariant
            n == streams@.len(),
            ss == stream_views(streams@),
            unsorted == groups_in_order(ss),
            order@.len() == buckets@.len(),
            order@.len() == identities(ss, n as int).len(),
            forall|q: int| 0 <= q < order@.len() ==> identity_of(&#[trigger] order@[q].0, &order@[q].1) == identities(ss, n as int)[q],
            forall|q: int| 0 <= q < buckets@.len() ==> #[trigger] buckets@[q]@ == members(ss, identities(ss, n as int)[q], n as int),
            forall|k: Identity| identities(ss, n as int).contains(k) <==> members(ss, k, n as int).len() > 0,
            forall|k: Identity| #[trigger] members(ss, k, n as int).len() > 0 ==> identity(ss[members(ss, k, n as int)[0] as int]) == k,
            forall|k: Identity, j: int| 0 <= j < members(ss, k, n as int).len() ==> #[trigger] members(ss, k, n as int)[j] < n,
            p <= order@.len(),
            groups@.len() == p,
            keys@.len() == p,
            forall|q: int| 0 <= q < p ==> #[trigger] groups@[q]@ == unsorted[q],
            forall|q: int| 0 <= q < p ==> #[trigger] keys@[q]@ == lowercase(groups@[q].title@),
        decreases order@.len() - p,
    {
        let ghost k = identities(ss, n as int)[p as int];
        assert(identities(ss, n as int).contains(k));
        let idx = buckets[p].clone();
        assert(idx@ == members(ss, k, n as int));
        let title = group_title(&order[p].0, &order[p].1);
        let mut media: Vec<String> = Vec::new();
        let mut j: usize = 0;
        while j < idx.len()
            invariant
                n == streams@.len(),
                ss == stream_views(streams@),
                idx@ == members(ss, k, n as int),
                forall|m: int| 0 <= m < idx@.len() ==> #[trigger] idx@[m] < n,
                j <= idx@.len(),
                media@.len() == j,
                forall|m: int| 0 <= m < j ==> #[trigger] media@[m]@ == media_label(ss[idx@[m] as int]),
            decreases idx@.len() - j,
        {
            let st = &streams[idx[j]];
            let label = match &st.media_name {
                Some(m) => m.clone(),
                None => owned("Untitled stream"),
            };
            media.push(label);
            j = j + 1;
        }
        let icon = copy_opt(&streams[idx[0]].app_icon);
        let g = Group { title, binary: copy_opt(&order[p].1), app_icon: icon, stream_idx: idx, media_names: media };
        assert(string_views(g.media_names@) =~= g.stream_idx@.map_values(|i: usize| media_label(ss[i as int])));
        assert(g@ == group_for(ss, k));
        keys.push(chars_of(to_lowercase(g.title.as_str()).as_str()));
        groups.push(g);
        p = p + 1;
    }
    assert(group_views(groups@) =~= unsorted);
    assert(views(keys@) =~= group_keys(unsorted));
    let sorted_idx = stable_order(&keys);
    let mut out: Vec<Group> = Vec::new();
    let mut q: usize = 0;
    while q < sorted_idx.len()
        invariant
            group_views(groups@) == unsorted,
            is_stable_order(views(keys@), sorted_idx@),
            keys@.len() == groups@.len(),
            q <= sorted_idx@.len(),
            out@.len() == q,
            forall|m: int| 0 <= m < q ==> #[trigger] out@[m]@ == unsorted[sorted_idx@[m] as int],
        decreases sorted_idx@.len() - q,
    {
        assert(sorted_idx@[q as int] < keys@.len());
        out.push(groups[sorted_idx[q]].duplicate());
        q = q + 1;
    }
    assert(stably_sorted(group_views(out@), unsorted, group_keys(unsorted))) by {
        assert(is_stable_order(group_keys(unsorted), sorted_idx@));
        assert forall|m: int| 0 <= m < group_views(out@).len() implies group_views(out@)[m]
            == unsorted[#[trigger] sorted_idx@[m] as int] by {
            assert(out@[m]@ == unsorted[sorted_idx@[m] as int]);
        }
    }
    out
}


/// The stream indices of the checked groups among the first `n`, group by
/// group.
pub open spec fn selected_prefix(groups: Seq<GroupModel>, checked: Seq<bool>, n: int) -> Seq<usize>
    decreases n,
{
    if n <= 0 {
        seq![]
    } else if checked[n - 1] {
        selected_prefix(groups, checked, n - 1) + groups[n - 1].stream_idx
    } else {
        selected_prefix(groups, checked, n - 1)
    }
}

/// The stream indices of the checked groups, group by group.
pub open spec fn selected_indices_spec(groups: Seq<GroupModel>, checked: Seq<bool>) -> Seq<usize> {
    selected_prefix(groups, checked, groups.len() as int)
}

/// The streams of the checked groups, as indices into the stream list.
pub fn selected_streams(groups: &Vec<Group>, checked: &Vec<bool>) -> (r: Vec<usize>)
    requires
        checked@.len() == groups@.len(),
    ensures
        r@ == selected_indices_spec(group_views(groups@), checked@),
{
    let mut out: Vec<usize> = Vec::new();
    let mut i: usize = 0;
    while i < groups.len()
        invariant
            checked@.len() == groups@.len(),
            i <= groups@.len(),
            out@ == selected_prefix(group_views(groups@), checked@, i as int),
        decreases groups@.len() - i,
    {
        if checked[i] {
            let ghost before = out@;
            let idx = &groups[i].stream_idx;
            let mut j: usize = 0;
            while j < idx.len()
                invariant
                    j <= idx@.len(),
                    out@ == before + idx@.take(j as int),
                decreases idx@.len() - j,
            {
                out.push(idx[j]);
                j = j + 1;
                assert(out@ =~= before + idx@.take(j as int));
            }
            assert(idx@.take(idx@.len() as int) =~= idx@);
        }
        i = i + 1;
    }
    out
}

/// The titles of the checked groups among the first `n`, each once.
pub open spec fn selected_titles_prefix(groups: Seq<GroupModel>, checked: Seq<bool>, n: int) -> Seq<Seq<char>>
    decreases n,
{
    if n <= 0 {
        seq![]
    } else {
        let prev = selected_titles_prefix(groups, checked, n - 1);
        if checked[n - 1] && !prev.contains(groups[n - 1].title) {
            prev.push(groups[n - 1].title)
        } else {
            prev
        }
    }
}

/// The titles of the checked groups, each once, in group order.
pub fn selected_titles(groups: &Vec<Group>, checked: &Vec<bool>) -> (r: Vec<String>)
    requires
        checked@.len() == groups@.len(),
    ensures
        string_views(r@) == selected_titles_prefix(group_views(groups@), checked@, groups@.len() as int),
{
    let mut out: Vec<String> = Vec::new();
    let mut i: usize = 0;
    while i < groups.len()
        invariant
            checked@.len() == groups@.len(),
            i <= groups@.len(),
            string_views(out@) == selected_titles_prefix(group_views(groups@), checked@, i as int),
        decreases groups@.len() - i,
    {
        if checked[i] {
            let mut seen = false;
            let mut k: usize = 0;
            while k < out.len()
                invariant
                    i < groups@.len(),
                    k <= out@.len(),
                    seen == exists|j: int| 0 <= j < k && out@[j]@ == groups@[i as int].title@,
                decreases out@.len() - k,
            {
                if str_eq(out[k].as_str(), groups[i].title.as_str()) {
                    seen = true;
                }
                k = k + 1;
            }
            proof {
                let prev = selected_titles_prefix(group_views(groups@), checked@, i as int);
                if seen {
                    let j = choose|j: int| 0 <= j < out@.len() && out@[j]@ == groups@[i as int].title@;
                    assert(prev[j] == out@[j]@);
                } else {
                    assert forall|j: int| 0 <= j < prev.len() implies prev[j] != groups@[i as int].title@ by {
                        assert(prev[j] == out@[j]@);
                    }
                }
            }
            if !seen {
                out.push(groups[i].title.clone());
                assert(string_views(out@) =~= selected_titles_prefix(group_views(groups@), checked@, i + 1));
            }
        }
        i = i + 1;
    }
    out
}

/// The app names present among the streams at `idx`, in order.
pub open spec fn present_names(streams: Seq<StreamModel>, idx: Seq<usize>) -> Seq<Seq<char>>
    decreases idx.len(),
{
    if idx.len() == 0 {
        seq![]
    } else {
        let prev = present_names(streams, idx.drop_last());
        match streams[idx.last() as int].app_name {
            Some(a) => prev.push(a),
            None => prev,
        }
    }
}

/// The binaries present among the streams at `idx`, in order.
pub open spec fn present_binaries(streams: Seq<StreamModel>, idx: Seq<usize>) -> Seq<Seq<char>>
    decreases idx.len(),
{
    if idx.len() == 0 {
        seq![]
    } else {
        let prev = present_binaries(streams, idx.drop_last());
        match streams[idx.last() as int].binary {
            Some(b) => prev.push(b),
            None => prev,
        }
    }
}

/// The app names and the binaries present among the streams at `idx`.
pub fn selection_properties(streams: &Vec<StreamInfo>, idx: &Vec<usize>) -> (r: (Vec<String>, Vec<String>))
    requires
        forall|i: int| 0 <= i < idx@.len() ==> #[trigger] idx@[i] < streams@.len(),
    ensures
        string_views(r.0@) == present_names(stream_views(streams@), idx@),
        string_views(r.1@) == present_binaries(stream_views(streams@), idx@),
{
    let ghost ss = stream_views(streams@);
    let mut names: Vec<String> = Vec::new();
    let mut bins: Vec<String> = Vec::new();
    let mut i: usize = 0;
    while i < idx.len()
        invariant
            ss == stream_views(streams@),
            forall|k: int| 0 <= k < idx@.len() ==> #[trigger] idx@[k] < streams@.len(),
            i <= idx@.len(),
            string_views(names@) == present_names(ss, idx@.take(i as int)),
            string_views(bins@) == present_binaries(ss, idx@.take(i as int)),
        decreases idx@.len() - i,
    {
        assert(idx@.take(i + 1).drop_last() =~= idx@.take(i as int));
        assert(idx@.take(i + 1).last() == idx@[i as int]);
        let s = &streams[idx[i]];
        match &s.app_name {
            Some(a) => {
                names.push(a.clone());
            },
            None => {},
        }
        match &s.binary {
            Some(b) => {
                bins.push(b.clone());
            },
            None => {},
        }
        assert(string_views(names@) =~= present_names(ss, idx@.take(i + 1)));
        assert(string_views(bins@) =~= present_binaries(ss, idx@.take(i + 1)));
        i = i + 1;
    }
    assert(idx@.take(idx@.len() as int) =~= idx@);
    (names, bins)
}

/// The rule the picked names and binaries, the two switches, the name entry
/// and the chosen route would make, or None when that is no valid rule.
pub open spec fn rule_from_spec(
    names: Seq<Seq<char>>,
    bins: Seq<Seq<char>>,
    name_on: bool,
    bin_on: bool,
    name_text: Seq<char>,
    targets: Seq<crate::routing::TargetModel>,
    selected: u32,
) -> Option<crate::routing::RuleModel> {
    let app_names = if names.len() > 0 && name_on {
        names
    } else {
        seq![]
    };
    let binaries = if bins.len() > 0 && bin_on {
        bins
    } else {
        seq![]
    };
    if !shared_identity_spec(names, bins) {
        None
    } else if app_names.len() == 0 && binaries.len() == 0 {
        None
    } else if trim(name_text).len() == 0 {
        None
    } else if selected >= targets.len() {
        None
    } else {
        Some(
            crate::routing::RuleModel {
                display_name: trim(name_text),
                app_names,
                binaries,
                target: targets[selected as int],
                enabled: true,
            },
        )
    }
}

pub open spec fn route_target_models(options: Seq<RouteTarget>) -> Seq<crate::routing::TargetModel> {
    options.map_values(|o: RouteTarget| o.target@)
}

pub open spec fn opt_rule_view(r: Option<RoutingRule>) -> Option<crate::routing::RuleModel> {
    match r {
        Some(rule) => Some(rule@),
        None => None,
    }
}

fn copy_strings(v: &Vec<String>) -> (r: Vec<String>)
    ensures
        string_views(r@) == string_views(v@),
{
    let mut out: Vec<String> = Vec::new();
    let mut i: usize = 0;
    while i < v.len()
        invariant
            i <= v@.len(),
            out@.len() == i,
            forall|j: int| 0 <= j < i ==> #[trigger] out@[j]@ == v@[j]@,
        decreases v@.len() - i,
    {
        out.push(v[i].clone());
        i = i + 1;
    }
    assert(string_views(out@) =~= string_views(v@));
    out
}

fn copy_target(t: &RuleTarget) -> (r: RuleTarget)
    ensures
        r@ == t@,
{
    match t {
        RuleTarget::Aux => RuleTarget::Aux,
        RuleTarget::Main => RuleTarget::Main,
        RuleTarget::DirectHw(n) => RuleTarget::DirectHw(n.clone()),
    }
}

/// The rule the current selection and controls produce, or None when it
/// would not be valid.
pub fn rule_from(
    names: &Vec<String>,
    bins: &Vec<String>,
    name_on: bool,
    bin_on: bool,
    name_text: &str,
    route_options: &Vec<RouteTarget>,
    selected: u32,
) -> (r: Option<RoutingRule>)
    ensures
        opt_rule_view(r) == rule_from_spec(
            string_views(names@),
            string_views(bins@),
            name_on,
            bin_on,
            name_text@,
            route_target_models(route_options@),
            selected,
        ),
{
    if !shared_identity(names, bins) {
        return None;
    }
    let match_app_names = if !names.is_empty() && name_on {
        copy_strings(names)
    } else {
        Vec::new()
    };
    let match_binaries = if !bins.is_empty() && bin_on {
        copy_strings(bins)
    } else {
        Vec::new()
    };
    assert(match_app_names@.len() == 0 ==> string_views(match_app_names@) =~= Seq::<Seq<char>>::empty());
    assert(match_binaries@.len() == 0 ==> string_views(match_binaries@) =~= Seq::<Seq<char>>::empty());
    if match_app_names.is_empty() && match_binaries.is_empty() {
        return None;
    }
    let v = chars_of(name_text);
    let start = skip_ws(&v, 0);
    let end = skip_ws_back(&v, v.len());
    proof {
        assert(v@.skip(0) =~= v@);
        assert(v@.take(v@.len() as int) =~= v@);
        lemma_trim_window(v@, start as int, end as int);
    }
    if start >= end {
        return None;
    }
    let display_name = string_of_range(&v, start, end);
    if (selected as usize) >= route_options.len() {
        return None;
    }
    let target = copy_target(&route_options[selected as usize].target);
    Some(RoutingRule { display_name, match_app_names, match_binaries, target, enabled: true })
}

/// The stream follows the rule whenever it carries every property the rule
/// constrains.
pub open spec fn identified_follows(rule: RoutingRule, s: StreamInfo) -> bool {
    (rule.match_app_names@.len() == 0 || s.app_name is Some) && (rule.match_binaries@.len() == 0
        || s.binary is Some) ==> rule_matches(rule, s)
}

/// Each picked stream that carries the constrained properties follows the
/// rule.
pub open spec fn picked_streams_follow(rule: RoutingRule, streams: Seq<StreamInfo>, idx: Seq<usize>) -> bool {
    forall|i: int| 0 <= i < idx.len() ==> identified_follows(rule, streams[#[trigger] idx[i] as int])
}

/// The rule made from the checked groups and the controls.
pub fn provisional_rule(
    streams: &Vec<StreamInfo>,
    groups: &Vec<Group>,
    checked: &Vec<bool>,
    name_on: bool,
    bin_on: bool,
    name_text: &str,
    route_options: &Vec<RouteTarget>,
    selected: u32,
) -> (r: Option<RoutingRule>)
    requires
        checked@.len() == groups@.len(),
        forall|g: int, i: int|
            0 <= g < groups@.len() && 0 <= i < groups@[g].stream_idx@.len() ==> #[trigger] groups@[g].stream_idx@[i] < streams@.len(),
    ensures
        ({
            let idx = selected_indices_spec(group_views(groups@), checked@);
            let ss = stream_views(streams@);
            opt_rule_view(r) == rule_from_spec(
                distinct_seq(present_names(ss, idx)),
                distinct_seq(present_binaries(ss, idx)),
                name_on,
                bin_on,
                name_text@,
                route_target_models(route_options@),
                selected,
            )
        }),
        // every picked stream that carries the constrained properties
        // follows the rule
        r matches Some(rule) ==> picked_streams_follow(
            rule,
            streams@,
            selected_indices_spec(group_views(groups@), checked@),
        ),
{
    let idx = selected_streams(groups, checked);
    proof {
        lemma_selected_in_range(group_views(groups@), checked@, groups@.len() as int, streams@.len());
    }
    let (names_all, bins_all) = selection_properties(streams, &idx);
    let names = distinct(&names_all);
    let bins = distinct(&bins_all);
    let r = rule_from(&names, &bins, name_on, bin_on, name_text, route_options, selected);
    proof {
        let ss = stream_views(streams@);
        distinct_contents(string_views(names_all@));
        distinct_contents(string_views(bins_all@));
        if r is Some {
            let rule = r->0;
            assert forall|i: int| 0 <= i < idx@.len() implies identified_follows(
                rule,
                streams@[#[trigger] idx@[i] as int],
            ) by {
                let s = streams@[idx@[i] as int];
                assert(ss[idx@[i] as int] == s@);
                lemma_present(ss, idx@, i);
                if rule.match_app_names@.len() > 0 && s.app_name is Some {
                    let a = s.app_name->0@;
                    assert(string_views(names_all@).contains(a));
                    assert(string_views(rule.match_app_names@) == string_views(names@));
                }
                if rule.match_binaries@.len() > 0 && s.binary is Some {
                    let b = s.binary->0@;
                    assert(string_views(bins_all@).contains(b));
                    assert(string_views(rule.match_binaries@) == string_views(bins@));
                }
            }
        }
    }
    r
}

proof fn lemma_selected_in_range(groups: Seq<GroupModel>, checked: Seq<bool>, n: int, len: nat)
    requires
        0 <= n <= groups.len(),
        checked.len() == groups.len(),
        forall|g: int, i: int| 0 <= g < groups.len() && 0 <= i < groups[g].stream_idx.len() ==> #[trigger] groups[g].stream_idx[i] < len,
    ensures
        forall|i: int| 0 <= i < selected_prefix(groups, checked, n).len() ==> #[trigger] selected_prefix(groups, checked, n)[i] < len,
    decreases n,
{
    if n > 0 {
        lemma_selected_in_range(groups, checked, n - 1, len);
        let prev = selected_prefix(groups, checked, n - 1);
        if checked[n - 1] {
            assert forall|i: int| 0 <= i < selected_prefix(groups, checked, n).len() implies #[trigger] selected_prefix(groups, checked, n)[i] < len by {
                if i >= prev.len() {
                    assert(selected_prefix(groups, checked, n)[i] == groups[n - 1].stream_idx[i - prev.len()]);
                }
            }
        }
    }
}

proof fn lemma_present(streams: Seq<StreamModel>, idx: Seq<usize>, i: int)
    requires
        0 <= i < idx.len(),
    ensures
        streams[idx[i] as int].app_name matches Some(a) ==> present_names(streams, idx).contains(a),
        streams[idx[i] as int].binary matches Some(b) ==> present_binaries(streams, idx).contains(b),
    decreases idx.len(),
{
    let prev = idx.drop_last();
    if i < idx.len() - 1 {
        lemma_present(streams, prev, i);
        assert(prev[i] == idx[i]);
        if let Some(a) = streams[idx[i] as int].app_name {
            let k = present_names(streams, prev).index_of(a);
            assert(present_names(streams, idx)[k] == a);
        }
        if let Some(b) = streams[idx[i] as int].binary {
            let k = present_binaries(streams, prev).index_of(b);
            assert(present_binaries(streams, idx)[k] == b);
        }
    } else {
        if let Some(a) = streams[idx[i] as int].app_name {
            assert(present_names(streams, idx).last() == a);
        }
        if let Some(b) = streams[idx[i] as int].binary {
            assert(present_binaries(streams, idx).last() == b);
        }
    }
}


/// The values of a field, comma separated.
pub open spec fn field_summary_text(values: Seq<Seq<char>>) -> Seq<char> {
    join(values, ", "@)
}

/// The values of a matched field: none, one, or all of them comma separated.
pub fn field_summary(values: &Vec<String>) -> (r: String)
    ensures
        r@ == field_summary_text(string_views(values@)),
{
    join_strings(values, ", ")
}

/// The clause that a field adds to the rule sentence.
pub open spec fn clause_text(field: Seq<char>, values: Seq<Seq<char>>) -> Option<Seq<char>> {
    if values.len() == 0 {
        None
    } else if values.len() == 1 {
        Some(field + " is "@ + values[0])
    } else {
        Some(field + " is one of "@ + decimal(values.len()))
    }
}

pub fn clause(field: &str, values: &Vec<String>) -> (r: Option<String>)
    ensures
        crate::util::opt_string_view(r) == clause_text(field@, string_views(values@)),
{
    if values.len() == 0 {
        None
    } else if values.len() == 1 {
        let mut s = owned(field);
        push_str(&mut s, " is ");
        push_str(&mut s, values[0].as_str());
        Some(s)
    } else {
        let mut s = owned(field);
        push_str(&mut s, " is one of ");
        push_decimal(&mut s, values.len() as u64);
        Some(s)
    }
}

/// The sentence that describes what the rule matches.
pub open spec fn sentence_text(
    names: Seq<Seq<char>>,
    bins: Seq<Seq<char>>,
    name_on: bool,
    bin_on: bool,
) -> Seq<char> {
    let name_clause = if name_on {
        clause_text("name"@, names)
    } else {
        None
    };
    let bin_clause = if bin_on {
        clause_text("binary"@, bins)
    } else {
        None
    };
    match (name_clause, bin_clause) {
        (None, None) => "Turn on a property below to match anything"@,
        (Some(a), None) => "Matches every stream where "@ + a,
        (None, Some(b)) => "Matches every stream where "@ + b,
        (Some(a), Some(b)) => "Matches every stream where "@ + a + " and "@ + b,
    }
}

pub fn sentence(names: &Vec<String>, bins: &Vec<String>, name_on: bool, bin_on: bool) -> (r: String)
    ensures
        r@ == sentence_text(string_views(names@), string_views(bins@), name_on, bin_on),
{
    let name_clause = if name_on {
        clause("name", names)
    } else {
        None
    };
    let bin_clause = if bin_on {
        clause("binary", bins)
    } else {
        None
    };
    match (name_clause, bin_clause) {
        (None, None) => owned("Turn on a property below to match anything"),
        (Some(a), None) => {
            let mut s = owned("Matches every stream where ");
            push_str(&mut s, a.as_str());
            s
        },
        (None, Some(b)) => {
            let mut s = owned("Matches every stream where ");
            push_str(&mut s, b.as_str());
            s
        },
        (Some(a), Some(b)) => {
            let mut s = owned("Matches every stream where ");
            push_str(&mut s, a.as_str());
            push_str(&mut s, " and ");
            push_str(&mut s, b.as_str());
            s
        },
    }
}

/// The subtitle of a field row: its values while matched, else what turning
/// it off means.
pub open spec fn field_subtitle_text(values: Seq<Seq<char>>, on: bool, field: Seq<char>) -> Seq<char> {
    if on {
        field_summary_text(values)
    } else {
        "Off — matches any "@ + field
    }
}

pub fn field_subtitle(values: &Vec<String>, on: bool, field: &str) -> (r: String)
    ensures
        r@ == field_subtitle_text(string_views(values@), on, field@),
{
    if on {
        field_summary(values)
    } else {
        let mut s = owned("Off — matches any ");
        push_str(&mut s, field);
        s
    }
}

/// The warning shown when the picked apps share no identity.
pub open spec fn no_identity_text(titles: Seq<Seq<char>>) -> Seq<char> {
    let apps = if titles.len() == 2 {
        titles[0] + " and "@ + titles[1]
    } else {
        join(titles, ", "@)
    };
    apps + " share neither a name nor a binary. A rule targets one app identity. Add them as separate rules."@
}

pub fn no_identity_message(titles: &Vec<String>) -> (r: String)
    ensures
        r@ == no_identity_text(string_views(titles@)),
{
    let mut s = if titles.len() == 2 {
        let mut a = titles[0].clone();
        push_str(&mut a, " and ");
        push_str(&mut a, titles[1].as_str());
        a
    } else {
        join_strings(titles, ", ")
    };
    push_str(&mut s, " share neither a name nor a binary. A rule targets one app identity. Add them as separate rules.");
    s
}

/// The subtitle of a group: its binary, if any, and how many streams.
pub open spec fn group_subtitle_text(g: GroupModel) -> Seq<char> {
    let count = stream_count_text(g.stream_idx.len());
    match g.binary {
        Some(bin) => bin + " · "@ + count,
        None => count,
    }
}

pub fn group_subtitle(group: &Group) -> (r: String)
    ensures
        r@ == group_subtitle_text(group@),
{
    let count = stream_count(group.stream_idx.len());
    match &group.binary {
        Some(bin) => {
            let mut s = bin.clone();
            push_str(&mut s, " · ");
            push_str(&mut s, count.as_str());
            s
        },
        None => count,
    }
}

/// The binary and the media name of a stream, whichever are present.
pub open spec fn preview_subtitle_text(s: StreamModel) -> Seq<char> {
    match (s.binary, s.media_name) {
        (Some(b), Some(m)) => b + " · "@ + m,
        (Some(b), None) => b,
        (None, Some(m)) => m,
        (None, None) => seq![],
    }
}

pub fn preview_subtitle(info: &StreamInfo) -> (r: String)
    ensures
        r@ == preview_subtitle_text(info@),
{
    match (&info.binary, &info.media_name) {
        (Some(b), Some(m)) => {
            let mut s = b.clone();
            push_str(&mut s, " · ");
            push_str(&mut s, m.as_str());
            s
        },
        (Some(b), None) => b.clone(),
        (None, Some(m)) => m.clone(),
        (None, None) => String::new(),
    }
}

/// The title of a preview row: the app name, else the binary.
pub open spec fn preview_title_text(s: StreamModel) -> Seq<char> {
    match s.app_name {
        Some(a) => a,
        None => match s.binary {
            Some(b) => b,
            None => seq![],
        },
    }
}

pub fn preview_title(info: &StreamInfo) -> (r: String)
    ensures
        r@ == preview_title_text(info@),
{
    match &info.app_name {
        Some(a) => a.clone(),
        None => match &info.binary {
            Some(b) => b.clone(),
            None => String::new(),
        },
    }
}

/// The text of an optional property, empty when missing.
pub open spec fn text_or_empty(o: Option<Seq<char>>) -> Seq<char> {
    match o {
        Some(s) => s,
        None => seq![],
    }
}

/// The sort key of a stream in the picker: lowercased app name, binary,
/// media name.
pub open spec fn stream_sort_key_spec(s: StreamModel) -> Seq<Seq<char>> {
    seq![lowercase(text_or_empty(s.app_name)), text_or_empty(s.binary), text_or_empty(s.media_name)]
}

fn text_of(o: &Option<String>) -> (r: String)
    ensures
        r@ == text_or_empty(opt_view(*o)),
{
    match o {
        Some(s) => s.clone(),
        None => String::new(),
    }
}

pub fn stream_sort_key(info: &StreamInfo) -> (r: (String, String, String))
    ensures
        seq![r.0@, r.1@, r.2@] == stream_sort_key_spec(info@),
{
    (to_lowercase(text_of(&info.app_name).as_str()), text_of(&info.binary), text_of(&info.media_name))
}

pub open spec fn stream_keys(v: Seq<StreamModel>) -> Seq<Seq<Seq<char>>> {
    v.map_values(|s: StreamModel| stream_sort_key_spec(s))
}

/// The live streams in picker order: a stable sort by the stream sort key.
pub fn sort_streams(streams: Vec<StreamInfo>) -> (r: Vec<StreamInfo>)
    ensures
        stably_sorted_by_tuples(
            stream_views(r@),
            stream_views(streams@),
            stream_keys(stream_views(streams@)),
        ),
{
    let ghost ss = stream_views(streams@);
    let mut keys: Vec<Vec<Vec<char>>> = Vec::new();
    let mut i: usize = 0;
    while i < streams.len()
        invariant
            ss == stream_views(streams@),
            i <= streams@.len(),
            keys@.len() == i,
            forall|j: int| 0 <= j < i ==> #[trigger] views(keys@[j]@) == stream_sort_key_spec(ss[j]),
            forall|j: int| 0 <= j < i ==> (#[trigger] keys@[j])@.len() == 3,
        decreases streams@.len() - i,
    {
        let (a, b, c) = stream_sort_key(&streams[i]);
        let mut key: Vec<Vec<char>> = Vec::new();
        key.push(chars_of(a.as_str()));
        key.push(chars_of(b.as_str()));
        key.push(chars_of(c.as_str()));
        assert(views(key@) =~= seq![a@, b@, c@]);
        keys.push(key);
        i = i + 1;
    }
    assert(tuple_views(keys@) =~= stream_keys(ss));
    let order = stable_tuple_order(&keys);
    let mut out: Vec<StreamInfo> = Vec::new();
    let mut q: usize = 0;
    while q < order.len()
        invariant
            ss == stream_views(streams@),
            is_stable_tuple_order(tuple_views(keys@), order@),
            keys@.len() == streams@.len(),
            q <= order@.len(),
            out@.len() == q,
            forall|m: int| 0 <= m < q ==> #[trigger] out@[m]@ == ss[order@[m] as int],
        decreases order@.len() - q,
    {
        assert(order@[q as int] < keys@.len());
        out.push(streams[order[q]].duplicate());
        q = q + 1;
    }
    assert(stably_sorted_by_tuples(stream_views(out@), ss, stream_keys(ss))) by {
        assert(is_stable_tuple_order(stream_keys(ss), order@));
        assert forall|m: int| 0 <= m < stream_views(out@).len() implies stream_views(out@)[m]
            == ss[#[trigger] order@[m] as int] by {
            assert(out@[m]@ == ss[order@[m] as int]);
        }
    }
    out
}

/// The name suggested for a selection: the app name of a single stream
/// (else its presentable binary), or the app name every picked stream
/// shares; empty otherwise.
pub open spec fn suggested_name_text(selected: Seq<StreamModel>) -> Seq<char> {
    if selected.len() == 0 {
        seq![]
    } else if selected.len() == 1 {
        match (selected[0].app_name, selected[0].binary) {
            (Some(name), _) => name,
            (None, Some(bin)) => presentable_binary(bin),
            (None, None) => seq![],
        }
    } else if selected[0].app_name is Some && forall|i: int|
        0 <= i < selected.len() ==> #[trigger] selected[i].app_name == selected[0].app_name {
        selected[0].app_name->0
    } else {
        seq![]
    }
}

/// Smart default name for the selection, preferring the app name.
pub fn suggested_display_name(selected: &Vec<StreamInfo>) -> (r: String)
    ensures
        r@ == suggested_name_text(stream_views(selected@)),
{
    let ghost ss = stream_views(selected@);
    if selected.len() == 0 {
        return String::new();
    }
    if selected.len() == 1 {
        assert(ss[0] == selected@[0]@);
        return match (&selected[0].app_name, &selected[0].binary) {
            (Some(name), _) => name.clone(),
            (None, Some(bin)) => strip_binary_suffix(bin.as_str()),
            (None, None) => String::new(),
        };
    }
    let first = match &selected[0].app_name {
        Some(n) => n,
        None => {
            assert(ss[0] == selected@[0]@);
            return String::new();
        },
    };
    let mut i: usize = 0;
    while i < selected.len()
        invariant
            ss == stream_views(selected@),
            selected@.len() >= 2,
            ss[0].app_name == Some(first@),
            i <= selected@.len(),
            forall|j: int| 0 <= j < i ==> #[trigger] ss[j].app_name == ss[0].app_name,
        decreases selected@.len() - i,
    {
        assert(ss[i as int] == selected@[i as int]@);
        match &selected[i].app_name {
            Some(n) => {
                if !str_eq(n.as_str(), first.as_str()) {
                    assert(ss[i as int].app_name != ss[0].app_name);
                    return String::new();
                }
            },
            None => {
                assert(ss[i as int].app_name != ss[0].app_name);
                return String::new();
            },
        }
        i = i + 1;
    }
    first.clone()
}

/// Which streams the rule matches, and how many.
pub open spec fn preview_hits(rule: Option<RoutingRule>, streams: Seq<StreamInfo>) -> Seq<bool> {
    streams.map_values(|s: StreamInfo| rule matches Some(r) && rule_matches(r, s))
}

/// Number of `true` among the first `n`.
pub open spec fn count_true(v: Seq<bool>, n: int) -> nat
    decreases n,
{
    if n <= 0 {
        0
    } else {
        count_true(v, n - 1) + if v[n - 1] {
            1nat
        } else {
            0nat
        }
    }
}

/// The caption of the preview: how many live streams the rule matches.
pub open spec fn preview_caption_text(matched: nat, total: nat) -> Seq<char> {
    decimal(matched) + " of "@ + decimal(total) + " streams playing right now match this rule"@
}

/// For each live stream whether the rule matches it, and the caption.
pub fn preview(rule: &Option<RoutingRule>, streams: &Vec<StreamInfo>) -> (r: (Vec<bool>, String))
    ensures
        r.0@ == preview_hits(*rule, streams@),
        r.1@ == preview_caption_text(
            count_true(preview_hits(*rule, streams@), streams@.len() as int),
            streams@.len() as nat,
        ),
{
    let mut hits: Vec<bool> = Vec::new();
    let mut matched: usize = 0;
    let mut i: usize = 0;
    while i < streams.len()
        invariant
            i <= streams@.len(),
            hits@ == preview_hits(*rule, streams@).take(i as int),
            matched == count_true(preview_hits(*rule, streams@), i as int),
            matched <= i,
        decreases streams@.len() - i,
    {
        let hit = match rule {
            Some(r) => r.matches(&streams[i]),
            None => false,
        };
        hits.push(hit);
        if hit {
            matched = matched + 1;
        }
        i = i + 1;
        assert(hits@ =~= preview_hits(*rule, streams@).take(i as int));
    }
    assert(hits@ =~= preview_hits(*rule, streams@));
    let mut caption = decimal_string(matched as u64);
    push_str(&mut caption, " of ");
    push_decimal(&mut caption, streams.len() as u64);
    push_str(&mut caption, " streams playing right now match this rule");
    (hits, caption)
}

/// Group `g` holds a stream whose node id is among `ids`.
pub open spec fn group_preselected(group: Group, streams: Seq<StreamInfo>, ids: Seq<u32>) -> bool {
    exists|j: int| 0 <= j < group.stream_idx@.len() && ids.contains(streams[#[trigger] group.stream_idx@[j] as int].node_id)
}

/// Which groups start checked when the dialog opens on given streams: those
/// holding one of them.
pub fn preselected_groups(groups: &Vec<Group>, streams: &Vec<StreamInfo>, ids: &Vec<u32>) -> (r: Vec<bool>)
    requires
        forall|g: int, i: int|
            0 <= g < groups@.len() && 0 <= i < groups@[g].stream_idx@.len() ==> #[trigger] groups@[g].stream_idx@[i] < streams@.len(),
    ensures
        r@.len() == groups@.len(),
        forall|g: int| 0 <= g < groups@.len() ==> r@[g] == group_preselected(#[trigger] groups@[g], streams@, ids@),
{
    let mut out: Vec<bool> = Vec::new();
    let mut g: usize = 0;
    while g < groups.len()
        invariant
            g <= groups@.len(),
            out@.len() == g,
            forall|gg: int, i: int|
                0 <= gg < groups@.len() && 0 <= i < groups@[gg].stream_idx@.len() ==> #[trigger] groups@[gg].stream_idx@[i] < streams@.len(),
            forall|gg: int| 0 <= gg < g ==> out@[gg] == group_preselected(#[trigger] groups@[gg], streams@, ids@),
        decreases groups@.len() - g,
    {
        let group = &groups[g];
        let mut hit = false;
        let mut j: usize = 0;
        while j < group.stream_idx.len() && !hit
            invariant
                j <= group.stream_idx@.len(),
                *group == groups@[g as int],
                forall|i: int| 0 <= i < group.stream_idx@.len() ==> #[trigger] group.stream_idx@[i] < streams@.len(),
                hit ==> group_preselected(*group, streams@, ids@),
                !hit ==> forall|jj: int| 0 <= jj < j ==> !ids@.contains(streams@[#[trigger] group.stream_idx@[jj] as int].node_id),
            decreases group.stream_idx@.len() - j,
        {
            let id = streams[group.stream_idx[j]].node_id;
            let mut k: usize = 0;
            while k < ids.len() && !hit
                invariant
                    k <= ids@.len(),
                    j < group.stream_idx@.len(),
                    id == streams@[group.stream_idx@[j as int] as int].node_id,
                    hit ==> ids@.contains(id),
                    !hit ==> forall|kk: int| 0 <= kk < k ==> ids@[kk] != id,
                decreases ids@.len() - k,
            {
                if ids[k] == id {
                    hit = true;
                    assert(ids@[k as int] == id);
                }
                k = k + 1;
            }
            proof {
                if hit {
                    assert(ids@.contains(streams@[group.stream_idx@[j as int] as int].node_id));
                }
            }
            j = j + 1;
        }
        out.push(hit);
        g = g + 1;
    }
    out
}

} // verus!
