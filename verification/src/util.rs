//! Small pieces shared by the windows and dialogs: the route choices, the
//! stream count text, and the parsers for values PipeWire and the portal
//! hand back.

use vstd::prelude::*;
use crate::hw_sink::HwSink;
use crate::routing::{RuleTarget, TargetModel};
use crate::text::{after_last_ws, chars_of, decimal, decimal_string, find_char, find_char_from, find_seq, find_text, is_whitespace, owned, push_str, skip_ws, skip_ws_back, string_of_range, trim};

verus! {

/// A place a stream can be routed to, with its label.
pub struct RouteTarget {
    pub label: String,
    pub target: RuleTarget,
}

/// The route choices: Aux, Main, then each hardware output by its name.
pub fn route_targets(hw_sinks: &Vec<HwSink>) -> (r: Vec<RouteTarget>)
    ensures
        r@.len() == hw_sinks@.len() + 2,
        r@[0].label@ == "Aux"@ && r@[0].target@ == TargetModel::Aux,
        r@[1].label@ == "Main"@ && r@[1].target@ == TargetModel::Main,
        forall|i: int|
            0 <= i < hw_sinks@.len() ==> (#[trigger] r@[i + 2]).label@ == hw_sinks@[i].display_name@
                && r@[i + 2].target@ == TargetModel::DirectHw(hw_sinks@[i].name@),
{
    let mut out: Vec<RouteTarget> = Vec::new();
    out.push(RouteTarget { label: owned("Aux"), target: RuleTarget::Aux });
    out.push(RouteTarget { label: owned("Main"), target: RuleTarget::Main });
    let mut i: usize = 0;
    while i < hw_sinks.len()
        invariant
            i <= hw_sinks@.len(),
            out@.len() == i + 2,
            out@[0].label@ == "Aux"@ && out@[0].target@ == TargetModel::Aux,
            out@[1].label@ == "Main"@ && out@[1].target@ == TargetModel::Main,
            forall|j: int|
                0 <= j < i ==> (#[trigger] out@[j + 2]).label@ == hw_sinks@[j].display_name@
                    && out@[j + 2].target@ == TargetModel::DirectHw(hw_sinks@[j].name@),
        decreases hw_sinks@.len() - i,
    {
        let sink = &hw_sinks[i];
        out.push(
            RouteTarget {
                label: sink.display_name.clone(),
                target: RuleTarget::DirectHw(sink.name.clone()),
            },
        );
        i = i + 1;
    }
    out
}

/// "No streams", "1 stream", or "{n} streams".
pub open spec fn stream_count_text(n: nat) -> Seq<char> {
    if n == 0 {
        "No streams"@
    } else if n == 1 {
        "1 stream"@
    } else {
        decimal(n) + " streams"@
    }
}

/// How many streams, in words.
pub fn stream_count(n: usize) -> (r: String)
    ensures
        r@ == stream_count_text(n as nat),
{
    match n {
        0 => owned("No streams"),
        1 => owned("1 stream"),
        _ => {
            let mut s = decimal_string(n as u64);
            push_str(&mut s, " streams");
            s
        },
    }
}

/// The quoted text after the first `"name"` key and the colon that follows
/// it.
pub open spec fn default_name_of(value: Seq<char>) -> Option<Seq<char>> {
    match find_seq(value, "\"name\""@) {
        None => None,
        Some(k) => {
            let after_key = value.skip(k + 6);
            match find_char(after_key, ':') {
                None => None,
                Some(c) => {
                    let after_colon = after_key.skip(c + 1);
                    match find_char(after_colon, '"') {
                        None => None,
                        Some(o) => {
                            let rest = after_colon.skip(o + 1);
                            match find_char(rest, '"') {
                                None => None,
                                Some(close) => Some(rest.take(close)),
                            }
                        },
                    }
                },
            }
        },
    }
}

pub open spec fn opt_string_view(r: Option<String>) -> Option<Seq<char>> {
    match r {
        Some(s) => Some(s@),
        None => None,
    }
}

/// The `default.audio.sink` metadata value is SPA-JSON like
/// `{ "name": "<node.name>" }`, not a bare string: pull the name out before
/// comparing it to our sink names.
pub fn parse_default_name(value: &str) -> (r: Option<String>)
    ensures
        opt_string_view(r) == default_name_of(value@),
{
    let v = chars_of(value);
    let key = chars_of("\"name\"");
    proof {
        reveal_strlit("\"name\"");
        crate::text::lemma_find_seq_found(v@, key@);
    }
    let k = match find_text(&v, &key) {
        Some(k) => k,
        None => {
            return None;
        },
    };
    let after_key = k + 6;
    assert(v@.skip(after_key as int) == value@.skip(k + 6));
    let c = match find_char_from(&v, after_key, ':') {
        Some(c) => c,
        None => {
            return None;
        },
    };
    let after_colon = c + 1;
    assert(v@.skip(after_key as int).skip((c - after_key) + 1) =~= v@.skip(after_colon as int));
    let o = match find_char_from(&v, after_colon, '"') {
        Some(o) => o,
        None => {
            return None;
        },
    };
    let start = o + 1;
    assert(v@.skip(after_colon as int).skip((o - after_colon) + 1) =~= v@.skip(start as int));
    let close = match find_char_from(&v, start, '"') {
        Some(close) => close,
        None => {
            return None;
        },
    };
    let name = string_of_range(&v, start, close);
    assert(name@ =~= v@.skip(start as int).take(close - start));
    Some(name)
}

/// The accelerator in a trigger description such as
/// "Press <Shift><Control>Left": from the first `<` on, or else the last word.
pub open spec fn accelerator_text(desc: Seq<char>) -> Seq<char> {
    let d = trim(desc);
    if d.len() == 0 {
        seq![]
    } else {
        match find_char(d, '<') {
            Some(i) => d.skip(i),
            None => after_last_ws(d),
        }
    }
}

/// GlobalShortcuts on GNOME replies with a trigger description such as
/// "Press <Shift><Control>Left"; drop the leading verb.
pub fn accelerator_from_trigger_description(desc: &str) -> (r: String)
    ensures
        r@ == accelerator_text(desc@),
{
    let v = chars_of(desc);
    let start = skip_ws(&v, 0);
    assert(v@.skip(0) =~= v@);
    let end = skip_ws_back(&v, v.len());
    assert(v@.take(v@.len() as int) =~= v@);
    let ghost d = trim(v@);
    proof {
        crate::text::lemma_trim_window(v@, start as int, end as int);
    }
    if start >= end {
        return String::new();
    }
    assert(d == v@.subrange(start as int, end as int));
    match find_char_from(&v, start, '<') {
        Some(i) => {
            proof {
                crate::text::lemma_find_char(v@.skip(start as int), '<');
                if i >= end {
                    assert(crate::text::is_ws(v@[i as int]));
                }
                assert forall|k: int| 0 <= k < i - start implies d[k] != '<' by {
                    assert(d[k] == v@.skip(start as int)[k]);
                }
                crate::text::lemma_find_char_unique(d, '<', i - start);
            }
            assert(d.skip(i - start) =~= v@.subrange(i as int, end as int));
            return string_of_range(&v, i, end);
        },
        None => {
            proof {
                crate::text::lemma_find_char(v@.skip(start as int), '<');
                crate::text::lemma_find_char(d, '<');
                if let Some(k) = find_char(d, '<') {
                    assert(d[k] == v@.skip(start as int)[k]);
                }
            }
        },
    }
    assert(find_char(d, '<') is None);
    assert(v@.subrange(end as int, end as int) =~= seq![]);
    assert(after_last_ws(d) =~= after_last_ws(v@.subrange(start as int, end as int)) + v@.subrange(
        end as int,
        end as int,
    ));
    let mut j = end;
    while j > start && !is_whitespace(v[j - 1])
        invariant
            start <= j <= end <= v@.len(),
            d == v@.subrange(start as int, end as int),
            after_last_ws(d) == after_last_ws(v@.subrange(start as int, j as int)) + v@.subrange(
                j as int,
                end as int,
            ),
        decreases j,
    {
        let ghost w = v@.subrange(start as int, j as int);
        assert(w.drop_last() =~= v@.subrange(start as int, j - 1));
        assert(w.last() == v@[j - 1]);
        assert(v@.subrange(j - 1, end as int) =~= seq![v@[j - 1]] + v@.subrange(j as int, end as int));
        assert(after_last_ws(w) == after_last_ws(w.drop_last()).push(w.last()));
        assert(after_last_ws(w.drop_last()).push(w.last()) + v@.subrange(j as int, end as int)
            =~= after_last_ws(w.drop_last()) + v@.subrange(j - 1, end as int));
        j = j - 1;
    }
    proof {
        let w = v@.subrange(start as int, j as int);
        if j > start {
            assert(w.last() == v@[j - 1]);
        } else {
            assert(w.len() == 0);
        }
        assert(after_last_ws(w) =~= seq![]);
    }
    string_of_range(&v, j, end)
}

} // verus!
