//! The PipeWire conf fragments that create the virtual devices: the Aux and
//! Main loopback sinks and the virtual surround filter chain.

use vstd::prelude::*;
use crate::config::{side_wire, Side, SinkConfig, SinkDef};
use crate::text::{
    chars_of, contains, decimal, decimal_string, ends_with, occurs_at, owned, push_str, replace_all, replace_text,
    starts_with, string_of,
};

verus! {

pub const AUX_SINK: &'static str = "dashboard_aux";

pub const MAIN_SINK: &'static str = "dashboard_main";

pub const AUX_PB: &'static str = "dashboard_aux_pb";

pub const MAIN_PB: &'static str = "dashboard_main_pb";

pub const SURROUND_SINK: &'static str = "dashboard_surround";

/// `base` joined with the relative path `rel`, as `Path::join` does: a
/// separator goes between them unless `base` is empty or already ends in one.
pub open spec fn path_join(base: Seq<char>, rel: Seq<char>) -> Seq<char> {
    if base.len() > 0 && base.last() != '/' {
        base + "/"@ + rel
    } else {
        base + rel
    }
}

/// `Path::join` with a relative path.
pub fn join_path(base: &str, rel: &str) -> (r: String)
    ensures
        r@ == path_join(base@, rel@),
{
    let b = chars_of(base);
    let mut out = owned(base);
    if b.len() > 0 && b[b.len() - 1] != '/' {
        push_str(&mut out, "/");
    }
    push_str(&mut out, rel);
    out
}

/// The drop-in directory of PipeWire confs under `home`.
pub open spec fn config_dir_spec(home: Seq<char>) -> Seq<char> {
    path_join(home, ".config/pipewire/pipewire.conf.d"@)
}

/// The drop-in directory of PipeWire confs under the home directory `home`.
pub fn config_dir(home: &str) -> (r: String)
    ensures
        r@ == config_dir_spec(home@),
{
    join_path(home, ".config/pipewire/pipewire.conf.d")
}

/// The conf of the Aux and Main sinks under the home directory `home`.
pub fn config_file(home: &str) -> (r: String)
    ensures
        r@ == path_join(config_dir_spec(home@), "10-dashboard.conf"@),
{
    let dir = config_dir(home);
    join_path(dir.as_str(), "10-dashboard.conf")
}

/// The conf of the virtual surround, separate from the Aux and Main one.
pub fn surround_config_file(home: &str) -> (r: String)
    ensures
        r@ == path_join(config_dir_spec(home@), "10-dashboard-surround.conf"@),
{
    let dir = config_dir(home);
    join_path(dir.as_str(), "10-dashboard-surround.conf")
}

/// Where imported HRIR files are kept under the home directory `home`.
pub fn hrir_dir(home: &str) -> (r: String)
    ensures
        r@ == path_join(home@, ".config/pipewire/hrir"@),
{
    join_path(home, ".config/pipewire/hrir")
}

/// Where an HRIR file named `file_name` lands once imported.
pub fn imported_hrir_path(home: &str, file_name: &str) -> (r: String)
    ensures
        r@ == path_join(path_join(home@, ".config/pipewire/hrir"@), file_name@),
{
    let dir = hrir_dir(home);
    join_path(dir.as_str(), file_name)
}

/// Node names and description of one side's loopback.
pub open spec fn side_names(side: Side) -> (Seq<char>, Seq<char>, Seq<char>) {
    match side {
        Side::Aux => (AUX_SINK@, AUX_PB@, "Dashboard - Aux"@),
        Side::Main => (MAIN_SINK@, MAIN_PB@, "Dashboard - Main"@),
    }
}

/// The capture node name, playback node name and description of a side.
pub fn side_spec(side: Side) -> (r: (&'static str, &'static str, &'static str))
    ensures
        (r.0@, r.1@, r.2@) == side_names(side),
{
    match side {
        Side::Aux => (AUX_SINK, AUX_PB, "Dashboard - Aux"),
        Side::Main => (MAIN_SINK, MAIN_PB, "Dashboard - Main"),
    }
}

/// The `target.object` line of a playback node, or nothing for the default
/// output.
pub open spec fn target_fragment_text(hw_name: Seq<char>) -> Seq<char> {
    if hw_name.len() == 0 {
        seq![]
    } else {
        "\n        target.object  = \""@ + hw_name + "\""@
    }
}

/// The `target.object` line of a playback node; empty routes to the default.
pub fn target_fragment(hw_name: &str) -> (r: String)
    ensures
        r@ == target_fragment_text(hw_name@),
{
    if hw_name.is_empty() {
        String::new()
    } else {
        let mut out = owned("\n        target.object  = \"");
        push_str(&mut out, hw_name);
        push_str(&mut out, "\"");
        out
    }
}

/// The capture and playback props of a loopback, from its parts.
pub open spec fn loopback_text(
    name: Seq<char>,
    pb_name: Seq<char>,
    desc: Seq<char>,
    channels: Seq<char>,
    position: Seq<char>,
    restore: Seq<char>,
    role: Seq<char>,
    target: Seq<char>,
) -> Seq<char> {
    "      capture.props = {\n        node.name        = "@ + name + "\n        node.description = \""@ + desc + "\"\n        media.class      = Audio/Sink\n        audio.channels   = "@ + channels + "\n        audio.position   = \"[ "@ + position + " ]\"\n        node.virtual     = true"@ + restore + "\n        bridge.role  = "@ + role + "\n      }\n      playback.props = {\n        node.name           = "@ + pb_name + "\n        audio.channels      = "@ + channels + "\n        audio.position      = \"[ "@ + position + " ]\"\n        node.dont-fallback  = true\n        node.linger         = true\n        bridge.pb-role  = "@ + role + target + "\n      }"@
}

/// The line that keeps a session-only sink from restoring stale volume.
pub open spec fn restore_text(temp: bool) -> Seq<char> {
    if temp {
        "\n        state.restore-props = false"@
    } else {
        seq![]
    }
}

/// The capture and playback props of one side's loopback.
pub open spec fn loopback_body_text(side: Side, def: SinkDef, temp: bool) -> Seq<char> {
    let (name, pb_name, desc) = side_names(side);
    loopback_text(
        name,
        pb_name,
        desc,
        decimal(def.channels as nat),
        replace_all(def.position@, ","@, " "@),
        restore_text(temp),
        side_wire(side),
        target_fragment_text(def.hw_name@),
    )
}

/// The capture and playback props of one side, shared by the persistent
/// conf and the in-process module args so the two cannot drift. Temporary
/// sinks do not restore their props, so a recreated sink keeps the volume
/// and mute state of the controls.
pub fn loopback_body(side: Side, def: &SinkDef, temp: bool) -> (r: String)
    ensures
        r@ == loopback_body_text(side, *def, temp),
{
    let (name, pb_name, desc) = side_spec(side);
    let role = side.as_wire();
    let channels = decimal_string(def.channels as u64);
    let comma = chars_of(",");
    let space = chars_of(" ");
    proof {
        reveal_strlit(",");
    }
    let position = string_of(&replace_text(&chars_of(def.position.as_str()), &comma, &space));
    let target = target_fragment(def.hw_name.as_str());
    let restore = if temp {
        owned("\n        state.restore-props = false")
    } else {
        String::new()
    };
    let mut out = String::new();
    push_str(&mut out, "      capture.props = {\n        node.name        = ");
    push_str(&mut out, name);
    push_str(&mut out, "\n        node.description = \"");
    push_str(&mut out, desc);
    push_str(&mut out, "\"\n        media.class      = Audio/Sink\n        audio.channels   = ");
    push_str(&mut out, channels.as_str());
    push_str(&mut out, "\n        audio.position   = \"[ ");
    push_str(&mut out, position.as_str());
    push_str(&mut out, " ]\"\n        node.virtual     = true");
    push_str(&mut out, restore.as_str());
    push_str(&mut out, "\n        bridge.role  = ");
    push_str(&mut out, role);
    push_str(&mut out, "\n      }\n      playback.props = {\n        node.name           = ");
    push_str(&mut out, pb_name);
    push_str(&mut out, "\n        audio.channels      = ");
    push_str(&mut out, channels.as_str());
    push_str(&mut out, "\n        audio.position      = \"[ ");
    push_str(&mut out, position.as_str());
    push_str(&mut out, " ]\"\n        node.dont-fallback  = true\n        node.linger         = true\n        bridge.pb-role  = ");
    push_str(&mut out, role);
    push_str(&mut out, target.as_str());
    push_str(&mut out, "\n      }");
    out
}

/// The module arguments that load one side's loopback in process.
pub fn loopback_module_args(side: Side, def: &SinkDef) -> (r: String)
    ensures
        r@ == "{\n"@ + loopback_body_text(side, *def, true) + "\n}"@,
{
    let mut out = owned("{\n");
    let body = loopback_body(side, def, true);
    push_str(&mut out, body.as_str());
    push_str(&mut out, "\n}");
    out
}

/// The persistent conf of the Aux and Main loopbacks.
pub open spec fn pw_config_text(cfg: SinkConfig) -> Seq<char> {
    let aux_body = loopback_body_text(Side::Aux, cfg.aux, false);
    let main_body = loopback_body_text(Side::Main, cfg.main, false);
    "context.modules = [\n  {\n    name = libpipewire-module-loopback\n    args = {\n"@ + aux_body + "\n    }\n  }\n  {\n    name = libpipewire-module-loopback\n    args = {\n"@ + main_body + "\n    }\n  }\n]\n"@
}

/// Our Main and Aux loopback sinks, each routed to its hardware output or,
/// without one, to the PipeWire default.
pub fn build_pw_config(cfg: &SinkConfig) -> (r: String)
    ensures
        r@ == pw_config_text(*cfg),
{
    let aux_body = loopback_body(Side::Aux, &cfg.aux, false);
    let main_body = loopback_body(Side::Main, &cfg.main, false);
    let mut out = String::new();
    push_str(&mut out, "context.modules = [\n  {\n    name = libpipewire-module-loopback\n    args = {\n");
    push_str(&mut out, aux_body.as_str());
    push_str(&mut out, "\n    }\n  }\n  {\n    name = libpipewire-module-loopback\n    args = {\n");
    push_str(&mut out, main_body.as_str());
    push_str(&mut out, "\n    }\n  }\n]\n");
    out
}

proof fn lemma_occurs_between(a: Seq<char>, t: Seq<char>, b: Seq<char>)
    ensures
        occurs_at(a + t + b, t, a.len() as int),
        contains(a + t + b, t),
{
    assert((a + t + b).subrange(a.len() as int, (a.len() + t.len()) as int) =~= t);
}

/// The sink node name of a side.
pub open spec fn sink_name(side: Side) -> Seq<char> {
    match side {
        Side::Aux => AUX_SINK@,
        Side::Main => MAIN_SINK@,
    }
}

/// The persistent conf builds the Aux loopback from `cfg.aux` and the Main
/// loopback from `cfg.main`, Aux first.
pub proof fn conf_builds_each_side_from_its_own_def(cfg: SinkConfig)
    ensures
        contains(pw_config_text(cfg), loopback_body_text(Side::Aux, cfg.aux, false)),
        contains(pw_config_text(cfg), loopback_body_text(Side::Main, cfg.main, false)),
        exists|i: int, j: int|
            i < j && occurs_at(pw_config_text(cfg), loopback_body_text(Side::Aux, cfg.aux, false), i) && occurs_at(
                pw_config_text(cfg),
                loopback_body_text(Side::Main, cfg.main, false),
                j,
            ),
{
    let aux = loopback_body_text(Side::Aux, cfg.aux, false);
    let main = loopback_body_text(Side::Main, cfg.main, false);
    let h = "context.modules = [\n  {\n    name = libpipewire-module-loopback\n    args = {\n"@;
    let m = "\n    }\n  }\n  {\n    name = libpipewire-module-loopback\n    args = {\n"@;
    let e = "\n    }\n  }\n]\n"@;
    assert(pw_config_text(cfg) =~= h + aux + (m + main + e));
    lemma_occurs_between(h, aux, m + main + e);
    assert(pw_config_text(cfg) =~= (h + aux + m) + main + e);
    lemma_occurs_between(h + aux + m, main, e);
    assert(occurs_at(pw_config_text(cfg), aux, h.len() as int));
    assert(occurs_at(pw_config_text(cfg), main, (h + aux + m).len() as int));
}

proof fn lemma_ends_with_concat(a: Seq<char>, t: Seq<char>)
    ensures
        ends_with(a + t, t),
{
    assert((a + t).skip((a + t).len() - t.len()) =~= t);
}

proof fn lemma_loopback_text_parts(
    name: Seq<char>,
    pb_name: Seq<char>,
    desc: Seq<char>,
    channels: Seq<char>,
    position: Seq<char>,
    restore: Seq<char>,
    role: Seq<char>,
    target: Seq<char>,
)
    ensures
        ({
            let body = loopback_text(name, pb_name, desc, channels, position, restore, role, target);
            &&& starts_with(body, "      capture.props = {\n        node.name        = "@ + name)
            &&& contains(
                body,
                "\"\n        media.class      = Audio/Sink\n        audio.channels   = "@ + channels
                    + "\n        audio.position   = \"[ "@,
            )
            &&& contains(body, "\n        audio.channels      = "@ + channels + "\n        audio.position      = \"[ "@)
            &&& ends_with(
                body,
                " ]\"\n        node.dont-fallback  = true\n        node.linger         = true\n        bridge.pb-role  = "@
                    + role + target + "\n      }"@,
            )
        }),
{
    let body = loopback_text(name, pb_name, desc, channels, position, restore, role, target);
    let head = "      capture.props = {\n        node.name        = "@ + name;
    let a1 = head + "\n        node.description = \""@ + desc;
    let cap_ch = "\"\n        media.class      = Audio/Sink\n        audio.channels   = "@ + channels
        + "\n        audio.position   = \"[ "@;
    let b1 = position + " ]\"\n        node.virtual     = true"@ + restore + "\n        bridge.role  = "@ + role
        + "\n      }\n      playback.props = {\n        node.name           = "@ + pb_name;
    let pb_ch = "\n        audio.channels      = "@ + channels + "\n        audio.position      = \"[ "@;
    let tail = " ]\"\n        node.dont-fallback  = true\n        node.linger         = true\n        bridge.pb-role  = "@
        + role + target + "\n      }"@;
    let b2 = position + tail;
    assert(body =~= a1 + cap_ch + b1 + pb_ch + b2);
    assert(body.take(head.len() as int) =~= head);
    assert(body =~= a1 + cap_ch + (b1 + pb_ch + b2));
    lemma_occurs_between(a1, cap_ch, b1 + pb_ch + b2);
    assert(body =~= (a1 + cap_ch + b1) + pb_ch + b2);
    lemma_occurs_between(a1 + cap_ch + b1, pb_ch, b2);
    assert(body =~= (a1 + cap_ch + b1 + pb_ch + position) + tail);
    lemma_ends_with_concat(a1 + cap_ch + b1 + pb_ch + position, tail);
}

/// A side's loopback: its capture node is the side's own sink, both nodes
/// carry the definition's channel count, and the playback node targets the
/// definition's hardware output, or, when it names none, ends with its role
/// and no target, and so plays to the default output.
pub proof fn loopback_body_carries_def(side: Side, def: SinkDef, temp: bool)
    ensures
        starts_with(
            loopback_body_text(side, def, temp),
            "      capture.props = {\n        node.name        = "@ + sink_name(side),
        ),
        contains(
            loopback_body_text(side, def, temp),
            "\"\n        media.class      = Audio/Sink\n        audio.channels   = "@ + decimal(def.channels as nat)
                + "\n        audio.position   = \"[ "@,
        ),
        contains(
            loopback_body_text(side, def, temp),
            "\n        audio.channels      = "@ + decimal(def.channels as nat) + "\n        audio.position      = \"[ "@,
        ),
        def.hw_name@.len() > 0 ==> ends_with(
            loopback_body_text(side, def, temp),
            "\n        target.object  = \""@ + def.hw_name@ + "\""@ + "\n      }"@,
        ),
        def.hw_name@.len() == 0 ==> ends_with(
            loopback_body_text(side, def, temp),
            " ]\"\n        node.dont-fallback  = true\n        node.linger         = true\n        bridge.pb-role  = "@
                + side_wire(side) + "\n      }"@,
        ),
{
    let (name, pb_name, desc) = side_names(side);
    let channels = decimal(def.channels as nat);
    let position = replace_all(def.position@, ","@, " "@);
    let restore = restore_text(temp);
    let role = side_wire(side);
    let target = target_fragment_text(def.hw_name@);
    lemma_loopback_text_parts(name, pb_name, desc, channels, position, restore, role, target);
    let body = loopback_body_text(side, def, temp);
    let lit = " ]\"\n        node.dont-fallback  = true\n        node.linger         = true\n        bridge.pb-role  = "@;
    let tail = lit + role + target + "\n      }"@;
    if def.hw_name@.len() > 0 {
        let t = "\n        target.object  = \""@ + def.hw_name@ + "\""@ + "\n      }"@;
        assert(tail =~= (lit + role) + t);
        lemma_ends_with_concat(lit + role, t);
        assert(body.skip(body.len() - tail.len()) == tail);
        assert(body.skip(body.len() - t.len()) =~= tail.skip(tail.len() - t.len()));
    } else {
        assert(tail =~= lit + role + "\n      }"@);
    }
}

/// The conf file that setup would write, with its content, for previewing.
pub fn preview_files(cfg: &SinkConfig, home: &str) -> (r: Vec<(String, String)>)
    ensures
        r@.len() == 1,
        r@[0].0@ == path_join(config_dir_spec(home@), "10-dashboard.conf"@),
        r@[0].1@ == pw_config_text(*cfg),
{
    let mut files: Vec<(String, String)> = Vec::new();
    files.push((config_file(home), build_pw_config(cfg)));
    files
}

/// HeSuVi 14-channel WAV to stereo HRTF convolver graph.
pub const SURROUND_TEMPLATE: &'static str = r#"context.modules = [
  {
    name = libpipewire-module-filter-chain
    flags = [ nofail ]
    args = {
      node.description = "Dashboard - Virtual Surround"
      media.name       = "Dashboard - Virtual Surround"
      filter.graph = {
        nodes = [
          { type = builtin label = copy name = copyFL  }
          { type = builtin label = copy name = copyFR  }
          { type = builtin label = copy name = copyFC  }
          { type = builtin label = copy name = copyRL  }
          { type = builtin label = copy name = copyRR  }
          { type = builtin label = copy name = copySL  }
          { type = builtin label = copy name = copySR  }
          { type = builtin label = copy name = copyLFE }

          { type = builtin label = convolver name = convFL_L  config = { filename = "{hrir}" channel =  0 } }
          { type = builtin label = convolver name = convFL_R  config = { filename = "{hrir}" channel =  1 } }
          { type = builtin label = convolver name = convSL_L  config = { filename = "{hrir}" channel =  2 } }
          { type = builtin label = convolver name = convSL_R  config = { filename = "{hrir}" channel =  3 } }
          { type = builtin label = convolver name = convRL_L  config = { filename = "{hrir}" channel =  4 } }
          { type = builtin label = convolver name = convRL_R  config = { filename = "{hrir}" channel =  5 } }
          { type = builtin label = convolver name = convFC_L  config = { filename = "{hrir}" channel =  6 } }
          { type = builtin label = convolver name = convFR_R  config = { filename = "{hrir}" channel =  7 } }
          { type = builtin label = convolver name = convFR_L  config = { filename = "{hrir}" channel =  8 } }
          { type = builtin label = convolver name = convSR_R  config = { filename = "{hrir}" channel =  9 } }
          { type = builtin label = convolver name = convSR_L  config = { filename = "{hrir}" channel = 10 } }
          { type = builtin label = convolver name = convRR_R  config = { filename = "{hrir}" channel = 11 } }
          { type = builtin label = convolver name = convRR_L  config = { filename = "{hrir}" channel = 12 } }
          { type = builtin label = convolver name = convFC_R  config = { filename = "{hrir}" channel = 13 } }

          { type = builtin label = convolver name = convLFE_L config = { filename = "{hrir}" channel =  6 } }
          { type = builtin label = convolver name = convLFE_R config = { filename = "{hrir}" channel = 13 } }

          { type = builtin label = mixer name = mixL }
          { type = builtin label = mixer name = mixR }
        ]
        links = [
          { output = "copyFL:Out"  input="convFL_L:In"  }
          { output = "copyFL:Out"  input="convFL_R:In"  }
          { output = "copySL:Out"  input="convSL_L:In"  }
          { output = "copySL:Out"  input="convSL_R:In"  }
          { output = "copyRL:Out"  input="convRL_L:In"  }
          { output = "copyRL:Out"  input="convRL_R:In"  }
          { output = "copyFC:Out"  input="convFC_L:In"  }
          { output = "copyFR:Out"  input="convFR_R:In"  }
          { output = "copyFR:Out"  input="convFR_L:In"  }
          { output = "copySR:Out"  input="convSR_R:In"  }
          { output = "copySR:Out"  input="convSR_L:In"  }
          { output = "copyRR:Out"  input="convRR_R:In"  }
          { output = "copyRR:Out"  input="convRR_L:In"  }
          { output = "copyFC:Out"  input="convFC_R:In"  }
          { output = "copyLFE:Out" input="convLFE_L:In" }
          { output = "copyLFE:Out" input="convLFE_R:In" }

          { output = "convFL_L:Out"  input="mixL:In 1" }
          { output = "convFL_R:Out"  input="mixR:In 1" }
          { output = "convSL_L:Out"  input="mixL:In 2" }
          { output = "convSL_R:Out"  input="mixR:In 2" }
          { output = "convRL_L:Out"  input="mixL:In 3" }
          { output = "convRL_R:Out"  input="mixR:In 3" }
          { output = "convFC_L:Out"  input="mixL:In 4" }
          { output = "convFC_R:Out"  input="mixR:In 4" }
          { output = "convFR_R:Out"  input="mixR:In 5" }
          { output = "convFR_L:Out"  input="mixL:In 5" }
          { output = "convSR_R:Out"  input="mixR:In 6" }
          { output = "convSR_L:Out"  input="mixL:In 6" }
          { output = "convRR_R:Out"  input="mixR:In 7" }
          { output = "convRR_L:Out"  input="mixL:In 7" }
          { output = "convLFE_R:Out" input="mixR:In 8" }
          { output = "convLFE_L:Out" input="mixL:In 8" }
        ]
        inputs  = [ "copyFL:In" "copyFR:In" "copyFC:In" "copyLFE:In" "copyRL:In" "copyRR:In" "copySL:In" "copySR:In" ]
        outputs = [ "mixL:Out" "mixR:Out" ]
      }
      capture.props = {
        node.name        = dashboard_surround
        node.description = "Dashboard - Virtual Surround"
        media.class      = Audio/Sink
        audio.channels   = 8
        audio.position   = "[ FL FR FC LFE RL RR SL SR ]"
        node.virtual     = true
        bridge.role  = surround
      }
      playback.props = {
        node.name           = dashboard_surround_pb
        audio.channels      = 2
        audio.position      = "[ FL FR ]"
        node.dont-fallback  = true
        node.linger         = true
        bridge.pb-role  = surround{hw_target}
      }
    }
  }
]
"#;

/// The `target.object` line of the surround playback node.
pub open spec fn surround_target_text(hw_name: Seq<char>) -> Seq<char> {
    if hw_name.len() == 0 {
        seq![]
    } else {
        "\n        target.object       = \""@ + hw_name + "\""@
    }
}

/// The surround conf: the template with the HRIR path and the output
/// filled in, in that order.
pub open spec fn surround_config_text(hrir_path: Seq<char>, hw_name: Seq<char>) -> Seq<char> {
    replace_all(
        replace_all(SURROUND_TEMPLATE@, "{hrir}"@, hrir_path),
        "{hw_target}"@,
        surround_target_text(hw_name),
    )
}

/// The virtual surround filter chain for an HRIR file, played to `hw_name`
/// or, when that is empty, to the default output.
pub fn build_surround_pw_config(hrir_path: &str, hw_name: &str) -> (r: String)
    ensures
        r@ == surround_config_text(hrir_path@, hw_name@),
{
    let hw_target = if hw_name.is_empty() {
        String::new()
    } else {
        let mut t = owned("\n        target.object       = \"");
        push_str(&mut t, hw_name);
        push_str(&mut t, "\"");
        t
    };
    let hrir_key = chars_of("{hrir}");
    let target_key = chars_of("{hw_target}");
    proof {
        reveal_strlit("{hrir}");
        reveal_strlit("{hw_target}");
    }
    let filled = replace_text(&chars_of(SURROUND_TEMPLATE), &hrir_key, &chars_of(hrir_path));
    let done = replace_text(&filled, &target_key, &chars_of(hw_target.as_str()));
    string_of(&done)
}

/// The surround conf file, with its content, for previewing.
pub fn surround_preview_files(hrir_path: &str, hw_name: &str, home: &str) -> (r: Vec<(String, String)>)
    ensures
        r@.len() == 1,
        r@[0].0@ == path_join(config_dir_spec(home@), "10-dashboard-surround.conf"@),
        r@[0].1@ == surround_config_text(hrir_path@, hw_name@),
{
    let mut files: Vec<(String, String)> = Vec::new();
    files.push((surround_config_file(home), build_surround_pw_config(hrir_path, hw_name)));
    files
}

} // verus!
