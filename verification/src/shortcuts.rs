//! The GlobalShortcuts portal handshake: create a session, list the
//! shortcuts it already holds, bind ours when it holds none, and retry with
//! a growing back-off before giving up. The D-Bus calls, the signal
//! subscriptions and the timers belong to the application; it feeds each
//! reply and timeout to [`PortalState::step`] and performs the actions.

use vstd::prelude::*;
use crate::text::{
    chars_of, decimal, owned, push_decimal, push_str, replace_all, replace_text, str_eq,
    string_of,
};

verus! {

/// The handshake gives up after this many attempts.
pub const MAX_HANDSHAKE_ATTEMPTS: u32 = 4;

/// The portal's response code for a request the user cancelled.
pub const RESPONSE_CANCELLED: u32 = 1;

/// Seconds the application waits for a handshake before it times out.
pub const HANDSHAKE_TIMEOUT_SECS: u64 = 5;

/// Our shortcuts: id, description, preferred trigger.
pub fn shortcuts() -> (r: [(&'static str, &'static str, &'static str); 4])
    ensures
        r@.len() == 4,
        r@[0].0@ == "step-left"@ && r@[0].1@ == "Step Towards Aux"@ && r@[0].2@
            == "CTRL+SHIFT+Left"@,
        r@[1].0@ == "step-right"@ && r@[1].1@ == "Step Towards Main"@ && r@[1].2@
            == "CTRL+SHIFT+Right"@,
        r@[2].0@ == "reset"@ && r@[2].1@ == "Reset Balance"@ && r@[2].2@ == "CTRL+SHIFT+Down"@,
        r@[3].0@ == "quick-switch-outputs"@ && r@[3].1@ == "Switch Output Preset"@ && r@[3].2@
            == "CTRL+SHIFT+p"@,
{
    [
        ("step-left", "Step Towards Aux", "CTRL+SHIFT+Left"),
        ("step-right", "Step Towards Main", "CTRL+SHIFT+Right"),
        ("reset", "Reset Balance", "CTRL+SHIFT+Down"),
        ("quick-switch-outputs", "Switch Output Preset", "CTRL+SHIFT+p"),
    ]
}

pub open spec fn triple_views(v: Seq<(String, String, String)>) -> Seq<
    (Seq<char>, Seq<char>, Seq<char>),
> {
    v.map_values(|t: (String, String, String)| (t.0@, t.1@, t.2@))
}

/// Our shortcuts as the settings list shows them before the portal has
/// assigned triggers: id, description, and an empty trigger.
pub fn untriggered_shortcuts() -> (r: Vec<(String, String, String)>)
    ensures
        triple_views(r@) == seq![
            ("step-left"@, "Step Towards Aux"@, Seq::<char>::empty()),
            ("step-right"@, "Step Towards Main"@, Seq::<char>::empty()),
            ("reset"@, "Reset Balance"@, Seq::<char>::empty()),
            ("quick-switch-outputs"@, "Switch Output Preset"@, Seq::<char>::empty()),
        ],
{
    let table = shortcuts();
    let mut r: Vec<(String, String, String)> = Vec::new();
    let mut i: usize = 0;
    while i < 4
        invariant
            i <= 4,
            table@.len() == 4,
            triple_views(r@) == Seq::new(
                i as nat,
                |j: int| (table@[j].0@, table@[j].1@, Seq::<char>::empty()),
            ),
        decreases 4 - i,
    {
        let (id, desc, _) = table[i];
        let ghost pre = r@;
        r.push((owned(id), owned(desc), String::new()));
        proof {
            assert(triple_views(r@) =~= Seq::new(
                (i + 1) as nat,
                |j: int| (table@[j].0@, table@[j].1@, Seq::<char>::empty()),
            )) by {
                assert(triple_views(pre).len() == pre.len());
                assert forall|j: int| 0 <= j < i + 1 implies #[trigger] triple_views(r@)[j] == (
                    table@[j].0@,
                    table@[j].1@,
                    Seq::<char>::empty(),
                ) by {
                    if j < i {
                        assert(r@[j] == pre[j]);
                        assert(triple_views(pre)[j] == (
                            table@[j].0@,
                            table@[j].1@,
                            Seq::<char>::empty(),
                        ));
                    }
                }
            }
        }
        i = i + 1;
    }
    r
}

/// The shortcut list to show: what the portal listed, or ours without
/// triggers when it gave nothing.
pub fn listed_or_untriggered(list: Option<Vec<(String, String, String)>>) -> (r: Vec<
    (String, String, String),
>)
    ensures
        match list {
            Some(l) => r@ == l@,
            None => triple_views(r@) == seq![
                ("step-left"@, "Step Towards Aux"@, Seq::<char>::empty()),
                ("step-right"@, "Step Towards Main"@, Seq::<char>::empty()),
                ("reset"@, "Reset Balance"@, Seq::<char>::empty()),
                ("quick-switch-outputs"@, "Switch Output Preset"@, Seq::<char>::empty()),
            ],
        },
{
    match list {
        Some(l) => l,
        None => untriggered_shortcuts(),
    }
}

/// `s` without its leading `c` characters.
pub open spec fn trim_leading(s: Seq<char>, c: char) -> Seq<char>
    decreases s.len(),
{
    if s.len() > 0 && s[0] == c {
        trim_leading(s.drop_first(), c)
    } else {
        s
    }
}

/// The sender part of the portal's request paths: the connection's unique
/// bus name without its leading `:`, dots turned to underscores.
pub open spec fn sender_text(unique_name: Option<Seq<char>>) -> Seq<char> {
    let name = match unique_name {
        Some(n) => n,
        None => Seq::empty(),
    };
    replace_all(trim_leading(name, ':'), "."@, "_"@)
}

/// The sender part of the portal's request paths for a connection with
/// this unique name.
pub fn sender_from_name(unique_name: Option<&str>) -> (r: String)
    ensures
        r@ == sender_text(
            match unique_name {
                Some(n) => Some(n@),
                None => None,
            },
        ),
{
    let v = match unique_name {
        Some(n) => chars_of(n),
        None => Vec::new(),
    };
    let mut i: usize = 0;
    assert(v@.skip(0) =~= v@);
    while i < v.len() && v[i] == ':'
        invariant
            i <= v@.len(),
            trim_leading(v@, ':') == trim_leading(v@.skip(i as int), ':'),
        decreases v@.len() - i,
    {
        assert(v@.skip(i as int).drop_first() =~= v@.skip(i + 1));
        i = i + 1;
    }
    let mut rest: Vec<char> = Vec::new();
    let mut j: usize = i;
    while j < v.len()
        invariant
            i <= j <= v@.len(),
            rest@ == v@.subrange(i as int, j as int),
        decreases v@.len() - j,
    {
        rest.push(v[j]);
        assert(v@.subrange(i as int, j + 1) =~= v@.subrange(i as int, j as int).push(v@[j as int]));
        j = j + 1;
    }
    assert(rest@ =~= v@.skip(i as int));
    assert(trim_leading(v@.skip(i as int), ':') == v@.skip(i as int)) by {
        if v@.skip(i as int).len() > 0 {
            assert(v@.skip(i as int)[0] == v@[i as int]);
        }
    }
    let dot = chars_of(".");
    let underscore = chars_of("_");
    proof {
        reveal_strlit(".");
    }
    let replaced = replace_text(&rest, &dot, &underscore);
    string_of(&replaced)
}

pub open spec fn request_path_text(sender: Seq<char>, token: Seq<char>) -> Seq<char> {
    "/org/freedesktop/portal/desktop/request/"@ + sender + "/"@ + token
}

/// The object path of the portal request that `token` names.
pub fn request_path(sender: &str, token: &str) -> (r: String)
    ensures
        r@ == request_path_text(sender@, token@),
{
    let mut s = owned("/org/freedesktop/portal/desktop/request/");
    push_str(&mut s, sender);
    push_str(&mut s, "/");
    push_str(&mut s, token);
    s
}

/// A request token: a prefix, then the attempt number.
pub open spec fn token_text(prefix: Seq<char>, attempt: u32) -> Seq<char> {
    prefix + decimal(attempt as nat)
}

fn token(prefix: &str, attempt: u32) -> (r: String)
    ensures
        r@ == token_text(prefix@, attempt),
{
    let mut s = owned(prefix);
    push_decimal(&mut s, attempt as u64);
    s
}

/// Two to the `n`.
pub open spec fn doubling(n: nat) -> nat
    decreases n,
{
    if n == 0 {
        1
    } else {
        2 * doubling((n - 1) as nat)
    }
}

/// The back-off before attempt `next`: one second, doubled for each retry
/// before it.
pub open spec fn backoff_secs(next: u32) -> nat {
    doubling((next - 1) as nat)
}

fn backoff(next: u32) -> (r: u64)
    requires
        1 <= next < MAX_HANDSHAKE_ATTEMPTS,
    ensures
        r == backoff_secs(next),
{
    proof {
        reveal_with_fuel(doubling, 3);
    }
    if next == 1 {
        1
    } else if next == 2 {
        2
    } else {
        4
    }
}

/// Which portal request a response subscription listens for.
#[derive(Copy, Clone, Debug, PartialEq, Eq, Structural)]
pub enum RequestKind {
    CreateSession,
    BindShortcuts,
}

/// What the application does for the handshake.
pub enum PortalAction {
    /// Drop the response subscriptions of the current attempt.
    DropSubscriptions,
    /// Close the portal session; `wait` when the application is quitting.
    CloseSession { session: String, wait: bool },
    /// Listen for the Response of the request `token` names.
    Subscribe { kind: RequestKind, token: String },
    CreateSession { handle_token: String, session_handle_token: String },
    /// Report a HandshakeTimeout after the handshake timeout.
    StartHandshakeTimer { generation: u64, attempt: u32 },
    /// Report a RetryTimer after `delay_secs`.
    StartRetryTimer { generation: u64, delay_secs: u64 },
    /// Ask the portal for the session's shortcuts; report a ShortcutList.
    ListShortcuts { session: String, token: String, generation: u64 },
    BindShortcuts { session: String, token: String },
    /// Listen for Activated on the portal.
    SubscribeActivated,
    EmitActiveChanged,
    EmitShortcutActivated(String),
}

/// What the application reports to the handshake.
pub enum PortalInput {
    /// A bus connection is there; begin.
    Start,
    /// Drop the session and begin again.
    Restart,
    /// The application quits.
    Stop,
    HandshakeTimeout { generation: u64, attempt: u32 },
    RetryTimer { generation: u64 },
    /// The Response to CreateSession, with the session handle it carried
    /// (empty when none).
    CreateResponse { response: u32, session_handle: String },
    /// The reply to the shortcut listing: whether it listed any shortcut.
    ShortcutList { generation: u64, has_shortcuts: bool },
    BindResponse { response: u32 },
    Activated { session_handle: String, shortcut_id: String },
}

pub enum ActionView {
    DropSubscriptions,
    CloseSession { session: Seq<char>, wait: bool },
    Subscribe { kind: RequestKind, token: Seq<char> },
    CreateSession { handle_token: Seq<char>, session_handle_token: Seq<char> },
    StartHandshakeTimer { generation: u64, attempt: u32 },
    StartRetryTimer { generation: u64, delay_secs: nat },
    ListShortcuts { session: Seq<char>, token: Seq<char>, generation: u64 },
    BindShortcuts { session: Seq<char>, token: Seq<char> },
    SubscribeActivated,
    EmitActiveChanged,
    EmitShortcutActivated(Seq<char>),
}

impl View for PortalAction {
    type V = ActionView;

    open spec fn view(&self) -> ActionView {
        match self {
            PortalAction::DropSubscriptions => ActionView::DropSubscriptions,
            PortalAction::CloseSession { session, wait } => ActionView::CloseSession {
                session: session@,
                wait: *wait,
            },
            PortalAction::Subscribe { kind, token } => ActionView::Subscribe {
                kind: *kind,
                token: token@,
            },
            PortalAction::CreateSession { handle_token, session_handle_token } =>
                ActionView::CreateSession {
                handle_token: handle_token@,
                session_handle_token: session_handle_token@,
            },
            PortalAction::StartHandshakeTimer { generation, attempt } =>
                ActionView::StartHandshakeTimer { generation: *generation, attempt: *attempt },
            PortalAction::StartRetryTimer { generation, delay_secs } =>
                ActionView::StartRetryTimer {
                generation: *generation,
                delay_secs: *delay_secs as nat,
            },
            PortalAction::ListShortcuts { session, token, generation } =>
                ActionView::ListShortcuts {
                session: session@,
                token: token@,
                generation: *generation,
            },
            PortalAction::BindShortcuts { session, token } => ActionView::BindShortcuts {
                session: session@,
                token: token@,
            },
            PortalAction::SubscribeActivated => ActionView::SubscribeActivated,
            PortalAction::EmitActiveChanged => ActionView::EmitActiveChanged,
            PortalAction::EmitShortcutActivated(id) => ActionView::EmitShortcutActivated(id@),
        }
    }
}

pub open spec fn action_views(v: Seq<PortalAction>) -> Seq<ActionView> {
    v.map_values(|a: PortalAction| a@)
}

/// The handshake's state.
#[verifier::ext_equal]
pub struct PortalModel {
    /// The application gave a bus connection.
    pub connected: bool,
    pub session: Option<Seq<char>>,
    /// Listening for Activated.
    pub activated_sub: bool,
    /// The shortcuts are bound.
    pub bound: bool,
    pub awaiting_bind: bool,
    /// Still negotiating the portal chain.
    pub handshaking: bool,
    pub attempt: u32,
    /// Bumped for every attempt; a timer or reply of an older generation is
    /// stale.
    pub generation: u64,
}

/// A callback of `generation` no longer applies.
pub open spec fn is_stale(m: PortalModel, generation: u64) -> bool {
    !m.connected || m.generation != generation
}

/// Closing the session: subscriptions dropped, the session closed, a new
/// generation; the windows hear of it when the shortcuts were bound.
pub open spec fn close_session_spec(m: PortalModel) -> (PortalModel, Seq<ActionView>) {
    let close = match m.session {
        Some(s) => if m.connected {
            seq![ActionView::CloseSession { session: s, wait: false }]
        } else {
            seq![]
        },
        None => seq![],
    };
    let notice = if m.bound {
        seq![ActionView::EmitActiveChanged]
    } else {
        seq![]
    };
    (
        PortalModel {
            awaiting_bind: false,
            bound: false,
            generation: (m.generation + 1) as u64,
            session: None,
            ..m
        },
        seq![ActionView::DropSubscriptions] + close + notice,
    )
}

/// Beginning an attempt: a new generation, a CreateSession request with the
/// attempt's tokens, and a timeout.
pub open spec fn begin_spec(m: PortalModel) -> (PortalModel, Seq<ActionView>) {
    if !m.connected {
        (m, seq![])
    } else {
        let g = (m.generation + 1) as u64;
        let cs = token_text("bridge_cs_"@, m.attempt);
        (
            PortalModel { generation: g, handshaking: true, ..m },
            seq![
                ActionView::Subscribe { kind: RequestKind::CreateSession, token: cs },
                ActionView::CreateSession {
                    handle_token: cs,
                    session_handle_token: token_text("bridge_sh_"@, m.attempt),
                },
                ActionView::StartHandshakeTimer { generation: g, attempt: m.attempt },
            ],
        )
    }
}

/// Giving up: the session closed, the attempts used up, the handshake over.
pub open spec fn give_up_spec(m: PortalModel) -> (PortalModel, Seq<ActionView>) {
    let (m1, a1) = close_session_spec(m);
    (
        PortalModel { attempt: MAX_HANDSHAKE_ATTEMPTS, handshaking: false, ..m1 },
        a1 + seq![ActionView::EmitActiveChanged],
    )
}

/// Another attempt after a back-off, or giving up after the last one.
pub open spec fn retry_spec(m: PortalModel) -> (PortalModel, Seq<ActionView>) {
    let next = m.attempt + 1;
    if next >= MAX_HANDSHAKE_ATTEMPTS {
        give_up_spec(m)
    } else {
        let (m1, a1) = close_session_spec(PortalModel { attempt: next as u32, ..m });
        (
            m1,
            a1 + seq![
                ActionView::StartRetryTimer {
                    generation: m1.generation,
                    delay_secs: backoff_secs(next as u32),
                },
            ],
        )
    }
}

/// The shortcuts are bound: listen for activations once, and tell the
/// windows.
pub open spec fn finish_bound_spec(m: PortalModel) -> (PortalModel, Seq<ActionView>) {
    if m.bound {
        (m, seq![])
    } else {
        let sub = if m.activated_sub {
            seq![]
        } else {
            seq![ActionView::SubscribeActivated]
        };
        (
            PortalModel { activated_sub: true, bound: true, handshaking: false, ..m },
            sub + seq![ActionView::EmitActiveChanged],
        )
    }
}

/// The session's text, empty when there is none.
pub open spec fn session_or_empty(m: PortalModel) -> Seq<char> {
    match m.session {
        Some(s) => s,
        None => Seq::empty(),
    }
}

/// Binding our shortcuts to the session.
pub open spec fn send_bind_spec(m: PortalModel) -> (PortalModel, Seq<ActionView>) {
    let session = session_or_empty(m);
    if session.len() == 0 {
        (m, seq![])
    } else {
        let bs = token_text("bridge_bs_"@, m.attempt);
        (
            PortalModel { awaiting_bind: true, ..m },
            seq![
                ActionView::Subscribe { kind: RequestKind::BindShortcuts, token: bs },
                ActionView::BindShortcuts { session, token: bs },
            ],
        )
    }
}

/// The handshake after one input: its new state and the actions to perform.
pub open spec fn step_spec(m: PortalModel, input: PortalInput) -> (PortalModel, Seq<ActionView>) {
    match input {
        PortalInput::Start => begin_spec(PortalModel { connected: true, attempt: 0, ..m }),
        PortalInput::Restart => if !m.connected {
            (m, seq![])
        } else {
            let (m1, a1) = close_session_spec(m);
            let (m2, a2) = begin_spec(PortalModel { attempt: 0, ..m1 });
            (m2, a1 + a2)
        },
        PortalInput::Stop => {
            let close = match m.session {
                Some(s) => if m.connected {
                    seq![ActionView::CloseSession { session: s, wait: true }]
                } else {
                    seq![]
                },
                None => seq![],
            };
            (
                PortalModel {
                    connected: false,
                    session: None,
                    activated_sub: false,
                    bound: false,
                    awaiting_bind: false,
                    handshaking: false,
                    attempt: 0,
                    ..m
                },
                seq![ActionView::DropSubscriptions] + close,
            )
        },
        PortalInput::HandshakeTimeout { generation, attempt } => if m.bound || m.awaiting_bind
            || is_stale(m, generation) {
            (m, seq![])
        } else {
            retry_spec(m)
        },
        PortalInput::RetryTimer { generation } => if is_stale(m, generation) {
            (m, seq![])
        } else {
            begin_spec(m)
        },
        PortalInput::CreateResponse { response, session_handle } => if m.session is Some {
            (m, seq![])
        } else if response != 0 || session_handle@.len() == 0 {
            retry_spec(m)
        } else {
            (
                PortalModel { session: Some(session_handle@), ..m },
                seq![
                    ActionView::ListShortcuts {
                        session: session_handle@,
                        token: token_text("bridge_hs_"@, m.attempt),
                        generation: m.generation,
                    },
                ],
            )
        },
        PortalInput::ShortcutList { generation, has_shortcuts } => if is_stale(m, generation) {
            (m, seq![])
        } else if has_shortcuts {
            finish_bound_spec(m)
        } else {
            send_bind_spec(m)
        },
        PortalInput::BindResponse { response } => {
            let m1 = PortalModel { awaiting_bind: false, ..m };
            if response == RESPONSE_CANCELLED {
                give_up_spec(m1)
            } else if response != 0 {
                retry_spec(m1)
            } else {
                finish_bound_spec(m1)
            }
        },
        PortalInput::Activated { session_handle, shortcut_id } => if session_handle@
            != session_or_empty(m) {
            (m, seq![])
        } else {
            (m, seq![ActionView::EmitShortcutActivated(shortcut_id@)])
        },
    }
}

/// The handshake with the GlobalShortcuts portal.
pub struct PortalState {
    connected: bool,
    session: Option<String>,
    activated_sub: bool,
    bound: bool,
    awaiting_bind: bool,
    handshaking: bool,
    attempt: u32,
    generation: u64,
}

impl View for PortalState {
    type V = PortalModel;

    closed spec fn view(&self) -> PortalModel {
        PortalModel {
            connected: self.connected,
            session: match self.session {
                Some(s) => Some(s@),
                None => None,
            },
            activated_sub: self.activated_sub,
            bound: self.bound,
            awaiting_bind: self.awaiting_bind,
            handshaking: self.handshaking,
            attempt: self.attempt,
            generation: self.generation,
        }
    }
}

fn emit(out: &mut Vec<PortalAction>, a: PortalAction)
    ensures
        action_views(final(out)@) == action_views(old(out)@).push(a@),
{
    let ghost before = out@;
    out.push(a);
    assert(action_views(out@) =~= action_views(before).push(a@));
}

impl PortalState {
    #[verifier::type_invariant]
    spec fn inv(self) -> bool {
        self.attempt <= MAX_HANDSHAKE_ATTEMPTS
    }

    /// Attempts never exceed the limit.
    pub fn attempt(&self) -> (r: u32)
        ensures
            r == self@.attempt,
            r <= MAX_HANDSHAKE_ATTEMPTS,
    {
        proof {
            use_type_invariant(self);
        }
        self.attempt
    }

    /// Not started.
    pub fn new() -> (r: PortalState)
        ensures
            r@ == (PortalModel {
                connected: false,
                session: None,
                activated_sub: false,
                bound: false,
                awaiting_bind: false,
                handshaking: false,
                attempt: 0,
                generation: 0,
            }),
    {
        PortalState {
            connected: false,
            session: None,
            activated_sub: false,
            bound: false,
            awaiting_bind: false,
            handshaking: false,
            attempt: 0,
            generation: 0,
        }
    }

    /// The current attempt's generation.
    pub fn generation(&self) -> (r: u64)
        ensures
            r == self@.generation,
    {
        self.generation
    }

    /// True once the shortcuts are bound.
    pub fn is_active(&self) -> (r: bool)
        ensures
            r == self@.bound,
    {
        self.bound
    }

    /// True while the portal chain is still being negotiated.
    pub fn is_handshaking(&self) -> (r: bool)
        ensures
            r == self@.handshaking,
    {
        self.handshaking
    }

    /// The current session, if one was created.
    pub fn session(&self) -> (r: Option<String>)
        ensures
            match r {
                Some(s) => self@.session == Some(s@),
                None => self@.session is None,
            },
    {
        match &self.session {
            Some(s) => Some(s.clone()),
            None => None,
        }
    }

    fn close_session(&mut self, out: &mut Vec<PortalAction>)
        requires
            old(self)@.generation < u64::MAX,
        ensures
            final(self)@ == close_session_spec(old(self)@).0,
            action_views(final(out)@) == action_views(old(out)@) + close_session_spec(old(self)@).1,
    {
        proof {
            use_type_invariant(&*self);
        }
        let ghost m = self@;
        let ghost a0 = action_views(out@);
        emit(out, PortalAction::DropSubscriptions);
        self.awaiting_bind = false;
        let was_bound = self.bound;
        self.bound = false;
        self.generation = self.generation + 1;
        let session = self.session();
        self.session = None;
        match session {
            Some(s) => {
                if self.connected {
                    emit(out, PortalAction::CloseSession { session: s, wait: false });
                }
            },
            None => {},
        }
        if was_bound {
            emit(out, PortalAction::EmitActiveChanged);
        }
        assert(action_views(out@) =~= a0 + close_session_spec(m).1);
        assert(self@ =~= close_session_spec(m).0);
    }

    fn begin_handshake(&mut self, out: &mut Vec<PortalAction>)
        requires
            old(self)@.generation < u64::MAX,
        ensures
            final(self)@ == begin_spec(old(self)@).0,
            action_views(final(out)@) == action_views(old(out)@) + begin_spec(old(self)@).1,
    {
        proof {
            use_type_invariant(&*self);
        }
        let ghost m = self@;
        let ghost a0 = action_views(out@);
        if !self.connected {
            assert(action_views(out@) =~= a0 + seq![]);
            return;
        }
        let attempt = self.attempt;
        self.generation = self.generation + 1;
        let generation = self.generation;
        self.handshaking = true;
        let cs = token("bridge_cs_", attempt);
        let cs2 = token("bridge_cs_", attempt);
        emit(out, PortalAction::Subscribe { kind: RequestKind::CreateSession, token: cs });
        emit(
            out,
            PortalAction::CreateSession {
                handle_token: cs2,
                session_handle_token: token("bridge_sh_", attempt),
            },
        );
        emit(out, PortalAction::StartHandshakeTimer { generation, attempt });
        assert(action_views(out@) =~= a0 + begin_spec(m).1);
        assert(self@ =~= begin_spec(m).0);
    }

    fn give_up(&mut self, out: &mut Vec<PortalAction>)
        requires
            old(self)@.generation < u64::MAX,
        ensures
            final(self)@ == give_up_spec(old(self)@).0,
            action_views(final(out)@) == action_views(old(out)@) + give_up_spec(old(self)@).1,
    {
        let ghost m = self@;
        let ghost a0 = action_views(out@);
        self.close_session(out);
        let ghost a1 = action_views(out@);
        self.attempt = MAX_HANDSHAKE_ATTEMPTS;
        self.handshaking = false;
        emit(out, PortalAction::EmitActiveChanged);
        assert(action_views(out@) =~= a0 + give_up_spec(m).1);
        assert(self@ =~= give_up_spec(m).0);
    }

    fn retry_handshake(&mut self, out: &mut Vec<PortalAction>)
        requires
            old(self)@.generation < u64::MAX,
        ensures
            final(self)@ == retry_spec(old(self)@).0,
            action_views(final(out)@) == action_views(old(out)@) + retry_spec(old(self)@).1,
    {
        proof {
            use_type_invariant(&*self);
        }
        let ghost m = self@;
        let ghost a0 = action_views(out@);
        let next = self.attempt + 1;
        if next >= MAX_HANDSHAKE_ATTEMPTS {
            self.give_up(out);
            return;
        }
        self.attempt = next;
        self.close_session(out);
        let generation = self.generation;
        let delay = backoff(next);
        emit(out, PortalAction::StartRetryTimer { generation, delay_secs: delay });
        assert(action_views(out@) =~= a0 + retry_spec(m).1);
    }

    fn finish_bound(&mut self, out: &mut Vec<PortalAction>)
        ensures
            final(self)@ == finish_bound_spec(old(self)@).0,
            action_views(final(out)@) == action_views(old(out)@) + finish_bound_spec(old(self)@).1,
    {
        proof {
            use_type_invariant(&*self);
        }
        let ghost m = self@;
        let ghost a0 = action_views(out@);
        if self.bound {
            assert(action_views(out@) =~= a0 + seq![]);
            return;
        }
        if !self.activated_sub {
            emit(out, PortalAction::SubscribeActivated);
        }
        self.activated_sub = true;
        self.bound = true;
        self.handshaking = false;
        emit(out, PortalAction::EmitActiveChanged);
        assert(action_views(out@) =~= a0 + finish_bound_spec(m).1);
        assert(self@ =~= finish_bound_spec(m).0);
    }

    fn send_bind(&mut self, out: &mut Vec<PortalAction>)
        ensures
            final(self)@ == send_bind_spec(old(self)@).0,
            action_views(final(out)@) == action_views(old(out)@) + send_bind_spec(old(self)@).1,
    {
        proof {
            use_type_invariant(&*self);
        }
        let ghost m = self@;
        let ghost a0 = action_views(out@);
        let session = match &self.session {
            Some(s) => s.clone(),
            None => String::new(),
        };
        if session.unicode_len() == 0 {
            assert(action_views(out@) =~= a0 + seq![]);
            return;
        }
        let attempt = self.attempt;
        emit(
            out,
            PortalAction::Subscribe { kind: RequestKind::BindShortcuts, token: token("bridge_bs_", attempt) },
        );
        self.awaiting_bind = true;
        emit(out, PortalAction::BindShortcuts { session, token: token("bridge_bs_", attempt) });
        assert(action_views(out@) =~= a0 + send_bind_spec(m).1);
        assert(self@ =~= send_bind_spec(m).0);
    }

    /// Advances the handshake by one input, giving the actions to perform.
    pub fn step(&mut self, input: PortalInput) -> (r: Vec<PortalAction>)
        requires
            old(self)@.generation <= u64::MAX - 2,
        ensures
            (final(self)@, action_views(r@)) == step_spec(old(self)@, input),
    {
        proof {
            use_type_invariant(&*self);
        }
        let ghost m = self@;
        let ghost inp = input;
        let mut out: Vec<PortalAction> = Vec::new();
        assert(action_views(out@) =~= seq![]);
        match input {
            PortalInput::Start => {
                self.connected = true;
                self.attempt = 0;
                self.begin_handshake(&mut out);
            },
            PortalInput::Restart => {
                if self.connected {
                    self.close_session(&mut out);
                    self.attempt = 0;
                    self.begin_handshake(&mut out);
                }
            },
            PortalInput::Stop => {
                emit(&mut out, PortalAction::DropSubscriptions);
                let session = self.session();
                self.session = None;
                match session {
                    Some(s) => {
                        if self.connected {
                            emit(&mut out, PortalAction::CloseSession { session: s, wait: true });
                        }
                    },
                    None => {},
                }
                self.bound = false;
                self.awaiting_bind = false;
                self.handshaking = false;
                self.attempt = 0;
                self.activated_sub = false;
                self.connected = false;
                assert(action_views(out@) =~= step_spec(m, inp).1);
            },
            PortalInput::HandshakeTimeout { generation, attempt } => {
                if !(self.bound || self.awaiting_bind || !self.connected || self.generation
                    != generation) {
                    self.retry_handshake(&mut out);
                }
            },
            PortalInput::RetryTimer { generation } => {
                if !(!self.connected || self.generation != generation) {
                    self.begin_handshake(&mut out);
                }
            },
            PortalInput::CreateResponse { response, session_handle } => {
                if self.session.is_none() {
                    if response != 0 || session_handle.unicode_len() == 0 {
                        self.retry_handshake(&mut out);
                    } else {
                        let attempt = self.attempt;
                        let generation = self.generation;
                        let listed = session_handle.clone();
                        self.session = Some(session_handle);
                        emit(
                            &mut out,
                            PortalAction::ListShortcuts {
                                session: listed,
                                token: token("bridge_hs_", attempt),
                                generation,
                            },
                        );
                        assert(action_views(out@) =~= step_spec(m, inp).1);
                    }
                }
            },
            PortalInput::ShortcutList { generation, has_shortcuts } => {
                if !(!self.connected || self.generation != generation) {
                    if has_shortcuts {
                        self.finish_bound(&mut out);
                    } else {
                        self.send_bind(&mut out);
                    }
                }
            },
            PortalInput::BindResponse { response } => {
                self.awaiting_bind = false;
                if response == RESPONSE_CANCELLED {
                    self.give_up(&mut out);
                } else if response != 0 {
                    self.retry_handshake(&mut out);
                } else {
                    self.finish_bound(&mut out);
                }
            },
            PortalInput::Activated { session_handle, shortcut_id } => {
                let ours = match &self.session {
                    Some(s) => str_eq(s.as_str(), session_handle.as_str()),
                    None => session_handle.unicode_len() == 0,
                };
                proof {
                    if self.session is None && session_handle@.len() == 0 {
                        assert(session_handle@ =~= Seq::<char>::empty());
                    }
                }
                if ours {
                    emit(&mut out, PortalAction::EmitShortcutActivated(shortcut_id));
                    assert(action_views(out@) =~= step_spec(m, inp).1);
                }
            },
        }
        out
    }
}

/// A timer or listing reply of an older generation, or one that arrives
/// after the connection is gone, changes nothing and does nothing.
pub proof fn stale_callbacks_do_nothing(m: PortalModel, generation: u64, attempt: u32, has_shortcuts: bool)
    requires
        is_stale(m, generation),
    ensures
        step_spec(m, PortalInput::HandshakeTimeout { generation, attempt }) == (m, Seq::<ActionView>::empty()),
        step_spec(m, PortalInput::RetryTimer { generation }) == (m, Seq::<ActionView>::empty()),
        step_spec(m, PortalInput::ShortcutList { generation, has_shortcuts }) == (m, Seq::<ActionView>::empty()),
{
}

/// No input takes the attempt count past the limit.
pub proof fn attempts_stay_bounded(m: PortalModel, input: PortalInput)
    requires
        m.attempt <= MAX_HANDSHAKE_ATTEMPTS,
    ensures
        step_spec(m, input).0.attempt <= MAX_HANDSHAKE_ATTEMPTS,
{
}

/// A failed attempt either starts the next one after a back-off, or, after
/// the last, gives up: the handshake is over and the shortcuts inactive.
/// Either way every timer and reply of the failed attempt is stale.
pub proof fn retry_advances_or_gives_up(m: PortalModel)
    requires
        m.attempt <= MAX_HANDSHAKE_ATTEMPTS,
        m.connected,
        m.generation < u64::MAX,
    ensures
        m.attempt + 1 < MAX_HANDSHAKE_ATTEMPTS ==> retry_spec(m).0.attempt == m.attempt + 1,
        m.attempt + 1 >= MAX_HANDSHAKE_ATTEMPTS ==> {
            &&& retry_spec(m).0.attempt == MAX_HANDSHAKE_ATTEMPTS
            &&& !retry_spec(m).0.handshaking
            &&& !retry_spec(m).0.bound
        },
        is_stale(retry_spec(m).0, m.generation),
{
}

/// A user who cancels the bind dialog is not asked again: the handshake
/// gives up.
pub proof fn cancel_gives_up(m: PortalModel)
    requires
        m.generation < u64::MAX,
    ensures
        step_spec(m, PortalInput::BindResponse { response: RESPONSE_CANCELLED }).0.attempt
            == MAX_HANDSHAKE_ATTEMPTS,
        !step_spec(m, PortalInput::BindResponse { response: RESPONSE_CANCELLED }).0.handshaking,
        !step_spec(m, PortalInput::BindResponse { response: RESPONSE_CANCELLED }).0.bound,
{
}

/// After stopping, nothing is bound or pending, and every outstanding
/// timer or reply is stale.
pub proof fn stop_resets(m: PortalModel, generation: u64)
    ensures
        !step_spec(m, PortalInput::Stop).0.bound,
        !step_spec(m, PortalInput::Stop).0.handshaking,
        step_spec(m, PortalInput::Stop).0.session is None,
        step_spec(m, PortalInput::Stop).0.attempt == 0,
        is_stale(step_spec(m, PortalInput::Stop).0, generation),
{
}

/// Activations of another session are ignored; those of ours are passed on.
pub proof fn activation_only_from_our_session(m: PortalModel, session_handle: String, shortcut_id: String)
    ensures
        step_spec(m, PortalInput::Activated { session_handle, shortcut_id }).0 == m,
        step_spec(m, PortalInput::Activated { session_handle, shortcut_id }).1.len() == (if session_handle@
            == session_or_empty(m) {
            1int
        } else {
            0int
        }),
{
}

} // verus!
