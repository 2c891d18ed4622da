use bridge::shortcuts::{
    MAX_HANDSHAKE_ATTEMPTS, PortalAction, PortalInput, PortalState, RESPONSE_CANCELLED,
    RequestKind, listed_or_untriggered, request_path, sender_from_name, shortcuts,
    untriggered_shortcuts,
};

fn started() -> (PortalState, Vec<PortalAction>) {
    let mut p = PortalState::new();
    let out = p.step(PortalInput::Start);
    (p, out)
}

fn timer_generation(actions: &[PortalAction]) -> u64 {
    actions
        .iter()
        .find_map(|a| match a {
            PortalAction::StartHandshakeTimer { generation, .. } => Some(*generation),
            PortalAction::StartRetryTimer { generation, .. } => Some(*generation),
            _ => None,
        })
        .expect("a timer")
}

fn retry_delay(actions: &[PortalAction]) -> Option<u64> {
    actions.iter().find_map(|a| match a {
        PortalAction::StartRetryTimer { delay_secs, .. } => Some(*delay_secs),
        _ => None,
    })
}

#[test]
fn start_creates_a_session_with_attempt_tokens() {
    let (p, out) = started();
    assert!(p.is_handshaking());
    assert!(!p.is_active());
    assert_eq!(out.len(), 3);
    match &out[0] {
        PortalAction::Subscribe { kind, token } => {
            assert_eq!(*kind, RequestKind::CreateSession);
            assert_eq!(token, "bridge_cs_0");
        }
        _ => panic!("expected a subscription"),
    }
    match &out[1] {
        PortalAction::CreateSession { handle_token, session_handle_token } => {
            assert_eq!(handle_token, "bridge_cs_0");
            assert_eq!(session_handle_token, "bridge_sh_0");
        }
        _ => panic!("expected CreateSession"),
    }
    assert!(matches!(out[2], PortalAction::StartHandshakeTimer { generation: 1, attempt: 0 }));
}

#[test]
fn session_with_listed_shortcuts_is_bound_without_binding() {
    let (mut p, out) = started();
    let g = timer_generation(&out);
    let out = p.step(PortalInput::CreateResponse {
        response: 0,
        session_handle: "/org/freedesktop/portal/desktop/session/1_2/bridge_sh_0".to_owned(),
    });
    match &out[0] {
        PortalAction::ListShortcuts { token, generation, .. } => {
            assert_eq!(token, "bridge_hs_0");
            assert_eq!(*generation, g);
        }
        _ => panic!("expected a listing"),
    }
    let out = p.step(PortalInput::ShortcutList { generation: g, has_shortcuts: true });
    assert!(matches!(out[0], PortalAction::SubscribeActivated));
    assert!(matches!(out[1], PortalAction::EmitActiveChanged));
    assert!(p.is_active());
    assert!(!p.is_handshaking());
    // the handshake timer of that attempt does nothing now
    assert!(p.step(PortalInput::HandshakeTimeout { generation: g, attempt: 0 }).is_empty());
}

#[test]
fn empty_listing_binds_and_a_cancel_gives_up() {
    let (mut p, out) = started();
    let g = timer_generation(&out);
    p.step(PortalInput::CreateResponse { response: 0, session_handle: "/s".to_owned() });
    let out = p.step(PortalInput::ShortcutList { generation: g, has_shortcuts: false });
    assert_eq!(out.len(), 2);
    assert!(matches!(&out[0], PortalAction::Subscribe { kind: RequestKind::BindShortcuts, token } if token == "bridge_bs_0"));
    assert!(matches!(&out[1], PortalAction::BindShortcuts { session, token } if session == "/s" && token == "bridge_bs_0"));
    let out = p.step(PortalInput::BindResponse { response: RESPONSE_CANCELLED });
    assert!(out.iter().any(|a| matches!(a, PortalAction::CloseSession { session, wait: false } if session == "/s")));
    assert!(matches!(out.last(), Some(PortalAction::EmitActiveChanged)));
    assert_eq!(p.attempt(), MAX_HANDSHAKE_ATTEMPTS);
    assert!(!p.is_handshaking());
    assert!(!p.is_active());
}

#[test]
fn timeouts_back_off_then_give_up() {
    let (mut p, mut out) = started();
    let mut delays = Vec::new();
    for _ in 0..3 {
        let g = timer_generation(&out);
        let retry = p.step(PortalInput::HandshakeTimeout { generation: g, attempt: p.attempt() });
        match retry_delay(&retry) {
            Some(d) => {
                delays.push(d);
                let rg = timer_generation(&retry);
                // a stale retry timer is ignored
                assert!(p.step(PortalInput::RetryTimer { generation: rg + 1 }).is_empty());
                out = p.step(PortalInput::RetryTimer { generation: rg });
            }
            None => {
                out = retry;
                break;
            }
        }
    }
    assert_eq!(delays, vec![1, 2, 4]);
    assert!(p.is_handshaking());
    assert_eq!(p.attempt(), 3);
    let g = timer_generation(&out);
    let last = p.step(PortalInput::HandshakeTimeout { generation: g, attempt: 3 });
    assert_eq!(retry_delay(&last), None);
    assert!(matches!(last.last(), Some(PortalAction::EmitActiveChanged)));
    assert_eq!(p.attempt(), MAX_HANDSHAKE_ATTEMPTS);
    assert!(!p.is_handshaking());
}

#[test]
fn failed_create_retries_and_tokens_follow_the_attempt() {
    let (mut p, _) = started();
    let out = p.step(PortalInput::CreateResponse { response: 2, session_handle: String::new() });
    assert_eq!(retry_delay(&out), Some(1));
    let g = timer_generation(&out);
    let out = p.step(PortalInput::RetryTimer { generation: g });
    assert!(matches!(&out[0], PortalAction::Subscribe { token, .. } if token == "bridge_cs_1"));
    // no handle in the reply is a failure too
    let out = p.step(PortalInput::CreateResponse { response: 0, session_handle: String::new() });
    assert_eq!(retry_delay(&out), Some(2));
}

#[test]
fn activations_only_from_our_session() {
    let (mut p, _) = started();
    p.step(PortalInput::CreateResponse { response: 0, session_handle: "/ours".to_owned() });
    assert!(p
        .step(PortalInput::Activated { session_handle: "/other".to_owned(), shortcut_id: "reset".to_owned() })
        .is_empty());
    let out = p.step(PortalInput::Activated {
        session_handle: "/ours".to_owned(),
        shortcut_id: "reset".to_owned(),
    });
    assert!(matches!(&out[0], PortalAction::EmitShortcutActivated(id) if id == "reset"));
    // a second CreateResponse for the same session is ignored
    assert!(p.step(PortalInput::CreateResponse { response: 0, session_handle: "/x".to_owned() }).is_empty());
    assert_eq!(p.session().as_deref(), Some("/ours"));
}

#[test]
fn stop_and_restart() {
    let (mut p, out) = started();
    let g = timer_generation(&out);
    p.step(PortalInput::CreateResponse { response: 0, session_handle: "/s".to_owned() });
    p.step(PortalInput::ShortcutList { generation: g, has_shortcuts: true });
    assert!(p.is_active());
    let out = p.step(PortalInput::Restart);
    assert!(out.iter().any(|a| matches!(a, PortalAction::CloseSession { wait: false, .. })));
    assert!(out.iter().any(|a| matches!(a, PortalAction::EmitActiveChanged)));
    assert!(!p.is_active());
    assert!(p.is_handshaking());
    let out = p.step(PortalInput::Stop);
    assert!(matches!(out[0], PortalAction::DropSubscriptions));
    assert!(!p.is_handshaking());
    assert_eq!(p.session(), None);
    // after stopping, restarts and timers do nothing
    assert!(p.step(PortalInput::Restart).is_empty());
    assert!(p.step(PortalInput::RetryTimer { generation: g }).is_empty());
}

#[test]
fn shortcut_table_and_defaults() {
    let t = shortcuts();
    assert_eq!(t[0], ("step-left", "Step Towards Aux", "CTRL+SHIFT+Left"));
    assert_eq!(t[3].0, "quick-switch-outputs");
    let u = untriggered_shortcuts();
    assert_eq!(u.len(), 4);
    assert_eq!(u[1], ("step-right".to_owned(), "Step Towards Main".to_owned(), String::new()));
    assert_eq!(listed_or_untriggered(None), u);
    let given = vec![("reset".to_owned(), "Reset Balance".to_owned(), "Ctrl+R".to_owned())];
    assert_eq!(listed_or_untriggered(Some(given.clone())), given);
}

#[test]
fn request_paths() {
    assert_eq!(sender_from_name(Some(":1.42")), "1_42");
    assert_eq!(sender_from_name(Some("::a.b.c")), "a_b_c");
    assert_eq!(sender_from_name(None), "");
    assert_eq!(
        request_path("1_42", "bridge_ls"),
        "/org/freedesktop/portal/desktop/request/1_42/bridge_ls"
    );
}
