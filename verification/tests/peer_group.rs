use agent_message_board::mailbox::PeerMailbox;
use agent_message_board::protocol::{
    thread_peer_group, PeerGroup, ThreadPeerGroupParams, ThreadPeerGroupResponse,
};
use agent_message_board::store::PeerStore;
use agent_message_board::tui::{
    request_peer_group, show_peer_group, update_peer_group, GroupUpdateNotice,
};

const NOW: i64 = 1_700_000_000;

#[test]
fn peer_group_commands_apply_to_the_current_thread() {
    for enabled in [true, false] {
        let mut store = PeerStore::new();
        let thread_id = uuid::Uuid::now_v7().to_string();
        let mut binding = if enabled {
            Some(PeerMailbox::open(&mut store, thread_id.clone(), Some("repo".into()), None, NOW).unwrap())
        } else {
            None
        };
        if !enabled {
            let error = thread_peer_group(
                &mut binding,
                &mut store,
                ThreadPeerGroupParams {
                    thread_id: thread_id.clone(),
                    selection: Some(PeerGroup::Named { name: "website".into() }),
                },
            )
            .unwrap_err();
            assert!(error.contains("disabled"));
            continue;
        }
        for selection in [
            PeerGroup::Named { name: "website".into() },
            PeerGroup::Off,
            PeerGroup::Auto,
        ] {
            let result = thread_peer_group(
                &mut binding,
                &mut store,
                ThreadPeerGroupParams {
                    thread_id: thread_id.clone(),
                    selection: Some(selection.clone()),
                },
            );
            assert_eq!(
                result,
                Ok(ThreadPeerGroupResponse { selection: selection.clone() })
            );
            let current = thread_peer_group(
                &mut binding,
                &mut store,
                ThreadPeerGroupParams { thread_id: thread_id.clone(), selection: None },
            )
            .unwrap();
            assert_eq!(current, ThreadPeerGroupResponse { selection });
        }
    }
}

#[test]
fn group_request_reports_invalid_names() {
    let mut store = PeerStore::new();
    let mut binding =
        Some(PeerMailbox::open(&mut store, "t".into(), None, None, NOW).unwrap());
    let error = thread_peer_group(
        &mut binding,
        &mut store,
        ThreadPeerGroupParams {
            thread_id: "t".into(),
            selection: Some(PeerGroup::Named { name: " ".into() }),
        },
    )
    .unwrap_err();
    assert_eq!(error, "Group names must contain 1 to 128 bytes of nonblank text");
}

#[test]
fn group_commands_target_the_current_session_without_starting_a_turn() {
    let thread_id = uuid::Uuid::now_v7().to_string();
    for (input, expected) in [
        ("", None),
        ("auto", Some(PeerGroup::Auto)),
        ("off", Some(PeerGroup::Off)),
        ("website", Some(PeerGroup::Named { name: "website".into() })),
    ] {
        let request = request_peer_group(Some(thread_id.clone()), input).unwrap();
        assert_eq!((request.thread_id, request.selection), (thread_id.clone(), expected));
    }
}

#[test]
fn group_command_trims_and_limits_names() {
    let request = request_peer_group(Some("t".into()), "  off \n").unwrap();
    assert_eq!(request.selection, Some(PeerGroup::Off));
    let request = request_peer_group(Some("t".into()), " my team ").unwrap();
    assert_eq!(request.selection, Some(PeerGroup::Named { name: "my team".into() }));
    assert!(request_peer_group(Some("t".into()), &"n".repeat(128)).is_ok());
    assert_eq!(
        request_peer_group(Some("t".into()), &"n".repeat(129)).err(),
        Some("Group names must be at most 128 bytes.".to_string())
    );
    assert_eq!(
        request_peer_group(None, "auto").err(),
        Some("Start a session before using /group.".to_string())
    );
}

#[test]
fn group_status_is_readable() {
    let lines: Vec<String> = [
        PeerGroup::Auto,
        PeerGroup::Named { name: "website".into() },
        PeerGroup::Off,
    ]
    .iter()
    .map(|mode| show_peer_group(mode).message)
    .collect();
    assert_eq!(
        lines,
        vec![
            "Group: auto — communicate with sessions in this repository.",
            "Group: website — communicate with this group and sessions in this repository.",
            "Group: off — communication with independent sessions is disabled.",
        ]
    );
    assert_eq!(
        show_peer_group(&PeerGroup::Auto).hint,
        "/group <name> · /group auto · /group off"
    );
}

#[test]
fn group_update_notices_follow_the_displayed_thread() {
    let ok = || Ok(ThreadPeerGroupResponse { selection: PeerGroup::Off });
    assert!(update_peer_group(&Some("other".into()), &"t".into(), ok()).is_none());
    assert!(update_peer_group(&None, &"t".into(), ok()).is_none());
    match update_peer_group(&Some("t".into()), &"t".into(), ok()) {
        Some(GroupUpdateNotice::Info(n)) => assert_eq!(
            n.message,
            "Group: off — communication with independent sessions is disabled."
        ),
        _ => panic!("expected the group"),
    }
    match update_peer_group(&Some("t".into()), &"t".into(), Err("timeout".into())) {
        Some(GroupUpdateNotice::Error(m)) => assert_eq!(m, "Could not update group: timeout"),
        _ => panic!("expected an error"),
    }
}

#[test]
fn group_requests_keep_the_mailbox_and_update_its_tools() {
    let mut store = PeerStore::new();
    let mut binding = Some(PeerMailbox::open(&mut store, "t".into(), None, None, NOW).unwrap());
    assert!(!binding.as_ref().unwrap().is_available());
    let params = |selection| ThreadPeerGroupParams { thread_id: "t".into(), selection };
    thread_peer_group(&mut binding, &mut store, params(Some(PeerGroup::Named { name: "g".into() })))
        .unwrap();
    assert!(binding.as_ref().unwrap().is_available());
    assert_eq!(binding.as_ref().unwrap().id(), "t");
    thread_peer_group(&mut binding, &mut store, params(None)).unwrap();
    assert!(binding.as_ref().unwrap().is_available());
    thread_peer_group(&mut binding, &mut store, params(Some(PeerGroup::Off))).unwrap();
    assert!(!binding.as_ref().unwrap().is_available());
}
