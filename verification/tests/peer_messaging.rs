use agent_message_board::mailbox::{PeerError, PeerGroup, PeerMailbox, PeerMessage};
use agent_message_board::store::PeerStore;

const NOW: i64 = 1_700_000_000;

fn new_id() -> String {
    uuid::Uuid::now_v7().to_string()
}

#[test]
fn independent_mailboxes_discover_coordinate_and_isolate() {
    let mut store = PeerStore::new();
    let a_id = new_id();
    let b_id = new_id();
    let mut a = PeerMailbox::open(
        &mut store,
        a_id.clone(),
        Some("repo-a".into()),
        Some("project".into()),
        NOW,
    )
    .unwrap();
    let b = PeerMailbox::open(&mut store, b_id.clone(), Some("repo-a".into()), None, NOW).unwrap();
    let c_id = new_id();
    let c = PeerMailbox::open(
        &mut store,
        c_id.clone(),
        Some("repo-b".into()),
        Some("project".into()),
        NOW,
    )
    .unwrap();
    let outsider_id = new_id();
    let _outsider =
        PeerMailbox::open(&mut store, outsider_id.clone(), Some("repo-c".into()), None, NOW)
            .unwrap();
    let mut expected = vec![b_id.clone(), c_id.clone()];
    expected.sort();
    assert_eq!(a.list(&store, "", NOW), expected);
    assert_eq!(b.list(&store, "", NOW), vec![a_id.clone()]);
    assert_eq!(c.list(&store, "", NOW), vec![a_id.clone()]);
    assert!(a.send(&mut store, &outsider_id, "private", NOW).is_err());
    assert!(a.send(&mut store, &a_id, "self", NOW).is_err());
    a.send(&mut store, &b_id, "I am editing the parser", NOW).unwrap();
    let message = b.pending(&store).unwrap();
    assert_eq!(
        message,
        PeerMessage {
            id: message.id,
            sender: a_id.clone(),
            text: "I am editing the parser".into()
        }
    );
    // Reading does not consume messages: idle recipients retain them until accepted.
    assert_eq!(b.pending(&store), Some(message.clone()));
    b.acknowledge(&mut store, message.id);
    assert_eq!(b.pending(&store), None);
    assert!(a.send(&mut store, &b_id, "  ", NOW).is_err());
    assert!(a.send(&mut store, &b_id, &"я".repeat(257), NOW).is_err());
    for _ in 0..64 {
        a.send(&mut store, &b_id, "hello", NOW).unwrap();
    }
    assert!(a.send(&mut store, &b_id, "overflow", NOW).is_err());
    b.close(&mut store);
    assert_eq!(a.list(&store, "", NOW), vec![c_id.clone()]);
    assert!(a.send(&mut store, &b_id, "offline", NOW).is_err());
    a.set_group(&mut store, PeerGroup::Off).unwrap();
    assert!(c.send(&mut store, &a_id, "disabled", NOW).is_err());
    assert_eq!(a.list(&store, "", NOW), Vec::<String>::new());
    a.set_group(&mut store, PeerGroup::Auto).unwrap();
    assert_eq!(a.list(&store, "", NOW), Vec::<String>::new());
    a.set_group(&mut store, PeerGroup::Named("project".into())).unwrap();
    assert_eq!(a.list(&store, "", NOW), vec![c_id.clone()]);
    a.set_group(&mut store, PeerGroup::Off).unwrap();
    let resumed = PeerMailbox::open(
        &mut store,
        a_id.clone(),
        Some("repo-a".into()),
        Some("project".into()),
        NOW,
    )
    .unwrap();
    assert_eq!(resumed.group(&store).unwrap(), PeerGroup::Off);
}

#[test]
fn resumed_scope_and_runtime_lease_protect_delivery() {
    let mut store = PeerStore::new();
    let a_id = new_id();
    let b_id = new_id();
    let a = PeerMailbox::open(&mut store, a_id.clone(), None, Some("project".into()), NOW).unwrap();
    let b = PeerMailbox::open(&mut store, b_id.clone(), None, Some("project".into()), NOW).unwrap();
    a.send(&mut store, &b_id, "queued", NOW).unwrap();
    let resumed =
        PeerMailbox::open(&mut store, b_id.clone(), None, Some("project".into()), NOW).unwrap();
    assert!(!b.heartbeat(&mut store, NOW));
    b.close(&mut store);
    assert_eq!(a.list(&store, "", NOW), vec![b_id.clone()]);
    assert_eq!(b.pending(&store), None);
    assert!(resumed.pending(&store).is_some());
    let moved =
        PeerMailbox::open(&mut store, b_id.clone(), None, Some("different".into()), NOW).unwrap();
    assert_eq!(moved.pending(&store), None);
    assert_eq!(a.list(&store, "", NOW), Vec::<String>::new());
}

#[test]
fn open_rejects_blank_or_long_groups() {
    let mut store = PeerStore::new();
    let err = PeerMailbox::open(&mut store, new_id(), None, Some("   ".into()), NOW).err();
    assert_eq!(err, Some(PeerError::InvalidPeerGroup));
    let err = PeerMailbox::open(&mut store, new_id(), None, Some("g".repeat(129)), NOW).err();
    assert_eq!(err, Some(PeerError::InvalidPeerGroup));
    assert!(store.peers().is_empty());
    assert!(PeerMailbox::open(&mut store, new_id(), None, Some("g".repeat(128)), NOW).is_ok());
    assert_eq!(store.peers().len(), 1);
}

#[test]
fn availability_follows_scope_and_choice() {
    let mut store = PeerStore::new();
    let none = PeerMailbox::open(&mut store, new_id(), None, None, NOW).unwrap();
    assert!(!none.is_available());
    let mut repo = PeerMailbox::open(&mut store, new_id(), Some("r".into()), None, NOW).unwrap();
    assert!(repo.is_available());
    repo.set_group(&mut store, PeerGroup::Off).unwrap();
    assert!(!repo.is_available());
    repo.set_group(&mut store, PeerGroup::Auto).unwrap();
    assert!(repo.is_available());
    let mut grouped = PeerMailbox::open(&mut store, new_id(), None, None, NOW).unwrap();
    grouped.set_group(&mut store, PeerGroup::Named("team".into())).unwrap();
    assert!(grouped.is_available());
    grouped.set_group(&mut store, PeerGroup::Auto).unwrap();
    assert!(!grouped.is_available());
}

#[test]
fn set_group_rejects_bad_names_and_lost_leases() {
    let mut store = PeerStore::new();
    let id = new_id();
    let mut first = PeerMailbox::open(&mut store, id.clone(), None, None, NOW).unwrap();
    assert_eq!(
        first.set_group(&mut store, PeerGroup::Named(" \t".into())),
        Err(PeerError::InvalidGroupName)
    );
    assert_eq!(
        first.set_group(&mut store, PeerGroup::Named("x".repeat(129))),
        Err(PeerError::InvalidGroupName)
    );
    let _second = PeerMailbox::open(&mut store, id.clone(), None, None, NOW).unwrap();
    assert_eq!(
        first.set_group(&mut store, PeerGroup::Auto),
        Err(PeerError::MailboxLost)
    );
    assert_eq!(first.group(&store), Err(PeerError::RowNotFound));
}

#[test]
fn selection_reads_back_and_survives_reopen() {
    let mut store = PeerStore::new();
    let id = new_id();
    let mut m = PeerMailbox::open(&mut store, id.clone(), Some("r".into()), None, NOW).unwrap();
    assert_eq!(m.group(&store), Ok(PeerGroup::Auto));
    for g in [PeerGroup::Named("website".into()), PeerGroup::Off, PeerGroup::Auto] {
        m.set_group(&mut store, g.clone()).unwrap();
        assert_eq!(m.group(&store), Ok(g.clone()));
        let reopened =
            PeerMailbox::open(&mut store, id.clone(), Some("r".into()), Some("other".into()), NOW)
                .unwrap();
        assert_eq!(reopened.group(&store), Ok(g));
        m = reopened;
    }
}

#[test]
fn group_change_drops_queued_messages() {
    let mut store = PeerStore::new();
    let a_id = new_id();
    let b_id = new_id();
    let a = PeerMailbox::open(&mut store, a_id.clone(), Some("r".into()), None, NOW).unwrap();
    let mut b = PeerMailbox::open(&mut store, b_id.clone(), Some("r".into()), None, NOW).unwrap();
    a.send(&mut store, &b_id, "first", NOW).unwrap();
    b.set_group(&mut store, PeerGroup::Auto).unwrap();
    assert!(b.pending(&store).is_some());
    b.set_group(&mut store, PeerGroup::Named("team".into())).unwrap();
    assert_eq!(b.pending(&store), None);
}

#[test]
fn messages_are_delivered_in_order_with_growing_ids() {
    let mut store = PeerStore::new();
    let a_id = new_id();
    let b_id = new_id();
    let a = PeerMailbox::open(&mut store, a_id.clone(), Some("r".into()), None, NOW).unwrap();
    let b = PeerMailbox::open(&mut store, b_id.clone(), Some("r".into()), None, NOW).unwrap();
    a.send(&mut store, &b_id, "one", NOW).unwrap();
    a.send(&mut store, &b_id, "two", NOW).unwrap();
    let first = b.pending(&store).unwrap();
    assert_eq!(first.id, 1);
    assert_eq!(first.text, "one");
    b.acknowledge(&mut store, first.id);
    let second = b.pending(&store).unwrap();
    assert_eq!(second.id, 2);
    assert_eq!(second.text, "two");
    // Acknowledging someone else's message id does nothing.
    a.acknowledge(&mut store, second.id);
    assert_eq!(b.pending(&store), Some(second));
    assert_eq!(store.last_message_id(), 2);
}

#[test]
fn heartbeat_refreshes_liveness_and_expires_old_messages() {
    let mut store = PeerStore::new();
    let a_id = new_id();
    let b_id = new_id();
    let a = PeerMailbox::open(&mut store, a_id.clone(), Some("r".into()), None, NOW).unwrap();
    let b = PeerMailbox::open(&mut store, b_id.clone(), Some("r".into()), None, NOW).unwrap();
    assert_eq!(a.list(&store, "", NOW + 30), vec![b_id.clone()]);
    assert_eq!(a.list(&store, "", NOW + 31), Vec::<String>::new());
    assert!(b.heartbeat(&mut store, NOW + 31));
    assert_eq!(a.list(&store, "", NOW + 31), vec![b_id.clone()]);
    a.send(&mut store, &b_id, "old", NOW + 31).unwrap();
    assert!(b.heartbeat(&mut store, NOW + 31 + 86400));
    assert!(b.pending(&store).is_some());
    assert!(b.heartbeat(&mut store, NOW + 32 + 86400));
    assert_eq!(b.pending(&store), None);
}

#[test]
fn listing_pages_by_twenty() {
    let mut store = PeerStore::new();
    let me = PeerMailbox::open(&mut store, "m".into(), None, Some("g".into()), NOW).unwrap();
    let mut ids: Vec<String> = (0..25).map(|i| format!("peer-{i:02}")).collect();
    for id in ids.iter().rev() {
        PeerMailbox::open(&mut store, id.clone(), None, Some("g".into()), NOW).unwrap();
    }
    ids.sort();
    let page = me.list(&store, "", NOW);
    assert_eq!(page, ids[..20].to_vec());
    let rest = me.list(&store, &page[19], NOW);
    assert_eq!(rest, ids[20..].to_vec());
    assert_eq!(me.list(&store, "peer-24", NOW), Vec::<String>::new());
}

#[test]
fn listing_orders_by_code_point() {
    let mut store = PeerStore::new();
    let me = PeerMailbox::open(&mut store, "0".into(), None, Some("g".into()), NOW).unwrap();
    for id in ["b", "ab", "a", "B", "é"] {
        PeerMailbox::open(&mut store, id.into(), None, Some("g".into()), NOW).unwrap();
    }
    assert_eq!(me.list(&store, "", NOW), vec!["B", "a", "ab", "b", "é"]);
    assert_eq!(me.list(&store, "a", NOW), vec!["ab", "b", "é"]);
}

#[test]
fn message_limits_count_utf8_bytes() {
    let mut store = PeerStore::new();
    let a = PeerMailbox::open(&mut store, "a".into(), None, Some("g".into()), NOW).unwrap();
    PeerMailbox::open(&mut store, "b".into(), None, Some("g".into()), NOW).unwrap();
    assert_eq!(a.send(&mut store, "b", &"я".repeat(256), NOW), Ok(()));
    assert_eq!(
        a.send(&mut store, "b", &"я".repeat(257), NOW),
        Err(PeerError::InvalidMessage)
    );
    assert_eq!(a.send(&mut store, "b", "\u{3000}\n", NOW), Err(PeerError::InvalidMessage));
    assert_eq!(a.send(&mut store, "b", "", NOW), Err(PeerError::InvalidMessage));
    assert_eq!(a.send(&mut store, "nobody", "hi", NOW), Err(PeerError::PeerUnavailable));
}

#[test]
fn exhausted_message_ids_report_a_full_store() {
    let mut store = PeerStore::new();
    PeerMailbox::open(&mut store, "a".into(), None, Some("g".into()), NOW).unwrap();
    PeerMailbox::open(&mut store, "b".into(), None, Some("g".into()), NOW).unwrap();
    let peers = store.peers().clone();
    let mut full = PeerStore::from_parts(peers, Vec::new(), i64::MAX).unwrap();
    let a = PeerMailbox::open_with_lease(
        &mut full,
        "a".into(),
        "lease-a".into(),
        None,
        Some("g".into()),
        NOW,
    )
    .unwrap();
    assert_eq!(a.send(&mut full, "b", "hi", NOW), Err(PeerError::StorageFull));
    assert!(full.messages().is_empty());
}

#[test]
fn error_texts() {
    assert_eq!(
        PeerError::InvalidPeerGroup.message(),
        "peer_group must contain 1 to 128 bytes of nonblank text"
    );
    assert_eq!(
        PeerError::InvalidMessage.message(),
        "peer messages must contain 1 to 512 bytes of nonblank text"
    );
    assert_eq!(
        PeerError::PeerUnavailable.message(),
        "peer is unavailable, outside your repository/group, or its inbox is full"
    );
    assert_eq!(
        PeerError::InvalidGroupName.message(),
        "Group names must contain 1 to 128 bytes of nonblank text"
    );
    assert_eq!(
        PeerError::MailboxLost.message(),
        "This session no longer owns its peer mailbox"
    );
    assert_eq!(
        PeerError::Disabled.message(),
        "Peer messaging is disabled by configuration or unavailable for this session."
    );
    assert_eq!(
        PeerError::Storage("disk I/O error".into()).message(),
        "peer messaging storage: disk I/O error"
    );
    assert!(PeerError::RowNotFound.message().starts_with("peer messaging storage: no rows"));
    assert!(PeerError::StorageFull.message().ends_with("database or disk is full"));
}
