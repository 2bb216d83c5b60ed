use agent_message_board::store::{PeerRecord, PeerStore, StoredMessage};
use agent_message_board::text::{push_decimal, str_is_blank, str_lt, trimmed};

fn record(id: &str) -> PeerRecord {
    PeerRecord {
        id: id.into(),
        lease: "l".into(),
        repository: None,
        group_name: None,
        seen: 0,
        enabled: true,
        user_selected: false,
    }
}

fn message(id: i64) -> StoredMessage {
    StoredMessage { id, sender: "a".into(), recipient: "b".into(), text: "t".into(), created: 0 }
}

#[test]
fn text_helpers_follow_std() {
    for s in ["", "  ", "\u{a0}\u{2003}\t", "x", " a ", "\u{200b}"] {
        assert_eq!(str_is_blank(s), s.trim().is_empty(), "{s:?}");
        assert_eq!(trimmed(s), s.trim(), "{s:?}");
    }
    for (a, b) in [("a", "b"), ("a", "ab"), ("", "a"), ("b", "a"), ("é", "z"), ("Z", "a"), ("a", "a")] {
        assert_eq!(str_lt(a, b), a.as_bytes() < b.as_bytes(), "{a:?} {b:?}");
    }
    for n in [0i64, 7, 10, 12345, -1, -9876543210, i64::MAX, i64::MIN] {
        let mut s = String::from("#");
        push_decimal(&mut s, n);
        assert_eq!(s, format!("#{n}"));
    }
}

#[test]
fn stores_rebuilt_from_rows_are_checked() {
    assert!(PeerStore::from_parts(vec![record("a"), record("b")], vec![message(1), message(3)], 3).is_some());
    assert!(PeerStore::from_parts(vec![record("a"), record("a")], vec![], 0).is_none());
    assert!(PeerStore::from_parts(vec![], vec![message(2), message(1)], 3).is_none());
    assert!(PeerStore::from_parts(vec![], vec![message(4)], 3).is_none());
    assert!(PeerStore::from_parts(vec![], vec![message(0)], 3).is_none());
    assert!(PeerStore::from_parts(vec![], vec![], -1).is_none());
}
