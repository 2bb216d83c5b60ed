//! Properties of the mailbox as a whole, over the values that the operations' contracts use.
use crate::mailbox::{
    after_heartbeat, after_selection, can_deliver, is_listing, group_reading, listable,
    next_pending, opened, selected, selection_settings, seen_at, update_owned, valid_selection,
    with_message, without_message, GroupView, MailboxView, MessageView, open_row, takes_part,
};
use crate::store::{
    has_peer, inbox_empty, inbox_size, is_first_for, lemma_first_unique, lemma_row_of, owns,
    retain, row_of, store_wf, unique_ids, visible, MessageRow, PeerRow, StoreView,
    LIVENESS_SECONDS, MAX_INBOX, RETENTION_SECONDS,
};
use vstd::prelude::*;

verus! {

/// Every message that `retain` keeps passes `keep` and was among the messages.
pub proof fn lemma_retain_keeps(messages: Seq<MessageRow>, keep: spec_fn(MessageRow) -> bool)
    ensures
        forall|i: int|
            0 <= i < retain(messages, keep).len() ==> keep(#[trigger] retain(messages, keep)[i]),
        forall|i: int|
            0 <= i < retain(messages, keep).len() ==> messages.contains(
                #[trigger] retain(messages, keep)[i],
            ),
        retain(messages, keep).len() <= messages.len(),
    decreases messages.len(),
{
    if messages.len() > 0 {
        let rest = messages.drop_last();
        lemma_retain_keeps(rest, keep);
        let r = retain(messages, keep);
        assert forall|i: int| 0 <= i < r.len() implies messages.contains(#[trigger] r[i]) by {
            if i < retain(rest, keep).len() {
                assert(r[i] == retain(rest, keep)[i]);
                let j = choose|j: int| 0 <= j < rest.len() && rest[j] == r[i];
                assert(messages[j] == r[i]);
            } else {
                assert(messages[messages.len() - 1] == r[i]);
            }
        }
    }
}

/// Every message that passes `keep` stays.
pub proof fn lemma_retain_keeps_all(messages: Seq<MessageRow>, keep: spec_fn(MessageRow) -> bool)
    ensures
        forall|i: int|
            0 <= i < messages.len() && keep(#[trigger] messages[i]) ==> retain(
                messages,
                keep,
            ).contains(messages[i]),
    decreases messages.len(),
{
    if messages.len() > 0 {
        let rest = messages.drop_last();
        lemma_retain_keeps_all(rest, keep);
        let r = retain(messages, keep);
        assert forall|i: int|
            0 <= i < messages.len() && keep(#[trigger] messages[i]) implies r.contains(
            messages[i],
        ) by {
            if i < messages.len() - 1 {
                assert(rest[i] == messages[i]);
                let k = choose|k: int|
                    0 <= k < retain(rest, keep).len() && retain(rest, keep)[k] == rest[i];
                assert(r[k] == messages[i]);
            } else {
                assert(r[r.len() - 1] == messages[i]);
            }
        }
    }
}

proof fn lemma_update_owned_ids(
    peers: Seq<PeerRow>,
    id: Seq<char>,
    lease: Seq<char>,
    f: spec_fn(PeerRow) -> PeerRow,
)
    requires
        forall|p: PeerRow| #[trigger] f(p).id == p.id,
        unique_ids(peers),
    ensures
        update_owned(peers, id, lease, f).len() == peers.len(),
        unique_ids(update_owned(peers, id, lease, f)),
        forall|k: int|
            0 <= k < peers.len() ==> #[trigger] update_owned(peers, id, lease, f)[k].id
                == peers[k].id,
{
    let q = update_owned(peers, id, lease, f);
    assert forall|k: int| 0 <= k < peers.len() implies #[trigger] q[k].id == peers[k].id by {
        if peers[k].id == id && peers[k].lease == lease {
            assert(f(peers[k]).id == peers[k].id);
        }
    }
    assert forall|a: int, b: int|
        0 <= a < q.len() && 0 <= b < q.len() && a != b implies #[trigger] q[a].id
        != #[trigger] q[b].id by {
        assert(q[a].id == peers[a].id);
        assert(q[b].id == peers[b].id);
    }
}

/// Where (`id`, `lease`) owns its session, the row that `update_owned` gives for `id` is `f` of
/// the old one.
proof fn lemma_update_owned_row(
    s: StoreView,
    id: Seq<char>,
    lease: Seq<char>,
    f: spec_fn(PeerRow) -> PeerRow,
    s2: StoreView,
)
    requires
        forall|p: PeerRow| #[trigger] f(p).id == p.id && f(p).lease == p.lease,
        unique_ids(s.peers),
        owns(s, id, lease),
        s2.peers == update_owned(s.peers, id, lease, f),
    ensures
        unique_ids(s2.peers),
        owns(s2, id, lease),
        row_of(s2, id) == f(row_of(s, id)),
        forall|x: Seq<char>| x != id ==> (has_peer(s2, x) <==> has_peer(s, x)),
        forall|x: Seq<char>| x != id && has_peer(s, x) ==> row_of(s2, x) == row_of(s, x),
{
    lemma_update_owned_ids(s.peers, id, lease, f);
    let i = choose|i: int| 0 <= i < s.peers.len() && #[trigger] s.peers[i].id == id && s.peers[i].lease == lease;
    lemma_row_of(s, i);
    lemma_row_of(s2, i);
    assert(f(s.peers[i]).lease == lease);
    assert(s2.peers[i] == f(s.peers[i]));
    assert forall|x: Seq<char>| x != id implies (has_peer(s2, x) <==> has_peer(s, x)) by {
        if has_peer(s, x) {
            let k = choose|k: int| 0 <= k < s.peers.len() && #[trigger] s.peers[k].id == x;
            assert(s2.peers[k].id == x);
        }
        if has_peer(s2, x) {
            let k = choose|k: int| 0 <= k < s2.peers.len() && #[trigger] s2.peers[k].id == x;
            assert(s.peers[k].id == x);
        }
    }
    assert forall|x: Seq<char>| x != id && has_peer(s, x) implies row_of(s2, x) == row_of(s, x) by {
        let k = choose|k: int| 0 <= k < s.peers.len() && #[trigger] s.peers[k].id == x;
        lemma_row_of(s, k);
        lemma_row_of(s2, k);
        assert(s2.peers[k] == s.peers[k]);
    }
}

/// Reading the group right after a successful selection gives that selection back.
pub proof fn law_selection_reads_back(s: StoreView, m: MailboxView, g: GroupView)
    requires
        store_wf(s),
        valid_selection(g),
        owns(s, m.id, m.lease),
    ensures
        group_reading(after_selection(s, m.id, m.lease, g), m) == Ok::<GroupView, crate::mailbox::PeerError>(g),
{
    let (enabled, name) = selection_settings(g);
    let f = |p: PeerRow| selected(p, enabled, name);
    let s2 = after_selection(s, m.id, m.lease, g);
    lemma_update_owned_row(s, m.id, m.lease, f, s2);
}


/// The rows after opening `id` under `lease`: ids stay unique, `lease` owns the session, its row
/// is the opened row, and other sessions keep their rows.
proof fn lemma_opened_rows(
    s: StoreView,
    id: Seq<char>,
    lease: Seq<char>,
    repository: Option<Seq<char>>,
    group: Option<Seq<char>>,
    now: int,
)
    requires
        unique_ids(s.peers),
    ensures
        unique_ids(opened(s, id, lease, repository, group, now).peers),
        owns(opened(s, id, lease, repository, group, now), id, lease),
        row_of(opened(s, id, lease, repository, group, now), id) == crate::mailbox::open_row(
            s,
            id,
            lease,
            repository,
            group,
            now,
        ),
        forall|x: Seq<char>|
            x != id && has_peer(s, x) ==> has_peer(opened(s, id, lease, repository, group, now), x)
                && row_of(opened(s, id, lease, repository, group, now), x) == row_of(s, x),
{
    let s2 = opened(s, id, lease, repository, group, now);
    if has_peer(s, id) {
        let i = choose|i: int| 0 <= i < s.peers.len() && #[trigger] s.peers[i].id == id;
        assert forall|k: int| 0 <= k < s.peers.len() implies #[trigger] s2.peers[k].id
            == s.peers[k].id by {
        }
        assert forall|a: int, b: int|
            0 <= a < s2.peers.len() && 0 <= b < s2.peers.len() && a != b implies #[trigger] s2.peers[a].id
            != #[trigger] s2.peers[b].id by {
            assert(s2.peers[a].id == s.peers[a].id);
            assert(s2.peers[b].id == s.peers[b].id);
        }
        lemma_row_of(s, i);
        lemma_row_of(s2, i);
        assert(s2.peers[i].lease == lease);
        assert forall|x: Seq<char>|
            x != id && has_peer(s, x) implies has_peer(s2, x) && row_of(s2, x) == row_of(s, x) by {
            let k = choose|k: int| 0 <= k < s.peers.len() && #[trigger] s.peers[k].id == x;
            lemma_row_of(s, k);
            lemma_row_of(s2, k);
        }
    } else {
        let n = s.peers.len() as int;
        assert forall|a: int, b: int|
            0 <= a < s2.peers.len() && 0 <= b < s2.peers.len() && a != b implies #[trigger] s2.peers[a].id
            != #[trigger] s2.peers[b].id by {
            if a < n && b < n {
                assert(s2.peers[a].id == s.peers[a].id);
                assert(s2.peers[b].id == s.peers[b].id);
            } else if a == n {
                assert(s.peers[b].id == s2.peers[b].id);
            } else {
                assert(s.peers[a].id == s2.peers[a].id);
            }
        }
        lemma_row_of(s2, n);
        assert(s2.peers[n].lease == lease);
        assert forall|x: Seq<char>|
            x != id && has_peer(s, x) implies has_peer(s2, x) && row_of(s2, x) == row_of(s, x) by {
            let k = choose|k: int| 0 <= k < s.peers.len() && #[trigger] s.peers[k].id == x;
            lemma_row_of(s, k);
            assert(s2.peers[k] == s.peers[k]);
            lemma_row_of(s2, k);
        }
    }
}

/// A group chosen by the user survives the session being reopened, by any runtime, in any
/// repository and with any configured group.
pub proof fn law_selection_survives_reopen(
    s: StoreView,
    m: MailboxView,
    g: GroupView,
    lease: Seq<char>,
    repository: Option<Seq<char>>,
    group: Option<Seq<char>>,
    now: int,
    reopened: MailboxView,
)
    requires
        store_wf(s),
        valid_selection(g),
        owns(s, m.id, m.lease),
        reopened.id == m.id,
        reopened.lease == lease,
    ensures
        group_reading(
            opened(after_selection(s, m.id, m.lease, g), m.id, lease, repository, group, now),
            reopened,
        ) == Ok::<GroupView, crate::mailbox::PeerError>(g),
{
    let (enabled, name) = selection_settings(g);
    let f = |p: PeerRow| selected(p, enabled, name);
    let s2 = after_selection(s, m.id, m.lease, g);
    lemma_update_owned_row(s, m.id, m.lease, f, s2);
    lemma_opened_rows(s2, m.id, lease, repository, group, now);
}

/// A message sent to a peer with an empty inbox is the message that peer is offered next, with
/// the sender's id and the text as sent.
pub proof fn law_sent_message_is_pending(
    s: StoreView,
    sender: MailboxView,
    recipient: Seq<char>,
    recipient_lease: Seq<char>,
    text: Seq<char>,
    now: int,
)
    requires
        store_wf(s),
        can_deliver(s, sender.id, sender.lease, recipient, now),
        owns(s, recipient, recipient_lease),
        inbox_empty(s.messages, recipient),
    ensures
        next_pending(with_message(s, sender.id, recipient, text, now), recipient, recipient_lease)
            == Some(MessageView { id: s.last_message_id + 1, sender: sender.id, text: text }),
{
    let s2 = with_message(s, sender.id, recipient, text, now);
    let n = s.messages.len() as int;
    assert(s2.messages[n].recipient == recipient);
    assert(is_first_for(s2.messages, recipient, n));
    assert(!inbox_empty(s2.messages, recipient));
    let c = choose|c: int| is_first_for(s2.messages, recipient, c);
    lemma_first_unique(s2.messages, recipient, c, n);
}

/// Once acknowledged, a message is not offered again, and every other message stays queued.
pub proof fn law_acknowledged_message_leaves(s: StoreView, m: MailboxView, v: MessageView)
    requires
        store_wf(s),
        owns(s, m.id, m.lease),
        next_pending(s, m.id, m.lease) == Some(v),
    ensures
        forall|i: int|
            0 <= i < without_message(s.messages, m.id, v.id).len() && #[trigger] without_message(
                s.messages,
                m.id,
                v.id,
            )[i].recipient == m.id ==> without_message(s.messages, m.id, v.id)[i].id != v.id,
        next_pending(
            StoreView {
                peers: s.peers,
                messages: without_message(s.messages, m.id, v.id),
                last_message_id: s.last_message_id,
            },
            m.id,
            m.lease,
        ) != Some(v),
        forall|i: int|
            0 <= i < s.messages.len() && !(s.messages[i].id == v.id && #[trigger] s.messages[i].recipient
                == m.id) ==> without_message(s.messages, m.id, v.id).contains(s.messages[i]),
{
    let keep = |x: MessageRow| !(x.id == v.id && x.recipient == m.id);
    lemma_retain_keeps(s.messages, keep);
    lemma_retain_keeps_all(s.messages, keep);
    let r = without_message(s.messages, m.id, v.id);
    assert(keep =~= (|x: MessageRow| !(x.id == v.id && x.recipient == m.id)));
    assert(r == retain(s.messages, keep));
    let s2 = StoreView { peers: s.peers, messages: r, last_message_id: s.last_message_id };
    assert forall|i: int| 0 <= i < r.len() && #[trigger] r[i].recipient == m.id implies r[i].id != v.id by {
        assert(keep(r[i]));
    }
    if next_pending(s2, m.id, m.lease) == Some(v) {
        crate::store::lemma_first_exists(r, m.id);
        let c = choose|c: int| is_first_for(r, m.id, c);
        assert(keep(r[c]));
    }
}

/// A session that turns itself off is listed by no one, cannot be sent to, and lists no one.
pub proof fn law_off_hides_session(
    s: StoreView,
    m: MailboxView,
    other: Seq<char>,
    other_lease: Seq<char>,
    after: Seq<char>,
    x: Seq<char>,
    now: int,
)
    requires
        store_wf(s),
        owns(s, m.id, m.lease),
    ensures
        !listable(after_selection(s, m.id, m.lease, GroupView::Off), other, other_lease, after, now, m.id),
        !can_deliver(after_selection(s, m.id, m.lease, GroupView::Off), other, other_lease, m.id, now),
        !listable(after_selection(s, m.id, m.lease, GroupView::Off), m.id, m.lease, after, now, x),
{
    let f = |p: PeerRow| selected(p, false, None);
    let s2 = after_selection(s, m.id, m.lease, GroupView::Off);
    lemma_update_owned_row(s, m.id, m.lease, f, s2);
    assert(!row_of(s2, m.id).enabled);
    if listable(s2, other, other_lease, after, now, m.id) {
        let j = choose|j: int|
            0 <= j < s2.peers.len() && #[trigger] s2.peers[j].id == m.id && visible(
                row_of(s2, other),
                s2.peers[j],
                now,
            );
        lemma_row_of(s2, j);
    }
}

/// A closed session is listed by no one and cannot be sent to, once 30 seconds have passed since
/// the epoch.
pub proof fn law_closed_session_hidden(
    s: StoreView,
    m: MailboxView,
    other: Seq<char>,
    other_lease: Seq<char>,
    after: Seq<char>,
    now: int,
)
    requires
        store_wf(s),
        owns(s, m.id, m.lease),
        now > LIVENESS_SECONDS,
    ensures
        !listable(
            StoreView {
                peers: update_owned(s.peers, m.id, m.lease, |p: PeerRow| seen_at(p, 0)),
                messages: s.messages,
                last_message_id: s.last_message_id,
            },
            other,
            other_lease,
            after,
            now,
            m.id,
        ),
        !can_deliver(
            StoreView {
                peers: update_owned(s.peers, m.id, m.lease, |p: PeerRow| seen_at(p, 0)),
                messages: s.messages,
                last_message_id: s.last_message_id,
            },
            other,
            other_lease,
            m.id,
            now,
        ),
{
    let f = |p: PeerRow| seen_at(p, 0);
    let s2 = StoreView {
        peers: update_owned(s.peers, m.id, m.lease, f),
        messages: s.messages,
        last_message_id: s.last_message_id,
    };
    lemma_update_owned_row(s, m.id, m.lease, f, s2);
    assert(row_of(s2, m.id).seen == 0);
    if listable(s2, other, other_lease, after, now, m.id) {
        let j = choose|j: int|
            0 <= j < s2.peers.len() && #[trigger] s2.peers[j].id == m.id && visible(
                row_of(s2, other),
                s2.peers[j],
                now,
            );
        lemma_row_of(s2, j);
    }
}

/// Once the session is reopened under another lease, the earlier runtime owns nothing: it is
/// offered no message and cannot read the group, while the new runtime owns the session.
pub proof fn law_reopening_revokes_lease(
    s: StoreView,
    m: MailboxView,
    lease: Seq<char>,
    repository: Option<Seq<char>>,
    group: Option<Seq<char>>,
    now: int,
)
    requires
        store_wf(s),
        lease != m.lease,
    ensures
        !owns(opened(s, m.id, lease, repository, group, now), m.id, m.lease),
        owns(opened(s, m.id, lease, repository, group, now), m.id, lease),
        next_pending(opened(s, m.id, lease, repository, group, now), m.id, m.lease) is None,
        group_reading(opened(s, m.id, lease, repository, group, now), m) == Err::<
            GroupView,
            crate::mailbox::PeerError,
        >(crate::mailbox::PeerError::RowNotFound),
{
    let s2 = opened(s, m.id, lease, repository, group, now);
    lemma_opened_rows(s, m.id, lease, repository, group, now);
    if owns(s2, m.id, m.lease) {
        let i = choose|i: int|
            0 <= i < s2.peers.len() && #[trigger] s2.peers[i].id == m.id && s2.peers[i].lease
                == m.lease;
        lemma_row_of(s2, i);
    }
}

/// Reopening a session in the same repository, and in the same group unless the user chose
/// one, keeps its queued messages; reopening it elsewhere leaves none queued for it.
pub proof fn law_reopening_scope(
    s: StoreView,
    id: Seq<char>,
    lease: Seq<char>,
    repository: Option<Seq<char>>,
    group: Option<Seq<char>>,
    now: int,
)
    requires
        store_wf(s),
    ensures
        !crate::mailbox::scope_changed(s, id, repository, group) ==> opened(
            s,
            id,
            lease,
            repository,
            group,
            now,
        ).messages == s.messages,
        crate::mailbox::scope_changed(s, id, repository, group) ==> inbox_empty(
            opened(s, id, lease, repository, group, now).messages,
            id,
        ),
{
    let keep = |x: MessageRow| x.recipient != id;
    lemma_retain_keeps(s.messages, keep);
}

/// Liveness aside, seeing is mutual: where `b` is a live peer of `a` and `a` is fresh, `a` is a
/// live peer of `b`.
pub proof fn law_visibility_is_mutual(a: PeerRow, b: PeerRow, now: int)
    requires
        visible(a, b, now),
        a.seen >= now - LIVENESS_SECONDS,
    ensures
        visible(b, a, now),
{
}

/// After a heartbeat no message older than a day stays queued, and every newer one does.
pub proof fn law_heartbeat_expires_old_messages(s: StoreView, id: Seq<char>, lease: Seq<char>, now: int)
    ensures
        forall|i: int|
            0 <= i < after_heartbeat(s, id, lease, now).messages.len() ==> #[trigger] after_heartbeat(
                s,
                id,
                lease,
                now,
            ).messages[i].created >= now - RETENTION_SECONDS,
        forall|i: int|
            0 <= i < s.messages.len() && #[trigger] s.messages[i].created >= now - RETENTION_SECONDS
                ==> after_heartbeat(s, id, lease, now).messages.contains(s.messages[i]),
{
    let keep = |m: MessageRow| !(m.created < now - RETENTION_SECONDS);
    lemma_retain_keeps(s.messages, keep);
    lemma_retain_keeps_all(s.messages, keep);
}

/// Sending never fills an inbox beyond 64 messages.
pub proof fn law_inbox_stays_bounded(
    s: StoreView,
    sender: MailboxView,
    recipient: Seq<char>,
    text: Seq<char>,
    now: int,
)
    requires
        can_deliver(s, sender.id, sender.lease, recipient, now),
    ensures
        inbox_size(with_message(s, sender.id, recipient, text, now).messages, recipient) <= MAX_INBOX,
{
    let s2 = with_message(s, sender.id, recipient, text, now);
    assert(s2.messages.drop_last() =~= s.messages);
}


/// A full page hands on its last id as the cursor: every listable id not on the page comes after
/// that cursor, so listing after it continues where the page ended.
pub proof fn law_cursor_continues_listing(
    r: Seq<Seq<char>>,
    s: StoreView,
    id: Seq<char>,
    lease: Seq<char>,
    after: Seq<char>,
    now: int,
    x: Seq<char>,
)
    requires
        is_listing(r, s, id, lease, after, now),
        r.len() == crate::store::PAGE_SIZE,
        listable(s, id, lease, after, now, x),
        !r.contains(x),
    ensures
        listable(s, id, lease, r.last(), now, x),
{
}

/// Sessions of one repository see each other whatever groups they are in, while both take part,
/// differ, and were seen in the last 30 seconds.
pub proof fn law_repository_peers_stay_visible(a: PeerRow, b: PeerRow, now: int)
    requires
        a.enabled,
        b.enabled,
        a.id != b.id,
        b.seen >= now - LIVENESS_SECONDS,
        a.repository is Some,
        a.repository == b.repository,
    ensures
        visible(a, b, now),
{
}

/// A queued message gets an id above every id already in the store, so ids are never reused.
pub proof fn law_message_ids_are_fresh(
    s: StoreView,
    sender: Seq<char>,
    recipient: Seq<char>,
    text: Seq<char>,
    now: int,
)
    requires
        store_wf(s),
    ensures
        forall|i: int|
            0 <= i < s.messages.len() ==> #[trigger] s.messages[i].id < with_message(
                s,
                sender,
                recipient,
                text,
                now,
            ).last_message_id,
        store_wf(with_message(s, sender, recipient, text, now)),
{
    let s2 = with_message(s, sender, recipient, text, now);
    assert forall|i: int, j: int| 0 <= i < j < s2.messages.len() implies #[trigger] s2.messages[i].id
        < #[trigger] s2.messages[j].id by {
        if j == s.messages.len() {
            assert(s2.messages[i] == s.messages[i]);
        } else {
            assert(s2.messages[i] == s.messages[i]);
            assert(s2.messages[j] == s.messages[j]);
        }
    }
    assert forall|i: int| 0 <= i < s2.messages.len() implies 1 <= #[trigger] s2.messages[i].id
        <= s2.last_message_id by {
        if i < s.messages.len() {
            assert(s2.messages[i] == s.messages[i]);
        }
    }
}

/// Tool calls never change a session's row: scope and participation stay host- and user-chosen.
pub proof fn law_tools_leave_sessions_unchanged(
    s: StoreView,
    m: MailboxView,
    raw: Seq<char>,
    budget: nat,
    args: Result<crate::tools::ToolArgs, String>,
    now: int,
    listing: Seq<Seq<char>>,
)
    ensures
        crate::tools::call_effect(s, m, raw, budget, args, now, listing).0.peers == s.peers,
{
}


/// Filtering a concatenation filters each part.
proof fn lemma_retain_append(a: Seq<MessageRow>, b: Seq<MessageRow>, keep: spec_fn(MessageRow) -> bool)
    ensures
        retain(a + b, keep) == retain(a, keep) + retain(b, keep),
    decreases b.len(),
{
    if b.len() == 0 {
        assert(a + b =~= a);
        assert(retain(a, keep) + retain(b, keep) =~= retain(a, keep));
    } else {
        assert((a + b).drop_last() =~= a + b.drop_last());
        assert((a + b).last() == b.last());
        lemma_retain_append(a, b.drop_last(), keep);
        if keep(b.last()) {
            assert(retain(a, keep) + retain(b.drop_last(), keep).push(b.last()) =~= (retain(
                a,
                keep,
            ) + retain(b.drop_last(), keep)).push(b.last()));
        }
    }
}

/// A delivery round that is refused leaves the message queued, and the next round offers it
/// again, first: after a round at `now` offered `v` and the recipient refused it (the store is
/// as that round left it), a round at a later time `later` offers `v` again, as long as `v` is
/// not yet a day old then and the runtime still owns its session.
pub proof fn law_refused_message_is_offered_again(
    s: StoreView,
    m: MailboxView,
    now: int,
    later: int,
    v: MessageView,
)
    requires
        store_wf(s),
        owns(s, m.id, m.lease),
        next_pending(after_heartbeat(s, m.id, m.lease, now), m.id, m.lease) == Some(v),
        exists|i: int|
            0 <= i < s.messages.len() && #[trigger] s.messages[i].id == v.id
                && s.messages[i].recipient == m.id && s.messages[i].created >= later
                - RETENTION_SECONDS,
    ensures
        next_pending(
            after_heartbeat(after_heartbeat(s, m.id, m.lease, now), m.id, m.lease, later),
            m.id,
            m.lease,
        ) == Some(v),
{
    let s1 = after_heartbeat(s, m.id, m.lease, now);
    let s2 = after_heartbeat(s1, m.id, m.lease, later);
    let f1 = |p: PeerRow| seen_at(p, now);
    let f2 = |p: PeerRow| seen_at(p, later);
    lemma_update_owned_row(s, m.id, m.lease, f1, s1);
    lemma_update_owned_row(s1, m.id, m.lease, f2, s2);
    let keep1 = |x: MessageRow| !(x.created < now - RETENTION_SECONDS);
    let keep2 = |x: MessageRow| !(x.created < later - RETENTION_SECONDS);
    // The message that the first round offered is the first one for the session in s1.
    crate::store::lemma_first_exists(s1.messages, m.id);
    let k = choose|k: int| is_first_for(s1.messages, m.id, k);
    let msgs = s1.messages;
    assert(msgs[k].id == v.id);
    // It survives the second filtering: it is the message with id v.id in s.
    let i = choose|i: int|
        0 <= i < s.messages.len() && #[trigger] s.messages[i].id == v.id && s.messages[i].recipient
            == m.id && s.messages[i].created >= later - RETENTION_SECONDS;
    lemma_retain_keeps(s.messages, keep1);
    let j = choose|j: int| 0 <= j < s.messages.len() && s.messages[j] == msgs[k];
    if j != i {
        if j < i {
            assert(s.messages[j].id < s.messages[i].id);
        } else {
            assert(s.messages[i].id < s.messages[j].id);
        }
    }
    assert(keep2(msgs[k]));
    // Split s1's messages around k and filter each part.
    let before = msgs.take(k);
    let after = msgs.skip(k + 1);
    assert(msgs =~= before + seq![msgs[k]] + after);
    lemma_retain_append(before + seq![msgs[k]], after, keep2);
    lemma_retain_append(before, seq![msgs[k]], keep2);
    let single = seq![msgs[k]];
    assert(single.drop_last() =~= Seq::<MessageRow>::empty());
    assert(retain(single.drop_last(), keep2) == Seq::<MessageRow>::empty());
    assert(single.last() == msgs[k]);
    assert(retain(single, keep2) =~= seq![msgs[k]]);
    let rb = retain(before, keep2);
    assert(s2.messages == rb + seq![msgs[k]] + retain(after, keep2));
    lemma_retain_keeps(before, keep2);
    let n = rb.len() as int;
    assert forall|q: int| 0 <= q < n implies #[trigger] s2.messages[q].recipient != m.id by {
        assert(s2.messages[q] == rb[q]);
        assert(before.contains(rb[q]));
        let t = choose|t: int| 0 <= t < before.len() && before[t] == rb[q];
        assert(msgs[t] == before[t]);
    }
    assert(s2.messages[n] == msgs[k]);
    assert(is_first_for(s2.messages, m.id, n));
    let c = choose|c: int| is_first_for(s2.messages, m.id, c);
    lemma_first_unique(s2.messages, m.id, c, n);
}


/// Rebinding a session to another repository leaves no message queued for it: what was sent to
/// it in the previous repository is never shown in the new one.
pub proof fn law_new_repository_drops_queue(
    s: StoreView,
    id: Seq<char>,
    lease: Seq<char>,
    repository: Option<Seq<char>>,
    group: Option<Seq<char>>,
    now: int,
)
    requires
        has_peer(s, id),
        row_of(s, id).repository != repository,
    ensures
        forall|i: int|
            0 <= i < opened(s, id, lease, repository, group, now).messages.len()
                ==> #[trigger] opened(s, id, lease, repository, group, now).messages[i].recipient != id,
{
    lemma_retain_keeps(s.messages, |m: MessageRow| m.recipient != id);
}

/// Rebinding a session whose group the user has not chosen to another group leaves no message
/// queued for it.
pub proof fn law_new_group_drops_queue(
    s: StoreView,
    id: Seq<char>,
    lease: Seq<char>,
    repository: Option<Seq<char>>,
    group: Option<Seq<char>>,
    now: int,
)
    requires
        has_peer(s, id),
        !row_of(s, id).user_selected,
        row_of(s, id).group_name != group,
    ensures
        forall|i: int|
            0 <= i < opened(s, id, lease, repository, group, now).messages.len()
                ==> #[trigger] opened(s, id, lease, repository, group, now).messages[i].recipient != id,
{
    lemma_retain_keeps(s.messages, |m: MessageRow| m.recipient != id);
}

/// A session opened in a repository, or with a group, takes part (its tools are offered) while
/// it is enabled: a new session always; a known one where it is enabled and, for a group given
/// without a repository, where its group was not chosen by the user.
pub proof fn law_opened_session_takes_part(
    s: StoreView,
    id: Seq<char>,
    lease: Seq<char>,
    repository: Option<Seq<char>>,
    group: Option<Seq<char>>,
    now: int,
)
    requires
        repository is Some || group is Some,
        has_peer(s, id) ==> row_of(s, id).enabled,
        has_peer(s, id) && repository is None ==> !row_of(s, id).user_selected,
    ensures
        takes_part(open_row(s, id, lease, repository, group, now)),
        open_row(s, id, lease, repository, group, now).enabled,
        repository is Some ==> open_row(s, id, lease, repository, group, now).repository == repository,
        !has_peer(s, id) || !row_of(s, id).user_selected ==> open_row(
            s,
            id,
            lease,
            repository,
            group,
            now,
        ).group_name == group,
{
}

/// Turning participation off, or back on, leaves no message queued for the session: what was
/// queued before an opt-out is never delivered after opting back in. So does moving to another
/// group.
pub proof fn law_participation_change_drops_queue(
    s: StoreView,
    id: Seq<char>,
    lease: Seq<char>,
    g: GroupView,
)
    requires
        store_wf(s),
        owns(s, id, lease),
        (row_of(s, id).enabled && g is Off) || (!row_of(s, id).enabled && !(g is Off)) || (
        row_of(s, id).enabled && match g {
            GroupView::Named(n) => row_of(s, id).group_name != Some(n),
            GroupView::Auto => row_of(s, id).group_name is Some,
            GroupView::Off => false,
        }),
    ensures
        forall|i: int|
            0 <= i < after_selection(s, id, lease, g).messages.len()
                ==> #[trigger] after_selection(s, id, lease, g).messages[i].recipient != id,
{
    lemma_retain_keeps(s.messages, |m: MessageRow| m.recipient != id);
}

/// Reading the group of a session gives `Off` while it is disabled, the named group while it is
/// enabled with a group (whether the host or the user chose it), and `Auto` otherwise.
pub proof fn law_group_reading(s: StoreView, m: MailboxView)
    requires
        store_wf(s),
        owns(s, m.id, m.lease),
    ensures
        !row_of(s, m.id).enabled ==> group_reading(s, m) == Ok::<GroupView, crate::mailbox::PeerError>(
            GroupView::Off,
        ),
        row_of(s, m.id).enabled && row_of(s, m.id).group_name is Some ==> group_reading(s, m)
            == Ok::<GroupView, crate::mailbox::PeerError>(
            GroupView::Named(row_of(s, m.id).group_name->0),
        ),
        row_of(s, m.id).enabled && row_of(s, m.id).group_name is None ==> group_reading(s, m)
            == Ok::<GroupView, crate::mailbox::PeerError>(GroupView::Auto),
{
}

/// A new session opened with a group reads back that group.
pub proof fn law_opened_group_reads_back(
    s: StoreView,
    m: MailboxView,
    repository: Option<Seq<char>>,
    name: Seq<char>,
    now: int,
)
    requires
        store_wf(s),
        !has_peer(s, m.id),
    ensures
        group_reading(opened(s, m.id, m.lease, repository, Some(name), now), m) == Ok::<
            GroupView,
            crate::mailbox::PeerError,
        >(GroupView::Named(name)),
{
    lemma_opened_rows(s, m.id, m.lease, repository, Some(name), now);
}

} // verus!
