//! One session's handle on the shared store, and the operations it performs there.
use crate::store::{
    has_peer, inbox_empty, inbox_size, is_first_for, is_visible, message_row, owns, retain,
    row_of, same_text, copy_text, visible, MessageRow, PeerRecord, PeerRow, PeerStore,
    Retention, StoreView, MAX_INBOX, PAGE_SIZE, RETENTION_SECONDS, lemma_first_unique,
    unique_ids, opt_view, peer_rows,
};
use crate::text::{
    is_blank, str_is_blank, str_lt, text_lt,
};
use vstd::prelude::*;
use vstd::string::*;
use vstd::utf8::encode_utf8;

verus! {

/// Longest group name, in UTF-8 bytes.
pub const MAX_GROUP_BYTES: usize = 128;

/// Longest message text, in UTF-8 bytes.
pub const MAX_MESSAGE_BYTES: usize = 512;

/// Why a mailbox operation was refused.
#[derive(Clone, Debug, PartialEq, Eq)]
pub enum PeerError {
    /// The group given when opening a mailbox is blank or longer than 128 bytes.
    InvalidPeerGroup,
    /// A message text is blank or longer than 512 bytes.
    InvalidMessage,
    /// The recipient is not a live peer in the sender's repository or group, the sender does
    /// not own its session, or the recipient's inbox is full.
    PeerUnavailable,
    /// A selected group name is blank or longer than 128 bytes.
    InvalidGroupName,
    /// Another runtime has taken over this session.
    MailboxLost,
    /// The session has no mailbox.
    Disabled,
    /// The session's row no longer holds this runtime's lease.
    RowNotFound,
    /// Every message id has been handed out.
    StorageFull,
    /// The storage layer failed, with its description.
    Storage(String),
}

/// The text that describes an error.
pub open spec fn error_text(e: PeerError) -> Seq<char> {
    match e {
        PeerError::InvalidPeerGroup => "peer_group must contain 1 to 128 bytes of nonblank text"@,
        PeerError::InvalidMessage => "peer messages must contain 1 to 512 bytes of nonblank text"@,
        PeerError::PeerUnavailable =>
            "peer is unavailable, outside your repository/group, or its inbox is full"@,
        PeerError::InvalidGroupName => "Group names must contain 1 to 128 bytes of nonblank text"@,
        PeerError::MailboxLost => "This session no longer owns its peer mailbox"@,
        PeerError::Disabled =>
            "Peer messaging is disabled by configuration or unavailable for this session."@,
        PeerError::RowNotFound =>
            "peer messaging storage: no rows returned by a query that expected to return at least one row"@,
        PeerError::StorageFull =>
            "peer messaging storage: error returned from database: (code: 13) database or disk is full"@,
        PeerError::Storage(s) => "peer messaging storage: "@ + s@,
    }
}

impl PeerError {
    /// The text that describes this error.
    pub fn message(&self) -> (res: String)
        ensures
            res@ == error_text(*self),
    {
        match self {
            PeerError::InvalidPeerGroup => String::from_str(
                "peer_group must contain 1 to 128 bytes of nonblank text",
            ),
            PeerError::InvalidMessage => String::from_str(
                "peer messages must contain 1 to 512 bytes of nonblank text",
            ),
            PeerError::PeerUnavailable => String::from_str(
                "peer is unavailable, outside your repository/group, or its inbox is full",
            ),
            PeerError::InvalidGroupName => String::from_str(
                "Group names must contain 1 to 128 bytes of nonblank text",
            ),
            PeerError::MailboxLost => String::from_str(
                "This session no longer owns its peer mailbox",
            ),
            PeerError::Disabled => String::from_str(
                "Peer messaging is disabled by configuration or unavailable for this session.",
            ),
            PeerError::RowNotFound => String::from_str(
                "peer messaging storage: no rows returned by a query that expected to return at least one row",
            ),
            PeerError::StorageFull => String::from_str(
                "peer messaging storage: error returned from database: (code: 13) database or disk is full",
            ),
            PeerError::Storage(s) => {
                let mut res = String::from_str("peer messaging storage: ");
                res.append(s.as_str());
                res
            },
        }
    }
}

/// A user-selected scope for independent sessions. Named groups also retain repository peers.
#[derive(Clone, Debug, PartialEq, Eq)]
pub enum PeerGroup {
    Auto,
    Off,
    Named(String),
}

/// The mathematical value of a [`PeerGroup`].
pub enum GroupView {
    Auto,
    Off,
    Named(Seq<char>),
}

impl View for PeerGroup {
    type V = GroupView;

    open spec fn view(&self) -> GroupView {
        match self {
            PeerGroup::Auto => GroupView::Auto,
            PeerGroup::Off => GroupView::Off,
            PeerGroup::Named(n) => GroupView::Named(n@),
        }
    }
}

/// A bounded message attributed to an independent session, never to the user.
#[derive(Clone, Debug, PartialEq, Eq)]
pub struct PeerMessage {
    pub id: i64,
    pub sender: String,
    pub text: String,
}

/// The mathematical value of a [`PeerMessage`].
pub struct MessageView {
    pub id: int,
    pub sender: Seq<char>,
    pub text: Seq<char>,
}

impl View for PeerMessage {
    type V = MessageView;

    open spec fn view(&self) -> MessageView {
        MessageView { id: self.id as int, sender: self.sender@, text: self.text@ }
    }
}

/// The value of an optional message.
pub open spec fn opt_message(m: Option<PeerMessage>) -> Option<MessageView> {
    match m {
        Some(m) => Some(m@),
        None => None,
    }
}

/// The values of a list of strings.
pub open spec fn texts(v: Seq<String>) -> Seq<Seq<char>> {
    v.map_values(|s: String| s@)
}

/// One runtime's lease on a session's mailbox.
pub struct PeerMailbox {
    id: String,
    lease: String,
    available: bool,
    has_repository: bool,
}

/// The mathematical value of a [`PeerMailbox`]: the session id, the lease, whether its tools are
/// offered, and whether it was opened inside a repository.
pub struct MailboxView {
    pub id: Seq<char>,
    pub lease: Seq<char>,
    pub available: bool,
    pub has_repository: bool,
}

impl View for PeerMailbox {
    type V = MailboxView;

    closed spec fn view(&self) -> MailboxView {
        MailboxView {
            id: self.id@,
            lease: self.lease@,
            available: self.available,
            has_repository: self.has_repository,
        }
    }
}

/// A group name or message text fits: not blank, and at most `max` bytes of UTF-8.
pub open spec fn fits(text: Seq<char>, max: nat) -> bool {
    !is_blank(text) && encode_utf8(text).len() <= max
}

/// Whether `text` is not blank and at most `max` bytes long.
pub fn text_fits(text: &str, max: usize) -> (res: bool)
    ensures
        res == fits(text@, max as nat),
{
    let bytes = text.as_bytes();
    !str_is_blank(text) && bytes.len() <= max
}

/// A session takes part in messaging: it is enabled and has a repository or a group.
pub open spec fn takes_part(r: PeerRow) -> bool {
    r.enabled && (r.repository is Some || r.group_name is Some)
}

/// Reopening `id` with this scope drops the messages queued for it: its repository changed, or
/// its group changed while the user had not chosen one.
pub open spec fn scope_changed(
    s: StoreView,
    id: Seq<char>,
    repository: Option<Seq<char>>,
    group: Option<Seq<char>>,
) -> bool {
    has_peer(s, id) && (row_of(s, id).repository != repository || (!row_of(s, id).user_selected
        && row_of(s, id).group_name != group))
}

/// An existing row rebound to a new runtime: new lease, repository and time; the group only
/// where the user has not chosen one.
pub open spec fn rebound(
    p: PeerRow,
    lease: Seq<char>,
    repository: Option<Seq<char>>,
    group: Option<Seq<char>>,
    now: int,
) -> PeerRow {
    PeerRow {
        id: p.id,
        lease: lease,
        repository: repository,
        group_name: if p.user_selected {
            p.group_name
        } else {
            group
        },
        seen: now,
        enabled: p.enabled,
        user_selected: p.user_selected,
    }
}

/// A new session's row: enabled, group not chosen by the user.
pub open spec fn fresh_row(
    id: Seq<char>,
    lease: Seq<char>,
    repository: Option<Seq<char>>,
    group: Option<Seq<char>>,
    now: int,
) -> PeerRow {
    PeerRow {
        id: id,
        lease: lease,
        repository: repository,
        group_name: group,
        seen: now,
        enabled: true,
        user_selected: false,
    }
}

/// The store after session `id` is opened by the runtime holding `lease`.
pub open spec fn opened(
    s: StoreView,
    id: Seq<char>,
    lease: Seq<char>,
    repository: Option<Seq<char>>,
    group: Option<Seq<char>>,
    now: int,
) -> StoreView {
    StoreView {
        peers: if has_peer(s, id) {
            s.peers.map_values(
                |p: PeerRow|
                    if p.id == id {
                        rebound(p, lease, repository, group, now)
                    } else {
                        p
                    },
            )
        } else {
            s.peers.push(fresh_row(id, lease, repository, group, now))
        },
        messages: if scope_changed(s, id, repository, group) {
            retain(s.messages, |m: MessageRow| m.recipient != id)
        } else {
            s.messages
        },
        last_message_id: s.last_message_id,
    }
}

/// The rows with the owned row of `id` replaced by `f` of it.
pub open spec fn update_owned(
    peers: Seq<PeerRow>,
    id: Seq<char>,
    lease: Seq<char>,
    f: spec_fn(PeerRow) -> PeerRow,
) -> Seq<PeerRow> {
    peers.map_values(
        |p: PeerRow|
            if p.id == id && p.lease == lease {
                f(p)
            } else {
                p
            },
    )
}

/// A row marked as seen at `now`.
pub open spec fn seen_at(p: PeerRow, now: int) -> PeerRow {
    PeerRow {
        id: p.id,
        lease: p.lease,
        repository: p.repository,
        group_name: p.group_name,
        seen: now,
        enabled: p.enabled,
        user_selected: p.user_selected,
    }
}

/// A row with a user-selected participation and group.
pub open spec fn selected(p: PeerRow, enabled: bool, group: Option<Seq<char>>) -> PeerRow {
    PeerRow {
        id: p.id,
        lease: p.lease,
        repository: p.repository,
        group_name: group,
        seen: p.seen,
        enabled: enabled,
        user_selected: true,
    }
}

/// The store after a heartbeat of (`id`, `lease`) at `now`: the owned row is seen now, and
/// messages older than a day are dropped.
pub open spec fn after_heartbeat(s: StoreView, id: Seq<char>, lease: Seq<char>, now: int) -> StoreView {
    StoreView {
        peers: update_owned(s.peers, id, lease, |p: PeerRow| seen_at(p, now)),
        messages: retain(s.messages, |m: MessageRow| !(m.created < now - RETENTION_SECONDS)),
        last_message_id: s.last_message_id,
    }
}

/// `x` may appear in the listing of (`id`, `lease`) after `after` at `now`.
pub open spec fn listable(
    s: StoreView,
    id: Seq<char>,
    lease: Seq<char>,
    after: Seq<char>,
    now: int,
    x: Seq<char>,
) -> bool {
    &&& owns(s, id, lease)
    &&& text_lt(after, x)
    &&& exists|j: int|
        0 <= j < s.peers.len() && #[trigger] s.peers[j].id == x && visible(
            row_of(s, id),
            s.peers[j],
            now,
        )
}

/// `r` is the listing: the first (up to) 20 listable ids in increasing order.
pub open spec fn is_listing(
    r: Seq<Seq<char>>,
    s: StoreView,
    id: Seq<char>,
    lease: Seq<char>,
    after: Seq<char>,
    now: int,
) -> bool {
    &&& r.len() <= PAGE_SIZE
    &&& forall|i: int, j: int| 0 <= i < j < r.len() ==> text_lt(#[trigger] r[i], #[trigger] r[j])
    &&& forall|i: int| 0 <= i < r.len() ==> listable(s, id, lease, after, now, #[trigger] r[i])
    &&& forall|x: Seq<char>|
        #[trigger] listable(s, id, lease, after, now, x) ==> r.contains(x) || (r.len()
            == PAGE_SIZE && text_lt(r.last(), x))
}

/// The sender (`id`, `lease`) can queue a message for `recipient` at `now`: it owns its session,
/// the recipient is its live peer, and the recipient's inbox has room.
pub open spec fn can_deliver(
    s: StoreView,
    id: Seq<char>,
    lease: Seq<char>,
    recipient: Seq<char>,
    now: int,
) -> bool {
    &&& owns(s, id, lease)
    &&& has_peer(s, recipient)
    &&& visible(row_of(s, id), row_of(s, recipient), now)
    &&& inbox_size(s.messages, recipient) < MAX_INBOX
}

/// The store with one more message, under the next id.
pub open spec fn with_message(
    s: StoreView,
    sender: Seq<char>,
    recipient: Seq<char>,
    text: Seq<char>,
    now: int,
) -> StoreView {
    StoreView {
        peers: s.peers,
        messages: s.messages.push(
            message_row(s.last_message_id + 1, sender, recipient, text, now),
        ),
        last_message_id: s.last_message_id + 1,
    }
}

/// What sending `text` from mailbox `m` to `recipient` at `now` does: the store afterwards and
/// the outcome.
pub open spec fn send_effect(
    s: StoreView,
    m: MailboxView,
    recipient: Seq<char>,
    text: Seq<char>,
    now: int,
) -> (StoreView, Result<(), PeerError>) {
    if !fits(text, MAX_MESSAGE_BYTES as nat) {
        (s, Err(PeerError::InvalidMessage))
    } else if !can_deliver(s, m.id, m.lease, recipient, now) {
        (s, Err(PeerError::PeerUnavailable))
    } else if s.last_message_id == i64::MAX {
        (s, Err(PeerError::StorageFull))
    } else {
        (with_message(s, m.id, recipient, text, now), Ok(()))
    }
}

/// The message that (`id`, `lease`) is offered next: the oldest one queued for it, while it owns
/// its session and takes part.
pub open spec fn next_pending(s: StoreView, id: Seq<char>, lease: Seq<char>) -> Option<MessageView> {
    if owns(s, id, lease) && row_of(s, id).enabled && !inbox_empty(s.messages, id) {
        let i = choose|i: int| is_first_for(s.messages, id, i);
        Some(MessageView { id: s.messages[i].id, sender: s.messages[i].sender, text: s.messages[i].text })
    } else {
        None
    }
}

/// The messages without message `message_id` addressed to `id`.
pub open spec fn without_message(messages: Seq<MessageRow>, id: Seq<char>, message_id: int) -> Seq<MessageRow> {
    retain(messages, |m: MessageRow| !(m.id == message_id && m.recipient == id))
}

/// The group that a session row shows.
pub open spec fn group_of(r: PeerRow) -> GroupView {
    if !r.enabled {
        GroupView::Off
    } else {
        match r.group_name {
            Some(n) => GroupView::Named(n),
            None => GroupView::Auto,
        }
    }
}

/// Participation and group name that a selection sets.
pub open spec fn selection_settings(g: GroupView) -> (bool, Option<Seq<char>>) {
    match g {
        GroupView::Auto => (true, None),
        GroupView::Off => (false, None),
        GroupView::Named(n) => (true, Some(n)),
    }
}

/// A selection that can be applied: a named group must fit in 128 bytes and not be blank.
pub open spec fn valid_selection(g: GroupView) -> bool {
    match g {
        GroupView::Named(n) => fits(n, MAX_GROUP_BYTES as nat),
        _ => true,
    }
}

/// The store after (`id`, `lease`) selects `g`: queued messages go where participation or group
/// changes, and the row records the choice as the user's.
pub open spec fn after_selection(s: StoreView, id: Seq<char>, lease: Seq<char>, g: GroupView) -> StoreView {
    let (enabled, name) = selection_settings(g);
    StoreView {
        peers: update_owned(s.peers, id, lease, |p: PeerRow| selected(p, enabled, name)),
        messages: if row_of(s, id).enabled != enabled || row_of(s, id).group_name != name {
            retain(s.messages, |m: MessageRow| m.recipient != id)
        } else {
            s.messages
        },
        last_message_id: s.last_message_id,
    }
}


/// A group given at opening is refused: it is blank or longer than 128 bytes.
pub open spec fn bad_group(group: Option<String>) -> bool {
    match group {
        Some(g) => !fits(g@, MAX_GROUP_BYTES as nat),
        None => false,
    }
}

/// The value of the result of reading a group.
pub open spec fn group_result(r: Result<PeerGroup, PeerError>) -> Result<GroupView, PeerError> {
    match r {
        Ok(g) => Ok(g@),
        Err(e) => Err(e),
    }
}

/// What reading the group of mailbox `m` gives: the group of its row while it owns it.
pub open spec fn group_reading(s: StoreView, m: MailboxView) -> Result<GroupView, PeerError> {
    if owns(s, m.id, m.lease) {
        Ok(group_of(row_of(s, m.id)))
    } else {
        Err(PeerError::RowNotFound)
    }
}

/// Whether a group given at opening is accepted: absent, or 1 to 128 bytes of nonblank text.
pub fn group_allowed(group: &Option<String>) -> (res: bool)
    ensures
        res == !bad_group(*group),
{
    match group {
        Some(g) => text_fits(g.as_str(), MAX_GROUP_BYTES),
        None => true,
    }
}

/// A row for the session being opened by the runtime holding `lease`.
pub open spec fn open_row(
    s: StoreView,
    id: Seq<char>,
    lease: Seq<char>,
    repository: Option<Seq<char>>,
    group: Option<Seq<char>>,
    now: int,
) -> PeerRow {
    if has_peer(s, id) {
        rebound(row_of(s, id), lease, repository, group, now)
    } else {
        fresh_row(id, lease, repository, group, now)
    }
}

impl PeerMailbox {
    /// Binds session `id` to the runtime holding `lease`, inside `repository` and optionally a
    /// `group`. A group must hold 1 to 128 bytes of nonblank text. Rebinding a session to another
    /// repository, or to another group it did not choose itself, drops the messages queued for it.
    pub fn open_with_lease(
        store: &mut PeerStore,
        id: String,
        lease: String,
        repository: Option<String>,
        group: Option<String>,
        now: i64,
    ) -> (res: Result<PeerMailbox, PeerError>)
        requires
            old(store).wf(),
        ensures
            final(store).wf(),
            bad_group(group) ==> res == Err::<PeerMailbox, PeerError>(PeerError::InvalidPeerGroup)
                && final(store)@ == old(store)@,
            !bad_group(group) ==> res is Ok && final(store)@ == opened(
                old(store)@,
                id@,
                lease@,
                opt_view(repository),
                opt_view(group),
                now as int,
            ),
            res matches Ok(m) ==> m@ == (MailboxView {
                id: id@,
                lease: lease@,
                available: takes_part(
                    open_row(
                        old(store)@,
                        id@,
                        lease@,
                        opt_view(repository),
                        opt_view(group),
                        now as int,
                    ),
                ),
                has_repository: repository is Some,
            }),
    {
        if let Some(g) = &group {
            if !text_fits(g.as_str(), MAX_GROUP_BYTES) {
                return Err(PeerError::InvalidPeerGroup);
            }
        }
        proof {
            store.lemma_wf();
        }
        let ghost s0 = store@;
        let ghost repo = opt_view(repository);
        let ghost grp = opt_view(group);
        let has_repository = repository.is_some();
        let available;
        match store.find(&id) {
            Some(i) => {
                let row = store.peers()[i].copy();
                let reset = !same_text(&row.repository, &repository) || (!row.user_selected
                    && !same_text(&row.group_name, &group));
                let group_name = if row.user_selected {
                    copy_text(&row.group_name)
                } else {
                    group
                };
                available = row.enabled && (repository.is_some() || group_name.is_some());
                let new_row = PeerRecord {
                    id: row.id,
                    lease: lease.clone(),
                    repository: repository,
                    group_name: group_name,
                    seen: now,
                    enabled: row.enabled,
                    user_selected: row.user_selected,
                };
                let ghost nr = new_row@;
                assert(nr == rebound(s0.peers[i as int], lease@, repo, grp, now as int));
                if reset {
                    let rule = Retention::NotAddressedTo(id.clone());
                    store.retain_messages(&rule);
                    assert(rule.keep_fn() =~= (|m: MessageRow| m.recipient != id@));
                }
                store.replace_peer(i, new_row);
                assert(store@.peers =~= s0.peers.map_values(
                    |p: PeerRow|
                        if p.id == id@ {
                            rebound(p, lease@, repo, grp, now as int)
                        } else {
                            p
                        },
                ));
            },
            None => {
                available = repository.is_some() || group.is_some();
                let new_row = PeerRecord {
                    id: id.clone(),
                    lease: lease.clone(),
                    repository: repository,
                    group_name: group,
                    seen: now,
                    enabled: true,
                    user_selected: false,
                };
                store.add_peer(new_row);
            },
        }
        Ok(PeerMailbox { id, lease, available, has_repository })
    }

    /// Records that this runtime is alive: where it still owns its session the row is seen now,
    /// and returns whether it does. Messages queued more than a day ago are dropped either way.
    pub fn heartbeat(&self, store: &mut PeerStore, now: i64) -> (res: bool)
        requires
            old(store).wf(),
        ensures
            final(store).wf(),
            res == owns(old(store)@, self@.id, self@.lease),
            final(store)@ == after_heartbeat(old(store)@, self@.id, self@.lease, now as int),
    {
        proof {
            store.lemma_wf();
        }
        let ghost s0 = store@;
        let updated = match store.find_owned(&self.id, &self.lease) {
            Some(i) => {
                let mut row = store.peers()[i].copy();
                row.seen = now;
                store.replace_peer(i, row);
                true
            },
            None => false,
        };
        assert(store@.peers =~= update_owned(
            s0.peers,
            self@.id,
            self@.lease,
            |p: PeerRow| seen_at(p, now as int),
        ));
        let rule = Retention::CreatedSince(now);
        store.retain_messages(&rule);
        assert(rule.keep_fn() =~= (|m: MessageRow| !(m.created < now - RETENTION_SECONDS)));
        updated
    }

    /// Marks this runtime's session as not seen since the epoch, so peers stop listing it, while
    /// keeping its scope so that a later reopening can tell whether queued messages still apply.
    pub fn close(&self, store: &mut PeerStore)
        requires
            old(store).wf(),
        ensures
            final(store).wf(),
            final(store)@ == (StoreView {
                peers: update_owned(old(store)@.peers, self@.id, self@.lease, |p: PeerRow| seen_at(p, 0)),
                messages: old(store)@.messages,
                last_message_id: old(store)@.last_message_id,
            }),
    {
        proof {
            store.lemma_wf();
        }
        let ghost s0 = store@;
        match store.find_owned(&self.id, &self.lease) {
            Some(i) => {
                let mut row = store.peers()[i].copy();
                row.seen = 0;
                store.replace_peer(i, row);
            },
            None => {},
        }
        assert(store@.peers =~= update_owned(
            s0.peers,
            self@.id,
            self@.lease,
            |p: PeerRow| seen_at(p, 0),
        ));
    }

    /// Accepts delivery of message `message_id`: while this runtime owns its session, that
    /// message, if it is addressed to the session, leaves the queue.
    pub fn acknowledge(&self, store: &mut PeerStore, message_id: i64)
        requires
            old(store).wf(),
        ensures
            final(store).wf(),
            final(store)@.peers == old(store)@.peers,
            final(store)@.last_message_id == old(store)@.last_message_id,
            final(store)@.messages == if owns(old(store)@, self@.id, self@.lease) {
                without_message(old(store)@.messages, self@.id, message_id as int)
            } else {
                old(store)@.messages
            },
    {
        if store.find_owned(&self.id, &self.lease).is_some() {
            let rule = Retention::AllBut(message_id, self.id.clone());
            store.retain_messages(&rule);
            assert(rule.keep_fn() =~= (|m: MessageRow|
                !(m.id == message_id && m.recipient == self@.id)));
            assert(without_message(old(store)@.messages, self@.id, message_id as int)
                == retain(old(store)@.messages, rule.keep_fn()));
        }
    }

    /// The oldest message queued for this session, while this runtime owns the session and it
    /// is enabled. Reading does not consume it: it stays queued until acknowledged.
    pub fn pending(&self, store: &PeerStore) -> (res: Option<PeerMessage>)
        requires
            store.wf(),
        ensures
            opt_message(res) == next_pending(store@, self@.id, self@.lease),
    {
        match store.find_owned(&self.id, &self.lease) {
            Some(i) => {
                if !store.peers()[i].enabled {
                    return None;
                }
                match store.first_for(&self.id) {
                    Some(k) => {
                        let m = &store.messages()[k];
                        proof {
                            let c = choose|c: int| is_first_for(store@.messages, self@.id, c);
                            lemma_first_unique(store@.messages, self@.id, c, k as int);
                            assert(store@.messages[k as int] == m@);
                        }
                        Some(PeerMessage { id: m.id, sender: m.sender.clone(), text: m.text.clone() })
                    },
                    None => None,
                }
            },
            None => None,
        }
    }

    /// The group this runtime's session shows: `Off` when disabled, else the named group or
    /// `Auto`. Fails where the session's row no longer holds this runtime's lease.
    pub fn group(&self, store: &PeerStore) -> (res: Result<PeerGroup, PeerError>)
        requires
            store.wf(),
        ensures
            group_result(res) == group_reading(store@, self@),
    {
        match store.find_owned(&self.id, &self.lease) {
            Some(i) => {
                let row = &store.peers()[i];
                if !row.enabled {
                    Ok(PeerGroup::Off)
                } else {
                    match &row.group_name {
                        Some(name) => Ok(PeerGroup::Named(name.clone())),
                        None => Ok(PeerGroup::Auto),
                    }
                }
            },
            None => Err(PeerError::RowNotFound),
        }
    }

    /// Queues `text` for `recipient`. The text must hold 1 to 512 bytes of nonblank text; the
    /// recipient must be a live peer of this session, which this runtime must own, and its inbox
    /// must hold fewer than 64 messages. The message gets the next id and the time `now`.
    pub fn send(&self, store: &mut PeerStore, recipient: &str, text: &str, now: i64) -> (res: Result<(), PeerError>)
        requires
            old(store).wf(),
        ensures
            final(store).wf(),
            (final(store)@, res) == send_effect(old(store)@, self@, recipient@, text@, now as int),
    {
        if !text_fits(text, MAX_MESSAGE_BYTES) {
            return Err(PeerError::InvalidMessage);
        }
        let target = recipient.to_owned();
        let me = store.find_owned(&self.id, &self.lease);
        let them = store.find(&target);
        let deliverable = match (me, them) {
            (Some(i), Some(j)) => is_visible(&store.peers()[i], &store.peers()[j], now)
                && store.inbox_count(&target) < MAX_INBOX,
            _ => false,
        };
        if !deliverable {
            return Err(PeerError::PeerUnavailable);
        }
        match store.append_message(self.id.clone(), target, text.to_owned(), now) {
            Some(_) => Ok(()),
            None => Err(PeerError::StorageFull),
        }
    }

    /// Applies a user's choice of group to this runtime's session. A named group must hold 1 to
    /// 128 bytes of nonblank text. Messages queued for the session are dropped where its
    /// participation or group changes; the choice then survives reopening. Fails, changing
    /// nothing, where another runtime has taken over the session.
    pub fn set_group(&mut self, store: &mut PeerStore, selection: PeerGroup) -> (res: Result<(), PeerError>)
        requires
            old(store).wf(),
        ensures
            final(store).wf(),
            final(self)@.id == old(self)@.id,
            final(self)@.lease == old(self)@.lease,
            final(self)@.has_repository == old(self)@.has_repository,
            !valid_selection(selection@) ==> res == Err::<(), PeerError>(PeerError::InvalidGroupName)
                && final(store)@ == old(store)@ && final(self)@ == old(self)@,
            valid_selection(selection@) && !owns(old(store)@, old(self)@.id, old(self)@.lease) ==> res
                == Err::<(), PeerError>(PeerError::MailboxLost) && final(store)@ == old(store)@
                && final(self)@ == old(self)@,
            valid_selection(selection@) && owns(old(store)@, old(self)@.id, old(self)@.lease) ==> res is Ok
                && final(store)@ == after_selection(old(store)@, old(self)@.id, old(self)@.lease, selection@)
                && final(self)@.available == (selection_settings(selection@).0 && (selection_settings(
                selection@,
            ).1 is Some || old(self)@.has_repository)),
    {
        proof {
            store.lemma_wf();
        }
        let ghost sel = selection@;
        let (enabled, name) = match selection {
            PeerGroup::Auto => (true, None),
            PeerGroup::Off => (false, None),
            PeerGroup::Named(n) => {
                if !text_fits(n.as_str(), MAX_GROUP_BYTES) {
                    return Err(PeerError::InvalidGroupName);
                }
                (true, Some(n))
            },
        };
        assert(selection_settings(sel) == (enabled, opt_view(name)));
        let available = enabled && (name.is_some() || self.has_repository);
        let ghost s0 = store@;
        match store.find_owned(&self.id, &self.lease) {
            None => Err(PeerError::MailboxLost),
            Some(i) => {
                let row = store.peers()[i].copy();
                let drop_queue = row.enabled != enabled || !same_text(&row.group_name, &name);
                let new_row = PeerRecord {
                    id: row.id,
                    lease: row.lease,
                    repository: row.repository,
                    group_name: name,
                    seen: row.seen,
                    enabled: enabled,
                    user_selected: true,
                };
                if drop_queue {
                    let rule = Retention::NotAddressedTo(self.id.clone());
                    store.retain_messages(&rule);
                    assert(rule.keep_fn() =~= (|m: MessageRow| m.recipient != self@.id));
                }
                store.replace_peer(i, new_row);
                assert(store@.peers =~= update_owned(
                    s0.peers,
                    self@.id,
                    self@.lease,
                    |p: PeerRow| selected(p, selection_settings(sel).0, selection_settings(sel).1),
                ));
                self.available = available;
                Ok(())
            },
        }
    }

    /// The live peers of this session whose ids come after `after`, in increasing order, at
    /// most 20 of them: pass the last id back as `after` to continue. Empty where this runtime no
    /// longer owns its session.
    pub fn list(&self, store: &PeerStore, after: &str, now: i64) -> (res: Vec<String>)
        requires
            store.wf(),
        ensures
            is_listing(texts(res@), store@, self@.id, self@.lease, after@, now as int),
    {
        proof {
            store.lemma_wf();
        }
        let ghost s = store@;
        let ghost me = self@;
        let mut res: Vec<String> = Vec::new();
        assert(texts(res@) =~= Seq::<Seq<char>>::empty());
        let i = match store.find_owned(&self.id, &self.lease) {
            Some(i) => i,
            None => {
                return res;
            },
        };
        let peers = store.peers();
        let n = peers.len();
        let a = &peers[i];
        let mut bound: String = after.to_owned();
        let mut done = false;
        while res.len() < PAGE_SIZE && !done
            invariant
                n == peers@.len(),
                i < n,
                s == store@,
                peer_rows(peers@) == s.peers,
                unique_ids(s.peers),
                owns(s, me.id, me.lease),
                a@ == row_of(s, me.id),
                me == self@,
                res@.len() <= PAGE_SIZE,
                forall|p: int, q: int|
                    0 <= p < q < texts(res@).len() ==> text_lt(
                        #[trigger] texts(res@)[p],
                        #[trigger] texts(res@)[q],
                    ),
                forall|p: int|
                    0 <= p < texts(res@).len() ==> listable(
                        s,
                        me.id,
                        me.lease,
                        after@,
                        now as int,
                        #[trigger] texts(res@)[p],
                    ),
                forall|p: int|
                    0 <= p < texts(res@).len() ==> #[trigger] texts(res@)[p] == bound@ || text_lt(
                        texts(res@)[p],
                        bound@,
                    ),
                res@.len() == 0 ==> bound@ == after@,
                res@.len() > 0 ==> texts(res@).last() == bound@,
                forall|x: Seq<char>|
                    #[trigger] listable(s, me.id, me.lease, after@, now as int, x) ==> texts(
                        res@,
                    ).contains(x) || text_lt(bound@, x),
                done ==> forall|x: Seq<char>|
                    #[trigger] listable(s, me.id, me.lease, after@, now as int, x) ==> !text_lt(
                        bound@,
                        x,
                    ),
            decreases PAGE_SIZE - res@.len(), if done {
                0int
            } else {
                1int
            },
        {
            let mut best: Option<usize> = None;
            let mut j: usize = 0;
            while j < n
                invariant
                    n == peers@.len(),
                    j <= n,
                    peer_rows(peers@) == s.peers,
                    best matches Some(b) ==> b < j && visible(a@, s.peers[b as int], now as int)
                        && text_lt(after@, s.peers[b as int].id) && text_lt(
                        bound@,
                        s.peers[b as int].id,
                    ),
                    best matches Some(b) ==> forall|k: int|
                        0 <= k < j && visible(a@, #[trigger] s.peers[k], now as int) && text_lt(
                            after@,
                            s.peers[k].id,
                        ) && text_lt(bound@, s.peers[k].id) ==> s.peers[k].id == s.peers[b as int].id
                            || text_lt(s.peers[b as int].id, s.peers[k].id),
                    best is None ==> forall|k: int|
                        0 <= k < j ==> !(visible(a@, #[trigger] s.peers[k], now as int) && text_lt(
                            after@,
                            s.peers[k].id,
                        ) && text_lt(bound@, s.peers[k].id)),
                decreases n - j,
            {
                let b = &peers[j];
                if is_visible(a, b, now) && str_lt(after, b.id.as_str()) && str_lt(
                    bound.as_str(),
                    b.id.as_str(),
                ) {
                    let better = match best {
                        None => true,
                        Some(c) => str_lt(b.id.as_str(), peers[c].id.as_str()),
                    };
                    if better {
                        proof {
                            if let Some(c) = best {
                                let cid = s.peers[c as int].id;
                                let bid = s.peers[j as int].id;
                                assert forall|k: int|
                                    0 <= k < j + 1 && visible(a@, #[trigger] s.peers[k], now as int)
                                        && text_lt(after@, s.peers[k].id) && text_lt(
                                        bound@,
                                        s.peers[k].id,
                                    ) implies s.peers[k].id == bid || text_lt(
                                    bid,
                                    s.peers[k].id,
                                ) by {
                                    if k < j && s.peers[k].id != cid {
                                        crate::text::lemma_text_lt_transitive(
                                            bid,
                                            cid,
                                            s.peers[k].id,
                                        );
                                    }
                                }
                            }
                        }
                        best = Some(j);
                    } else {
                        proof {
                            let c = best->0;
                            let cid = s.peers[c as int].id;
                            let bid = s.peers[j as int].id;
                            if cid != bid {
                                crate::text::lemma_text_lt_total(cid, bid);
                            }
                        }
                    }
                }
                j = j + 1;
            }
            match best {
                None => {
                    proof {
                        assert forall|x: Seq<char>|
                            #[trigger] listable(
                                s,
                                me.id,
                                me.lease,
                                after@,
                                now as int,
                                x,
                            ) implies !text_lt(bound@, x) by {
                            let k = choose|k: int|
                                0 <= k < s.peers.len() && #[trigger] s.peers[k].id == x && visible(
                                    row_of(s, me.id),
                                    s.peers[k],
                                    now as int,
                                );
                            assert(!(visible(a@, s.peers[k], now as int) && text_lt(
                                after@,
                                s.peers[k].id,
                            ) && text_lt(bound@, s.peers[k].id)));
                        }
                    }
                    done = true;
                },
                Some(c) => {
                    let next = peers[c].id.clone();
                    let ghost old_res = texts(res@);
                    let ghost old_bound = bound@;
                    let ghost cid = next@;
                    assert(s.peers[c as int].id == cid);
                    proof {
                        assert(listable(s, me.id, me.lease, after@, now as int, cid));
                    }
                    res.push(next.clone());
                    assert(texts(res@) =~= old_res.push(cid));
                    bound = next;
                    proof {
                        let r = texts(res@);
                        assert forall|p: int, q: int| 0 <= p < q < r.len() implies text_lt(
                            #[trigger] r[p],
                            #[trigger] r[q],
                        ) by {
                            if q == r.len() - 1 {
                                if old_res[p] != old_bound {
                                    crate::text::lemma_text_lt_transitive(
                                        old_res[p],
                                        old_bound,
                                        cid,
                                    );
                                }
                            } else {
                                assert(r[p] == old_res[p]);
                                assert(r[q] == old_res[q]);
                            }
                        }
                        assert forall|p: int| 0 <= p < r.len() implies #[trigger] r[p] == cid
                            || text_lt(r[p], cid) by {
                            if p < r.len() - 1 {
                                assert(r[p] == old_res[p]);
                                if old_res[p] != old_bound {
                                    crate::text::lemma_text_lt_transitive(
                                        old_res[p],
                                        old_bound,
                                        cid,
                                    );
                                }
                            }
                        }
                        assert forall|p: int| 0 <= p < r.len() implies listable(
                            s,
                            me.id,
                            me.lease,
                            after@,
                            now as int,
                            #[trigger] r[p],
                        ) by {
                            if p < r.len() - 1 {
                                assert(r[p] == old_res[p]);
                            }
                        }
                        assert forall|x: Seq<char>|
                            #[trigger] listable(
                                s,
                                me.id,
                                me.lease,
                                after@,
                                now as int,
                                x,
                            ) implies r.contains(x) || text_lt(cid, x) by {
                            if old_res.contains(x) {
                                let p = choose|p: int| 0 <= p < old_res.len() && old_res[p] == x;
                                assert(r[p] == x);
                            } else if x == cid {
                                assert(r[r.len() - 1] == x);
                            } else {
                                let k = choose|k: int|
                                    0 <= k < s.peers.len() && #[trigger] s.peers[k].id == x
                                        && visible(row_of(s, me.id), s.peers[k], now as int);
                                assert(visible(a@, s.peers[k], now as int));
                            }
                        }
                    }
                },
            }
        }
        res
    }

    /// Binds session `id` to this runtime under a fresh lease; see
    /// [`PeerMailbox::open_with_lease`] for what it does with the store.
    pub fn open(
        store: &mut PeerStore,
        id: String,
        repository: Option<String>,
        group: Option<String>,
        now: i64,
    ) -> (res: Result<PeerMailbox, PeerError>)
        requires
            old(store).wf(),
        ensures
            final(store).wf(),
            bad_group(group) ==> res == Err::<PeerMailbox, PeerError>(PeerError::InvalidPeerGroup)
                && final(store)@ == old(store)@,
            !bad_group(group) ==> res is Ok,
            res matches Ok(m) ==> {
                &&& m@.id == id@
                &&& m@.has_repository == repository is Some
                &&& final(store)@ == opened(
                    old(store)@,
                    id@,
                    m@.lease,
                    opt_view(repository),
                    opt_view(group),
                    now as int,
                )
                &&& m@.available == takes_part(
                    open_row(
                        old(store)@,
                        id@,
                        m@.lease,
                        opt_view(repository),
                        opt_view(group),
                        now as int,
                    ),
                )
            },
    {
        let lease = crate::ids::new_lease();
        Self::open_with_lease(store, id, lease, repository, group, now)
    }

    /// Whether the peer tools are offered to this session.
    pub fn is_available(&self) -> (res: bool)
        ensures
            res == self@.available,
    {
        self.available
    }

    /// The session id.
    pub fn id(&self) -> (res: &String)
        ensures
            res@ == self@.id,
    {
        &self.id
    }

    /// The lease of the runtime that holds this mailbox.
    pub fn lease(&self) -> (res: &String)
        ensures
            res@ == self@.lease,
    {
        &self.lease
    }
}

/// What reading or changing the group of a session gives, in the same store.
pub open spec fn group_command(
    s: StoreView,
    binding: Option<MailboxView>,
    selection: Option<GroupView>,
) -> (StoreView, Result<GroupView, PeerError>) {
    match binding {
        None => (s, Err(PeerError::Disabled)),
        Some(m) => match selection {
            None => (s, group_reading(s, m)),
            Some(g) => if !valid_selection(g) {
                (s, Err(PeerError::InvalidGroupName))
            } else if !owns(s, m.id, m.lease) {
                (s, Err(PeerError::MailboxLost))
            } else {
                let s2 = after_selection(s, m.id, m.lease, g);
                (s2, group_reading(s2, m))
            },
        },
    }
}

/// The thread's mailbox after a group command: the same session and lease; where a selection
/// was applied, its tools are offered exactly when the selection takes part (enabled, and a
/// named group or a repository); otherwise it is unchanged. No mailbox stays no mailbox.
pub open spec fn binding_after(
    s: StoreView,
    binding: Option<MailboxView>,
    selection: Option<GroupView>,
) -> Option<MailboxView> {
    match binding {
        None => None,
        Some(m) => match selection {
            Some(g) => if valid_selection(g) && owns(s, m.id, m.lease) {
                Some(
                    MailboxView {
                        id: m.id,
                        lease: m.lease,
                        available: selection_settings(g).0 && (selection_settings(g).1 is Some
                            || m.has_repository),
                        has_repository: m.has_repository,
                    },
                )
            } else {
                Some(m)
            },
            None => Some(m),
        },
    }
}

/// The value of an optional selection.
pub open spec fn opt_group(g: Option<PeerGroup>) -> Option<GroupView> {
    match g {
        Some(g) => Some(g@),
        None => None,
    }
}

/// The value of an optional mailbox.
pub open spec fn opt_mailbox(m: Option<PeerMailbox>) -> Option<MailboxView> {
    match m {
        Some(m) => Some(m@),
        None => None,
    }
}

/// Reads, or applies and then reads, the group of the session whose mailbox is `binding`.
/// Fails where the session has no mailbox.
pub fn peer_group(
    binding: &mut Option<PeerMailbox>,
    store: &mut PeerStore,
    selection: Option<PeerGroup>,
) -> (res: Result<PeerGroup, PeerError>)
    requires
        old(store).wf(),
    ensures
        final(store).wf(),
        (final(store)@, group_result(res)) == group_command(
            old(store)@,
            opt_mailbox(*old(binding)),
            opt_group(selection),
        ),
        opt_mailbox(*final(binding)) == binding_after(
            old(store)@,
            opt_mailbox(*old(binding)),
            opt_group(selection),
        ),
{
    let taken = binding.take();
    match taken {
        None => Err(PeerError::Disabled),
        Some(mut mailbox) => {
            let res = match selection {
                Some(sel) => match mailbox.set_group(store, sel) {
                    Ok(()) => mailbox.group(store),
                    Err(e) => Err(e),
                },
                None => mailbox.group(store),
            };
            *binding = Some(mailbox);
            res
        },
    }
}

} // verus!
