//! The shared mailbox store: one row per session (`peers`) and the queued messages
//! (`messages`), with the rules that decide who sees whom.
use vstd::prelude::*;

verus! {

/// How long a session stays discoverable after its last heartbeat, in seconds.
pub const LIVENESS_SECONDS: i64 = 30;

/// How long a queued message is kept, in seconds.
pub const RETENTION_SECONDS: i64 = 86400;

/// How many queued messages one recipient may hold.
pub const MAX_INBOX: usize = 64;

/// How many session ids one listing returns.
pub const PAGE_SIZE: usize = 20;

/// One session's row: its id, the lease of the runtime that currently owns it, its scope, when it
/// was last seen, whether it takes part, and whether its group was chosen by the user.
#[derive(Clone, Debug)]
pub struct PeerRecord {
    pub id: String,
    pub lease: String,
    pub repository: Option<String>,
    pub group_name: Option<String>,
    pub seen: i64,
    pub enabled: bool,
    pub user_selected: bool,
}

/// One queued message.
#[derive(Clone, Debug)]
pub struct StoredMessage {
    pub id: i64,
    pub sender: String,
    pub recipient: String,
    pub text: String,
    pub created: i64,
}

/// The mathematical value of a [`PeerRecord`].
pub struct PeerRow {
    pub id: Seq<char>,
    pub lease: Seq<char>,
    pub repository: Option<Seq<char>>,
    pub group_name: Option<Seq<char>>,
    pub seen: int,
    pub enabled: bool,
    pub user_selected: bool,
}

/// The mathematical value of a [`StoredMessage`].
pub struct MessageRow {
    pub id: int,
    pub sender: Seq<char>,
    pub recipient: Seq<char>,
    pub text: Seq<char>,
    pub created: int,
}

/// The value of an optional string.
pub open spec fn opt_view(o: Option<String>) -> Option<Seq<char>> {
    match o {
        Some(s) => Some(s@),
        None => None,
    }
}

impl View for PeerRecord {
    type V = PeerRow;

    open spec fn view(&self) -> PeerRow {
        PeerRow {
            id: self.id@,
            lease: self.lease@,
            repository: opt_view(self.repository),
            group_name: opt_view(self.group_name),
            seen: self.seen as int,
            enabled: self.enabled,
            user_selected: self.user_selected,
        }
    }
}

impl View for StoredMessage {
    type V = MessageRow;

    open spec fn view(&self) -> MessageRow {
        MessageRow {
            id: self.id as int,
            sender: self.sender@,
            recipient: self.recipient@,
            text: self.text@,
            created: self.created as int,
        }
    }
}

/// The mathematical value of a [`PeerStore`]: its rows in storage order and the largest message
/// id ever handed out.
pub struct StoreView {
    pub peers: Seq<PeerRow>,
    pub messages: Seq<MessageRow>,
    pub last_message_id: int,
}

/// The rows of both tables. Session ids are unique, message ids grow in storage order and never
/// exceed the largest id handed out, which only grows, so an id is never reused.
pub struct PeerStore {
    peers: Vec<PeerRecord>,
    messages: Vec<StoredMessage>,
    last_message_id: i64,
}

pub open spec fn peer_rows(v: Seq<PeerRecord>) -> Seq<PeerRow> {
    v.map_values(|p: PeerRecord| p@)
}

pub open spec fn message_rows(v: Seq<StoredMessage>) -> Seq<MessageRow> {
    v.map_values(|m: StoredMessage| m@)
}

impl View for PeerStore {
    type V = StoreView;

    closed spec fn view(&self) -> StoreView {
        StoreView {
            peers: peer_rows(self.peers@),
            messages: message_rows(self.messages@),
            last_message_id: self.last_message_id as int,
        }
    }
}

/// No two rows share a session id.
pub open spec fn unique_ids(peers: Seq<PeerRow>) -> bool {
    forall|i: int, j: int|
        0 <= i < peers.len() && 0 <= j < peers.len() && i != j ==> #[trigger] peers[i].id
            != #[trigger] peers[j].id
}

/// Message ids grow strictly in storage order and lie in `1..=last`.
pub open spec fn ordered_ids(messages: Seq<MessageRow>, last: int) -> bool {
    &&& forall|i: int, j: int|
        0 <= i < j < messages.len() ==> #[trigger] messages[i].id < #[trigger] messages[j].id
    &&& forall|i: int| 0 <= i < messages.len() ==> 1 <= #[trigger] messages[i].id <= last
}

/// The store's invariant.
pub open spec fn store_wf(s: StoreView) -> bool {
    &&& unique_ids(s.peers)
    &&& ordered_ids(s.messages, s.last_message_id)
    &&& 0 <= s.last_message_id
}

/// Some row has session id `id`.
pub open spec fn has_peer(s: StoreView, id: Seq<char>) -> bool {
    exists|i: int| 0 <= i < s.peers.len() && #[trigger] s.peers[i].id == id
}

/// The row with session id `id` (meaningful where `has_peer` holds).
pub open spec fn row_of(s: StoreView, id: Seq<char>) -> PeerRow {
    s.peers[choose|i: int| 0 <= i < s.peers.len() && #[trigger] s.peers[i].id == id]
}

/// The row with session id `id` holds lease `lease`: that runtime owns the session.
pub open spec fn owns(s: StoreView, id: Seq<char>, lease: Seq<char>) -> bool {
    exists|i: int|
        0 <= i < s.peers.len() && #[trigger] s.peers[i].id == id && s.peers[i].lease == lease
}

/// Session `b` is a live peer of session `a` at time `now`: both take part, they differ, `b` was
/// seen within the last 30 seconds, and they share a repository or a group.
pub open spec fn visible(a: PeerRow, b: PeerRow, now: int) -> bool {
    &&& a.enabled
    &&& b.enabled
    &&& a.id != b.id
    &&& b.seen >= now - LIVENESS_SECONDS
    &&& ((a.repository is Some && a.repository == b.repository) || (a.group_name is Some
        && a.group_name == b.group_name))
}

/// The messages that `keep` accepts, in storage order.
pub open spec fn retain(messages: Seq<MessageRow>, keep: spec_fn(MessageRow) -> bool) -> Seq<
    MessageRow,
>
    decreases messages.len(),
{
    if messages.len() == 0 {
        Seq::empty()
    } else {
        let rest = retain(messages.drop_last(), keep);
        if keep(messages.last()) {
            rest.push(messages.last())
        } else {
            rest
        }
    }
}

/// How many of the messages are addressed to `recipient`.
pub open spec fn inbox_size(messages: Seq<MessageRow>, recipient: Seq<char>) -> nat
    decreases messages.len(),
{
    if messages.len() == 0 {
        0
    } else {
        inbox_size(messages.drop_last(), recipient) + if messages.last().recipient == recipient {
            1nat
        } else {
            0nat
        }
    }
}

/// Index `i` holds the first message addressed to `recipient`, the one with the smallest id.
pub open spec fn is_first_for(messages: Seq<MessageRow>, recipient: Seq<char>, i: int) -> bool {
    &&& 0 <= i < messages.len()
    &&& messages[i].recipient == recipient
    &&& forall|j: int| 0 <= j < i ==> #[trigger] messages[j].recipient != recipient
}

/// No message is addressed to `recipient`.
pub open spec fn inbox_empty(messages: Seq<MessageRow>, recipient: Seq<char>) -> bool {
    forall|i: int| 0 <= i < messages.len() ==> #[trigger] messages[i].recipient != recipient
}

/// What a stored message keeps: the rule that a filtering pass over the messages applies.
pub enum Retention {
    /// Keep messages not addressed to this session.
    NotAddressedTo(String),
    /// Keep messages created no earlier than this many seconds before the given time.
    CreatedSince(i64),
    /// Keep every message but the one with this id addressed to this session.
    AllBut(i64, String),
}

impl Retention {
    pub open spec fn keeps(&self, m: MessageRow) -> bool {
        match self {
            Retention::NotAddressedTo(r) => m.recipient != r@,
            Retention::CreatedSince(now) => !(m.created < *now - RETENTION_SECONDS),
            Retention::AllBut(id, r) => !(m.id == *id && m.recipient == r@),
        }
    }

    pub open spec fn keep_fn(&self) -> spec_fn(MessageRow) -> bool {
        |m: MessageRow| self.keeps(m)
    }

    fn keeps_message(&self, m: &StoredMessage) -> (res: bool)
        ensures
            res == self.keeps(m@),
    {
        match self {
            Retention::NotAddressedTo(r) => !(m.recipient == *r),
            Retention::CreatedSince(now) => !((m.created as i128) < (*now as i128) - (
            RETENTION_SECONDS as i128)),
            Retention::AllBut(id, r) => !(m.id == *id && m.recipient == *r),
        }
    }
}

/// Whether two optional strings are equal.
pub fn same_text(a: &Option<String>, b: &Option<String>) -> (res: bool)
    ensures
        res == (opt_view(*a) == opt_view(*b)),
{
    match (a, b) {
        (Some(x), Some(y)) => *x == *y,
        (None, None) => true,
        _ => false,
    }
}

/// A copy of an optional string.
pub fn copy_text(a: &Option<String>) -> (res: Option<String>)
    ensures
        opt_view(res) == opt_view(*a),
{
    match a {
        Some(x) => Some(x.clone()),
        None => None,
    }
}

impl PeerRecord {
    /// A field-by-field copy.
    pub fn copy(&self) -> (res: PeerRecord)
        ensures
            res@ == self@,
    {
        PeerRecord {
            id: self.id.clone(),
            lease: self.lease.clone(),
            repository: copy_text(&self.repository),
            group_name: copy_text(&self.group_name),
            seen: self.seen,
            enabled: self.enabled,
            user_selected: self.user_selected,
        }
    }
}

impl StoredMessage {
    /// A field-by-field copy.
    pub fn copy(&self) -> (res: StoredMessage)
        ensures
            res@ == self@,
    {
        StoredMessage {
            id: self.id,
            sender: self.sender.clone(),
            recipient: self.recipient.clone(),
            text: self.text.clone(),
            created: self.created,
        }
    }
}

/// Whether session `b` is a live peer of session `a` at time `now`.
pub fn is_visible(a: &PeerRecord, b: &PeerRecord, now: i64) -> (res: bool)
    ensures
        res == visible(a@, b@, now as int),
{
    a.enabled && b.enabled && !(a.id == b.id) && (b.seen as i128) >= (now as i128) - (
    LIVENESS_SECONDS as i128) && ((a.repository.is_some() && same_text(
        &a.repository,
        &b.repository,
    )) || (a.group_name.is_some() && same_text(&a.group_name, &b.group_name)))
}


proof fn lemma_retain_step(messages: Seq<MessageRow>, keep: spec_fn(MessageRow) -> bool, i: int)
    requires
        0 <= i < messages.len(),
    ensures
        retain(messages.take(i + 1), keep) == if keep(messages[i]) {
            retain(messages.take(i), keep).push(messages[i])
        } else {
            retain(messages.take(i), keep)
        },
{
    assert(messages.take(i + 1).drop_last() =~= messages.take(i));
}

proof fn lemma_inbox_step(messages: Seq<MessageRow>, r: Seq<char>, i: int)
    requires
        0 <= i < messages.len(),
    ensures
        inbox_size(messages.take(i + 1), r) == inbox_size(messages.take(i), r) + if messages[i].recipient
            == r {
            1nat
        } else {
            0nat
        },
{
    assert(messages.take(i + 1).drop_last() =~= messages.take(i));
}

/// The value of a store made of these rows.
pub open spec fn parts_view(peers: Seq<PeerRecord>, messages: Seq<StoredMessage>, last: i64) -> StoreView {
    StoreView {
        peers: peer_rows(peers),
        messages: message_rows(messages),
        last_message_id: last as int,
    }
}

/// The value of a queued message.
pub open spec fn message_row(id: int, sender: Seq<char>, recipient: Seq<char>, text: Seq<char>, created: int) -> MessageRow {
    MessageRow { id, sender, recipient, text, created }
}

/// With unique ids, the row found for the id at `i` is the row at `i`.
pub proof fn lemma_row_of(s: StoreView, i: int)
    requires
        unique_ids(s.peers),
        0 <= i < s.peers.len(),
    ensures
        has_peer(s, s.peers[i].id),
        row_of(s, s.peers[i].id) == s.peers[i],
{
    let id = s.peers[i].id;
    assert(s.peers[i].id == id);
    let c = choose|c: int| 0 <= c < s.peers.len() && #[trigger] s.peers[c].id == id;
    assert(c == i);
}

/// A listing of distinct messages with the first one for a recipient found at two places found
/// it at one place.
pub proof fn lemma_first_unique(messages: Seq<MessageRow>, r: Seq<char>, i: int, j: int)
    requires
        is_first_for(messages, r, i),
        is_first_for(messages, r, j),
    ensures
        i == j,
{
    if i < j {
        assert(messages[i].recipient == r);
    } else if j < i {
        assert(messages[j].recipient == r);
    }
}

/// A recipient with queued messages has a first one.
pub proof fn lemma_first_exists(messages: Seq<MessageRow>, r: Seq<char>)
    requires
        !inbox_empty(messages, r),
    ensures
        exists|i: int| is_first_for(messages, r, i),
    decreases messages.len(),
{
    if messages[0].recipient == r {
        assert(is_first_for(messages, r, 0));
    } else {
        let rest = messages.drop_first();
        let i = choose|i: int| 0 <= i < messages.len() && #[trigger] messages[i].recipient == r;
        assert(rest[i - 1].recipient == r);
        lemma_first_exists(rest, r);
        let k = choose|k: int| is_first_for(rest, r, k);
        assert forall|j: int| 0 <= j < k + 1 implies #[trigger] messages[j].recipient != r by {
            if j > 0 {
                assert(messages[j] == rest[j - 1]);
            }
        }
        assert(is_first_for(messages, r, k + 1));
    }
}

impl PeerStore {
    /// An empty store.
    pub fn new() -> (res: PeerStore)
        ensures
            store_wf(res@),
            res@.peers.len() == 0,
            res@.messages.len() == 0,
            res@.last_message_id == 0,
    {
        let res = PeerStore { peers: Vec::new(), messages: Vec::new(), last_message_id: 0 };
        assert(peer_rows(res.peers@) =~= Seq::<PeerRow>::empty());
        assert(message_rows(res.messages@) =~= Seq::<MessageRow>::empty());
        res
    }

    /// The store's invariant holds.
    pub closed spec fn wf(&self) -> bool {
        store_wf(self@)
    }

    pub proof fn lemma_wf(&self)
        ensures
            self.wf() <==> store_wf(self@),
    {
    }

    /// A store over rows read back from storage, or `None` where they break the invariant (two
    /// rows with one session id, messages out of id order, or an id above the largest handed
    /// out).
    pub fn from_parts(peers: Vec<PeerRecord>, messages: Vec<StoredMessage>, last_message_id: i64) -> (res:
        Option<PeerStore>)
        ensures
            res is Some <==> store_wf(parts_view(peers@, messages@, last_message_id)),
            res matches Some(s) ==> s@ == parts_view(peers@, messages@, last_message_id),
    {
        let ghost pv = peer_rows(peers@);
        let ghost mv = message_rows(messages@);
        if last_message_id < 0 {
            return None;
        }
        let mut i: usize = 0;
        while i < peers.len()
            invariant
                i <= peers.len(),
                pv == peer_rows(peers@),
                forall|a: int, b: int|
                    0 <= a < i && 0 <= b < peers.len() && a != b ==> #[trigger] pv[a].id
                        != #[trigger] pv[b].id,
            decreases peers.len() - i,
        {
            let mut j: usize = 0;
            while j < peers.len()
                invariant
                    i < peers.len(),
                    j <= peers.len(),
                    pv == peer_rows(peers@),
                    forall|a: int, b: int|
                        0 <= a < i && 0 <= b < peers.len() && a != b ==> #[trigger] pv[a].id
                            != #[trigger] pv[b].id,
                    forall|b: int| 0 <= b < j && b != i ==> pv[i as int].id != #[trigger] pv[b].id,
                decreases peers.len() - j,
            {
                if j != i && peers[i].id == peers[j].id {
                    assert(pv[i as int].id == pv[j as int].id);
                    return None;
                }
                j = j + 1;
            }
            i = i + 1;
        }
        let mut k: usize = 0;
        while k < messages.len()
            invariant
                k <= messages.len(),
                mv == message_rows(messages@),
                0 <= last_message_id,
                forall|a: int, b: int| 0 <= a < b < k ==> #[trigger] mv[a].id < #[trigger] mv[b].id,
                forall|a: int| 0 <= a < k ==> 1 <= #[trigger] mv[a].id <= last_message_id,
            decreases messages.len() - k,
        {
            let id = messages[k].id;
            if id < 1 || id > last_message_id {
                assert(!(1 <= mv[k as int].id <= last_message_id));
                return None;
            }
            if k > 0 && messages[k - 1].id >= id {
                assert(!(mv[k - 1].id < mv[k as int].id));
                return None;
            }
            proof {
                assert forall|a: int, b: int| 0 <= a < b < k + 1 implies #[trigger] mv[a].id
                    < #[trigger] mv[b].id by {
                    if b == k && a < k - 1 {
                        assert(mv[a].id < mv[k - 1].id);
                    }
                }
            }
            k = k + 1;
        }
        Some(PeerStore { peers, messages, last_message_id })
    }

    /// The session rows, in storage order.
    pub fn peers(&self) -> (res: &Vec<PeerRecord>)
        ensures
            peer_rows(res@) == self@.peers,
    {
        &self.peers
    }

    /// The queued messages, in id order.
    pub fn messages(&self) -> (res: &Vec<StoredMessage>)
        ensures
            message_rows(res@) == self@.messages,
    {
        &self.messages
    }

    /// The largest message id ever handed out (0 before the first).
    pub fn last_message_id(&self) -> (res: i64)
        ensures
            res == self@.last_message_id,
    {
        self.last_message_id
    }

    /// The position of the row with session id `id`.
    pub fn find(&self, id: &String) -> (res: Option<usize>)
        requires
            self.wf(),
        ensures
            res is Some <==> has_peer(self@, id@),
            res matches Some(i) ==> i < self@.peers.len() && self@.peers[i as int].id == id@
                && self@.peers[i as int] == row_of(self@, id@),
    {
        let ghost pv = self@.peers;
        let mut i: usize = 0;
        while i < self.peers.len()
            invariant
                i <= self.peers.len(),
                pv == peer_rows(self.peers@),
                unique_ids(pv),
                forall|j: int| 0 <= j < i ==> #[trigger] pv[j].id != id@,
            decreases self.peers.len() - i,
        {
            if self.peers[i].id == *id {
                proof {
                    let c = choose|c: int| 0 <= c < pv.len() && #[trigger] pv[c].id == id@;
                    assert(pv[i as int].id == id@);
                    assert(c == i);
                }
                return Some(i);
            }
            i = i + 1;
        }
        None
    }

    /// The position of the row with session id `id` where it holds lease `lease`.
    pub fn find_owned(&self, id: &String, lease: &String) -> (res: Option<usize>)
        requires
            self.wf(),
        ensures
            res is Some <==> owns(self@, id@, lease@),
            res matches Some(i) ==> i < self@.peers.len() && self@.peers[i as int].id == id@
                && self@.peers[i as int].lease == lease@ && self@.peers[i as int] == row_of(
                self@,
                id@,
            ),
    {
        match self.find(id) {
            Some(i) => {
                if self.peers[i].lease == *lease {
                    Some(i)
                } else {
                    proof {
                        if owns(self@, id@, lease@) {
                            let j = choose|j: int|
                                0 <= j < self@.peers.len() && #[trigger] self@.peers[j].id == id@
                                    && self@.peers[j].lease == lease@;
                            assert(j == i);
                        }
                    }
                    None
                }
            },
            None => None,
        }
    }

    /// Keeps only the messages that `rule` keeps, in order.
    pub fn retain_messages(&mut self, rule: &Retention)
        requires
            old(self).wf(),
        ensures
            final(self).wf(),
            final(self)@.peers == old(self)@.peers,
            final(self)@.last_message_id == old(self)@.last_message_id,
            final(self)@.messages == retain(old(self)@.messages, rule.keep_fn()),
    {
        let ghost mv = self@.messages;
        let ghost last = self.last_message_id as int;
        let mut kept: Vec<StoredMessage> = Vec::new();
        let mut i: usize = 0;
        assert(mv.take(0) =~= Seq::<MessageRow>::empty());
        assert(message_rows(kept@) =~= Seq::<MessageRow>::empty());
        while i < self.messages.len()
            invariant
                i <= self.messages.len(),
                mv == message_rows(self.messages@),
                last == self.last_message_id,
                ordered_ids(mv, last),
                message_rows(kept@) == retain(mv.take(i as int), rule.keep_fn()),
                ordered_ids(message_rows(kept@), last),
                forall|a: int, b: int|
                    0 <= a < kept@.len() && i <= b < mv.len() ==> #[trigger] message_rows(
                        kept@,
                    )[a].id < #[trigger] mv[b].id,
            decreases self.messages.len() - i,
        {
            let ghost before = message_rows(kept@);
            proof {
                lemma_retain_step(mv, rule.keep_fn(), i as int);
            }
            if rule.keeps_message(&self.messages[i]) {
                let m = self.messages[i].copy();
                kept.push(m);
                assert(message_rows(kept@) =~= before.push(mv[i as int]));
            }
            i = i + 1;
        }
        assert(mv.take(mv.len() as int) =~= mv);
        self.messages = kept;
    }

    /// How many messages are addressed to `recipient`.
    pub fn inbox_count(&self, recipient: &String) -> (res: usize)
        ensures
            res == inbox_size(self@.messages, recipient@),
    {
        let ghost mv = self@.messages;
        let mut count: usize = 0;
        let mut i: usize = 0;
        while i < self.messages.len()
            invariant
                i <= self.messages.len(),
                mv == message_rows(self.messages@),
                count == inbox_size(mv.take(i as int), recipient@),
                count <= i,
            decreases self.messages.len() - i,
        {
            proof {
                lemma_inbox_step(mv, recipient@, i as int);
            }
            if self.messages[i].recipient == *recipient {
                count = count + 1;
            }
            i = i + 1;
        }
        assert(mv.take(mv.len() as int) =~= mv);
        count
    }

    /// The position of the first message addressed to `recipient`.
    pub fn first_for(&self, recipient: &String) -> (res: Option<usize>)
        ensures
            res is None <==> inbox_empty(self@.messages, recipient@),
            res matches Some(i) ==> is_first_for(self@.messages, recipient@, i as int),
    {
        let ghost mv = self@.messages;
        let mut i: usize = 0;
        while i < self.messages.len()
            invariant
                i <= self.messages.len(),
                mv == message_rows(self.messages@),
                forall|j: int| 0 <= j < i ==> #[trigger] mv[j].recipient != recipient@,
            decreases self.messages.len() - i,
        {
            if self.messages[i].recipient == *recipient {
                assert(mv[i as int].recipient == recipient@);
                return Some(i);
            }
            i = i + 1;
        }
        None
    }

    /// Replaces the row at `i` with a row for the same session.
    pub fn replace_peer(&mut self, i: usize, row: PeerRecord)
        requires
            old(self).wf(),
            i < old(self)@.peers.len(),
            row@.id == old(self)@.peers[i as int].id,
        ensures
            final(self).wf(),
            final(self)@.peers == old(self)@.peers.update(i as int, row@),
            final(self)@.messages == old(self)@.messages,
            final(self)@.last_message_id == old(self)@.last_message_id,
    {
        let ghost r = row@;
        self.peers.set(i, row);
        assert(peer_rows(self.peers@) =~= old(self)@.peers.update(i as int, r));
        proof {
            let pv = self@.peers;
            assert forall|a: int, b: int|
                0 <= a < pv.len() && 0 <= b < pv.len() && a != b implies #[trigger] pv[a].id
                != #[trigger] pv[b].id by {
                assert(pv[a].id == old(self)@.peers[a].id);
                assert(pv[b].id == old(self)@.peers[b].id);
            }
        }
    }

    /// Adds a row for a session that has none.
    pub fn add_peer(&mut self, row: PeerRecord)
        requires
            old(self).wf(),
            !has_peer(old(self)@, row@.id),
        ensures
            final(self).wf(),
            final(self)@.peers == old(self)@.peers.push(row@),
            final(self)@.messages == old(self)@.messages,
            final(self)@.last_message_id == old(self)@.last_message_id,
    {
        let ghost r = row@;
        self.peers.push(row);
        assert(peer_rows(self.peers@) =~= old(self)@.peers.push(r));
        proof {
            let pv = self@.peers;
            assert forall|a: int, b: int|
                0 <= a < pv.len() && 0 <= b < pv.len() && a != b implies #[trigger] pv[a].id
                != #[trigger] pv[b].id by {
                if a < pv.len() - 1 && b < pv.len() - 1 {
                    assert(pv[a].id == old(self)@.peers[a].id);
                    assert(pv[b].id == old(self)@.peers[b].id);
                } else if a == pv.len() - 1 {
                    assert(old(self)@.peers[b].id == pv[b].id);
                } else {
                    assert(old(self)@.peers[a].id == pv[a].id);
                }
            }
        }
    }

    /// Queues a message under the next id, or returns `None` when every id has been handed out.
    pub fn append_message(&mut self, sender: String, recipient: String, text: String, created: i64) -> (res:
        Option<i64>)
        requires
            old(self).wf(),
        ensures
            final(self).wf(),
            final(self)@.peers == old(self)@.peers,
            res is None <==> old(self)@.last_message_id == i64::MAX,
            res is None ==> final(self)@ == old(self)@,
            res matches Some(id) ==> {
                &&& id == old(self)@.last_message_id + 1
                &&& final(self)@.last_message_id == id
                &&& final(self)@.messages == old(self)@.messages.push(
                    message_row(id as int, sender@, recipient@, text@, created as int),
                )
            },
    {
        if self.last_message_id == i64::MAX {
            return None;
        }
        let id = self.last_message_id + 1;
        let m = StoredMessage { id, sender, recipient, text, created };
        let ghost mr = m@;
        let ghost before = self@.messages;
        self.messages.push(m);
        self.last_message_id = id;
        assert(message_rows(self.messages@) =~= before.push(mr));
        Some(id)
    }
}

} // verus!
