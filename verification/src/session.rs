//! When a session joins the mailbox, and what its background worker and tool set do.
use crate::ids::{
    canonical_thread_id, parse_thread_id,
};
use crate::mailbox::{
    after_heartbeat, bad_group, next_pending, open_row, opened, takes_part, without_message,
    PeerMailbox, PeerMessage,
};
use crate::store::{
    opt_view, owns, PeerStore, StoreView,
};
use crate::tools::PeerTool;
use vstd::prelude::*;
use vstd::string::*;

verus! {

/// Host-selected scope. Neither repository identity nor group is model-controlled.
pub struct PeerOptions {
    pub repository: Option<String>,
    pub group: Option<String>,
}

/// The configuration that decides whether a session may take part.
pub struct PeerSettings {
    pub ephemeral: bool,
    pub multi_agent_v2: bool,
    pub peer_messaging: bool,
    pub disable_direct_message: bool,
    pub peer_group: Option<String>,
}

/// Peer messaging is allowed: the session is not ephemeral, multi-agent support is on, peer
/// messaging is on, and direct messages are not disabled.
pub open spec fn allowed(s: PeerSettings) -> bool {
    !s.ephemeral && s.multi_agent_v2 && s.peer_messaging && !s.disable_direct_message
}

/// Whether peer messaging is allowed for a session with these settings.
pub fn peer_messaging_allowed(settings: &PeerSettings) -> (res: bool)
    ensures
        res == allowed(*settings),
{
    !(settings.ephemeral || !settings.multi_agent_v2 || !settings.peer_messaging
        || settings.disable_direct_message)
}

/// The scope a session joins with: the repository found for its working directory and the
/// configured group, or nothing where peer messaging is not allowed.
pub fn peer_options(settings: &PeerSettings, repository: Option<String>) -> (res: Option<PeerOptions>)
    ensures
        res is Some <==> allowed(*settings),
        res matches Some(o) ==> opt_view(o.repository) == opt_view(repository) && opt_view(o.group)
            == opt_view(settings.peer_group),
{
    if !peer_messaging_allowed(settings) {
        return None;
    }
    let group = match &settings.peer_group {
        Some(g) => Some(g.clone()),
        None => None,
    };
    Some(PeerOptions { repository, group })
}

/// The working directory whose repository scopes a session: the first environment's, the
/// session's configured one where it has no environment, and none where the environment's
/// directory could not be resolved.
pub fn choose_working_directory(
    environment_cwd: Option<Result<String, ()>>,
    config_cwd: String,
) -> (res: Option<String>)
    ensures
        match environment_cwd {
            Some(Ok(cwd)) => res == Some(cwd),
            Some(Err(())) => res is None,
            None => res == Some(config_cwd),
        },
{
    match environment_cwd {
        Some(Ok(cwd)) => Some(cwd),
        Some(Err(())) => None,
        None => Some(config_cwd),
    }
}

/// The canonical thread id that `level_id` spells, or `None` where it spells none.
pub fn thread_id_of(level_id: &str) -> (res: Option<String>)
    ensures
        match res {
            Some(s) => canonical_thread_id(level_id@) == Some(s@),
            None => canonical_thread_id(level_id@) is None,
        },
{
    parse_thread_id(level_id)
}

/// Only independent roots that run entirely in the local environment take part; their children
/// keep their tree-local messaging.
pub open spec fn joins(has_parent: bool, environment_ids: Seq<Seq<char>>) -> bool {
    !has_parent && forall|i: int| 0 <= i < environment_ids.len() ==> #[trigger] environment_ids[i] == "local"@
}

/// Whether a starting session takes part.
pub fn joins_peers(has_parent: bool, environment_ids: &Vec<String>) -> (res: bool)
    ensures
        res == joins(has_parent, crate::mailbox::texts(environment_ids@)),
{
    if has_parent {
        return false;
    }
    let local = String::from_str("local");
    let ghost ids = crate::mailbox::texts(environment_ids@);
    let mut i: usize = 0;
    while i < environment_ids.len()
        invariant
            i <= environment_ids@.len(),
            ids == crate::mailbox::texts(environment_ids@),
            local@ == "local"@,
            forall|j: int| 0 <= j < i ==> #[trigger] ids[j] == "local"@,
        decreases environment_ids.len() - i,
    {
        if !(environment_ids[i] == local) {
            assert(ids[i as int] != "local"@);
            return false;
        }
        i = i + 1;
    }
    true
}

/// The warning shown for a thread whose mailbox could not be opened.
pub fn initialization_warning() -> (res: String)
    ensures
        res@ == "Local peer messaging could not initialize; peer tools are unavailable."@,
{
    String::from_str("Local peer messaging could not initialize; peer tools are unavailable.")
}

/// What starting a session gives.
pub enum ThreadStart {
    /// The session's id is not a thread id; it has no mailbox.
    Skipped,
    /// The session's mailbox.
    Bound(PeerMailbox),
    /// The mailbox could not be opened; this warning is shown for the thread.
    Warned { thread_id: String, message: String },
}

/// Opens the mailbox of a starting session whose level id is `level_id`, with the scope the
/// host chose.
pub fn start_session(store: &mut PeerStore, options: PeerOptions, level_id: &str, now: i64) -> (res: ThreadStart)
    requires
        old(store).wf(),
    ensures
        final(store).wf(),
        canonical_thread_id(level_id@) is None ==> res is Skipped && final(store)@ == old(store)@,
        canonical_thread_id(level_id@) matches Some(id) ==> {
            &&& bad_group(options.group) ==> final(store)@ == old(store)@ && (res matches ThreadStart::Warned {
                thread_id,
                message,
            } && thread_id@ == id
                && message@ == "Local peer messaging could not initialize; peer tools are unavailable."@)
            &&& !bad_group(options.group) ==> (res matches ThreadStart::Bound(m) && m@.id == id
                && m@.has_repository == (options.repository is Some)
                && final(store)@ == opened(
                old(store)@,
                id,
                m@.lease,
                opt_view(options.repository),
                opt_view(options.group),
                now as int,
            ) && m@.available == takes_part(
                open_row(
                    old(store)@,
                    id,
                    m@.lease,
                    opt_view(options.repository),
                    opt_view(options.group),
                    now as int,
                ),
            ))
        },
{
    let id = match parse_thread_id(level_id) {
        Some(id) => id,
        None => {
            return ThreadStart::Skipped;
        },
    };
    let thread_id = id.clone();
    match PeerMailbox::open(store, id, options.repository, options.group, now) {
        Ok(mailbox) => ThreadStart::Bound(mailbox),
        Err(_) => ThreadStart::Warned { thread_id, message: initialization_warning() },
    }
}

/// What the delivery worker does after one round.
pub enum WorkerStep {
    /// Another runtime owns the session: the worker stops.
    Stop,
    /// Nothing to deliver this round.
    Idle,
    /// Deliver this message; acknowledge it where the recipient accepted it.
    Deliver(PeerMessage),
}

/// One round of the delivery worker: a heartbeat, then the oldest queued message.
pub fn worker_step(mailbox: &PeerMailbox, store: &mut PeerStore, now: i64) -> (res: WorkerStep)
    requires
        old(store).wf(),
    ensures
        final(store).wf(),
        final(store)@ == after_heartbeat(old(store)@, mailbox@.id, mailbox@.lease, now as int),
        res is Stop <==> !owns(old(store)@, mailbox@.id, mailbox@.lease),
        res is Idle ==> next_pending(final(store)@, mailbox@.id, mailbox@.lease) is None,
        res matches WorkerStep::Deliver(m) ==> next_pending(final(store)@, mailbox@.id, mailbox@.lease)
            == Some(m@),
        !(res is Stop) ==> (res is Idle <==> next_pending(final(store)@, mailbox@.id, mailbox@.lease) is None),
{
    if !mailbox.heartbeat(store, now) {
        return WorkerStep::Stop;
    }
    match mailbox.pending(store) {
        Some(message) => WorkerStep::Deliver(message),
        None => WorkerStep::Idle,
    }
}

/// Ends a delivery: the message leaves the queue only where the recipient accepted it.
pub fn finish_delivery(mailbox: &PeerMailbox, store: &mut PeerStore, message_id: i64, accepted: bool)
    requires
        old(store).wf(),
    ensures
        final(store).wf(),
        !accepted ==> final(store)@ == old(store)@,
        accepted ==> final(store)@ == (StoreView {
            peers: old(store)@.peers,
            messages: if owns(old(store)@, mailbox@.id, mailbox@.lease) {
                without_message(old(store)@.messages, mailbox@.id, message_id as int)
            } else {
                old(store)@.messages
            },
            last_message_id: old(store)@.last_message_id,
        }),
{
    if accepted {
        mailbox.acknowledge(store, message_id);
    }
}

/// The tools a session is offered: listing and sending while its mailbox takes part, none
/// otherwise.
pub fn offered_tools(binding: &Option<PeerMailbox>) -> (res: Vec<PeerTool>)
    ensures
        match binding {
            Some(m) if m@.available => res@ == seq![PeerTool { send: false }, PeerTool { send: true }],
            _ => res@.len() == 0,
        },
{
    let mut res = Vec::new();
    if let Some(m) = binding {
        if m.is_available() {
            res.push(PeerTool { send: false });
            res.push(PeerTool { send: true });
        }
    }
    res
}

} // verus!
