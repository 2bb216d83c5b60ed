//! The app-server request that reads or changes a thread's peer group.
use crate::mailbox::{
    binding_after,
    group_command, opt_mailbox, peer_group, GroupView, PeerMailbox, error_text,
};
use crate::store::PeerStore;
use vstd::prelude::*;

verus! {

/// A thread's peer group as the app-server protocol spells it.
#[derive(Clone, Debug, PartialEq, Eq)]
pub enum PeerGroup {
    Auto,
    Off,
    Named { name: String },
}

impl View for PeerGroup {
    type V = GroupView;

    open spec fn view(&self) -> GroupView {
        match self {
            PeerGroup::Auto => GroupView::Auto,
            PeerGroup::Off => GroupView::Off,
            PeerGroup::Named { name } => GroupView::Named(name@),
        }
    }
}

/// Reads the group of a thread, or changes it where `selection` is given.
#[derive(Clone, Debug, PartialEq)]
pub struct ThreadPeerGroupParams {
    pub thread_id: String,
    /// Omit to read the current group. Changes take effect immediately and survive resume.
    pub selection: Option<PeerGroup>,
}

/// The thread's group after the request.
#[derive(Clone, Debug, PartialEq)]
pub struct ThreadPeerGroupResponse {
    pub selection: PeerGroup,
}

impl PeerGroup {
    /// The same group in the mailbox's terms.
    pub fn into_mailbox_group(self) -> (res: crate::mailbox::PeerGroup)
        ensures
            res@ == self@,
    {
        match self {
            PeerGroup::Auto => crate::mailbox::PeerGroup::Auto,
            PeerGroup::Off => crate::mailbox::PeerGroup::Off,
            PeerGroup::Named { name } => crate::mailbox::PeerGroup::Named(name),
        }
    }

    /// The same group in the protocol's terms.
    pub fn from_mailbox_group(group: crate::mailbox::PeerGroup) -> (res: PeerGroup)
        ensures
            res@ == group@,
    {
        match group {
            crate::mailbox::PeerGroup::Auto => PeerGroup::Auto,
            crate::mailbox::PeerGroup::Off => PeerGroup::Off,
            crate::mailbox::PeerGroup::Named(name) => PeerGroup::Named { name },
        }
    }
}

/// The value of a response.
pub open spec fn response_view(r: Result<ThreadPeerGroupResponse, String>) -> Result<GroupView, Seq<char>> {
    match r {
        Ok(resp) => Ok(resp.selection@),
        Err(e) => Err(e@),
    }
}

/// What a group request answers, given the store and the thread's mailbox.
pub open spec fn thread_peer_group_answer(
    s: crate::store::StoreView,
    binding: Option<crate::mailbox::MailboxView>,
    selection: Option<GroupView>,
) -> Result<GroupView, Seq<char>> {
    match group_command(s, binding, selection).1 {
        Ok(g) => Ok(g),
        Err(e) => Err(error_text(e)),
    }
}

/// The value of an optional protocol group.
pub open spec fn opt_selection(g: Option<PeerGroup>) -> Option<GroupView> {
    match g {
        Some(g) => Some(g@),
        None => None,
    }
}

/// Serves a group request for the thread whose mailbox is `binding`: applies the selection, if
/// any, and answers with the thread's group, or with the error's text.
pub fn thread_peer_group(
    binding: &mut Option<PeerMailbox>,
    store: &mut PeerStore,
    params: ThreadPeerGroupParams,
) -> (res: Result<ThreadPeerGroupResponse, String>)
    requires
        old(store).wf(),
    ensures
        final(store).wf(),
        final(store)@ == group_command(
            old(store)@,
            opt_mailbox(*old(binding)),
            opt_selection(params.selection),
        ).0,
        response_view(res) == thread_peer_group_answer(
            old(store)@,
            opt_mailbox(*old(binding)),
            opt_selection(params.selection),
        ),
        opt_mailbox(*final(binding)) == binding_after(
            old(store)@,
            opt_mailbox(*old(binding)),
            opt_selection(params.selection),
        ),
{
    let selection = match params.selection {
        Some(g) => Some(g.into_mailbox_group()),
        None => None,
    };
    match peer_group(binding, store, selection) {
        Ok(group) => Ok(ThreadPeerGroupResponse { selection: PeerGroup::from_mailbox_group(group) }),
        Err(error) => Err(error.message()),
    }
}

} // verus!
