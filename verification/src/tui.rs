//! The `/group` command of the terminal interface: reading the argument, and the notices it
//! shows.
use crate::mailbox::GroupView;
use crate::protocol::{PeerGroup, ThreadPeerGroupResponse};
use crate::store::{opt_view, same_text};
use crate::text::{trim, trimmed};
use vstd::prelude::*;
use vstd::string::*;
use vstd::utf8::encode_utf8;

verus! {

/// A notice about the current group, with a hint on how to change it.
pub struct PeerGroupNotice {
    pub message: String,
    pub hint: String,
}

/// The text that tells the user which group is in effect.
pub open spec fn group_status(g: GroupView) -> Seq<char> {
    match g {
        GroupView::Auto => "Group: auto — communicate with sessions in this repository."@,
        GroupView::Off => "Group: off — communication with independent sessions is disabled."@,
        GroupView::Named(name) => "Group: "@ + name
            + " — communicate with this group and sessions in this repository."@,
    }
}

/// The hint shown under a group notice.
pub open spec fn group_hint() -> Seq<char> {
    "/group <name> · /group auto · /group off"@
}

/// The notice for a group.
pub fn show_peer_group(selection: &PeerGroup) -> (res: PeerGroupNotice)
    ensures
        res.message@ == group_status(selection@),
        res.hint@ == group_hint(),
{
    let message = match selection {
        PeerGroup::Auto => String::from_str(
            "Group: auto — communicate with sessions in this repository.",
        ),
        PeerGroup::Off => String::from_str(
            "Group: off — communication with independent sessions is disabled.",
        ),
        PeerGroup::Named { name } => {
            let mut m = String::from_str("Group: ");
            m.append(name.as_str());
            m.append(" — communicate with this group and sessions in this repository.");
            m
        },
    };
    PeerGroupNotice {
        message,
        hint: String::from_str("/group <name> · /group auto · /group off"),
    }
}

/// A `/group` request for a thread: read the group, or select one.
pub struct GroupRequest {
    pub thread_id: String,
    pub selection: Option<PeerGroup>,
}

/// What a `/group` argument asks for: nothing (read), `auto`, `off`, or a named group of at most
/// 128 bytes; `None` for a longer name.
pub open spec fn requested(argument: Seq<char>) -> Option<Option<GroupView>> {
    let t = trim(argument);
    if t.len() == 0 {
        Some(None)
    } else if t == "auto"@ {
        Some(Some(GroupView::Auto))
    } else if t == "off"@ {
        Some(Some(GroupView::Off))
    } else if encode_utf8(t).len() <= 128 {
        Some(Some(GroupView::Named(t)))
    } else {
        None
    }
}

/// A `/group` argument that is empty or white space reads the current group, and a name is
/// never blank: it asks for a named group only with text that is not white space, at most 128
/// bytes long, and neither `auto` nor `off`.
pub proof fn law_group_argument(argument: Seq<char>)
    ensures
        crate::text::is_blank(argument) ==> requested(argument) == Some(Option::<GroupView>::None),
        forall|n: Seq<char>|
            requested(argument) == Some(Some(GroupView::Named(n))) ==> n.len() > 0
                && !crate::text::is_blank(n) && n != "auto"@ && n != "off"@
                && encode_utf8(n).len() <= 128,
        !crate::text::is_blank(argument) ==> requested(argument) != Some(Option::<GroupView>::None),
{
    crate::text::law_trim(argument);
}

/// The value of an optional protocol group.
pub open spec fn opt_selection(g: Option<PeerGroup>) -> Option<GroupView> {
    match g {
        Some(g) => Some(g@),
        None => None,
    }
}

/// Reads a `/group` argument for the thread in view. Fails where no session has started, or the
/// name is longer than 128 bytes. Starts no turn.
pub fn request_peer_group(thread_id: Option<String>, argument: &str) -> (res: Result<GroupRequest, String>)
    ensures
        thread_id is None ==> (res matches Err(e) && e@ == "Start a session before using /group."@),
        thread_id matches Some(t) ==> match requested(argument@) {
            None => res matches Err(e) && e@ == "Group names must be at most 128 bytes."@,
            Some(sel) => res matches Ok(r) && r.thread_id@ == t@ && opt_selection(r.selection) == sel,
        },
{
    let thread_id = match thread_id {
        Some(t) => t,
        None => {
            return Err(String::from_str("Start a session before using /group."));
        },
    };
    let t = trimmed(argument);
    let selection = if t.as_str().is_empty() {
        None
    } else if t == String::from_str("auto") {
        Some(PeerGroup::Auto)
    } else if t == String::from_str("off") {
        Some(PeerGroup::Off)
    } else if t.as_str().as_bytes().len() <= 128 {
        Some(PeerGroup::Named { name: t })
    } else {
        return Err(String::from_str("Group names must be at most 128 bytes."));
    };
    Ok(GroupRequest { thread_id, selection })
}

/// What the interface shows when a group request returns.
pub enum GroupUpdateNotice {
    Info(PeerGroupNotice),
    Error(String),
}

/// What to show when a group request for `thread_id` returns `result`: nothing where another
/// thread is now displayed, the group where it succeeded, the error otherwise.
pub fn update_peer_group(
    displayed: &Option<String>,
    thread_id: &String,
    result: Result<ThreadPeerGroupResponse, String>,
) -> (res: Option<GroupUpdateNotice>)
    ensures
        opt_view(*displayed) != Some(thread_id@) ==> res is None,
        opt_view(*displayed) == Some(thread_id@) ==> match result {
            Ok(r) => res matches Some(GroupUpdateNotice::Info(n)) && n.message@ == group_status(
                r.selection@,
            ) && n.hint@ == group_hint(),
            Err(e) => res matches Some(GroupUpdateNotice::Error(m)) && m@ == "Could not update group: "@
                + e@,
        },
{
    if !same_text(displayed, &Some(thread_id.clone())) {
        return None;
    }
    match result {
        Ok(response) => Some(GroupUpdateNotice::Info(show_peer_group(&response.selection))),
        Err(error) => {
            let mut m = String::from_str("Could not update group: ");
            m.append(error.as_str());
            Some(GroupUpdateNotice::Error(m))
        },
    }
}

} // verus!
