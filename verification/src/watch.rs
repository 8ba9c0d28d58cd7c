//! What changes in the runner's directory come to.

use crate::text::text_is;
use vstd::prelude::*;

verus! {

/// What happened: a file was written and closed, a directory was made, a file
/// was removed, or something else.
#[derive(Clone, Copy, Debug, PartialEq, Eq, Structural)]
pub enum ChangeKind {
    Written,
    DirCreated,
    FileRemoved,
    Other,
}

/// Where it happened: the last part of the path, if it has one; its parent and
/// the path itself, each by its way from the runner's directory, if it is in
/// there. The way to the runner's directory itself is empty.
#[derive(Debug)]
pub struct Place {
    pub file_name: Option<String>,
    pub parent: Option<String>,
    pub path: Option<String>,
}

/// What to do about a change: nothing; read the job file in a directory; see
/// whether a new directory has a job file; or take out the job in a directory.
#[derive(Debug)]
pub enum WatchAction {
    Ignore,
    Update(String),
    Added(String),
    Remove(String),
}

/// The model of what to do about a change.
pub enum WatchActionView {
    Ignore,
    Update(Seq<char>),
    Added(Seq<char>),
    Remove(Seq<char>),
}

impl View for WatchAction {
    type V = WatchActionView;

    open spec fn view(&self) -> WatchActionView {
        match self {
            WatchAction::Ignore => WatchActionView::Ignore,
            WatchAction::Update(dir) => WatchActionView::Update(dir@),
            WatchAction::Added(dir) => WatchActionView::Added(dir@),
            WatchAction::Remove(dir) => WatchActionView::Remove(dir@),
        }
    }
}

impl Place {
    /// Whether this is the place of a job file.
    pub open spec fn is_jobfile(self) -> bool {
        self.file_name matches Some(name) && name@ == "job.yml"@
    }

    /// Whether this is a place right in the runner's directory.
    pub open spec fn is_at_top(self) -> bool {
        self.parent matches Some(parent) && parent@.len() == 0
    }

    /// Whether what the runner goes by upon a change is known: of a job file
    /// that was written or removed, its directory; of a directory made right in
    /// the runner's directory, its own name.
    pub open spec fn is_known(self, kind: ChangeKind) -> bool {
        match kind {
            ChangeKind::Written | ChangeKind::FileRemoved => self.is_jobfile()
                ==> self.parent is Some,
            ChangeKind::DirCreated => self.is_at_top() ==> self.path is Some,
            ChangeKind::Other => true,
        }
    }

    fn jobfile(&self) -> (b: bool)
        ensures
            b == self.is_jobfile(),
    {
        match &self.file_name {
            Some(name) => text_is(name, "job.yml"),
            None => false,
        }
    }

    fn at_top(&self) -> (b: bool)
        ensures
            b == self.is_at_top(),
    {
        match &self.parent {
            Some(parent) => {
                proof {
                    reveal_strlit("");
                }
                assert(parent@.len() == 0 ==> parent@ == ""@);
                text_is(parent, "")
            },
            None => false,
        }
    }
}

/// What a change comes to: a job file written or removed is a matter of the
/// job in its directory, and a directory made right in the runner's directory
/// may hold a new job.
pub open spec fn action_on(kind: ChangeKind, place: Option<Place>) -> WatchActionView {
    match place {
        None => WatchActionView::Ignore,
        Some(place) => match kind {
            ChangeKind::Written if place.is_jobfile() => WatchActionView::Update(place.parent->0@),
            ChangeKind::FileRemoved if place.is_jobfile() => WatchActionView::Remove(
                place.parent->0@,
            ),
            ChangeKind::DirCreated if place.is_at_top() => WatchActionView::Added(place.path->0@),
            _ => WatchActionView::Ignore,
        },
    }
}

/// Decides what to do about a change.
pub fn watch_action(kind: ChangeKind, place: Option<Place>) -> (action: WatchAction)
    requires
        place matches Some(p) ==> p.is_known(kind),
    ensures
        action@ == action_on(kind, place),
{
    match place {
        None => WatchAction::Ignore,
        Some(place) => match kind {
            ChangeKind::Written => if place.jobfile() {
                WatchAction::Update(place.parent.unwrap())
            } else {
                WatchAction::Ignore
            },
            ChangeKind::FileRemoved => if place.jobfile() {
                WatchAction::Remove(place.parent.unwrap())
            } else {
                WatchAction::Ignore
            },
            ChangeKind::DirCreated => if place.at_top() {
                WatchAction::Added(place.path.unwrap())
            } else {
                WatchAction::Ignore
            },
            ChangeKind::Other => WatchAction::Ignore,
        },
    }
}

} // verus!
