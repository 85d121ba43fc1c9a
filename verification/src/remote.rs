//! The repository adapter's contract, and a remote held in memory.
//!
//! History is linear. Revision 0 is the empty tree that every history
//! starts from, and each accepted push appends one revision. A push names
//! the revision it is based on and is accepted only while that revision is
//! still the head: nothing is locked, a stale push is told what diverged.

use vstd::prelude::*;
use crate::error::{ConflictInfo, SyncError};
use crate::index::Revision;
use crate::tree::{
    copy_tree, diverged, diverged_paths, tree_view, unique_paths, TreeItem, TreeItemView,
};

verus! {

/// Why a push was not accepted.
#[derive(Debug, PartialEq, Eq)]
pub enum PushError {
    /// The head has moved past the revision the push is based on.
    Conflict(ConflictInfo),
    /// The remote could not be reached.
    Unreachable,
}

/// A remote as plain values: the tree of each revision, and whether the
/// remote can be reached.
pub struct RemoteView {
    pub history: Seq<Seq<TreeItemView>>,
    pub online: bool,
}

impl RemoteView {
    /// The newest revision.
    pub open spec fn head(self) -> Revision {
        Revision { id: (self.history.len() - 1) as u64 }
    }

    /// Whether the remote holds `revision`.
    pub open spec fn knows(self, revision: Revision) -> bool {
        revision.id < self.history.len()
    }

    /// The tree of `revision`; the empty tree for a revision that the remote
    /// does not hold.
    pub open spec fn tree_at(self, revision: Revision) -> Seq<TreeItemView> {
        if self.knows(revision) {
            self.history[revision.id as int]
        } else {
            Seq::empty()
        }
    }

    /// The remote after `tree` was accepted as the new head.
    pub open spec fn pushed(self, tree: Seq<TreeItemView>) -> RemoteView {
        RemoteView { history: self.history.push(tree), ..self }
    }

    /// The newest revision that both `a` and `b` descend from, if the
    /// remote holds both.
    pub open spec fn common_ancestor(self, a: Revision, b: Revision) -> Option<Revision> {
        if self.knows(a) && self.knows(b) {
            Some(
                if a.id <= b.id {
                    a
                } else {
                    b
                },
            )
        } else {
            None
        }
    }
}

/// A remote repository held in memory.
pub struct MemoryRemote {
    history: Vec<Vec<TreeItem>>,
    online: bool,
}

impl View for MemoryRemote {
    type V = RemoteView;

    closed spec fn view(&self) -> RemoteView {
        RemoteView {
            history: self.history@.map_values(|tree: Vec<TreeItem>| tree_view(tree@)),
            online: self.online,
        }
    }
}

impl MemoryRemote {
    /// The remote's invariant: there is a head, and no tree holds a path
    /// twice.
    pub open spec fn wf(&self) -> bool {
        &&& self@.history.len() >= 1
        &&& forall|r: int| 0 <= r < self@.history.len() ==> unique_paths(#[trigger] self@.history[r])
    }

    /// A reachable remote whose only revision is the empty tree.
    pub fn new() -> (remote: MemoryRemote)
        ensures
            remote.wf(),
            remote@.online,
            remote@.history == seq![Seq::<TreeItemView>::empty()],
    {
        let mut history: Vec<Vec<TreeItem>> = Vec::new();
        history.push(Vec::new());
        let remote = MemoryRemote { history, online: true };
        assert(remote@.history =~= seq![Seq::<TreeItemView>::empty()]) by {
            assert(remote@.history[0] =~= Seq::<TreeItemView>::empty());
        }
        remote
    }

    /// Makes the remote reachable or unreachable.
    pub fn set_online(&mut self, online: bool)
        ensures
            final(self)@ == (RemoteView { online, ..old(self)@ }),
    {
        self.online = online;
    }

    /// The head revision of a reachable remote.
    pub fn resolve_remote_head(&self) -> (head: Result<Revision, SyncError>)
        requires
            self.wf(),
        ensures
            match head {
                Ok(revision) => self@.online && revision == self@.head(),
                Err(error) => !self@.online && error is RemoteUnreachable,
            },
    {
        if self.online {
            Ok(Revision { id: (self.history.len() - 1) as u64 })
        } else {
            Err(SyncError::RemoteUnreachable)
        }
    }

    /// The complete tree of `revision`. An unreachable remote answers
    /// `RemoteUnreachable`, a reachable one that does not hold the revision
    /// `NotFound`.
    pub fn fetch_tree(&self, revision: Revision) -> (fetched: Result<Vec<TreeItem>, SyncError>)
        requires
            self.wf(),
        ensures
            match fetched {
                Ok(tree) => self@.online && self@.knows(revision) && tree_view(tree@)
                    == self@.tree_at(revision),
                Err(SyncError::RemoteUnreachable) => !self@.online,
                Err(SyncError::NotFound) => self@.online && !self@.knows(revision),
                Err(_) => false,
            },
    {
        if !self.online {
            return Err(SyncError::RemoteUnreachable);
        }
        if revision.id >= self.history.len() as u64 {
            return Err(SyncError::NotFound);
        }
        Ok(copy_tree(&self.history[revision.id as usize]))
    }

    /// Publishes `tree` as the revision after `base`. The push is accepted
    /// if and only if the remote is reachable and `base` is its head; the
    /// new revision is then the head. A push on a stale base changes nothing
    /// and is told the paths on which the head diverged from the base.
    pub fn push_tree(&mut self, base: Revision, tree: Vec<TreeItem>) -> (pushed: Result<
        Revision,
        PushError,
    >)
        requires
            old(self).wf(),
            unique_paths(tree_view(tree@)),
        ensures
            final(self).wf(),
            match pushed {
                Ok(revision) => {
                    &&& old(self)@.online
                    &&& base == old(self)@.head()
                    &&& final(self)@ == old(self)@.pushed(tree_view(tree@))
                    &&& revision == final(self)@.head()
                    &&& revision.id == base.id + 1
                },
                Err(PushError::Conflict(conflict)) => {
                    &&& old(self)@.online
                    &&& base != old(self)@.head()
                    &&& final(self)@ == old(self)@
                    &&& conflict@ == diverged_paths(
                        old(self)@.tree_at(base),
                        old(self)@.tree_at(old(self)@.head()),
                    )
                },
                Err(PushError::Unreachable) => !old(self)@.online && final(self)@ == old(self)@,
            },
    {
        if !self.online {
            return Err(PushError::Unreachable);
        }
        let head = self.history.len() - 1;
        if base.id != head as u64 {
            let paths = if base.id < self.history.len() as u64 {
                assert(unique_paths(self@.history[base.id as int]));
                diverged(&self.history[base.id as usize], &self.history[head])
            } else {
                let nothing: Vec<TreeItem> = Vec::new();
                assert(tree_view(nothing@) =~= Seq::<TreeItemView>::empty());
                diverged(&nothing, &self.history[head])
            };
            return Err(PushError::Conflict(ConflictInfo { paths }));
        }
        let ghost before = self@;
        let revision = Revision { id: self.history.len() as u64 };
        self.history.push(tree);
        proof {
            assert(self@.history =~= before.history.push(tree_view(tree@)));
            assert forall|r: int| 0 <= r < self@.history.len() implies unique_paths(
                #[trigger] self@.history[r],
            ) by {
                if r < before.history.len() {
                    assert(self@.history[r] == before.history[r]);
                }
            }
        }
        Ok(revision)
    }

    /// The newest revision that both `a` and `b` descend from. A revision
    /// that the remote does not hold shares no history with it.
    pub fn merge_base(&self, a: Revision, b: Revision) -> (base: Option<Revision>)
        requires
            self.wf(),
        ensures
            base == self@.common_ancestor(a, b),
    {
        let len = self.history.len() as u64;
        if a.id < len && b.id < len {
            if a.id <= b.id {
                Some(a)
            } else {
                Some(b)
            }
        } else {
            None
        }
    }
}

/// An accepted push makes the pushed tree the tree of the new head and
/// leaves the tree of every earlier revision as it was.
pub proof fn lemma_push_extends_history(
    remote: RemoteView,
    tree: Seq<TreeItemView>,
    earlier: Revision,
)
    requires
        remote.history.len() >= 1,
        remote.history.len() <= u64::MAX,
        remote.knows(earlier),
    ensures
        remote.pushed(tree).tree_at(remote.pushed(tree).head()) == tree,
        remote.pushed(tree).tree_at(earlier) == remote.tree_at(earlier),
        remote.pushed(tree).head().id == remote.head().id + 1,
{
}

} // verus!
