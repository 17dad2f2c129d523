//! The directories a running plan resolves its places against: the
//! manifest's directory and the stack of open workspaces.
use vstd::prelude::*;
use crate::path::{byte_views, fits_all, join_all, locate};
use crate::plan::{Anchor, Place};
use crate::policy::Failure;

verus! {

/// The manifest's directory and the paths of the open workspaces, the
/// innermost last.
pub struct Workspaces {
    pub root: Vec<u8>,
    pub open: Vec<Vec<u8>>,
}

/// The directory an anchor stands for, if it stands for one now.
pub open spec fn anchor_path(root: Seq<u8>, open: Seq<Seq<u8>>, anchor: Anchor) -> Option<Seq<u8>> {
    match anchor {
        Anchor::Root => Some(root),
        Anchor::Workspace => if open.len() > 0 {
            Some(open.last())
        } else {
            None
        },
    }
}

impl Workspaces {
    /// No workspace open yet.
    pub fn new(root: Vec<u8>) -> (r: Workspaces)
        ensures
            r.root@ == root@,
            r.open@.len() == 0,
    {
        Workspaces { root, open: Vec::new() }
    }

    /// A fresh workspace at `path` becomes the innermost one.
    pub fn enter(&mut self, path: Vec<u8>)
        ensures
            final(self).root@ == old(self).root@,
            byte_views(final(self).open@) == byte_views(old(self).open@).push(path@),
    {
        let ghost before = self.open@;
        self.open.push(path);
        assert(byte_views(self.open@) =~= byte_views(before).push(path@));
    }

    /// The innermost workspace is closed; its path comes back, if there was one.
    pub fn leave(&mut self) -> (r: Option<Vec<u8>>)
        ensures
            final(self).root@ == old(self).root@,
            old(self).open@.len() == 0 ==> r is None && final(self).open@ == old(self).open@,
            old(self).open@.len() > 0 ==> r == Some(old(self).open@.last())
                && final(self).open@ == old(self).open@.drop_last(),
    {
        self.open.pop()
    }

    /// The path that `place` stands for now. It fails when it is anchored at
    /// a workspace and none is open, or when the path would be too long.
    pub fn resolve(&self, place: &Place) -> (r: Result<Vec<u8>, Failure>)
        ensures
            match anchor_path(self.root@, byte_views(self.open@), place.anchor) {
                None => r == Err::<Vec<u8>, Failure>(Failure::Workspace),
                Some(a) => {
                    &&& r is Ok <==> fits_all(a, place@.parts)
                    &&& r is Err ==> r == Err::<Vec<u8>, Failure>(Failure::PathTooLong)
                    &&& r matches Ok(p) ==> p@ == join_all(a, place@.parts)
                },
            },
    {
        let n = self.open.len();
        let base = match place.anchor {
            Anchor::Root => &self.root,
            Anchor::Workspace => {
                if n == 0 {
                    return Err(Failure::Workspace);
                }
                assert(byte_views(self.open@).last() == self.open@[n - 1]@);
                &self.open[n - 1]
            },
        };
        match locate(base, &place.parts) {
            Some(p) => Ok(p),
            None => Err(Failure::PathTooLong),
        }
    }
}

} // verus!
