use vstd::prelude::*;
use crate::path::{PathRef, PathView};

verus! {

/// The one failure the core reports: an operation on a handle that no attach
/// or walk has bound yet.
#[derive(Clone, Copy, Debug, PartialEq, Eq, Structural)]
pub enum FsError {
    UnboundHandle,
}

/// One client handle and the path it is bound to. The transport keeps one
/// such record per live handle identifier, each under its own lock.
pub struct Handle {
    bound: Option<PathRef>,
}

impl View for Handle {
    type V = Option<PathView>;

    closed spec fn view(&self) -> Option<PathView> {
        match self.bound {
            Some(p) => Some(p@),
            None => None,
        }
    }
}

impl Default for Handle {
    fn default() -> (r: Handle)
        ensures
            r@ == None::<PathView>,
    {
        Handle::new()
    }
}

impl Handle {
    /// A freshly allocated, unbound handle.
    pub fn new() -> (r: Handle)
        ensures
            r@ == None::<PathView>,
    {
        Handle { bound: None }
    }

    /// Binds the handle to `path`, replacing any earlier binding.
    pub fn bind(&mut self, path: PathRef)
        ensures
            final(self)@ == Some(path@),
    {
        self.bound = Some(path);
    }

    /// The path the handle is bound to.
    pub fn resolve(&self) -> (r: Result<PathRef, FsError>)
        ensures
            match self@ {
                None => r == Err::<PathRef, FsError>(FsError::UnboundHandle),
                Some(p) => r matches Ok(q) && q@ == p,
            },
    {
        match &self.bound {
            Some(p) => Ok(p.clone()),
            None => Err(FsError::UnboundHandle),
        }
    }
}

} // verus!
