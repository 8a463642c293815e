use vstd::prelude::*;

use super::{associated_spec, scan, Request};
use crate::vector::StateVector;
use crate::SessionId;

verus! {

/// Undo of the user's most recent unmatched do or redo.
pub struct UndoRequest {
    pub user: SessionId,
    pub vector: StateVector,
}

impl UndoRequest {
    /// The index in `log` of the do that this undo takes back.
    pub fn associated_request(&self, log: &Vec<Request>) -> (r: Option<usize>)
        requires
            log@.len() < usize::MAX,
        ensures
            r == associated_spec(log@, self.user, self.vector.count(self.user), true),
            r matches Some(i) ==> i < log@.len(),
    {
        match scan(log, self.user, self.vector.get(self.user), true) {
            Some(i) => match &log[i] {
                Request::Do(_) => Some(i),
                _ => None,
            },
            None => None,
        }
    }
}

} // verus!
