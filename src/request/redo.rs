use vstd::prelude::*;

use super::{associated_spec, scan, Request};
use crate::vector::StateVector;
use crate::SessionId;

verus! {

/// Redo of the user's most recent unmatched undo.
pub struct RedoRequest {
    pub user: SessionId,
    pub vector: StateVector,
}

impl RedoRequest {
    /// The index in `log` of the undo that this redo takes back.
    pub fn associated_request(&self, log: &Vec<Request>) -> (r: Option<usize>)
        requires
            log@.len() < usize::MAX,
        ensures
            r == associated_spec(log@, self.user, self.vector.count(self.user), false),
            r matches Some(i) ==> i < log@.len(),
    {
        match scan(log, self.user, self.vector.get(self.user), false) {
            Some(i) => match &log[i] {
                Request::Undo(_) => Some(i),
                _ => None,
            },
            None => None,
        }
    }
}

} // verus!
