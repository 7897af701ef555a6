use vstd::prelude::*;
use std::time::Instant;

verus! {

/// The kind of a notification.
#[derive(Clone, Copy, Debug, PartialEq, Eq, Structural)]
pub enum Status {
    Success,
    Error,
    Info,
}

/// A notification shown for a while.
#[derive(Debug)]
pub struct Toast {
    pub id: u64,
    pub title: String,
    pub body: String,
    pub status: Status,
    pub created_at: Instant,
}

impl Clone for Toast {
    fn clone(&self) -> (r: Self)
        ensures
            r.id == self.id,
            r.title@ == self.title@,
            r.body@ == self.body@,
            r.status == self.status,
            r.created_at == self.created_at,
    {
        Toast {
            id: self.id,
            title: self.title.clone(),
            body: self.body.clone(),
            status: self.status,
            created_at: self.created_at,
        }
    }
}

} // verus!
