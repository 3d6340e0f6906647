//! The request shapes the outer command surface hands in when creating
//! or renaming a session.

use vstd::prelude::*;

verus! {

/// What a caller supplies to create a session.
#[derive(Debug)]
pub struct CreateSessionRequest {
    pub name: String,
    pub description: Option<String>,
}

/// What a caller supplies to rename a session or replace its description.
#[derive(Debug)]
pub struct UpdateSessionRequest {
    pub name: String,
    pub description: Option<String>,
}

impl CreateSessionRequest {
    pub fn new(name: String, description: Option<String>) -> (r: CreateSessionRequest)
        ensures
            r.name@ == name@,
            match (r.description, description) {
                (Some(a), Some(b)) => a@ == b@,
                (None, None) => true,
                _ => false,
            },
    {
        CreateSessionRequest { name, description }
    }
}

impl UpdateSessionRequest {
    pub fn new(name: String, description: Option<String>) -> (r: UpdateSessionRequest)
        ensures
            r.name@ == name@,
            match (r.description, description) {
                (Some(a), Some(b)) => a@ == b@,
                (None, None) => true,
                _ => false,
            },
    {
        UpdateSessionRequest { name, description }
    }
}

} // verus!
