use vstd::prelude::*;

verus! {

/// What a newly admitted participant is told: their fresh identifier.
#[derive(Debug)]
pub struct CreateUserResponse {
    pub user_id: String,
}

} // verus!
