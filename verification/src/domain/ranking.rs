use vstd::prelude::*;

use crate::user::User;

verus! {

/// A ranking registration: which participant, under what display name.
#[derive(Debug)]
pub struct RegisterRankingRequest {
    pub user_id: String,
    pub username: String,
}

/// The ranking list as handed back to a client, in registration order.
#[derive(Debug)]
pub struct GetRakingResponse {
    pub ranking: Vec<User>,
}

} // verus!
