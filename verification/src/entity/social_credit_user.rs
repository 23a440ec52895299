//! The stored social credit of one Discord user.

use vstd::prelude::*;

verus! {

/// One row of the `social_credit_user` table: the user's Discord id (its bits
/// read as `i64`), their social credit and their in-game name, if known.
#[derive(Clone, Debug, PartialEq, Eq)]
pub struct Model {
    pub id: i64,
    pub social_credit: i64,
    pub ign: Option<String>,
}

} // verus!
