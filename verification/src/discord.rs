//! How Discord text refers to its users.

use crate::text::decimal;
use serenity::model::id::UserId;
use serenity::model::mention::Mentionable;
use vstd::prelude::*;

verus! {

/// The text that mentions the user with id `id`: `<@` and the id in decimal, then `>`.
pub open spec fn mention_text(id: u64) -> Seq<char> {
    "<@"@ + decimal(id as nat) + ">"@
}

/// serenity's `UserId::new(id).mention()`, rendered with `to_string`: `<@{id}>`.
/// `UserId::new` panics on 0, which `requires` leaves out.
#[verifier::external_body]
pub(crate) fn user_mention(id: u64) -> (mention: String)
    requires
        id != 0,
    ensures
        mention@ == mention_text(id),
{
    UserId::new(id).mention().to_string()
}

} // verus!
