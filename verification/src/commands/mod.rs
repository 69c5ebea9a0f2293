//! What the bot's slash commands compute and show.

pub mod player;
pub mod guild;
pub mod bestiary;
pub mod market;
pub mod recipes;
pub mod sets;

use vstd::prelude::*;
use crate::text::{digits_of, push_wide_digits};

verus! {

/// The reply to `/ping`: « Pong ! » and the latency in milliseconds.
pub open spec fn pong(millis: nat) -> Seq<char> {
    "🏓 Pong ! Latence : "@ + digits_of(millis) + " ms"@
}

/// The reply to `/ping` for a latency of `millis` milliseconds.
pub fn pong_text(millis: u128) -> (s: String)
    ensures
        s@ == pong(millis as nat),
{
    let mut s = String::from_str("🏓 Pong ! Latence : ");
    push_wide_digits(&mut s, millis);
    s.append(" ms");
    s
}

} // verus!
