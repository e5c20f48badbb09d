//! Which reactions reach the game's message and the vote.

use vstd::prelude::*;

verus! {

/// Whether a new reaction is looked at: only while a game is running, and
/// only when it carries a member (`reactor_is_bot` is `None` when it does
/// not) who is not a bot.
pub fn reaction_is_handled(game_running: bool, reactor_is_bot: Option<bool>) -> (handled: bool)
    ensures
        handled == (game_running && reactor_is_bot == Some(false)),
{
    if !game_running {
        return false;
    }
    match reactor_is_bot {
        None => false,
        Some(is_bot) => !is_bot,
    }
}

/// Whether a reaction on message `reaction_message_id` is one on the stored
/// message (the game's message or the ballot), if one is stored.
pub fn is_on_message(stored: Option<u64>, reaction_message_id: u64) -> (on: bool)
    ensures
        on == (stored == Some(reaction_message_id)),
{
    match stored {
        Some(id) => id == reaction_message_id,
        None => false,
    }
}

} // verus!
