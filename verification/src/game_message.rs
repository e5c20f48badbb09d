//! The message that announces a game: the button that reveals a player's
//! role, and the reaction with which the game master names the winners.

use vstd::prelude::*;
use crate::emoji::{blue_won_emoji, orange_won_emoji, winner_of};
use crate::game::{ids_of, team_ids, Game, Player, Team};

verus! {

/// The custom id of the "Reveal My Role" button.
pub const REVEAL_ROLE_BUTTON_ID: &'static str = "mafia_reveal_role";

/// The message that announces a game.
#[derive(Debug, Clone, Copy, PartialEq, Eq, Structural)]
pub struct GameMessage {
    pub message_id: u64,
}

/// The answer to a press of a button.
#[derive(Debug, Clone, Copy, PartialEq, Eq, Structural)]
pub enum RoleReply {
    /// Not the reveal button of this game's message: no answer.
    Ignore,
    /// Shown only to the one who pressed: the team and role of this player.
    Reveal(Player),
    /// Shown only to the one who pressed: they are not in this game.
    NotInGame,
}

/// What the bot does with a reaction on the game's message.
#[derive(Debug, PartialEq, Eq)]
pub enum GameReaction {
    /// The reaction carries no member: nothing happens.
    Ignore,
    /// Not the game master, or not one of the two diamonds: the bot deletes
    /// the reaction.
    Reject,
    /// The game master named the winners: the losing team, these players,
    /// is put to the vote.
    OpenVote { candidates: Vec<u64> },
}

/// The user ids of the team that lost when `winner` won.
pub open spec fn losers(game: &Game, winner: Team) -> Seq<u64> {
    match winner {
        Team::Blue => ids_of(game.orange_team@),
        Team::Orange => ids_of(game.blue_team@),
    }
}

/// The ballot line of each candidate: candidate `i` gets slot `i % 10`.
pub open spec fn ballot_lines(candidates: Seq<u64>) -> Seq<(usize, u64)> {
    Seq::new(candidates.len(), |i: int| ((i % 10) as usize, candidates[i]))
}

/// The ids of the players of a team, as stored.
fn ids_in(players: &Vec<Player>) -> (ids: Vec<u64>)
    ensures
        ids@ == ids_of(players@),
{
    let mut ids: Vec<u64> = Vec::new();
    let mut i: usize = 0;
    while i < players.len()
        invariant
            i <= players@.len(),
            ids@ == ids_of(players@.take(i as int)),
        decreases players@.len() - i,
    {
        ids.push(players[i].user_id);
        i = i + 1;
        assert(ids@ =~= ids_of(players@.take(i as int)));
    }
    assert(players@.take(i as int) =~= players@);
    ids
}

/// The lines of the ballot, one per candidate in order: the slot of its
/// keycap emoji and the candidate.
pub fn ballot_entries(candidates: &Vec<u64>) -> (entries: Vec<(usize, u64)>)
    ensures
        entries@ == ballot_lines(candidates@),
        entries@.len() == candidates@.len(),
        forall|i: int| 0 <= i < candidates@.len() ==> (#[trigger] entries@[i]).0 == i % 10 && entries@[i].1 == candidates@[i],
{
    let mut entries: Vec<(usize, u64)> = Vec::new();
    let mut i: usize = 0;
    while i < candidates.len()
        invariant
            i <= candidates@.len(),
            entries@ == ballot_lines(candidates@).take(i as int),
        decreases candidates@.len() - i,
    {
        entries.push((i % 10, candidates[i]));
        i = i + 1;
        assert(entries@ =~= ballot_lines(candidates@).take(i as int));
    }
    assert(entries@ =~= ballot_lines(candidates@));
    entries
}

impl GameMessage {
    /// Answers a press of a button with id `custom_id` on message
    /// `message_id` by user `user_id`: only the reveal button of this game's
    /// message is answered, with the presser's player (the first one with
    /// that id, as `Game::player_for` finds it) or with "not in this game".
    pub fn handle_component_interaction(&self, custom_id: &str, message_id: u64, user_id: u64, game: &Game) -> (reply: RoleReply)
        ensures
            custom_id@ != REVEAL_ROLE_BUTTON_ID@ ==> reply == RoleReply::Ignore,
            custom_id@ == "mafia_reveal_role"@ && message_id == self.message_id ==> reply != RoleReply::Ignore,
            custom_id@ == REVEAL_ROLE_BUTTON_ID@ && message_id != self.message_id ==> reply == RoleReply::Ignore,
            custom_id@ == REVEAL_ROLE_BUTTON_ID@ && message_id == self.message_id ==> match reply {
                RoleReply::Reveal(p) => exists|k: int|
                    0 <= k < game.all_players().len() && game.all_players()[k] == p && p.user_id == user_id
                        && forall|j: int| 0 <= j < k ==> (#[trigger] game.all_players()[j]).user_id != user_id,
                RoleReply::NotInGame => forall|j: int|
                    0 <= j < game.all_players().len() ==> (#[trigger] game.all_players()[j]).user_id != user_id,
                RoleReply::Ignore => false,
            },
    {
        let pressed = custom_id.to_owned();
        let reveal = REVEAL_ROLE_BUTTON_ID.to_owned();
        if pressed != reveal {
            return RoleReply::Ignore;
        }
        if message_id != self.message_id {
            return RoleReply::Ignore;
        }
        match game.player_for(user_id) {
            Some(player) => RoleReply::Reveal(*player),
            None => RoleReply::NotInGame,
        }
    }

    /// Decides what to do with a reaction on the game's message by the
    /// member `reactor` (if the reaction carries one) with emoji `emoji`
    /// (`None` for a custom emoji): only the game master may react, and only
    /// with a diamond; the blue diamond puts Orange to the vote, the orange
    /// diamond Blue.
    pub fn handle_add_reaction(&self, reactor: Option<u64>, emoji: Option<&str>, game: &Game) -> (reaction: GameReaction)
        ensures
            reactor is None ==> reaction == GameReaction::Ignore,
            reactor is Some && reactor->0 != game.game_master ==> reaction == GameReaction::Reject,
            reactor == Some(game.game_master) ==> match emoji {
                None => reaction == GameReaction::Reject,
                Some(text) => if text@ == blue_won_emoji() {
                    reaction matches GameReaction::OpenVote { candidates } && candidates@ == losers(game, Team::Blue)
                } else if text@ == orange_won_emoji() {
                    reaction matches GameReaction::OpenVote { candidates } && candidates@ == losers(game, Team::Orange)
                } else {
                    reaction == GameReaction::Reject
                },
            },
            reactor == Some(game.game_master) && emoji is Some && emoji->0@ == seq!['\u{1F537}'] ==> (reaction matches GameReaction::OpenVote { candidates }
                && candidates@.len() == game.orange_team@.len()
                && forall|i: int| 0 <= i < candidates@.len() ==> candidates@[i] == (#[trigger] game.orange_team@[i]).user_id),
            reactor == Some(game.game_master) && emoji is Some && emoji->0@ == seq!['\u{1F536}'] ==> (reaction matches GameReaction::OpenVote { candidates }
                && candidates@.len() == game.blue_team@.len()
                && forall|i: int| 0 <= i < candidates@.len() ==> candidates@[i] == (#[trigger] game.blue_team@[i]).user_id),
    {
        let member = match reactor {
            None => return GameReaction::Ignore,
            Some(m) => m,
        };
        if member != game.game_master {
            return GameReaction::Reject;
        }
        let text = match emoji {
            None => return GameReaction::Reject,
            Some(t) => t,
        };
        match winner_of(text) {
            Some(Team::Blue) => GameReaction::OpenVote { candidates: ids_in(&game.orange_team) },
            Some(Team::Orange) => GameReaction::OpenVote { candidates: ids_in(&game.blue_team) },
            None => GameReaction::Reject,
        }
    }
}

} // verus!
