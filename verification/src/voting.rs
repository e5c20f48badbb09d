//! The vote that follows a match: who may be voted for, who voted for whom,
//! and when the vote is over.

use vstd::prelude::*;
use std::collections::HashMap;
use crate::emoji::{number_emoji, number_emoji_slot};

verus! {

broadcast use vstd::std_specs::hash::group_hash_axioms;

/// A running vote. Each ballot slot (0 to 9, shown as a keycap emoji) names
/// a candidate; each voter holds at most one vote.
pub struct Voting {
    /// The message that carries the ballot.
    pub message_id: u64,
    /// Ballot slot to the user id of the candidate it names.
    pub number_to_member: HashMap<usize, u64>,
    /// Voter to the candidate voted for.
    pub votes: HashMap<u64, u64>,
    /// Set once as many voters have voted as the ballot has slots.
    pub is_done: bool,
}

/// The ballot for `candidates`: candidate `i` is named by slot `i % 10`;
/// where two candidates share a slot, the later one keeps it.
pub open spec fn ballot_map(candidates: Seq<u64>) -> Map<usize, u64>
    decreases candidates.len(),
{
    if candidates.len() == 0 {
        Map::empty()
    } else {
        let n = candidates.len() - 1;
        ballot_map(candidates.drop_last()).insert((n % 10) as usize, candidates.last())
    }
}

/// Whether `text` is the keycap emoji of slot `k`.
pub open spec fn names_slot(text: Seq<char>, k: usize) -> bool {
    k < 10 && text == number_emoji(k as nat)
}

/// The lowest ballot slot at or after `from` that names `candidate`.
pub open spec fn first_slot_for(ballot: Map<usize, u64>, candidate: u64, from: nat) -> Option<usize>
    decreases 10 - from,
{
    if from >= 10 {
        None
    } else if ballot.contains_key(from as usize) && ballot[from as usize] == candidate {
        Some(from as usize)
    } else {
        first_slot_for(ballot, candidate, from + 1)
    }
}

/// What the bot does with a new reaction on the ballot.
#[derive(Debug, Clone, Copy, PartialEq, Eq, Structural)]
pub enum VoteReaction {
    /// The reaction carries no user: nothing happens.
    Ignore,
    /// The reaction is not a vote that counts: the bot deletes it.
    Reject,
    /// The voter's earlier vote names no slot of the ballot: nothing happens.
    Stale,
    /// The vote counts: the voter's earlier reaction, on `replaces`, is
    /// taken off first, then the vote is recorded with `record_vote`.
    Cast { voter: u64, candidate: u64, replaces: Option<usize> },
}

/// The view of an optional emoji text.
pub open spec fn emoji_text(emoji: Option<&str>) -> Option<Seq<char>> {
    match emoji {
        Some(s) => Some(s@),
        None => None,
    }
}

/// The decision on a new reaction: `voter` is the reacting user (if the
/// reaction carries one), `emoji` its text (`None` for a custom emoji).
pub open spec fn add_reaction_outcome(
    ballot: Map<usize, u64>,
    votes: Map<u64, u64>,
    is_done: bool,
    voter: Option<u64>,
    emoji: Option<Seq<char>>,
) -> VoteReaction {
    match voter {
        None => VoteReaction::Ignore,
        Some(v) => if is_done {
            VoteReaction::Reject
        } else {
            match emoji {
                None => VoteReaction::Reject,
                Some(text) => if exists|k: usize| names_slot(text, k) && ballot.contains_key(k) {
                    let k = choose|k: usize| names_slot(text, k) && ballot.contains_key(k);
                    let candidate = ballot[k];
                    if votes.contains_key(v) {
                        match first_slot_for(ballot, votes[v], 0) {
                            Some(j) => VoteReaction::Cast { voter: v, candidate, replaces: Some(j) },
                            None => VoteReaction::Stale,
                        }
                    } else {
                        VoteReaction::Cast { voter: v, candidate, replaces: None }
                    }
                } else {
                    VoteReaction::Reject
                },
            }
        },
    }
}

/// Whether a removed reaction takes the voter's vote away: it does when it
/// carries a user and its emoji is a slot of the ballot.
pub open spec fn retracts_vote(ballot: Map<usize, u64>, voter: Option<u64>, emoji: Option<Seq<char>>) -> bool {
    voter is Some && emoji is Some && exists|k: usize| names_slot(emoji->0, k) && ballot.contains_key(k)
}

/// Keycap emoji name at most one slot.
pub proof fn lemma_names_one_slot(text: Seq<char>, j: usize, k: usize)
    requires
        names_slot(text, j),
        names_slot(text, k),
    ensures
        j == k,
{
    assert(number_emoji(j as nat)[0] == number_emoji(k as nat)[0]);
}

/// `first_slot_for` finds a slot that names the candidate, and the lowest
/// one.
pub proof fn lemma_first_slot_for(ballot: Map<usize, u64>, candidate: u64, from: nat)
    ensures
        match first_slot_for(ballot, candidate, from) {
            Some(j) => from <= j < 10 && ballot.contains_key(j) && ballot[j] == candidate
                && forall|i: usize| from <= i < j ==> !(ballot.contains_key(i) && ballot[i] == candidate),
            None => forall|i: usize| from <= i < 10 ==> !(ballot.contains_key(i) && ballot[i] == candidate),
        },
    decreases 10 - from,
{
    if from < 10 {
        lemma_first_slot_for(ballot, candidate, from + 1);
    }
}

/// Candidate `j` is the last of the `candidates` whose turn falls on slot
/// `k`: `j % 10 == k` and no later candidate has the same remainder.
pub open spec fn last_in_slot(candidates: Seq<u64>, k: usize, j: int) -> bool {
    0 <= j < candidates.len() && j % 10 == k as int && candidates.len() <= j + 10
}

/// The slots of a ballot for `n` candidates are `0` to `min(n, 10) - 1`,
/// so a ballot has `min(n, 10)` slots.
pub proof fn lemma_ballot_slots(candidates: Seq<u64>)
    ensures
        forall|k: usize| #[trigger] ballot_map(candidates).contains_key(k) <==> k < candidates.len() && k < 10,
        ballot_map(candidates).dom().finite(),
        ballot_map(candidates).len() == if candidates.len() < 10 { candidates.len() } else { 10 },
        forall|k: usize| #[trigger] ballot_map(candidates).contains_key(k) ==> exists|j: int|
            #[trigger] last_in_slot(candidates, k, j) && ballot_map(candidates)[k] == candidates[j],
    decreases candidates.len(),
{
    if candidates.len() > 0 {
        let rest = candidates.drop_last();
        lemma_ballot_slots(rest);
        let n = candidates.len() - 1;
        assert forall|k: usize| #[trigger] ballot_map(candidates).contains_key(k) implies exists|j: int|
            #[trigger] last_in_slot(candidates, k, j) && ballot_map(candidates)[k] == candidates[j] by {
            if k as int == n % 10 {
                assert(last_in_slot(candidates, k, n));
            } else {
                assert(ballot_map(rest).contains_key(k));
                let j = choose|j: int| #[trigger] last_in_slot(rest, k, j) && ballot_map(rest)[k] == rest[j];
                assert(last_in_slot(candidates, k, j));
                assert(candidates[j] == rest[j]);
            }
        }
    }
}

/// Every slot of the ballot is a keycap slot, and every vote names a
/// candidate of the ballot.
pub open spec fn consistent(ballot: Map<usize, u64>, votes: Map<u64, u64>) -> bool {
    &&& forall|k: usize| #[trigger] ballot.contains_key(k) ==> k < 10
    &&& forall|v: u64| #[trigger] votes.contains_key(v) ==> exists|k: usize|
        ballot.contains_key(k) && ballot[k] == votes[v]
}

/// Once the vote is over, no reaction counts: each one is ignored or
/// deleted.
pub proof fn lemma_closed_vote_takes_no_votes(
    ballot: Map<usize, u64>,
    votes: Map<u64, u64>,
    voter: Option<u64>,
    emoji: Option<Seq<char>>,
)
    ensures
        add_reaction_outcome(ballot, votes, true, voter, emoji) == VoteReaction::Ignore
            || add_reaction_outcome(ballot, votes, true, voter, emoji) == VoteReaction::Reject,
{
}

/// In a consistent vote, a reaction that counts names a candidate of the
/// ballot; the reaction it replaces is on a slot that names the voter's
/// earlier vote; and a voter's earlier vote is always found on the ballot,
/// so the "stale" outcome never comes up.
pub proof fn lemma_counted_votes_are_on_the_ballot(
    ballot: Map<usize, u64>,
    votes: Map<u64, u64>,
    is_done: bool,
    voter: Option<u64>,
    emoji: Option<Seq<char>>,
)
    requires
        consistent(ballot, votes),
    ensures
        add_reaction_outcome(ballot, votes, is_done, voter, emoji) != VoteReaction::Stale,
        add_reaction_outcome(ballot, votes, is_done, voter, emoji) matches VoteReaction::Cast { voter: v, candidate, replaces }
            ==> {
            &&& voter == Some(v)
            &&& exists|k: usize| ballot.contains_key(k) && ballot[k] == candidate
            &&& replaces matches Some(j) ==> votes.contains_key(v) && ballot.contains_key(j) && ballot[j] == votes[v]
            &&& replaces is None ==> !votes.contains_key(v)
        },
{
    if voter is Some && !is_done && emoji is Some {
        let v = voter->0;
        let text = emoji->0;
        if exists|k: usize| names_slot(text, k) && ballot.contains_key(k) {
            let k = choose|k: usize| names_slot(text, k) && ballot.contains_key(k);
            assert(ballot.contains_key(k) && ballot[k] == ballot[k]);
            if votes.contains_key(v) {
                let w = choose|w: usize| ballot.contains_key(w) && ballot[w] == votes[v];
                lemma_first_slot_for(ballot, votes[v], 0);
                assert(w < 10);
            }
        }
    }
}

/// Taking a reaction off undoes the vote it cast: the voter is left with no
/// vote, whatever they held before.
pub proof fn lemma_retract_undoes_vote(votes: Map<u64, u64>, voter: u64, candidate: u64)
    ensures
        votes.insert(voter, candidate).remove(voter) == votes.remove(voter),
        !votes.insert(voter, candidate).remove(voter).contains_key(voter),
{
    assert(votes.insert(voter, candidate).remove(voter) =~= votes.remove(voter));
}

/// While the vote is open, a reaction by a user with the keycap of a slot on
/// the ballot counts as a vote for that slot's candidate; it replaces the
/// voter's earlier reaction exactly when the voter already holds a vote.
pub proof fn lemma_keycap_on_ballot_is_cast(
    ballot: Map<usize, u64>,
    votes: Map<u64, u64>,
    voter: u64,
    text: Seq<char>,
    k: usize,
)
    requires
        consistent(ballot, votes),
        names_slot(text, k),
        ballot.contains_key(k),
    ensures
        add_reaction_outcome(ballot, votes, false, Some(voter), Some(text)) matches VoteReaction::Cast { voter: v, candidate, replaces }
            && v == voter && candidate == ballot[k] && (replaces is None <==> !votes.contains_key(voter)),
{
    let j = choose|j: usize| names_slot(text, j) && ballot.contains_key(j);
    lemma_names_one_slot(text, j, k);
    lemma_counted_votes_are_on_the_ballot(ballot, votes, false, Some(voter), Some(text));
}

/// A reaction whose emoji is no keycap of a slot on the ballot, or that
/// comes once the vote is over, is deleted (or ignored when it carries no
/// user).
pub proof fn lemma_other_reactions_are_rejected(
    ballot: Map<usize, u64>,
    votes: Map<u64, u64>,
    is_done: bool,
    voter: u64,
    emoji: Option<Seq<char>>,
)
    requires
        is_done || emoji is None || forall|k: usize| names_slot(emoji->0, k) ==> !ballot.contains_key(k),
    ensures
        add_reaction_outcome(ballot, votes, is_done, Some(voter), emoji) == VoteReaction::Reject,
        add_reaction_outcome(ballot, votes, is_done, None, emoji) == VoteReaction::Ignore,
{
}

/// Taking off a reaction with the keycap of any slot on the ballot takes the
/// user's vote back; taking off anything else leaves the votes alone.
pub proof fn lemma_retracts_vote(ballot: Map<usize, u64>, voter: u64, text: Seq<char>)
    ensures
        (exists|k: usize| names_slot(text, k) && ballot.contains_key(k)) ==> retracts_vote(ballot, Some(voter), Some(text)),
        (forall|k: usize| names_slot(text, k) ==> !ballot.contains_key(k)) ==> !retracts_vote(ballot, Some(voter), Some(text)),
        !retracts_vote(ballot, None, Some(text)),
        !retracts_vote(ballot, Some(voter), None),
{
}

impl Voting {
    /// The ballot as a map from slot to candidate.
    pub open spec fn ballot(&self) -> Map<usize, u64> {
        self.number_to_member@
    }

    /// Every slot is a keycap slot, and every vote names a candidate of the
    /// ballot.
    pub open spec fn wf(&self) -> bool {
        consistent(self.ballot(), self.votes@)
    }

    /// Opens a vote on `candidates`, carried by message `message_id`: the
    /// ballot of `ballot_map`, no votes yet.
    pub fn open(message_id: u64, candidates: &Vec<u64>) -> (voting: Voting)
        ensures
            voting.message_id == message_id,
            voting.ballot() == ballot_map(candidates@),
            forall|k: usize| #[trigger] voting.ballot().contains_key(k) <==> k < candidates@.len() && k < 10,
            forall|k: usize| #[trigger] voting.ballot().contains_key(k) ==> exists|j: int|
                #[trigger] last_in_slot(candidates@, k, j) && voting.ballot()[k] == candidates@[j],
            voting.votes@ == Map::<u64, u64>::empty(),
            !voting.is_done,
            voting.wf(),
    {
        let mut number_to_member: HashMap<usize, u64> = HashMap::new();
        let mut i: usize = 0;
        while i < candidates.len()
            invariant
                i <= candidates@.len(),
                number_to_member@ == ballot_map(candidates@.take(i as int)),
            decreases candidates@.len() - i,
        {
            proof {
                assert(candidates@.take(i + 1).drop_last() =~= candidates@.take(i as int));
            }
            number_to_member.insert(i % 10, candidates[i]);
            i = i + 1;
        }
        assert(candidates@.take(i as int) =~= candidates@);
        proof {
            lemma_ballot_slots(candidates@);
        }
        Voting { message_id, number_to_member, votes: HashMap::new(), is_done: false }
    }

    /// The lowest slot that names `candidate`, if any.
    fn slot_for(&self, candidate: u64) -> (slot: Option<usize>)
        ensures
            slot == first_slot_for(self.ballot(), candidate, 0),
    {
        let mut k: usize = 0;
        while k < 10
            invariant
                k <= 10,
                first_slot_for(self.ballot(), candidate, 0) == first_slot_for(self.ballot(), candidate, k as nat),
            decreases 10 - k,
        {
            match self.number_to_member.get(&k) {
                Some(member) => {
                    if *member == candidate {
                        return Some(k);
                    }
                },
                None => {},
            }
            k = k + 1;
        }
        None
    }

    /// Decides what to do with a new reaction on the ballot, as
    /// `add_reaction_outcome` says: a reaction without a user is ignored;
    /// after the vote is over, and for anything but a keycap of the ballot,
    /// the reaction is deleted; otherwise the vote counts, after the voter's
    /// earlier reaction is taken off.
    pub fn handle_add_reaction(&self, voter: Option<u64>, emoji: Option<&str>) -> (reaction: VoteReaction)
        requires
            self.wf(),
        ensures
            reaction == add_reaction_outcome(self.ballot(), self.votes@, self.is_done, voter, emoji_text(emoji)),
            forall|k: usize|
                voter is Some && !self.is_done && emoji is Some && names_slot(emoji->0@, k) && #[trigger] self.ballot().contains_key(k)
                    ==> (reaction matches VoteReaction::Cast { voter: v, candidate, replaces }
                        && v == voter->0 && candidate == self.ballot()[k]
                        && (replaces is None <==> !self.votes@.contains_key(voter->0))
                        && (replaces matches Some(j) ==> self.ballot().contains_key(j) && self.ballot()[j] == self.votes@[voter->0])),
            voter is None ==> reaction == VoteReaction::Ignore,
            voter is Some && (self.is_done || emoji is None || forall|k: usize| names_slot(emoji->0@, k) ==> !#[trigger] self.ballot().contains_key(k))
                ==> reaction == VoteReaction::Reject,
    {
        let voter = match voter {
            None => return VoteReaction::Ignore,
            Some(v) => v,
        };
        if self.is_done {
            return VoteReaction::Reject;
        }
        let text = match emoji {
            None => return VoteReaction::Reject,
            Some(t) => t,
        };
        let slot = match number_emoji_slot(text) {
            None => {
                return VoteReaction::Reject;
            },
            Some(k) => k,
        };
        let candidate = match self.number_to_member.get(&slot) {
            None => {
                assert forall|k: usize| names_slot(text@, k) implies !self.ballot().contains_key(k) by {
                    lemma_names_one_slot(text@, k, slot);
                }
                return VoteReaction::Reject;
            },
            Some(c) => *c,
        };
        proof {
            assert(names_slot(text@, slot) && self.ballot().contains_key(slot));
            let k = choose|k: usize| names_slot(text@, k) && self.ballot().contains_key(k);
            lemma_names_one_slot(text@, k, slot);
        }
        proof {
            let out = add_reaction_outcome(self.ballot(), self.votes@, self.is_done, Some(voter), Some(text@));
            lemma_counted_votes_are_on_the_ballot(self.ballot(), self.votes@, self.is_done, Some(voter), Some(text@));
            assert forall|k: usize| names_slot(text@, k) && #[trigger] self.ballot().contains_key(k)
                implies (out matches VoteReaction::Cast { voter: v, candidate, replaces }
                    && v == voter && candidate == self.ballot()[k]
                    && (replaces is None <==> !self.votes@.contains_key(voter))) by {
                lemma_keycap_on_ballot_is_cast(self.ballot(), self.votes@, voter, text@, k);
            }
        }
        match self.votes.get(&voter) {
            Some(old_vote) => {
                match self.slot_for(*old_vote) {
                    Some(j) => VoteReaction::Cast { voter, candidate, replaces: Some(j) },
                    None => VoteReaction::Stale,
                }
            },
            None => VoteReaction::Cast { voter, candidate, replaces: None },
        }
    }

    /// Records the vote of `voter` for `candidate`, replacing any earlier
    /// vote of that voter. When as many voters have voted as the ballot has
    /// slots, the vote is over; the result says whether this vote closed it,
    /// in which case the Mafia are to be revealed.
    pub fn record_vote(&mut self, voter: u64, candidate: u64) -> (closed: bool)
        requires
            old(self).wf(),
            exists|k: usize| old(self).ballot().contains_key(k) && old(self).ballot()[k] == candidate,
        ensures
            final(self).votes@ == old(self).votes@.insert(voter, candidate),
            final(self).ballot() == old(self).ballot(),
            final(self).message_id == old(self).message_id,
            closed == (final(self).votes@.len() == final(self).ballot().len()),
            final(self).is_done == (old(self).is_done || closed),
            final(self).wf(),
    {
        let ghost before = *self;
        self.votes.insert(voter, candidate);
        proof {
            assert forall|v: u64| #[trigger] self.votes@.contains_key(v) implies exists|k: usize|
                self.ballot().contains_key(k) && self.ballot()[k] == self.votes@[v] by {
                if v != voter {
                    assert(before.votes@.contains_key(v));
                    let k = choose|k: usize| before.ballot().contains_key(k) && before.ballot()[k] == before.votes@[v];
                    assert(self.ballot().contains_key(k) && self.ballot()[k] == self.votes@[v]);
                } else {
                    let k = choose|k: usize| before.ballot().contains_key(k) && before.ballot()[k] == candidate;
                    assert(self.ballot().contains_key(k) && self.ballot()[k] == self.votes@[v]);
                }
            }
        }
        if self.votes.len() == self.number_to_member.len() {
            self.is_done = true;
            true
        } else {
            false
        }
    }

    /// Takes back the vote of the user who removed a reaction, when the
    /// reaction carries a user and its emoji is a slot of the ballot;
    /// otherwise nothing changes.
    pub fn handle_remove_reaction(&mut self, voter: Option<u64>, emoji: Option<&str>)
        requires
            old(self).wf(),
        ensures
            final(self).votes@ == (if retracts_vote(old(self).ballot(), voter, emoji_text(emoji)) {
                old(self).votes@.remove(voter->0)
            } else {
                old(self).votes@
            }),
            final(self).ballot() == old(self).ballot(),
            final(self).message_id == old(self).message_id,
            final(self).is_done == old(self).is_done,
            final(self).wf(),
            forall|k: usize|
                voter is Some && emoji is Some && names_slot(emoji->0@, k) && #[trigger] old(self).ballot().contains_key(k)
                    ==> !final(self).votes@.contains_key(voter->0) && final(self).votes@ == old(self).votes@.remove(voter->0),
            voter is None || emoji is None || (forall|k: usize| names_slot(emoji->0@, k) ==> !#[trigger] old(self).ballot().contains_key(k))
                ==> final(self).votes@ == old(self).votes@,
    {
        let voter = match voter {
            None => return,
            Some(v) => v,
        };
        let text = match emoji {
            None => return,
            Some(t) => t,
        };
        let slot = match number_emoji_slot(text) {
            None => return,
            Some(k) => k,
        };
        if self.number_to_member.get(&slot).is_none() {
            assert forall|k: usize| names_slot(text@, k) implies !self.ballot().contains_key(k) by {
                lemma_names_one_slot(text@, k, slot);
            }
            return;
        }
        assert(names_slot(text@, slot) && self.ballot().contains_key(slot));
        let ghost before = *self;
        self.votes.remove(&voter);
        proof {
            assert forall|v: u64| #[trigger] self.votes@.contains_key(v) implies exists|k: usize|
                self.ballot().contains_key(k) && self.ballot()[k] == self.votes@[v] by {
                assert(before.votes@.contains_key(v));
                let k = choose|k: usize| before.ballot().contains_key(k) && before.ballot()[k] == before.votes@[v];
                assert(self.ballot().contains_key(k) && self.ballot()[k] == self.votes@[v]);
            }
        }
    }
}

} // verus!
