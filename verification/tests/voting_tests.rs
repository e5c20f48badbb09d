use mafia_bot::emoji::number_emoji_text;
use mafia_bot::voting::{VoteReaction, Voting};

fn key(slot: usize) -> String {
    number_emoji_text(slot)
}

#[test]
fn open_fills_the_ballot() {
    let voting = Voting::open(7, &vec![100, 200, 300]);
    assert_eq!(voting.message_id, 7);
    assert_eq!(voting.number_to_member.len(), 3);
    assert_eq!(voting.number_to_member.get(&0), Some(&100));
    assert_eq!(voting.number_to_member.get(&2), Some(&300));
    assert!(voting.votes.is_empty());
    assert!(!voting.is_done);
}

#[test]
fn open_with_more_than_ten_candidates_reuses_slots() {
    let candidates: Vec<u64> = (1..=12).collect();
    let voting = Voting::open(1, &candidates);
    assert_eq!(voting.number_to_member.len(), 10);
    // Candidates 11 and 12 take over the first two slots.
    assert_eq!(voting.number_to_member.get(&0), Some(&11));
    assert_eq!(voting.number_to_member.get(&1), Some(&12));
    assert_eq!(voting.number_to_member.get(&9), Some(&10));
}

#[test]
fn reaction_without_user_is_ignored() {
    let voting = Voting::open(1, &vec![100, 200]);
    assert_eq!(voting.handle_add_reaction(None, Some(&key(0))), VoteReaction::Ignore);
}

#[test]
fn reactions_that_are_not_votes_are_rejected() {
    let voting = Voting::open(1, &vec![100, 200]);
    assert_eq!(voting.handle_add_reaction(Some(5), None), VoteReaction::Reject);
    assert_eq!(voting.handle_add_reaction(Some(5), Some("\u{1F537}")), VoteReaction::Reject);
    // Slot 3 is not on a ballot of two.
    assert_eq!(voting.handle_add_reaction(Some(5), Some(&key(3))), VoteReaction::Reject);
}

#[test]
fn first_vote_is_cast() {
    let voting = Voting::open(1, &vec![100, 200]);
    assert_eq!(
        voting.handle_add_reaction(Some(5), Some(&key(1))),
        VoteReaction::Cast { voter: 5, candidate: 200, replaces: None }
    );
}

#[test]
fn changing_a_vote_replaces_the_old_reaction() {
    let mut voting = Voting::open(1, &vec![100, 200, 300]);
    assert!(!voting.record_vote(5, 100));
    assert_eq!(
        voting.handle_add_reaction(Some(5), Some(&key(2))),
        VoteReaction::Cast { voter: 5, candidate: 300, replaces: Some(0) }
    );
    assert!(!voting.record_vote(5, 300));
    assert_eq!(voting.votes.get(&5), Some(&300));
    assert_eq!(voting.votes.len(), 1);
}

#[test]
fn vote_closes_when_every_slot_has_a_voter() {
    let mut voting = Voting::open(1, &vec![100, 200]);
    assert!(!voting.record_vote(5, 100));
    assert!(!voting.is_done);
    assert!(voting.record_vote(6, 100));
    assert!(voting.is_done);
    assert_eq!(voting.handle_add_reaction(Some(7), Some(&key(0))), VoteReaction::Reject);
    assert_eq!(voting.handle_add_reaction(None, Some(&key(0))), VoteReaction::Ignore);
}

#[test]
fn removing_a_ballot_reaction_takes_the_vote_back() {
    let mut voting = Voting::open(1, &vec![100, 200]);
    voting.record_vote(5, 200);
    voting.handle_remove_reaction(Some(5), Some(&key(1)));
    assert!(voting.votes.is_empty());
}

#[test]
fn removing_other_reactions_changes_nothing() {
    let mut voting = Voting::open(1, &vec![100, 200]);
    voting.record_vote(5, 200);
    voting.handle_remove_reaction(None, Some(&key(1)));
    voting.handle_remove_reaction(Some(5), None);
    voting.handle_remove_reaction(Some(5), Some("\u{1F537}"));
    voting.handle_remove_reaction(Some(5), Some(&key(4)));
    assert_eq!(voting.votes.get(&5), Some(&200));
}

#[test]
fn removal_after_close_still_takes_the_vote_back() {
    let mut voting = Voting::open(1, &vec![100]);
    assert!(voting.record_vote(5, 100));
    voting.handle_remove_reaction(Some(5), Some(&key(0)));
    assert!(voting.votes.is_empty());
    assert!(voting.is_done);
}
