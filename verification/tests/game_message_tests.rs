use mafia_bot::event_handler::{is_on_message, reaction_is_handled};
use mafia_bot::game::{Game, Player, Role, Team};
use mafia_bot::game_message::{ballot_entries, GameMessage, GameReaction, RoleReply, REVEAL_ROLE_BUTTON_ID};

fn game() -> Game {
    Game {
        game_master: 1,
        blue_team: vec![
            Player { user_id: 1, team: Team::Blue, role: Role::Villager },
            Player { user_id: 2, team: Team::Blue, role: Role::Mafia },
        ],
        orange_team: vec![Player { user_id: 3, team: Team::Orange, role: Role::Villager }],
    }
}

#[test]
fn reveal_button_shows_the_role() {
    let message = GameMessage { message_id: 50 };
    let reply = message.handle_component_interaction(REVEAL_ROLE_BUTTON_ID, 50, 2, &game());
    assert_eq!(reply, RoleReply::Reveal(Player { user_id: 2, team: Team::Blue, role: Role::Mafia }));
}

#[test]
fn reveal_button_for_a_stranger() {
    let message = GameMessage { message_id: 50 };
    assert_eq!(message.handle_component_interaction("mafia_reveal_role", 50, 9, &game()), RoleReply::NotInGame);
}

#[test]
fn other_buttons_and_messages_are_ignored() {
    let message = GameMessage { message_id: 50 };
    assert_eq!(message.handle_component_interaction("other", 50, 2, &game()), RoleReply::Ignore);
    assert_eq!(message.handle_component_interaction(REVEAL_ROLE_BUTTON_ID, 51, 2, &game()), RoleReply::Ignore);
}

#[test]
fn blue_win_puts_orange_to_the_vote() {
    let message = GameMessage { message_id: 50 };
    assert_eq!(
        message.handle_add_reaction(Some(1), Some("\u{1F537}"), &game()),
        GameReaction::OpenVote { candidates: vec![3] }
    );
}

#[test]
fn orange_win_puts_blue_to_the_vote() {
    let message = GameMessage { message_id: 50 };
    assert_eq!(
        message.handle_add_reaction(Some(1), Some("\u{1F536}"), &game()),
        GameReaction::OpenVote { candidates: vec![1, 2] }
    );
}

#[test]
fn only_the_game_master_with_a_diamond_counts() {
    let message = GameMessage { message_id: 50 };
    let g = game();
    assert_eq!(message.handle_add_reaction(None, Some("\u{1F537}"), &g), GameReaction::Ignore);
    assert_eq!(message.handle_add_reaction(Some(2), Some("\u{1F537}"), &g), GameReaction::Reject);
    assert_eq!(message.handle_add_reaction(Some(1), None, &g), GameReaction::Reject);
    assert_eq!(message.handle_add_reaction(Some(1), Some("\u{1F44D}"), &g), GameReaction::Reject);
}

#[test]
fn ballot_lines_number_the_candidates() {
    let candidates: Vec<u64> = (100..112).collect();
    let entries = ballot_entries(&candidates);
    assert_eq!(entries.len(), 12);
    assert_eq!(entries[0], (0, 100));
    assert_eq!(entries[9], (9, 109));
    assert_eq!(entries[10], (0, 110));
    assert_eq!(entries[11], (1, 111));
}

#[test]
fn reactions_are_handled_for_members_while_a_game_runs() {
    assert!(reaction_is_handled(true, Some(false)));
    assert!(!reaction_is_handled(true, Some(true)));
    assert!(!reaction_is_handled(true, None));
    assert!(!reaction_is_handled(false, Some(false)));
}

#[test]
fn reactions_are_routed_by_message() {
    assert!(is_on_message(Some(4), 4));
    assert!(!is_on_message(Some(4), 5));
    assert!(!is_on_message(None, 4));
}
