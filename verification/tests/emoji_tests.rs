use mafia_bot::emoji::{number_emoji_slot, number_emoji_text, winner_of};
use mafia_bot::game::Team;

#[test]
fn keycaps_map_to_slots() {
    assert_eq!(number_emoji_slot("1\u{FE0F}\u{20E3}"), Some(0));
    assert_eq!(number_emoji_slot("5\u{FE0F}\u{20E3}"), Some(4));
    assert_eq!(number_emoji_slot("9\u{FE0F}\u{20E3}"), Some(8));
    assert_eq!(number_emoji_slot("0\u{FE0F}\u{20E3}"), Some(9));
}

#[test]
fn other_text_is_no_slot() {
    assert_eq!(number_emoji_slot("1"), None);
    assert_eq!(number_emoji_slot("#\u{FE0F}\u{20E3}"), None);
    assert_eq!(number_emoji_slot("1\u{20E3}\u{FE0F}"), None);
    assert_eq!(number_emoji_slot("\u{1F537}"), None);
    assert_eq!(number_emoji_slot(""), None);
}

#[test]
fn keycap_text_round_trips() {
    for slot in 0..10 {
        let text = number_emoji_text(slot);
        assert_eq!(number_emoji_slot(&text), Some(slot));
    }
    assert_eq!(number_emoji_text(0), "1\u{FE0F}\u{20E3}");
    assert_eq!(number_emoji_text(9), "0\u{FE0F}\u{20E3}");
}

#[test]
fn diamonds_name_the_winner() {
    assert_eq!(winner_of("\u{1F537}"), Some(Team::Blue));
    assert_eq!(winner_of("\u{1F536}"), Some(Team::Orange));
    assert_eq!(winner_of("\u{1F535}"), None);
    assert_eq!(winner_of("\u{1F537}\u{1F536}"), None);
    assert_eq!(winner_of(""), None);
}
