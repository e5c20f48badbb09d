//! The emoji the bot reads and writes: the keycap numbers of the vote and
//! the two diamonds with which the game master names the winning team.

use vstd::prelude::*;
use vstd::string::*;
use crate::game::Team;

verus! {

/// The digit on the keycap of ballot slot `slot`: slots 0 to 8 show 1 to 9,
/// slot 9 shows 0.
pub open spec fn keycap_digit(slot: nat) -> char {
    if slot == 0 {
        '1'
    } else if slot == 1 {
        '2'
    } else if slot == 2 {
        '3'
    } else if slot == 3 {
        '4'
    } else if slot == 4 {
        '5'
    } else if slot == 5 {
        '6'
    } else if slot == 6 {
        '7'
    } else if slot == 7 {
        '8'
    } else if slot == 8 {
        '9'
    } else {
        '0'
    }
}

/// The keycap emoji of ballot slot `slot` (0 to 9): the digit, the emoji
/// presentation selector and the combining keycap.
pub open spec fn number_emoji(slot: nat) -> Seq<char> {
    seq![keycap_digit(slot), '\u{FE0F}', '\u{20E3}']
}

/// The keycap of slot `k` (0 to 9) shows the digit `(k + 1) % 10`
/// (character code 48 is the digit 0), followed by the emoji presentation
/// selector and the combining keycap: 1, 2, ..., 9, then 0.
pub proof fn lemma_keycap_digits(k: nat)
    requires
        k < 10,
    ensures
        number_emoji(k).len() == 3,
        number_emoji(k)[0] as u32 == 48 + (k + 1) % 10,
        number_emoji(k)[1] == '\u{FE0F}',
        number_emoji(k)[2] == '\u{20E3}',
{
}

/// The emoji with which the game master says that Blue won.
pub open spec fn blue_won_emoji() -> Seq<char> {
    seq!['\u{1F537}']
}

/// The emoji with which the game master says that Orange won.
pub open spec fn orange_won_emoji() -> Seq<char> {
    seq!['\u{1F536}']
}

/// The ballot slot whose keycap the digit shows.
fn slot_of_digit(c: char) -> (slot: Option<usize>)
    ensures
        match slot {
            Some(k) => k < 10 && keycap_digit(k as nat) == c,
            None => forall|k: nat| k < 10 ==> keycap_digit(k) != c,
        },
        slot is None ==> !(48 <= c as u32 <= 57),
{
    match c {
        '1' => Some(0),
        '2' => Some(1),
        '3' => Some(2),
        '4' => Some(3),
        '5' => Some(4),
        '6' => Some(5),
        '7' => Some(6),
        '8' => Some(7),
        '9' => Some(8),
        '0' => Some(9),
        _ => None,
    }
}

/// The ballot slot of a keycap emoji, or `None` for any other text.
pub fn number_emoji_slot(emoji: &str) -> (slot: Option<usize>)
    ensures
        match slot {
            Some(k) => k < 10 && emoji@ == number_emoji(k as nat),
            None => forall|k: nat| k < 10 ==> emoji@ != number_emoji(k),
        },
        match slot {
            Some(k) => emoji@.len() == 3 && emoji@[0] as u32 == 48 + (k + 1) % 10 && emoji@[1] == '\u{FE0F}'
                && emoji@[2] == '\u{20E3}',
            None => !(emoji@.len() == 3 && 48 <= emoji@[0] as u32 <= 57 && emoji@[1] == '\u{FE0F}'
                && emoji@[2] == '\u{20E3}'),
        },
{
    if emoji.unicode_len() != 3 {
        return None;
    }
    let first = emoji.get_char(0);
    let second = emoji.get_char(1);
    let third = emoji.get_char(2);
    if second != '\u{FE0F}' || third != '\u{20E3}' {
        assert forall|k: nat| k < 10 implies emoji@ != number_emoji(k) by {
            if emoji@ == number_emoji(k) {
                assert(emoji@[1] == number_emoji(k)[1]);
                assert(emoji@[2] == number_emoji(k)[2]);
            }
        }
        return None;
    }
    let slot = slot_of_digit(first);
    match slot {
        Some(k) => {
            assert(emoji@ =~= number_emoji(k as nat));
            proof {
                lemma_keycap_digits(k as nat);
            }
        },
        None => {
            assert forall|k: nat| k < 10 implies emoji@ != number_emoji(k) by {
                if emoji@ == number_emoji(k) {
                    assert(emoji@[0] == number_emoji(k)[0]);
                }
            }
        },
    }
    slot
}

/// The keycap emoji of ballot slot `slot`, as text.
pub fn number_emoji_text(slot: usize) -> (text: String)
    requires
        slot < 10,
    ensures
        text@ == number_emoji(slot as nat),
        text@.len() == 3,
        text@[0] as u32 == 48 + (slot + 1) % 10,
        text@[1] == '\u{FE0F}',
        text@[2] == '\u{20E3}',
{
    let text: &str = match slot {
        0 => "1\u{FE0F}\u{20E3}",
        1 => "2\u{FE0F}\u{20E3}",
        2 => "3\u{FE0F}\u{20E3}",
        3 => "4\u{FE0F}\u{20E3}",
        4 => "5\u{FE0F}\u{20E3}",
        5 => "6\u{FE0F}\u{20E3}",
        6 => "7\u{FE0F}\u{20E3}",
        7 => "8\u{FE0F}\u{20E3}",
        8 => "9\u{FE0F}\u{20E3}",
        _ => "0\u{FE0F}\u{20E3}",
    };
    proof {
        reveal_strlit("1\u{FE0F}\u{20E3}");
        reveal_strlit("2\u{FE0F}\u{20E3}");
        reveal_strlit("3\u{FE0F}\u{20E3}");
        reveal_strlit("4\u{FE0F}\u{20E3}");
        reveal_strlit("5\u{FE0F}\u{20E3}");
        reveal_strlit("6\u{FE0F}\u{20E3}");
        reveal_strlit("7\u{FE0F}\u{20E3}");
        reveal_strlit("8\u{FE0F}\u{20E3}");
        reveal_strlit("9\u{FE0F}\u{20E3}");
        reveal_strlit("0\u{FE0F}\u{20E3}");
    }
    let owned = text.to_owned();
    assert(owned@ =~= number_emoji(slot as nat));
    owned
}

/// The team that a diamond reaction names as the winner: the blue diamond
/// for Blue, the orange diamond for Orange, `None` for anything else.
pub fn winner_of(emoji: &str) -> (winner: Option<Team>)
    ensures
        winner == (if emoji@ == blue_won_emoji() {
            Some(Team::Blue)
        } else if emoji@ == orange_won_emoji() {
            Some(Team::Orange)
        } else {
            None
        }),
        emoji@ == seq!['\u{1F537}'] ==> winner == Some(Team::Blue),
        emoji@ == seq!['\u{1F536}'] ==> winner == Some(Team::Orange),
        winner is Some ==> emoji@.len() == 1 && (emoji@[0] == '\u{1F537}' || emoji@[0] == '\u{1F536}'),
{
    if emoji.unicode_len() != 1 {
        assert(emoji@ != blue_won_emoji() && emoji@ != orange_won_emoji());
        return None;
    }
    let c = emoji.get_char(0);
    if c == '\u{1F537}' {
        assert(emoji@ =~= blue_won_emoji());
        Some(Team::Blue)
    } else if c == '\u{1F536}' {
        assert(emoji@ =~= orange_won_emoji());
        Some(Team::Orange)
    } else {
        assert(emoji@ != blue_won_emoji() && emoji@ != orange_won_emoji()) by {
            if emoji@ == blue_won_emoji() {
                assert(emoji@[0] == blue_won_emoji()[0]);
            }
            if emoji@ == orange_won_emoji() {
                assert(emoji@[0] == orange_won_emoji()[0]);
            }
        }
        None
    }
}

} // verus!
