//! Teams, roles and the setup of a game.

use vstd::prelude::*;
use rand::rngs::ThreadRng;
use crate::random::{choose_ids, fair_coin, min_nat, picked_at, shuffle_ids, thread_rng};

verus! {

/// The two Rocket League teams.
#[derive(Debug, Clone, Copy, PartialEq, Eq, Structural)]
pub enum Team {
    Blue,
    Orange,
}

/// The secret role of a player.
#[derive(Debug, Clone, Copy, PartialEq, Eq, Structural)]
pub enum Role {
    Mafia,
    Villager,
}

/// A player of a game: the Discord user id, the team and the role.
#[derive(Debug, Clone, Copy, PartialEq, Eq, Structural)]
pub struct Player {
    pub user_id: u64,
    pub team: Team,
    pub role: Role,
}

/// The number of players that go to Blue when `n` players are split:
/// half of them, plus the odd one out when the coin says so.
pub open spec fn blue_size(n: nat, extra_to_blue: bool) -> nat {
    if n % 2 == 1 && extra_to_blue { n / 2 + 1 } else { n / 2 }
}

/// The players that a split of `order` gives: the first
/// `blue_size(order.len(), extra_to_blue)` ids play Blue, the rest Orange,
/// and everybody is a Villager.
pub open spec fn dealt(order: Seq<u64>, extra_to_blue: bool) -> Seq<Player> {
    Seq::new(
        order.len(),
        |i: int|
            Player {
                user_id: order[i],
                team: if i < blue_size(order.len(), extra_to_blue) { Team::Blue } else { Team::Orange },
                role: Role::Villager,
            },
    )
}

/// Splits the players, in the given order, into Blue and Orange: the first
/// half goes to Blue, the rest to Orange; with an odd number of players the
/// one in the middle goes to Blue exactly when `extra_to_blue` is set.
pub fn split_into_teams(order: &Vec<u64>, extra_to_blue: bool) -> (players: Vec<Player>)
    ensures
        players@ == dealt(order@, extra_to_blue),
        players@.len() == order@.len(),
        forall|i: int| 0 <= i < order@.len() ==> (#[trigger] players@[i]).user_id == order@[i] && players@[i].role == Role::Villager,
        forall|i: int, j: int| 0 <= i < j < order@.len() && (#[trigger] players@[j]).team == Team::Blue ==> (#[trigger] players@[i]).team == Team::Blue,
        forall|i: int| 0 <= i < order@.len() && order@.len() % 2 == 0 ==> ((#[trigger] players@[i]).team == Team::Blue <==> i < order@.len() / 2),
        forall|i: int| 0 <= i < order@.len() && order@.len() % 2 == 1 && extra_to_blue ==> ((#[trigger] players@[i]).team == Team::Blue <==> i <= order@.len() / 2),
        forall|i: int| 0 <= i < order@.len() && order@.len() % 2 == 1 && !extra_to_blue ==> ((#[trigger] players@[i]).team == Team::Blue <==> i < order@.len() / 2),
{
    let n = order.len();
    let blue: usize = if n % 2 == 1 && extra_to_blue { n / 2 + 1 } else { n / 2 };
    let mut players: Vec<Player> = Vec::new();
    let mut i: usize = 0;
    while i < n
        invariant
            n == order@.len(),
            blue == blue_size(n as nat, extra_to_blue),
            i <= n,
            players@ == dealt(order@, extra_to_blue).take(i as int),
        decreases n - i,
    {
        let team = if i < blue { Team::Blue } else { Team::Orange };
        players.push(Player { user_id: order[i], team, role: Role::Villager });
        i = i + 1;
        assert(players@ =~= dealt(order@, extra_to_blue).take(i as int));
    }
    assert(players@ =~= dealt(order@, extra_to_blue));
    players
}


/// The players of `team`, in order.
pub open spec fn on_team(team: Team) -> spec_fn(Player) -> bool {
    |p: Player| p.team == team
}

/// The user ids of `players`, in order.
pub open spec fn ids_of(players: Seq<Player>) -> Seq<u64> {
    players.map_values(|p: Player| p.user_id)
}

/// When the first `b` players are Blue and the rest Orange, picking the
/// players of each team in order gives the first `b` and the rest.
pub proof fn lemma_filter_teams(s: Seq<Player>, b: int)
    requires
        0 <= b <= s.len(),
        forall|i: int| 0 <= i < s.len() ==> (#[trigger] s[i]).team == (if i < b { Team::Blue } else { Team::Orange }),
    ensures
        s.filter(on_team(Team::Blue)) == s.take(b),
        s.filter(on_team(Team::Orange)) == s.skip(b),
    decreases s.len(),
{
    if s.len() == 0 {
        reveal(Seq::filter);
        assert(s.take(b) =~= s);
        assert(s.skip(b) =~= s);
    } else {
        let t = s.drop_last();
        let nb = if b == s.len() { b - 1 } else { b };
        lemma_filter_teams(t, nb);
        assert(t.push(s.last()) =~= s);
        t.lemma_filter_push(s.last(), on_team(Team::Blue));
        t.lemma_filter_push(s.last(), on_team(Team::Orange));
        if b == s.len() {
            assert(t.take(nb).push(s.last()) =~= s.take(b));
            assert(t.skip(nb) =~= s.skip(b));
        } else {
            assert(t.take(nb) =~= s.take(b));
            assert(t.skip(nb).push(s.last()) =~= s.skip(b));
        }
    }
}

/// Blue takes half the players, rounded down, and the odd player out too
/// when the coin says so.
pub proof fn lemma_blue_size(n: nat)
    ensures
        blue_size(n, false) == n / 2,
        blue_size(n, true) == n - n / 2,
        blue_size(n, true) + blue_size(n, false) == n,
{
}

/// Puts the players of Blue, then the players of Orange, each in the order
/// in which they come.
pub fn partition_teams(players: Vec<Player>) -> (teams: (Vec<Player>, Vec<Player>))
    ensures
        teams.0@ == players@.filter(on_team(Team::Blue)),
        teams.1@ == players@.filter(on_team(Team::Orange)),
        teams.0@.len() + teams.1@.len() == players@.len(),
        forall|j: int| 0 <= j < teams.0@.len() ==> (#[trigger] teams.0@[j]).team == Team::Blue && players@.contains(teams.0@[j]),
        forall|j: int| 0 <= j < teams.1@.len() ==> (#[trigger] teams.1@[j]).team == Team::Orange && players@.contains(teams.1@[j]),
{
    let mut blue: Vec<Player> = Vec::new();
    let mut orange: Vec<Player> = Vec::new();
    let n = players.len();
    let mut i: usize = 0;
    while i < n
        invariant
            n == players@.len(),
            i <= n,
            blue@ == players@.take(i as int).filter(on_team(Team::Blue)),
            orange@ == players@.take(i as int).filter(on_team(Team::Orange)),
            blue@.len() + orange@.len() == i,
            forall|j: int| 0 <= j < blue@.len() ==> (#[trigger] blue@[j]).team == Team::Blue && players@.contains(blue@[j]),
            forall|j: int| 0 <= j < orange@.len() ==> (#[trigger] orange@[j]).team == Team::Orange && players@.contains(orange@[j]),
        decreases n - i,
    {
        let p = players[i];
        proof {
            assert(players@.take(i as int).push(p) =~= players@.take(i + 1));
            players@.take(i as int).lemma_filter_push(p, on_team(Team::Blue));
            players@.take(i as int).lemma_filter_push(p, on_team(Team::Orange));
        }
        assert(players@[i as int] == p);
        match p.team {
            Team::Blue => blue.push(p),
            Team::Orange => orange.push(p),
        }
        i = i + 1;
    }
    assert(players@.take(n as int) =~= players@);
    (blue, orange)
}

/// The user ids of the players of `team`, in order.
pub fn team_ids(players: &Vec<Player>, team: Team) -> (ids: Vec<u64>)
    ensures
        ids@ == ids_of(players@.filter(on_team(team))),
{
    let mut ids: Vec<u64> = Vec::new();
    let n = players.len();
    let mut i: usize = 0;
    while i < n
        invariant
            n == players@.len(),
            i <= n,
            ids@ == ids_of(players@.take(i as int).filter(on_team(team))),
        decreases n - i,
    {
        let p = players[i];
        proof {
            assert(players@.take(i as int).push(p) =~= players@.take(i + 1));
            players@.take(i as int).lemma_filter_push(p, on_team(team));
        }
        if p.team == team {
            ids.push(p.user_id);
            proof {
                let f = players@.take(i as int).filter(on_team(team));
                assert(ids_of(f.push(p)) =~= ids_of(f).push(p.user_id));
            }
        }
        i = i + 1;
    }
    assert(players@.take(n as int) =~= players@);
    ids
}

/// Shuffles the members and splits them into the two teams, everybody a
/// Villager. The order and the coin for the odd player out rest on chance;
/// what holds of every outcome is stated: the players are the members in
/// some order, dealt as `split_into_teams` deals them.
pub fn assign_teams(members: Vec<u64>) -> (players: Vec<Player>)
    ensures
        exists|order: Seq<u64>, extra_to_blue: bool|
            #![trigger dealt(order, extra_to_blue)]
            order.to_multiset() == members@.to_multiset() && players@ == dealt(order, extra_to_blue),
{
    let mut members = members;
    let mut rng = thread_rng();
    shuffle_ids(&mut rng, &mut members);
    let n = members.len();
    let extra_to_blue = n % 2 == 1 && fair_coin(&mut rng);
    let players = split_into_teams(&members, extra_to_blue);
    assert(players@ == dealt(members@, extra_to_blue));
    players
}

/// How many of `count` Mafia go to Blue and to Orange: the larger team gets
/// the larger half (`count` divided by two, rounded up), the smaller team
/// the rest; between equal teams `tie_to_blue` decides which one gets the
/// larger half.
pub open spec fn mafia_shares(count: nat, blue_len: nat, orange_len: nat, tie_to_blue: bool) -> (nat, nat) {
    let larger = count / 2 + count % 2;
    let smaller = count / 2;
    if blue_len > orange_len {
        (larger, smaller)
    } else if blue_len < orange_len {
        (smaller, larger)
    } else if tie_to_blue {
        (larger, smaller)
    } else {
        (smaller, larger)
    }
}

/// Divides `count` Mafia between the teams as `mafia_shares` says. The two
/// shares add up to `count`, differ by at most one, and the larger team
/// never gets fewer than the smaller one.
pub fn mafia_split(count: usize, blue_len: usize, orange_len: usize, tie_to_blue: bool) -> (shares: (usize, usize))
    ensures
        (shares.0 as nat, shares.1 as nat) == mafia_shares(count as nat, blue_len as nat, orange_len as nat, tie_to_blue),
        shares.0 + shares.1 == count,
        shares.0 <= shares.1 + 1,
        shares.1 <= shares.0 + 1,
        blue_len > orange_len ==> shares.0 >= shares.1,
        blue_len < orange_len ==> shares.1 >= shares.0,
{
    let larger = count / 2 + count % 2;
    let smaller = count / 2;
    if blue_len > orange_len {
        (larger, smaller)
    } else if blue_len < orange_len {
        (smaller, larger)
    } else if tie_to_blue {
        (larger, smaller)
    } else {
        (smaller, larger)
    }
}

/// What a draw of the Mafia from two teams gives, whatever came out of the
/// coin and the picks: `picked` is the Blue picks followed by the Orange
/// picks; each team gives `min(share, team size)` ids from distinct places.
pub open spec fn mafia_draw(
    count: nat,
    blue_ids: Seq<u64>,
    orange_ids: Seq<u64>,
    tie_to_blue: bool,
    blue_picks: Seq<u64>,
    orange_picks: Seq<u64>,
    picked: Seq<u64>,
) -> bool {
    let shares = mafia_shares(count, blue_ids.len(), orange_ids.len(), tie_to_blue);
    &&& picked == blue_picks + orange_picks
    &&& blue_picks.len() == min_nat(shares.0, blue_ids.len())
    &&& orange_picks.len() == min_nat(shares.1, orange_ids.len())
    &&& exists|positions: Seq<int>| picked_at(blue_ids, blue_picks, positions)
    &&& exists|positions: Seq<int>| picked_at(orange_ids, orange_picks, positions)
}

/// Chooses `count` Mafia from the two teams, spread as evenly as the teams
/// allow; a team smaller than its share gives all its players.
pub fn select_mafia(count: usize, blue_ids: &Vec<u64>, orange_ids: &Vec<u64>, rng: &mut ThreadRng) -> (picked: Vec<u64>)
    ensures
        exists|tie_to_blue: bool, blue_picks: Seq<u64>, orange_picks: Seq<u64>|
            #[trigger] mafia_draw(count as nat, blue_ids@, orange_ids@, tie_to_blue, blue_picks, orange_picks, picked@),
{
    let tie_to_blue = if blue_ids.len() == orange_ids.len() { fair_coin(rng) } else { false };
    let (blue_count, orange_count) = mafia_split(count, blue_ids.len(), orange_ids.len(), tie_to_blue);
    let blue_picks = choose_ids(rng, blue_ids, blue_count);
    let orange_picks = choose_ids(rng, orange_ids, orange_count);
    let mut picked = blue_picks.clone();
    let mut i: usize = 0;
    while i < orange_picks.len()
        invariant
            i <= orange_picks@.len(),
            picked@ == blue_picks@ + orange_picks@.take(i as int),
        decreases orange_picks@.len() - i,
    {
        picked.push(orange_picks[i]);
        i = i + 1;
        assert(picked@ =~= blue_picks@ + orange_picks@.take(i as int));
    }
    assert(orange_picks@.take(i as int) =~= orange_picks@);
    assert(mafia_draw(count as nat, blue_ids@, orange_ids@, tie_to_blue, blue_picks@, orange_picks@, picked@));
    picked
}

/// The number of Mafia when the game master names none: one for up to six
/// players, two for more.
pub fn default_mafia_count(num_players: usize) -> (count: usize)
    ensures
        count == (if num_players > 6 { 2usize } else { 1usize }),
{
    if num_players > 6 { 2 } else { 1 }
}

/// Whether `id` occurs in `ids`.
pub fn contains_id(ids: &Vec<u64>, id: u64) -> (found: bool)
    ensures
        found == ids@.contains(id),
{
    let mut i: usize = 0;
    while i < ids.len()
        invariant
            i <= ids@.len(),
            forall|j: int| 0 <= j < i ==> ids@[j] != id,
        decreases ids@.len() - i,
    {
        if ids[i] == id {
            return true;
        }
        i = i + 1;
    }
    false
}

/// A player's role once the Mafia are known: Mafia exactly when the id was
/// picked.
pub open spec fn with_role(p: Player, mafia: Seq<u64>) -> Player {
    Player { role: if mafia.contains(p.user_id) { Role::Mafia } else { Role::Villager }, ..p }
}

/// Gives every player the role that `with_role` gives.
pub fn assign_roles(players: Vec<Player>, mafia: &Vec<u64>) -> (cast: Vec<Player>)
    ensures
        cast@.len() == players@.len(),
        forall|i: int| 0 <= i < players@.len() ==> #[trigger] cast@[i] == with_role(players@[i], mafia@),
        forall|i: int| 0 <= i < players@.len() ==> (#[trigger] cast@[i]).user_id == players@[i].user_id
            && cast@[i].team == players@[i].team && (cast@[i].role == Role::Mafia <==> mafia@.contains(players@[i].user_id)),
{
    let mut cast: Vec<Player> = Vec::new();
    let n = players.len();
    let mut i: usize = 0;
    while i < n
        invariant
            n == players@.len(),
            i <= n,
            cast@.len() == i,
            forall|j: int| 0 <= j < i ==> #[trigger] cast@[j] == with_role(players@[j], mafia@),
        decreases n - i,
    {
        let p = players[i];
        let role = if contains_id(mafia, p.user_id) { Role::Mafia } else { Role::Villager };
        cast.push(Player { user_id: p.user_id, team: p.team, role });
        i = i + 1;
    }
    cast
}

/// A game: who runs it and who plays on which team.
#[derive(Debug)]
pub struct Game {
    pub game_master: u64,
    pub blue_team: Vec<Player>,
    pub orange_team: Vec<Player>,
}

/// The teams that a plain game gets from the members: `order` is the members
/// in some order, and the teams are what `dealt` makes of that order.
pub open spec fn teams_dealt(
    members: Seq<u64>,
    order: Seq<u64>,
    extra_to_blue: bool,
    blue: Seq<Player>,
    orange: Seq<Player>,
) -> bool {
    let b = blue_size(order.len(), extra_to_blue) as int;
    &&& order.to_multiset() == members.to_multiset()
    &&& blue == dealt(order, extra_to_blue).take(b)
    &&& orange == dealt(order, extra_to_blue).skip(b)
}

/// The number of Mafia a game is started with: the one asked for, else the
/// default for the number of players.
pub open spec fn requested_mafia(mafia_count: Option<u32>, num_players: nat) -> nat {
    match mafia_count {
        Some(c) => c as nat,
        None => if num_players > 6 { 2 } else { 1 },
    }
}

/// The teams that a Mafia game gets from the members: the members are dealt
/// in some order as for a plain game; the Mafia are drawn from the two teams
/// as `mafia_draw` says; every drawn player is Mafia and everybody else a
/// Villager.
pub open spec fn teams_cast(
    members: Seq<u64>,
    count: nat,
    order: Seq<u64>,
    extra_to_blue: bool,
    tie_to_blue: bool,
    blue_picks: Seq<u64>,
    orange_picks: Seq<u64>,
    blue: Seq<Player>,
    orange: Seq<Player>,
) -> bool {
    let b = blue_size(order.len(), extra_to_blue) as int;
    let d = dealt(order, extra_to_blue);
    let mafia = blue_picks + orange_picks;
    &&& order.to_multiset() == members.to_multiset()
    &&& mafia_draw(count, order.take(b), order.skip(b), tie_to_blue, blue_picks, orange_picks, mafia)
    &&& blue == d.take(b).map_values(|p: Player| with_role(p, mafia))
    &&& orange == d.skip(b).map_values(|p: Player| with_role(p, mafia))
}

/// The players that are Mafia.
pub open spec fn is_mafia() -> spec_fn(Player) -> bool {
    |p: Player| p.role == Role::Mafia
}

/// Some player among `players` with user id `id` is Mafia.
pub open spec fn mafia_player_has_id(players: Seq<Player>, id: u64) -> bool {
    exists|k: int| 0 <= k < players.len() && players[k].role == Role::Mafia && players[k].user_id == id
}

/// The user ids of the Mafia among `players`.
pub open spec fn mafia_in(players: Seq<Player>) -> Set<u64> {
    Set::new(|id: u64| exists|i: int| 0 <= i < players.len() && (#[trigger] players[i]).user_id == id && players[i].role == Role::Mafia)
}

/// A rearrangement of a sequence without repeats has no repeats either.
pub proof fn lemma_rearranged_no_duplicates(s: Seq<u64>, t: Seq<u64>)
    requires
        s.no_duplicates(),
        s.to_multiset() == t.to_multiset(),
    ensures
        t.no_duplicates(),
{
    s.lemma_multiset_has_no_duplicates();
    t.lemma_multiset_has_no_duplicates_conv();
}

/// The Mafia of one team are exactly the ids drawn from that team, and
/// there are as many of them as ids were drawn, when no id repeats and the
/// other team's draw holds no id of this team.
pub proof fn lemma_team_mafia(ids: Seq<u64>, own: Seq<u64>, others: Seq<u64>, mafia: Seq<u64>, players: Seq<Player>)
    requires
        ids.no_duplicates(),
        forall|j: int| 0 <= j < others.len() ==> !ids.contains(#[trigger] others[j]),
        exists|positions: Seq<int>| picked_at(ids, own, positions),
        forall|y: u64| #[trigger] mafia.contains(y) <==> (own.contains(y) || others.contains(y)),
        players.len() == ids.len(),
        forall|i: int| 0 <= i < ids.len() ==> (#[trigger] players[i]).user_id == ids[i]
            && (players[i].role == Role::Mafia <==> mafia.contains(ids[i])),
    ensures
        own.no_duplicates(),
        mafia_in(players) == own.to_set(),
        mafia_in(players).len() == own.len(),
{
    let positions = choose|positions: Seq<int>| picked_at(ids, own, positions);
    assert forall|a: int, c: int| 0 <= a < own.len() && 0 <= c < own.len() && a != c implies own[a] != own[c] by {
        assert(positions[a] != positions[c]);
        assert(own[a] == ids[positions[a]]);
        assert(own[c] == ids[positions[c]]);
    }
    assert forall|y: u64| mafia_in(players).contains(y) <==> own.to_set().contains(y) by {
        if mafia_in(players).contains(y) {
            let i = choose|i: int| 0 <= i < players.len() && (#[trigger] players[i]).user_id == y && players[i].role == Role::Mafia;
            assert(mafia.contains(ids[i]));
            if others.contains(y) {
                let j = choose|j: int| 0 <= j < others.len() && others[j] == y;
                assert(!ids.contains(others[j]));
                assert(ids[i] == y);
            }
            assert(own.contains(y));
        }
        if own.to_set().contains(y) {
            assert(own.contains(y));
            let j = choose|j: int| 0 <= j < own.len() && own[j] == y;
            let i = positions[j];
            assert(players[i].user_id == y);
            assert(mafia.contains(y));
        }
    }
    assert(mafia_in(players) =~= own.to_set());
    own.unique_seq_to_set();
}

/// Every member plays, on one team only; the teams differ in size by at
/// most one, and are equal when the number of members is even; everybody on
/// a team carries that team.
pub open spec fn fair_teams(members: Seq<u64>, blue: Seq<Player>, orange: Seq<Player>) -> bool {
    &&& (ids_of(blue) + ids_of(orange)).to_multiset() == members.to_multiset()
    &&& blue.len() <= orange.len() + 1
    &&& orange.len() <= blue.len() + 1
    &&& members.len() % 2 == 0 ==> blue.len() == orange.len()
    &&& forall|i: int| 0 <= i < blue.len() ==> (#[trigger] blue[i]).team == Team::Blue
    &&& forall|i: int| 0 <= i < orange.len() ==> (#[trigger] orange[i]).team == Team::Orange
}

/// How the Mafia are spread once drawn: each team has
/// `min(share, team size)` of them, the shares being those of
/// `mafia_shares` for `count`.
pub open spec fn mafia_spread(count: nat, tie_to_blue: bool, blue: Seq<Player>, orange: Seq<Player>) -> bool {
    let shares = mafia_shares(count, blue.len(), orange.len(), tie_to_blue);
    &&& mafia_in(blue).len() == min_nat(shares.0, blue.len())
    &&& mafia_in(orange).len() == min_nat(shares.1, orange.len())
}

/// What `dealt` gives, split at the Blue size, makes fair teams.
pub proof fn lemma_dealt_is_fair(members: Seq<u64>, order: Seq<u64>, extra_to_blue: bool)
    requires
        order.to_multiset() == members.to_multiset(),
    ensures
        ({
            let b = blue_size(order.len(), extra_to_blue) as int;
            let d = dealt(order, extra_to_blue);
            &&& ids_of(d.take(b)) == order.take(b)
            &&& ids_of(d.skip(b)) == order.skip(b)
            &&& fair_teams(members, d.take(b), d.skip(b))
        }),
{
    let b = blue_size(order.len(), extra_to_blue) as int;
    let d = dealt(order, extra_to_blue);
    assert(members.len() == order.len()) by {
        members.to_multiset_ensures();
        order.to_multiset_ensures();
    }
    assert(ids_of(d.take(b)) =~= order.take(b));
    assert(ids_of(d.skip(b)) =~= order.skip(b));
    assert(order.take(b) + order.skip(b) =~= order);
}

/// Giving the players their roles keeps teams fair.
pub proof fn lemma_cast_is_fair(members: Seq<u64>, order: Seq<u64>, extra_to_blue: bool, mafia: Seq<u64>)
    requires
        order.to_multiset() == members.to_multiset(),
    ensures
        ({
            let b = blue_size(order.len(), extra_to_blue) as int;
            let d = dealt(order, extra_to_blue);
            let blue = d.take(b).map_values(|p: Player| with_role(p, mafia));
            let orange = d.skip(b).map_values(|p: Player| with_role(p, mafia));
            &&& ids_of(blue) == order.take(b)
            &&& ids_of(orange) == order.skip(b)
            &&& fair_teams(members, blue, orange)
        }),
{
    let b = blue_size(order.len(), extra_to_blue) as int;
    let d = dealt(order, extra_to_blue);
    let blue = d.take(b).map_values(|p: Player| with_role(p, mafia));
    let orange = d.skip(b).map_values(|p: Player| with_role(p, mafia));
    assert(members.len() == order.len()) by {
        members.to_multiset_ensures();
        order.to_multiset_ensures();
    }
    assert(ids_of(blue) =~= order.take(b));
    assert(ids_of(orange) =~= order.skip(b));
    assert(order.take(b) + order.skip(b) =~= order);
}

/// With members that do not repeat, each team gets exactly its share of the
/// Mafia, or all its players when it is smaller than its share.
pub proof fn lemma_cast_spread(
    members: Seq<u64>,
    count: nat,
    order: Seq<u64>,
    extra_to_blue: bool,
    tie_to_blue: bool,
    blue_picks: Seq<u64>,
    orange_picks: Seq<u64>,
    blue: Seq<Player>,
    orange: Seq<Player>,
)
    requires
        members.no_duplicates(),
        teams_cast(members, count, order, extra_to_blue, tie_to_blue, blue_picks, orange_picks, blue, orange),
    ensures
        mafia_spread(count, tie_to_blue, blue, orange),
{
    let b = blue_size(order.len(), extra_to_blue) as int;
    let d = dealt(order, extra_to_blue);
    let mafia = blue_picks + orange_picks;
    lemma_rearranged_no_duplicates(members, order);
    lemma_cast_is_fair(members, order, extra_to_blue, mafia);
    let bids = order.take(b);
    let oids = order.skip(b);
    assert(bids.no_duplicates());
    assert(oids.no_duplicates());
    assert forall|y: u64| #[trigger] mafia.contains(y) <==> (blue_picks.contains(y) || orange_picks.contains(y)) by {
        if mafia.contains(y) {
            let k = choose|k: int| 0 <= k < mafia.len() && mafia[k] == y;
            if k < blue_picks.len() {
                assert(blue_picks[k] == y);
            } else {
                assert(orange_picks[k - blue_picks.len()] == y);
            }
        }
        if blue_picks.contains(y) {
            let k = choose|k: int| 0 <= k < blue_picks.len() && blue_picks[k] == y;
            assert(mafia[k] == y);
        }
        if orange_picks.contains(y) {
            let k = choose|k: int| 0 <= k < orange_picks.len() && orange_picks[k] == y;
            assert(mafia[blue_picks.len() + k] == y);
        }
    }
    let bpos = choose|positions: Seq<int>| picked_at(bids, blue_picks, positions);
    let opos = choose|positions: Seq<int>| picked_at(oids, orange_picks, positions);
    assert forall|j: int| 0 <= j < orange_picks.len() implies !bids.contains(#[trigger] orange_picks[j]) by {
        if bids.contains(orange_picks[j]) {
            let i = choose|i: int| 0 <= i < bids.len() && bids[i] == orange_picks[j];
            assert(order[i] == order[b + opos[j]]);
        }
    }
    assert forall|j: int| 0 <= j < blue_picks.len() implies !oids.contains(#[trigger] blue_picks[j]) by {
        if oids.contains(blue_picks[j]) {
            let i = choose|i: int| 0 <= i < oids.len() && oids[i] == blue_picks[j];
            assert(order[b + i] == order[bpos[j]]);
        }
    }
    assert forall|i: int| 0 <= i < bids.len() implies (#[trigger] blue[i]).user_id == bids[i]
        && (blue[i].role == Role::Mafia <==> mafia.contains(bids[i])) by {
        assert(blue[i] == with_role(d[i], mafia));
    }
    assert forall|i: int| 0 <= i < oids.len() implies (#[trigger] orange[i]).user_id == oids[i]
        && (orange[i].role == Role::Mafia <==> mafia.contains(oids[i])) by {
        assert(orange[i] == with_role(d[b + i], mafia));
    }
    lemma_team_mafia(bids, blue_picks, orange_picks, mafia, blue);
    lemma_team_mafia(oids, orange_picks, blue_picks, mafia, orange);
}

/// The shares of `mafia_shares` add up to `count`, differ by at most one,
/// and the larger team never gets the smaller share.
pub proof fn lemma_mafia_shares_even(count: nat, blue_len: nat, orange_len: nat, tie_to_blue: bool)
    ensures
        ({
            let shares = mafia_shares(count, blue_len, orange_len, tie_to_blue);
            &&& shares.0 + shares.1 == count
            &&& shares.0 <= shares.1 + 1
            &&& shares.1 <= shares.0 + 1
            &&& blue_len > orange_len ==> shares.0 >= shares.1
            &&& blue_len < orange_len ==> shares.1 >= shares.0
        }),
{
}

/// With no number asked for, a game has one Mafia for up to six players and
/// two for more; otherwise the number asked for.
pub proof fn lemma_requested_mafia(mafia_count: Option<u32>, num_players: nat)
    ensures
        mafia_count is None && num_players <= 6 ==> requested_mafia(mafia_count, num_players) == 1,
        mafia_count is None && num_players > 6 ==> requested_mafia(mafia_count, num_players) == 2,
        mafia_count matches Some(c) ==> requested_mafia(mafia_count, num_players) == c as nat,
{
}

/// When the teams differ in size by at most one, drawing each team's share
/// (or all of it, when smaller) gives `min(count, players)` Mafia in all.
pub proof fn lemma_total_mafia(count: nat, blue_len: nat, orange_len: nat, tie_to_blue: bool)
    requires
        blue_len <= orange_len + 1,
        orange_len <= blue_len + 1,
    ensures
        ({
            let shares = mafia_shares(count, blue_len, orange_len, tie_to_blue);
            min_nat(shares.0, blue_len) + min_nat(shares.1, orange_len) == min_nat(count, blue_len + orange_len)
        }),
{
}

impl Game {
    /// Starts a game without Mafia: the members are shuffled and split into
    /// Blue and Orange, everybody a Villager.
    pub fn new(members: Vec<u64>, game_master: u64) -> (game: Game)
        ensures
            game.game_master == game_master,
            exists|order: Seq<u64>, extra_to_blue: bool|
                #[trigger] teams_dealt(members@, order, extra_to_blue, game.blue_team@, game.orange_team@),
            fair_teams(members@, game.blue_team@, game.orange_team@),
            forall|i: int| 0 <= i < game.blue_team@.len() ==> (#[trigger] game.blue_team@[i]).role == Role::Villager,
            forall|i: int| 0 <= i < game.orange_team@.len() ==> (#[trigger] game.orange_team@[i]).role == Role::Villager,
    {
        let ghost m = members@;
        let players = assign_teams(members);
        let ghost order = choose|order: Seq<u64>, extra_to_blue: bool|
            #![trigger dealt(order, extra_to_blue)]
            order.to_multiset() == m.to_multiset() && players@ == dealt(order, extra_to_blue);
        let (blue_team, orange_team) = partition_teams(players);
        proof {
            let d = dealt(order.0, order.1);
            let b = blue_size(order.0.len(), order.1) as int;
            lemma_filter_teams(d, b);
            lemma_dealt_is_fair(m, order.0, order.1);
        }
        let game = Game { game_master, blue_team, orange_team };
        assert(teams_dealt(m, order.0, order.1, game.blue_team@, game.orange_team@));
        assert(fair_teams(m, game.blue_team@, game.orange_team@));
        game
    }

    /// Starts a Mafia game: the members are shuffled and split into Blue
    /// and Orange, then `mafia_count` Mafia (by default one for up to six
    /// players, two for more) are drawn, spread over the teams as evenly as
    /// possible.
    pub fn mafia(members: Vec<u64>, game_master: u64, mafia_count: Option<u32>) -> (game: Game)
        ensures
            game.game_master == game_master,
            exists|order: Seq<u64>, extra_to_blue: bool, tie_to_blue: bool, blue_picks: Seq<u64>, orange_picks: Seq<u64>|
                #[trigger] teams_cast(
                    members@,
                    requested_mafia(mafia_count, members@.len()),
                    order,
                    extra_to_blue,
                    tie_to_blue,
                    blue_picks,
                    orange_picks,
                    game.blue_team@,
                    game.orange_team@,
                ),
            fair_teams(members@, game.blue_team@, game.orange_team@),
            members@.no_duplicates() ==> exists|tie_to_blue: bool|
                #[trigger] mafia_spread(requested_mafia(mafia_count, members@.len()), tie_to_blue, game.blue_team@, game.orange_team@),
            members@.no_duplicates() && mafia_count is None ==> mafia_in(game.blue_team@).len() + mafia_in(game.orange_team@).len()
                == (if members@.len() == 0 { 0nat } else if members@.len() <= 6 { 1nat } else { 2nat }),
            members@.no_duplicates() && mafia_count is Some ==> mafia_in(game.blue_team@).len() + mafia_in(game.orange_team@).len()
                == (if (mafia_count->0 as nat) < members@.len() { mafia_count->0 as nat } else { members@.len() }),
    {
        let ghost m = members@;
        let players = assign_teams(members);
        let ghost pick = choose|order: Seq<u64>, extra_to_blue: bool|
            #![trigger dealt(order, extra_to_blue)]
            order.to_multiset() == m.to_multiset() && players@ == dealt(order, extra_to_blue);
        let ghost order = pick.0;
        let ghost extra_to_blue = pick.1;
        let ghost d = dealt(order, extra_to_blue);
        let ghost b = blue_size(order.len(), extra_to_blue) as int;
        proof {
            assert(m.len() == order.len()) by {
                m.to_multiset_ensures();
                order.to_multiset_ensures();
            }
            lemma_filter_teams(d, b);
        }
        let mut rng = thread_rng();
        let blue_ids = team_ids(&players, Team::Blue);
        let orange_ids = team_ids(&players, Team::Orange);
        proof {
            assert(blue_ids@ =~= order.take(b));
            assert(orange_ids@ =~= order.skip(b));
        }
        let count: usize = match mafia_count {
            Some(c) => c as usize,
            None => default_mafia_count(players.len()),
        };
        let mafia_selection = select_mafia(count, &blue_ids, &orange_ids, &mut rng);
        let ghost draw = choose|tie_to_blue: bool, blue_picks: Seq<u64>, orange_picks: Seq<u64>|
            #[trigger] mafia_draw(count as nat, blue_ids@, orange_ids@, tie_to_blue, blue_picks, orange_picks, mafia_selection@);
        let players = assign_roles(players, &mafia_selection);
        let ghost sel = mafia_selection@;
        proof {
            assert forall|i: int| 0 <= i < players@.len() implies (#[trigger] players@[i]).team
                == (if i < b { Team::Blue } else { Team::Orange }) by {
                assert(players@[i] == with_role(d[i], sel));
            }
            lemma_filter_teams(players@, b);
        }
        let (blue_team, orange_team) = partition_teams(players);
        proof {
            assert(blue_team@ =~= d.take(b).map_values(|p: Player| with_role(p, sel)));
            assert(orange_team@ =~= d.skip(b).map_values(|p: Player| with_role(p, sel)));
            assert(count as nat == requested_mafia(mafia_count, m.len()));
        }
        let game = Game { game_master, blue_team, orange_team };
        assert(teams_cast(m, count as nat, order, extra_to_blue, draw.0, draw.1, draw.2, game.blue_team@, game.orange_team@));
        proof {
            lemma_cast_is_fair(m, order, extra_to_blue, sel);
            if m.no_duplicates() {
                lemma_cast_spread(m, count as nat, order, extra_to_blue, draw.0, draw.1, draw.2, game.blue_team@, game.orange_team@);
                let bl = game.blue_team@.len();
                let ol = game.orange_team@.len();
                assert(bl + ol == m.len()) by {
                    let all = ids_of(game.blue_team@) + ids_of(game.orange_team@);
                    all.to_multiset_ensures();
                    m.to_multiset_ensures();
                }
                lemma_total_mafia(count as nat, bl, ol, draw.0);
            }
        }
        game
    }

    /// Everybody in the game: Blue, then Orange.
    pub open spec fn all_players(&self) -> Seq<Player> {
        self.blue_team@ + self.orange_team@
    }

    /// Everybody in the game, Blue first, then Orange, each in team order.
    pub fn players(&self) -> (players: Vec<&Player>)
        ensures
            players@.len() == self.all_players().len(),
            forall|i: int| 0 <= i < players@.len() ==> *#[trigger] players@[i] == self.all_players()[i],
    {
        let mut players: Vec<&Player> = Vec::new();
        let mut i: usize = 0;
        while i < self.blue_team.len()
            invariant
                i <= self.blue_team@.len(),
                players@.len() == i,
                forall|j: int| 0 <= j < i ==> *#[trigger] players@[j] == self.all_players()[j],
            decreases self.blue_team@.len() - i,
        {
            players.push(&self.blue_team[i]);
            i = i + 1;
        }
        let nb = self.blue_team.len();
        let mut k: usize = 0;
        while k < self.orange_team.len()
            invariant
                nb == self.blue_team@.len(),
                k <= self.orange_team@.len(),
                players@.len() == nb + k,
                forall|j: int| 0 <= j < nb + k ==> *#[trigger] players@[j] == self.all_players()[j],
            decreases self.orange_team@.len() - k,
        {
            players.push(&self.orange_team[k]);
            k = k + 1;
        }
        players
    }

    /// The players of Blue.
    pub fn blue_team(&self) -> (team: &Vec<Player>)
        ensures
            team@ == self.blue_team@,
    {
        &self.blue_team
    }

    /// The players of Orange.
    pub fn orange_team(&self) -> (team: &Vec<Player>)
        ensures
            team@ == self.orange_team@,
    {
        &self.orange_team
    }

    /// The player with the given user id, looking through Blue, then Orange;
    /// `None` when nobody in the game has that id.
    pub fn player_for(&self, user_id: u64) -> (found: Option<&Player>)
        ensures
            match found {
                Some(p) => exists|k: int|
                    0 <= k < self.all_players().len() && self.all_players()[k] == *p && p.user_id == user_id
                        && forall|j: int| 0 <= j < k ==> (#[trigger] self.all_players()[j]).user_id != user_id,
                None => forall|j: int| 0 <= j < self.all_players().len() ==> (#[trigger] self.all_players()[j]).user_id != user_id,
            },
    {
        let mut i: usize = 0;
        while i < self.blue_team.len()
            invariant
                i <= self.blue_team@.len(),
                forall|j: int| 0 <= j < i ==> (#[trigger] self.all_players()[j]).user_id != user_id,
            decreases self.blue_team@.len() - i,
        {
            if self.blue_team[i].user_id == user_id {
                assert(self.all_players()[i as int] == self.blue_team@[i as int]);
                return Some(&self.blue_team[i]);
            }
            i = i + 1;
        }
        let nb = self.blue_team.len();
        let mut k: usize = 0;
        while k < self.orange_team.len()
            invariant
                nb == self.blue_team@.len(),
                k <= self.orange_team@.len(),
                forall|j: int| 0 <= j < nb + k ==> (#[trigger] self.all_players()[j]).user_id != user_id,
            decreases self.orange_team@.len() - k,
        {
            if self.orange_team[k].user_id == user_id {
                assert(self.all_players()[nb + k] == self.orange_team@[k as int]);
                return Some(&self.orange_team[k]);
            }
            k = k + 1;
        }
        None
    }

    /// The user ids of the Mafia, Blue first, then Orange, in team order.
    pub fn mafia_ids(&self) -> (ids: Vec<u64>)
        ensures
            ids@ == ids_of(self.all_players().filter(is_mafia())),
            forall|i: int| 0 <= i < self.all_players().len() && (#[trigger] self.all_players()[i]).role == Role::Mafia
                ==> ids@.contains(self.all_players()[i].user_id),
            forall|j: int| 0 <= j < ids@.len() ==> #[trigger] mafia_player_has_id(self.all_players(), ids@[j]),
    {
        let all = self.players();
        let mut ids: Vec<u64> = Vec::new();
        let ghost mut from: Seq<int> = Seq::empty();
        let mut i: usize = 0;
        while i < all.len()
            invariant
                all@.len() == self.all_players().len(),
                forall|j: int| 0 <= j < all@.len() ==> *#[trigger] all@[j] == self.all_players()[j],
                i <= all@.len(),
                ids@ == ids_of(self.all_players().take(i as int).filter(is_mafia())),
                forall|a: int| 0 <= a < i && (#[trigger] self.all_players()[a]).role == Role::Mafia
                    ==> ids@.contains(self.all_players()[a].user_id),
                from.len() == ids@.len(),
                forall|j: int| 0 <= j < ids@.len() ==> 0 <= #[trigger] from[j] < i
                    && self.all_players()[from[j]].role == Role::Mafia && self.all_players()[from[j]].user_id == ids@[j],
            decreases all@.len() - i,
        {
            let p = all[i];
            proof {
                let t = self.all_players().take(i as int);
                assert(t.push(*p) =~= self.all_players().take(i + 1));
                t.lemma_filter_push(*p, is_mafia());
            }
            let ghost before = ids@;
            if p.role == Role::Mafia {
                ids.push(p.user_id);
                proof {
                    from = from.push(i as int);
                    assert(ids@[before.len() as int] == p.user_id);
                    assert forall|a: int| 0 <= a < i && (#[trigger] self.all_players()[a]).role == Role::Mafia
                        implies ids@.contains(self.all_players()[a].user_id) by {
                        let j = choose|j: int| 0 <= j < before.len() && before[j] == self.all_players()[a].user_id;
                        assert(ids@[j] == before[j]);
                    }
                    let f = self.all_players().take(i as int).filter(is_mafia());
                    assert(ids_of(f.push(*p)) =~= ids_of(f).push(p.user_id));
                }
            }
            i = i + 1;
        }
        assert(self.all_players().take(all@.len() as int) =~= self.all_players());
        assert forall|j: int| 0 <= j < ids@.len() implies #[trigger] mafia_player_has_id(self.all_players(), ids@[j]) by {
            let k = from[j];
            assert(0 <= k < self.all_players().len() && self.all_players()[k].role == Role::Mafia
                && self.all_players()[k].user_id == ids@[j]);
        }
        ids
    }
}

} // verus!
