use mafia_bot::game::{
    assign_roles, assign_teams, contains_id, default_mafia_count, mafia_split, partition_teams, select_mafia,
    split_into_teams, team_ids, Game, Player, Role, Team,
};

fn sorted(mut v: Vec<u64>) -> Vec<u64> {
    v.sort();
    v
}

fn ids(players: &[Player]) -> Vec<u64> {
    players.iter().map(|p| p.user_id).collect()
}

fn mafia_count(players: &[Player]) -> usize {
    players.iter().filter(|p| p.role == Role::Mafia).count()
}

#[test]
fn split_even_number_of_players() {
    let players = split_into_teams(&vec![10, 20, 30, 40], false);
    let teams: Vec<Team> = players.iter().map(|p| p.team).collect();
    assert_eq!(teams, vec![Team::Blue, Team::Blue, Team::Orange, Team::Orange]);
    assert_eq!(ids(&players), vec![10, 20, 30, 40]);
    assert!(players.iter().all(|p| p.role == Role::Villager));
    // The coin does not matter when nobody is left over.
    assert_eq!(split_into_teams(&vec![10, 20, 30, 40], true), players);
}

#[test]
fn split_odd_player_follows_the_coin() {
    let to_blue = split_into_teams(&vec![1, 2, 3], true);
    assert_eq!(to_blue.iter().map(|p| p.team).collect::<Vec<_>>(), vec![Team::Blue, Team::Blue, Team::Orange]);
    let to_orange = split_into_teams(&vec![1, 2, 3], false);
    assert_eq!(to_orange.iter().map(|p| p.team).collect::<Vec<_>>(), vec![Team::Blue, Team::Orange, Team::Orange]);
}

#[test]
fn split_nobody() {
    assert!(split_into_teams(&vec![], true).is_empty());
}

#[test]
fn default_count_follows_the_readme() {
    for n in 0..=6 {
        assert_eq!(default_mafia_count(n), 1);
    }
    assert_eq!(default_mafia_count(7), 2);
    assert_eq!(default_mafia_count(12), 2);
}

#[test]
fn mafia_split_larger_team_gets_the_larger_half() {
    assert_eq!(mafia_split(3, 3, 2, false), (2, 1));
    assert_eq!(mafia_split(3, 2, 3, true), (1, 2));
    assert_eq!(mafia_split(2, 4, 3, false), (1, 1));
    assert_eq!(mafia_split(1, 3, 4, true), (0, 1));
    assert_eq!(mafia_split(0, 3, 4, true), (0, 0));
}

#[test]
fn mafia_split_tie_is_decided_by_the_coin() {
    assert_eq!(mafia_split(1, 3, 3, true), (1, 0));
    assert_eq!(mafia_split(1, 3, 3, false), (0, 1));
    assert_eq!(mafia_split(5, 4, 4, true), (3, 2));
    assert_eq!(mafia_split(5, 4, 4, false), (2, 3));
}

#[test]
fn assign_teams_keeps_every_member() {
    let members = vec![5, 3, 9, 1, 7];
    let players = assign_teams(members.clone());
    assert_eq!(sorted(ids(&players)), sorted(members));
    let blue = players.iter().filter(|p| p.team == Team::Blue).count();
    assert!(blue == 2 || blue == 3);
    // Blue players come first.
    assert!(players[..blue].iter().all(|p| p.team == Team::Blue));
    assert!(players[blue..].iter().all(|p| p.team == Team::Orange));
}

#[test]
fn select_mafia_draws_from_each_team() {
    let blue = vec![1, 2, 3];
    let orange = vec![4, 5, 6];
    let mut rng = rand::rng();
    let picked = select_mafia(2, &blue, &orange, &mut rng);
    assert_eq!(picked.len(), 2);
    assert!(blue.contains(&picked[0]));
    assert!(orange.contains(&picked[1]));
}

#[test]
fn select_mafia_small_team_gives_everybody() {
    let blue = vec![1];
    let orange: Vec<u64> = vec![];
    let mut rng = rand::rng();
    let picked = select_mafia(4, &blue, &orange, &mut rng);
    assert_eq!(picked, vec![1]);
}

#[test]
fn contains_id_finds_ids() {
    assert!(contains_id(&vec![4, 8, 15], 8));
    assert!(!contains_id(&vec![4, 8, 15], 16));
    assert!(!contains_id(&vec![], 1));
}

#[test]
fn assign_roles_marks_the_picked() {
    let players = split_into_teams(&vec![1, 2, 3, 4], false);
    let cast = assign_roles(players, &vec![3]);
    assert_eq!(cast.iter().map(|p| p.role).collect::<Vec<_>>(), vec![Role::Villager, Role::Villager, Role::Mafia, Role::Villager]);
    assert_eq!(cast[2].team, Team::Orange);
}

#[test]
fn partition_and_team_ids() {
    let players = split_into_teams(&vec![1, 2, 3, 4, 5], true);
    assert_eq!(team_ids(&players, Team::Blue), vec![1, 2, 3]);
    assert_eq!(team_ids(&players, Team::Orange), vec![4, 5]);
    let (blue, orange) = partition_teams(players);
    assert_eq!(ids(&blue), vec![1, 2, 3]);
    assert_eq!(ids(&orange), vec![4, 5]);
}

#[test]
fn new_game_has_no_mafia() {
    let members = vec![11, 22, 33, 44, 55];
    let game = Game::new(members.clone(), 99);
    assert_eq!(game.game_master, 99);
    let mut all = ids(&game.blue_team);
    all.extend(ids(&game.orange_team));
    assert_eq!(sorted(all), sorted(members));
    assert!(game.blue_team.len() + game.orange_team.len() == 5);
    assert!((game.blue_team.len() as i64 - game.orange_team.len() as i64).abs() <= 1);
    assert!(game.blue_team.iter().all(|p| p.team == Team::Blue && p.role == Role::Villager));
    assert!(game.orange_team.iter().all(|p| p.team == Team::Orange && p.role == Role::Villager));
}

#[test]
fn small_mafia_game_has_one_mafia() {
    for _ in 0..20 {
        let game = Game::mafia(vec![1, 2, 3, 4], 1, None);
        assert_eq!(game.blue_team.len(), 2);
        assert_eq!(game.orange_team.len(), 2);
        assert_eq!(mafia_count(&game.blue_team) + mafia_count(&game.orange_team), 1);
    }
}

#[test]
fn large_mafia_game_has_one_mafia_per_team() {
    for _ in 0..20 {
        let game = Game::mafia(vec![1, 2, 3, 4, 5, 6, 7, 8], 1, None);
        assert_eq!(mafia_count(&game.blue_team), 1);
        assert_eq!(mafia_count(&game.orange_team), 1);
    }
}

#[test]
fn requested_mafia_are_spread_evenly() {
    for _ in 0..20 {
        let game = Game::mafia(vec![1, 2, 3, 4, 5, 6, 7], 1, Some(3));
        let blue = mafia_count(&game.blue_team);
        let orange = mafia_count(&game.orange_team);
        assert_eq!(blue + orange, 3);
        // The larger team gets the larger half.
        if game.blue_team.len() > game.orange_team.len() {
            assert_eq!((blue, orange), (2, 1));
        } else {
            assert_eq!((blue, orange), (1, 2));
        }
    }
}

#[test]
fn more_mafia_than_players_makes_everybody_mafia() {
    let game = Game::mafia(vec![1, 2], 1, Some(10));
    assert_eq!(mafia_count(&game.blue_team) + mafia_count(&game.orange_team), 2);
}

#[test]
fn players_lists_blue_then_orange() {
    let game = Game {
        game_master: 1,
        blue_team: vec![Player { user_id: 1, team: Team::Blue, role: Role::Villager }],
        orange_team: vec![
            Player { user_id: 2, team: Team::Orange, role: Role::Mafia },
            Player { user_id: 3, team: Team::Orange, role: Role::Villager },
        ],
    };
    let players = game.players();
    assert_eq!(players.iter().map(|p| p.user_id).collect::<Vec<_>>(), vec![1, 2, 3]);
    assert_eq!(game.player_for(3).map(|p| p.role), Some(Role::Villager));
    assert_eq!(game.player_for(2).map(|p| p.team), Some(Team::Orange));
    assert!(game.player_for(4).is_none());
    assert_eq!(game.mafia_ids(), vec![2]);
    assert_eq!(game.blue_team().len(), 1);
    assert_eq!(game.orange_team().len(), 2);
}
