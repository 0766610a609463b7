use secret_santa::GameStatus;
use secret_santa::Player;
use secret_santa::SecretSantaGame;

fn game_with(names: &[&str]) -> SecretSantaGame {
    let mut game = SecretSantaGame::new();
    for name in names {
        game.add_player(Player::new(name)).unwrap();
    }
    game
}

fn recipient_in(game: &SecretSantaGame, name: &str) -> String {
    for p in game.players.iter() {
        if p.name == name {
            return p.picked.clone().unwrap();
        }
    }
    panic!("no such participant");
}

#[test]
fn assignment_is_a_single_cycle_without_fixed_points() {
    for n in 2..8 {
        let names: Vec<String> = (0..n).map(|i| format!("Player {}", i)).collect();
        let mut game = SecretSantaGame::new();
        for name in names.iter() {
            game.add_player(Player::new(name)).unwrap();
        }
        game.start_game().unwrap();

        // every recipient is a registered name and never the giver's own
        for p in game.players.iter() {
            let recipient = p.picked.clone().unwrap();
            assert!(names.contains(&recipient));
            assert_ne!(recipient, p.name);
        }
        // no two givers share a recipient: the relation is a permutation
        for (i, p) in game.players.iter().enumerate() {
            for q in game.players.iter().skip(i + 1) {
                assert_ne!(p.picked, q.picked);
            }
        }
        // following the relation returns to the start after exactly n steps
        let start = game.players[0].name.clone();
        let mut at = start.clone();
        for step in 1..=n {
            at = recipient_in(&game, &at);
            if step < n {
                assert_ne!(at, start);
            }
        }
        assert_eq!(at, start);
    }
}

#[test]
fn three_players_form_a_three_cycle() {
    let mut game = game_with(&["Alice", "Bob", "Carol"]);
    game.start_game().unwrap();

    let r_alice = game.player_pick("Alice").unwrap();
    let r_bob = game.player_pick("Bob").unwrap();
    let r_carol = game.player_pick("Carol").unwrap();

    let recipients = vec![r_alice.clone(), r_bob.clone(), r_carol.clone()];
    assert!(recipients.contains(&"Alice".to_string()));
    assert!(recipients.contains(&"Bob".to_string()));
    assert!(recipients.contains(&"Carol".to_string()));
    assert_ne!(r_alice, "Alice");
    assert_ne!(r_bob, "Bob");
    assert_ne!(r_carol, "Carol");

    // one 3-cycle: from Alice, the relation returns to Alice after
    // exactly three steps and not before
    let recipient = |name: &str| -> String {
        if name == "Alice" {
            r_alice.clone()
        } else if name == "Bob" {
            r_bob.clone()
        } else {
            r_carol.clone()
        }
    };
    let step1 = recipient("Alice");
    let step2 = recipient(&step1);
    let step3 = recipient(&step2);
    assert_ne!(step1, "Alice");
    assert_ne!(step2, "Alice");
    assert_eq!(step3, "Alice");

    assert_eq!(game.status, GameStatus::Finished);
}

#[test]
fn one_player_cannot_start() {
    let mut game = game_with(&["Alice"]);
    let result = game.start_game();
    assert_eq!(result, Err("Not enough players".to_string()));
    assert_eq!(game.status, GameStatus::NotStarted);
    assert_eq!(game.players.len(), 1);
}

#[test]
fn zero_players_cannot_start() {
    let mut game = SecretSantaGame::new();
    let result = game.start_game();
    assert_eq!(result, Err("Not enough players".to_string()));
    assert_eq!(game.status, GameStatus::NotStarted);
}

#[test]
fn two_players_gift_each_other() {
    let mut game = game_with(&["Alice", "Bob"]);
    game.start_game().unwrap();
    assert_eq!(game.status, GameStatus::InProgress);

    let r_alice = game.player_pick("Alice").unwrap();
    assert_eq!(r_alice, "Bob");
    let r_bob = game.player_pick("Bob").unwrap();
    assert_eq!(r_bob, "Alice");

    assert_eq!(game.status, GameStatus::Finished);
}

#[test]
fn pick_twice_fails_and_recipient_is_constant() {
    let mut game = game_with(&["Alice", "Bob", "Carol"]);
    game.start_game().unwrap();

    let first = game.player_pick("Alice").unwrap();
    let again = game.player_pick("Alice");
    assert_eq!(again, Err("Player has already picked".to_string()));

    // the assignment itself never changes across the game
    assert_eq!(recipient_in(&game, "Alice"), first);
    let _ = game.player_pick("Bob").unwrap();
    assert_eq!(recipient_in(&game, "Alice"), first);
}

#[test]
fn pick_unknown_player_fails() {
    let mut game = game_with(&["Alice", "Bob"]);
    game.start_game().unwrap();
    let result = game.player_pick("Mallory");
    assert_eq!(result, Err("Player not found".to_string()));
}

#[test]
fn restart_clears_any_state() {
    // from NotStarted
    let mut game = game_with(&["Alice"]);
    game.restart_game();
    assert_eq!(game.status, GameStatus::NotStarted);
    assert_eq!(game.players.len(), 0);

    // from InProgress
    let mut game = game_with(&["Alice", "Bob"]);
    game.start_game().unwrap();
    game.restart_game();
    assert_eq!(game.status, GameStatus::NotStarted);
    assert_eq!(game.players.len(), 0);

    // from Finished
    let mut game = game_with(&["Alice", "Bob"]);
    game.start_game().unwrap();
    game.player_pick("Alice").unwrap();
    game.player_pick("Bob").unwrap();
    assert_eq!(game.status, GameStatus::Finished);
    game.restart_game();
    assert_eq!(game.status, GameStatus::NotStarted);
    assert_eq!(game.players.len(), 0);
}

#[test]
fn remove_player_not_found() {
    let mut game = game_with(&["Alice"]);
    let result = game.remove_player("Bob");
    assert_eq!(result, Err("Player not found".to_string()));
    assert_eq!(game.players.len(), 1);
}

#[test]
fn remove_player_after_start_fails() {
    let mut game = game_with(&["Alice", "Bob"]);
    game.start_game().unwrap();
    let result = game.remove_player("Alice");
    assert_eq!(result, Err("Game already started or finished".to_string()));
    assert_eq!(game.players.len(), 2);
}

#[test]
fn remove_player_keeps_order() {
    let mut game = game_with(&["Alice", "Bob", "Carol"]);
    game.remove_player("Bob").unwrap();
    assert_eq!(game.players[0].name, "Alice");
    assert_eq!(game.players[1].name, "Carol");
}

#[test]
fn start_keeps_the_same_names() {
    let mut game = game_with(&["Alice", "Bob", "Carol", "Dave"]);
    game.start_game().unwrap();
    let mut names: Vec<String> = game.players.iter().map(|p| p.name.clone()).collect();
    names.sort();
    assert_eq!(names, vec!["Alice", "Bob", "Carol", "Dave"]);
}
