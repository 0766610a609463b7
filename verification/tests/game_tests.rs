use secret_santa::GameStatus;
use secret_santa::Player;
use secret_santa::SecretSantaGame;

#[test]
fn add_player_in_game() {
    let player = Player::new("Player 1");
    let mut game = SecretSantaGame {
        status: GameStatus::NotStarted,
        players: vec![],
    };
    assert_eq!(game.players.len(), 0);

    let _ = game.add_player(player);
    assert_eq!(game.players.len(), 1);
    assert_eq!(game.players[0].name, "Player 1");
    assert_eq!(game.players, vec![Player::new("Player 1")],);
}

#[test]
fn start_game() {
    let mut game = SecretSantaGame::new();
    for i in 0..10 {
        let player = Player::new(&format!("Player {}", i));
        let _ = game.add_player(player);
    }
    assert_eq!(game.status, GameStatus::NotStarted);
    let head = game.players[0].clone();
    assert_eq!(head.picked, None);

    let _ = game.start_game();

    assert_eq!(game.status, GameStatus::InProgress);
    let head_picked_name = game.players[0].clone().picked.unwrap();
    assert!(head_picked_name.contains("Player"));
}

#[test]
fn restart_game() {
    let mut game = SecretSantaGame::new();
    for i in 0..10 {
        let player = Player::new(&format!("Player {}", i));
        let _ = game.add_player(player);
    }
    assert_eq!(game.status, GameStatus::NotStarted);
    let head = game.players[0].clone();
    assert_eq!(head.picked, None);

    let _ = game.start_game();

    assert_eq!(game.status, GameStatus::InProgress);

    game.restart_game();
    assert_eq!(game.status, GameStatus::NotStarted);
    assert_eq!(game.players.len(), 0);
}

#[test]
fn pick_player() {
    let mut game = SecretSantaGame::new();
    for i in 0..10 {
        let player = Player::new(&format!("Player {}", i));
        let _ = game.add_player(player);
    }
    let _ = game.start_game();

    // start picking

    for i in 0..game.players.len() {
        let player_name = format!("Player {}", i);
        let picked_name = game.player_pick(&player_name).unwrap();
        assert!(picked_name.contains("Player"));
    }

    assert_eq!(game.status, GameStatus::Finished);
}

#[test]
fn start_game_with_less_than_two_players() {
    let mut game = SecretSantaGame::new();
    let player = Player::new("Player 1");
    let _ = game.add_player(player);

    let result = game.start_game();
    assert_eq!(result, Err("Not enough players".into()));
}

#[test]
fn start_game_twice() {
    let mut game = SecretSantaGame::new();
    for i in 0..10 {
        let player = Player::new(&format!("Player {}", i));
        let _ = game.add_player(player);
    }
    let _ = game.start_game();

    let result = game.start_game();
    assert_eq!(result, Err("Game already started".into()));
}

#[test]
fn start_game_that_already_finished() {
    let mut game = SecretSantaGame::new();

    for i in 0..10 {
        let player = Player::new(&format!("Player {}", i));
        let _ = game.add_player(player);
    }
    let _ = game.start_game();

    // start picking

    for i in 0..game.players.len() {
        let player_name = format!("Player {}", i);
        let _ = game.player_pick(&player_name).unwrap();
    }

    assert_eq!(game.status, GameStatus::Finished);

    let result = game.start_game();
    assert_eq!(result, Err("Game already finished".into()));
}

#[test]
fn pick_player_that_not_started() {
    let mut game = SecretSantaGame::new();
    for i in 0..10 {
        let player = Player::new(&format!("Player {}", i));
        let _ = game.add_player(player);
    }

    let player_name = "Player 1";
    let result = game.player_pick(&player_name);
    assert_eq!(result, Err("Game not started".into()));
}

#[test]
fn pick_player_that_already_finished() {
    let mut game = SecretSantaGame::new();
    for i in 0..10 {
        let player = Player::new(&format!("Player {}", i));
        let _ = game.add_player(player);
    }
    let _ = game.start_game();

    // start picking

    for i in 0..game.players.len() {
        let player_name = format!("Player {}", i);
        let _ = game.player_pick(&player_name).unwrap();
    }

    assert_eq!(game.status, GameStatus::Finished);

    let player_name = "Player 1";
    let result = game.player_pick(&player_name);
    assert_eq!(result, Err("Game finished".into()));
}

#[test]
fn add_player_in_a_finished_game() {
    let mut game = SecretSantaGame::new();
    for i in 0..10 {
        let player = Player::new(&format!("Player {}", i));
        let _ = game.add_player(player);
    }
    let _ = game.start_game();

    // start picking

    for i in 0..game.players.len() {
        let player_name = format!("Player {}", i);
        let _ = game.player_pick(&player_name).unwrap();
    }

    assert_eq!(game.status, GameStatus::Finished);

    let player = Player::new("Player 19");
    let result = game.add_player(player);
    assert_eq!(result, Err("Game already started or finished".into()));
}

#[test]
fn add_player_with_same_name_twice() {
    let mut game = SecretSantaGame::new();
    let player = Player::new("Player 1");
    game.add_player(player.clone()).unwrap();
    let second_add = game.add_player(player);
    assert_eq!(second_add, Err("Player Player 1 already exists".into()));
}

#[test]
fn add_player_with_empty_name() {
    let mut game = SecretSantaGame::new();
    let player = Player::new("");
    let result = game.add_player(player);
    assert_eq!(result, Err("Player name cannot be empty".into()));
}

#[test]
fn remove_player_in_game() {
    let mut game = SecretSantaGame::new();
    let player = Player::new("Player 1");
    game.add_player(player.clone()).unwrap();
    assert_eq!(game.players.len(), 1);

    let _ = game.remove_player(&player.name);
    assert_eq!(game.players.len(), 0);
}
