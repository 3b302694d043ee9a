use tic_tac_toe::contract::{MIN_DEPOSIT, ONE_NEAR};
use tic_tac_toe::escrow::Transfer;
use tic_tac_toe::game::MOVE_DEADLINE;
use tic_tac_toe::{Contract, Error, Game, GameState, InputFault};

fn alice() -> String {
    "alice.near".to_string()
}

fn bob() -> String {
    "bob.near".to_string()
}

fn carol() -> String {
    "carol.near".to_string()
}

fn ids(listing: &[(u64, Game)]) -> Vec<u64> {
    listing.iter().map(|pair| pair.0).collect()
}

/// A registry with an open match 0, an active match 1 and an ended match 2.
fn three_matches() -> Contract {
    let mut contract = Contract::new();
    assert_eq!(contract.new_game(alice(), ONE_NEAR), Ok(0));
    assert_eq!(contract.new_game(alice(), 2 * ONE_NEAR), Ok(1));
    assert_eq!(contract.new_game(bob(), 3 * ONE_NEAR), Ok(2));
    assert_eq!(contract.join_game(1, bob(), 2 * ONE_NEAR), Ok(vec![]));
    assert_eq!(contract.join_game(2, carol(), 3 * ONE_NEAR), Ok(vec![]));
    assert_eq!(contract.make_move(2, &bob(), 4, 10), Ok(vec![]));
    assert!(contract.get_prize(2, &bob(), 11 + MOVE_DEADLINE).is_ok());
    contract
}

#[test]
fn the_floor_is_one_token() {
    assert_eq!(ONE_NEAR, 1_000_000_000_000_000_000_000_000);
    assert_eq!(MIN_DEPOSIT, ONE_NEAR);
}

#[test]
fn a_new_registry_is_empty() {
    let contract = Contract::new();
    assert_eq!(contract.next_game_id(), 0);
    assert_eq!(contract.available_games(), vec![]);
    assert_eq!(contract.get_game_state(0), Err(Error::NotFound { game_id: 0 }));
}

#[test]
fn identifiers_count_up_from_zero() {
    let mut contract = Contract::new();
    assert_eq!(contract.new_game(alice(), ONE_NEAR), Ok(0));
    assert_eq!(contract.new_game(bob(), ONE_NEAR), Ok(1));
    assert_eq!(contract.new_game(alice(), ONE_NEAR), Ok(2));
    assert_eq!(contract.next_game_id(), 3);
}

#[test]
fn a_new_match_is_stored_as_opened() {
    let mut contract = Contract::new();
    assert_eq!(contract.new_game(alice(), 7 * ONE_NEAR), Ok(0));
    assert_eq!(contract.get_game_state(0), Ok(Game::new(alice(), 7 * ONE_NEAR)));
}

#[test]
fn a_deposit_under_the_floor_is_refused() {
    let mut contract = Contract::new();
    let refused = Err(Error::InvalidInput {
        fault: InputFault::DepositBelowMinimum { minimum: ONE_NEAR },
    });
    assert_eq!(contract.new_game(alice(), ONE_NEAR - 1), refused);
    assert_eq!(contract.new_game(alice(), 0), refused);
    assert_eq!(contract.next_game_id(), 0);
    assert_eq!(contract.available_games(), vec![]);
    assert_eq!(contract.new_game(alice(), ONE_NEAR), Ok(0));
}

#[test]
fn identifiers_are_not_reused_after_a_withdrawal() {
    let mut contract = Contract::new();
    assert_eq!(contract.new_game(alice(), ONE_NEAR), Ok(0));
    assert!(contract.cancel_game(0, &alice()).is_ok());
    assert_eq!(contract.new_game(alice(), ONE_NEAR), Ok(1));
    assert_eq!(contract.get_game_state(0), Err(Error::NotFound { game_id: 0 }));
}

#[test]
fn the_last_identifier_is_never_handed_out() {
    let mut contract = Contract::restore(vec![], u64::MAX - 1).unwrap();
    assert_eq!(contract.new_game(alice(), ONE_NEAR), Ok(u64::MAX - 1));
    assert_eq!(contract.next_game_id(), u64::MAX);
    assert_eq!(contract.new_game(alice(), ONE_NEAR), Err(Error::ArithmeticOverflow));
    assert_eq!(contract.next_game_id(), u64::MAX);
    assert_eq!(ids(&contract.available_games()), vec![u64::MAX - 1]);
}

#[test]
fn the_floor_is_checked_before_the_identifiers() {
    let mut contract = Contract::restore(vec![], u64::MAX).unwrap();
    assert_eq!(
        contract.new_game(alice(), 1),
        Err(Error::InvalidInput { fault: InputFault::DepositBelowMinimum { minimum: ONE_NEAR } })
    );
}

#[test]
fn operations_on_an_unknown_match_find_nothing() {
    let mut contract = three_matches();
    let gone = Err(Error::NotFound { game_id: 9 });
    assert_eq!(contract.join_game(9, bob(), ONE_NEAR), gone);
    assert_eq!(contract.make_move(9, &alice(), 0, 1), gone);
    assert_eq!(contract.get_prize(9, &alice(), 1), gone);
    assert_eq!(contract.cancel_game(9, &alice()), gone);
    assert_eq!(contract.get_game_state(9), Err(Error::NotFound { game_id: 9 }));
}

#[test]
fn join_game_stores_the_joined_match() {
    let mut contract = Contract::new();
    assert_eq!(contract.new_game(alice(), ONE_NEAR), Ok(0));
    assert_eq!(
        contract.join_game(0, bob(), ONE_NEAR + 5),
        Ok(vec![Transfer { to: bob(), amount: 5 }])
    );
    let game = contract.get_game_state(0).unwrap();
    assert_eq!(game.game_state, GameState::GameInitialized);
    assert_eq!(game.player2, Some(bob()));
    assert_eq!(game.deposit, ONE_NEAR);
}

#[test]
fn a_second_join_is_refused() {
    let mut contract = Contract::new();
    assert_eq!(contract.new_game(alice(), ONE_NEAR), Ok(0));
    assert_eq!(contract.join_game(0, bob(), ONE_NEAR), Ok(vec![]));
    let before = contract.get_game_state(0);
    assert_eq!(contract.join_game(0, carol(), ONE_NEAR), Err(Error::InvalidPhase));
    assert_eq!(contract.join_game(0, bob(), ONE_NEAR), Err(Error::InvalidPhase));
    assert_eq!(contract.get_game_state(0), before);
}

#[test]
fn a_join_with_too_little_leaves_the_match_open() {
    let mut contract = Contract::new();
    assert_eq!(contract.new_game(alice(), 2 * ONE_NEAR), Ok(0));
    assert_eq!(
        contract.join_game(0, bob(), ONE_NEAR),
        Err(Error::InvalidInput { fault: InputFault::DepositBelowStake { stake: 2 * ONE_NEAR } })
    );
    assert_eq!(contract.get_game_state(0), Ok(Game::new(alice(), 2 * ONE_NEAR)));
    assert_eq!(contract.join_game(0, bob(), 2 * ONE_NEAR), Ok(vec![]));
}

#[test]
fn make_move_stores_the_moved_match() {
    let mut contract = Contract::new();
    assert_eq!(contract.new_game(alice(), ONE_NEAR), Ok(0));
    assert_eq!(contract.join_game(0, bob(), ONE_NEAR), Ok(vec![]));
    assert_eq!(contract.make_move(0, &alice(), 4, 123), Ok(vec![]));
    let game = contract.get_game_state(0).unwrap();
    assert_eq!(game.round, 1);
    assert_eq!(game.field[4], 0);
    assert_eq!(game.last_move_time, Some(123));
    assert!(game.whose_move);
}

#[test]
fn a_refused_move_changes_nothing() {
    let mut contract = Contract::new();
    assert_eq!(contract.new_game(alice(), ONE_NEAR), Ok(0));
    assert_eq!(contract.join_game(0, bob(), ONE_NEAR), Ok(vec![]));
    assert_eq!(contract.make_move(0, &alice(), 4, 123), Ok(vec![]));
    let before = contract.get_game_state(0);
    assert_eq!(contract.make_move(0, &alice(), 5, 124), Err(Error::Unauthorized));
    assert_eq!(
        contract.make_move(0, &bob(), 4, 124),
        Err(Error::InvalidInput { fault: InputFault::CellOccupied { cell: 4 } })
    );
    assert_eq!(
        contract.make_move(0, &bob(), 9, 124),
        Err(Error::InvalidInput { fault: InputFault::CellOutOfRange { cell: 9 } })
    );
    assert_eq!(contract.get_game_state(0), before);
}

#[test]
fn a_move_on_an_open_match_is_refused_by_the_registry() {
    let mut contract = Contract::new();
    assert_eq!(contract.new_game(alice(), ONE_NEAR), Ok(0));
    assert_eq!(contract.make_move(0, &alice(), 0, 1), Err(Error::InvalidPhase));
}

#[test]
fn an_operation_leaves_the_other_matches_alone() {
    let mut contract = three_matches();
    let open = contract.get_game_state(0);
    let ended = contract.get_game_state(2);
    assert_eq!(contract.make_move(1, &alice(), 0, 5), Ok(vec![]));
    assert_eq!(contract.make_move(1, &bob(), 1, 6), Ok(vec![]));
    assert_eq!(contract.get_game_state(0), open);
    assert_eq!(contract.get_game_state(2), ended);
    assert_eq!(contract.next_game_id(), 3);
}

#[test]
fn a_won_match_stays_until_it_is_swept() {
    let mut contract = Contract::new();
    assert_eq!(contract.new_game(alice(), ONE_NEAR), Ok(0));
    assert_eq!(contract.join_game(0, bob(), ONE_NEAR), Ok(vec![]));
    for (k, cell) in [0usize, 3, 1, 4].iter().enumerate() {
        let mover = if k % 2 == 0 { alice() } else { bob() };
        assert_eq!(contract.make_move(0, &mover, *cell, k as u64), Ok(vec![]));
    }
    assert_eq!(
        contract.make_move(0, &alice(), 2, 9),
        Ok(vec![Transfer { to: alice(), amount: 1_900_000_000_000_000_000_000_000 }])
    );
    let game = contract.get_game_state(0).unwrap();
    assert_eq!(game.game_state, GameState::GameEnded);
    assert_eq!(game.winner, Some(alice()));
    contract.state_cleaner();
    assert_eq!(contract.get_game_state(0), Err(Error::NotFound { game_id: 0 }));
}

#[test]
fn a_drawn_match_refunds_both() {
    let mut contract = Contract::new();
    assert_eq!(contract.new_game(alice(), ONE_NEAR), Ok(0));
    assert_eq!(contract.join_game(0, bob(), ONE_NEAR), Ok(vec![]));
    for (k, cell) in [0usize, 1, 2, 4, 3, 5, 7, 6].iter().enumerate() {
        let mover = if k % 2 == 0 { alice() } else { bob() };
        assert_eq!(contract.make_move(0, &mover, *cell, k as u64), Ok(vec![]));
    }
    let refund = 950_000_000_000_000_000_000_000;
    assert_eq!(
        contract.make_move(0, &alice(), 8, 9),
        Ok(vec![Transfer { to: alice(), amount: refund }, Transfer { to: bob(), amount: refund }])
    );
    let game = contract.get_game_state(0).unwrap();
    assert_eq!(game.game_state, GameState::GameEnded);
    assert_eq!(game.winner, None);
    assert_eq!(game.round, 9);
}

#[test]
fn get_prize_ends_the_match_for_the_waiting_participant() {
    let mut contract = Contract::new();
    assert_eq!(contract.new_game(alice(), ONE_NEAR), Ok(0));
    assert_eq!(contract.join_game(0, bob(), ONE_NEAR), Ok(vec![]));
    assert_eq!(contract.make_move(0, &alice(), 4, 1_000), Ok(vec![]));
    assert_eq!(
        contract.get_prize(0, &alice(), 1_000 + MOVE_DEADLINE + 1),
        Ok(vec![Transfer { to: alice(), amount: 1_900_000_000_000_000_000_000_000 }])
    );
    let game = contract.get_game_state(0).unwrap();
    assert_eq!(game.game_state, GameState::GameEnded);
    assert_eq!(game.winner, Some(alice()));
}

#[test]
fn a_refused_claim_changes_nothing() {
    let mut contract = Contract::new();
    assert_eq!(contract.new_game(alice(), ONE_NEAR), Ok(0));
    assert_eq!(contract.get_prize(0, &alice(), 5), Err(Error::InvalidPhase));
    assert_eq!(contract.join_game(0, bob(), ONE_NEAR), Ok(vec![]));
    assert_eq!(contract.get_prize(0, &bob(), 5), Err(Error::InvalidPhase));
    assert_eq!(contract.make_move(0, &alice(), 4, 1_000), Ok(vec![]));
    let before = contract.get_game_state(0);
    assert_eq!(contract.get_prize(0, &bob(), u64::MAX), Err(Error::Unauthorized));
    assert_eq!(
        contract.get_prize(0, &alice(), 1_030),
        Err(Error::DeadlineNotElapsed { elapsed: 30 })
    );
    assert_eq!(contract.get_prize(0, &alice(), 999), Err(Error::ArithmeticOverflow));
    assert_eq!(contract.get_game_state(0), before);
}

#[test]
fn the_joiner_withdraws_and_the_match_opens_again() {
    let mut contract = Contract::new();
    assert_eq!(contract.new_game(alice(), ONE_NEAR), Ok(0));
    assert_eq!(contract.join_game(0, bob(), ONE_NEAR), Ok(vec![]));
    assert_eq!(contract.available_games(), vec![]);
    assert_eq!(contract.cancel_game(0, &bob()), Ok(vec![Transfer { to: bob(), amount: ONE_NEAR }]));
    assert_eq!(contract.get_game_state(0), Ok(Game::new(alice(), ONE_NEAR)));
    assert_eq!(ids(&contract.available_games()), vec![0]);
    assert_eq!(contract.join_game(0, carol(), ONE_NEAR), Ok(vec![]));
}

#[test]
fn a_refused_withdrawal_changes_nothing() {
    let mut contract = three_matches();
    assert_eq!(contract.cancel_game(0, &bob()), Err(Error::Unauthorized));
    assert_eq!(contract.cancel_game(1, &alice()), Err(Error::Unauthorized));
    assert_eq!(contract.cancel_game(2, &bob()), Err(Error::InvalidPhase));
    assert_eq!(contract.make_move(1, &alice(), 0, 5), Ok(vec![]));
    assert_eq!(contract.cancel_game(1, &bob()), Err(Error::InvalidPhase));
    assert_eq!(ids(&contract.available_games()), vec![0]);
    assert!(contract.get_game_state(1).is_ok());
    assert!(contract.get_game_state(2).is_ok());
}

#[test]
fn available_games_lists_the_open_matches_by_identifier() {
    let mut contract = Contract::new();
    for _ in 0..5 {
        assert!(contract.new_game(alice(), ONE_NEAR).is_ok());
    }
    assert_eq!(contract.join_game(1, bob(), ONE_NEAR), Ok(vec![]));
    assert!(contract.cancel_game(3, &alice()).is_ok());
    let listing = contract.available_games();
    assert_eq!(ids(&listing), vec![0, 2, 4]);
    for (game_id, game) in &listing {
        assert_eq!(game.game_state, GameState::GameCreated);
        assert_eq!(contract.get_game_state(*game_id).as_ref(), Ok(game));
    }
    assert_eq!(contract.available_games(), listing);
}

#[test]
fn state_cleaner_removes_the_ended_matches_only() {
    let mut contract = three_matches();
    let open = contract.get_game_state(0);
    let active = contract.get_game_state(1);
    contract.state_cleaner();
    assert_eq!(contract.get_game_state(0), open);
    assert_eq!(contract.get_game_state(1), active);
    assert_eq!(contract.get_game_state(2), Err(Error::NotFound { game_id: 2 }));
    assert_eq!(contract.next_game_id(), 3);
    contract.state_cleaner();
    assert_eq!(contract.get_game_state(0), open);
    assert_eq!(contract.get_game_state(1), active);
}

#[test]
fn state_cleaner_on_an_empty_registry_does_nothing() {
    let mut contract = Contract::new();
    contract.state_cleaner();
    assert_eq!(contract.next_game_id(), 0);
    assert_eq!(contract.available_games(), vec![]);
}

#[test]
fn restore_gives_the_registry_that_was_stored() {
    let contract = three_matches();
    let stored: Vec<(u64, Game)> =
        (0..3).map(|game_id| (game_id, contract.get_game_state(game_id).unwrap())).collect();
    let mut restored = Contract::restore(stored.clone(), contract.next_game_id()).unwrap();
    assert_eq!(restored.next_game_id(), 3);
    for (game_id, game) in &stored {
        assert_eq!(restored.get_game_state(*game_id).as_ref(), Ok(game));
    }
    assert_eq!(restored.get_game_state(3), Err(Error::NotFound { game_id: 3 }));
    assert_eq!(ids(&restored.available_games()), vec![0]);
    assert_eq!(restored.new_game(carol(), ONE_NEAR), Ok(3));
}

#[test]
fn restore_of_one_match_works_on_that_match() {
    let game = Game::new(alice(), ONE_NEAR);
    let mut contract = Contract::restore(vec![(41, game)], 100).unwrap();
    assert_eq!(contract.join_game(41, bob(), ONE_NEAR), Ok(vec![]));
    assert_eq!(contract.join_game(40, bob(), ONE_NEAR), Err(Error::NotFound { game_id: 40 }));
    assert_eq!(contract.get_game_state(41).unwrap().player2, Some(bob()));
    assert_eq!(contract.next_game_id(), 100);
}

#[test]
fn restore_refuses_identifiers_that_do_not_rise() {
    let game = Game::new(alice(), ONE_NEAR);
    assert!(Contract::restore(vec![(1, game.clone()), (1, game.clone())], 5).is_none());
    assert!(Contract::restore(vec![(2, game.clone()), (1, game.clone())], 5).is_none());
    assert!(Contract::restore(vec![(1, game.clone()), (2, game.clone())], 5).is_some());
}

#[test]
fn restore_refuses_an_identifier_that_was_not_handed_out() {
    let game = Game::new(alice(), ONE_NEAR);
    assert!(Contract::restore(vec![(5, game.clone())], 5).is_none());
    assert!(Contract::restore(vec![(0, game.clone())], 0).is_none());
    assert!(Contract::restore(vec![(4, game.clone())], 5).is_some());
}

#[test]
fn restore_refuses_a_match_that_is_not_valid() {
    let mut game = Game::new(alice(), ONE_NEAR);
    game.round = 3;
    assert!(!game.is_valid());
    assert!(Contract::restore(vec![(0, game)], 5).is_none());
}

#[test]
fn restore_refuses_a_withdrawn_match() {
    let mut game = Game::new(alice(), ONE_NEAR);
    assert!(game.cancel(&alice()).is_ok());
    assert!(game.is_valid());
    assert!(Contract::restore(vec![(0, game)], 5).is_none());
}
