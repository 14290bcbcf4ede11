use koto::game::{Action, Effects, Game, GameState, Pos, ID};

const TEST_ID: ID = "me";

#[test]
fn test() {
    let mut game = Game::new();
    game.player_action(TEST_ID, Action::Randomize(Pos(0, 0)));
    game.player_action(
        TEST_ID,
        Action::Exchange {
            pos: Pos(1, 1),
            next: 's',
        },
    );
    game.player_action(
        TEST_ID,
        Action::Swap {
            p1: Pos(0, 0),
            p2: Pos(0, 0),
        },
    );

    game.submit_word(&[
        Pos(0, 0),
        Pos(1, 0),
        Pos(2, 0),
        Pos(3, 0),
        Pos(3, 1),
        Pos(3, 2),
        Pos(2, 3),
    ])
    .unwrap();
}

#[test]
fn new_state_is_blank() {
    let state = GameState::new(3, 2);
    assert_eq!(state.get_dim(), (3, 2));
    assert_eq!(state.team_health(), 0);
    assert_eq!(state.enemy_health(), 0);
    for x in 0..3 {
        for y in 0..2 {
            assert_eq!(state.letter_at(x, y), Some('a'));
        }
    }
    assert_eq!(state.letter_at(3, 0), None);
    assert_eq!(state.letter_at(0, 2), None);
}

#[test]
fn state_without_columns_has_no_rows() {
    let state = GameState::new(0, 4);
    assert_eq!(state.get_dim(), (0, 0));
    assert_eq!(state.letter_at(0, 0), None);
}

#[test]
fn state_without_rows_has_no_tiles() {
    let mut state = GameState::new(4, 0);
    assert_eq!(state.get_dim(), (4, 0));
    assert!(state.board_at(0, 0).is_none());
}

#[test]
fn default_state_is_six_by_six() {
    let state = GameState::default();
    assert_eq!(state.get_dim(), (6, 6));
    assert_eq!(state.letter_at(5, 5), Some('a'));
    assert_eq!(state.letter_at(6, 5), None);
}

#[test]
fn board_at_hands_out_the_tile() {
    let mut state = GameState::new(2, 2);
    {
        let tile = state.board_at(1, 0).unwrap();
        assert_eq!(*tile, 'a');
        *tile = 'q';
    }
    assert_eq!(state.letter_at(1, 0), Some('q'));
    assert_eq!(state.letter_at(0, 0), Some('a'));
    assert_eq!(state.letter_at(0, 1), Some('a'));
    assert_eq!(state.letter_at(1, 1), Some('a'));
    assert!(state.board_at(2, 0).is_none());
    assert!(state.board_at(0, 2).is_none());
    assert_eq!(state.get_dim(), (2, 2));
}

#[test]
fn new_game_starts_blank() {
    let game = Game::new();
    assert_eq!(game.state().get_dim(), (6, 6));
    assert_eq!(game.state().team_health(), 0);
    assert_eq!(game.state().enemy_health(), 0);
    assert_eq!(game.state().letter_at(0, 0), Some('a'));
    let other = Game::default();
    assert_eq!(other.state().get_dim(), (6, 6));
}

#[test]
fn exchange_sets_the_letter() {
    let mut game = Game::new();
    let done = game.player_action(
        TEST_ID,
        Action::Exchange {
            pos: Pos(1, 1),
            next: 's',
        },
    );
    assert_eq!(done, Some(()));
    assert_eq!(game.state().letter_at(1, 1), Some('s'));
    assert_eq!(game.state().letter_at(1, 0), Some('a'));
}

#[test]
fn exchange_off_the_board_is_passed_over() {
    let mut game = Game::new();
    let done = game.player_action(
        TEST_ID,
        Action::Exchange {
            pos: Pos(6, 0),
            next: 's',
        },
    );
    assert_eq!(done, Some(()));
    for x in 0..6 {
        for y in 0..6 {
            assert_eq!(game.state().letter_at(x, y), Some('a'));
        }
    }
}

#[test]
fn swap_lets_two_tiles_change_places() {
    let mut game = Game::new();
    game.apply_action(
        Action::Exchange {
            pos: Pos(0, 0),
            next: 'x',
        },
        'a',
    );
    game.apply_action(
        Action::Exchange {
            pos: Pos(2, 3),
            next: 'y',
        },
        'a',
    );
    let done = game.player_action(
        TEST_ID,
        Action::Swap {
            p1: Pos(0, 0),
            p2: Pos(2, 3),
        },
    );
    assert_eq!(done, Some(()));
    assert_eq!(game.state().letter_at(0, 0), Some('y'));
    assert_eq!(game.state().letter_at(2, 3), Some('x'));
}

#[test]
fn swap_of_a_tile_with_itself_changes_nothing() {
    let mut game = Game::new();
    game.apply_action(
        Action::Exchange {
            pos: Pos(0, 0),
            next: 'x',
        },
        'a',
    );
    let done = game.apply_action(
        Action::Swap {
            p1: Pos(0, 0),
            p2: Pos(0, 0),
        },
        'a',
    );
    assert_eq!(done, Some(()));
    assert_eq!(game.state().letter_at(0, 0), Some('x'));
}

#[test]
fn swap_off_the_board_is_refused() {
    let mut game = Game::new();
    game.apply_action(
        Action::Exchange {
            pos: Pos(0, 0),
            next: 'x',
        },
        'a',
    );
    let first = game.player_action(
        TEST_ID,
        Action::Swap {
            p1: Pos(0, 0),
            p2: Pos(0, 6),
        },
    );
    assert_eq!(first, None);
    let second = game.player_action(
        TEST_ID,
        Action::Swap {
            p1: Pos(6, 0),
            p2: Pos(0, 0),
        },
    );
    assert_eq!(second, None);
    assert_eq!(game.state().letter_at(0, 0), Some('x'));
}

#[test]
fn randomize_draws_a_small_letter() {
    for _ in 0..200 {
        let mut game = Game::new();
        game.apply_action(
            Action::Exchange {
                pos: Pos(2, 2),
                next: '#',
            },
            'a',
        );
        let done = game.player_action(TEST_ID, Action::Randomize(Pos(2, 2)));
        assert_eq!(done, Some(()));
        let letter = game.state().letter_at(2, 2).unwrap();
        assert!(('a'..='z').contains(&letter));
        assert_eq!(game.state().letter_at(2, 1), Some('a'));
    }
}

#[test]
fn randomize_off_the_board_is_passed_over() {
    let mut game = Game::new();
    assert_eq!(
        game.player_action(TEST_ID, Action::Randomize(Pos(0, 9))),
        Some(())
    );
    assert_eq!(game.state().letter_at(0, 0), Some('a'));
}

#[test]
fn randomize_with_a_given_letter() {
    let mut game = Game::new();
    assert_eq!(
        game.apply_action(Action::Randomize(Pos(4, 5)), 'c'),
        Some(())
    );
    assert_eq!(game.state().letter_at(4, 5), Some('c'));
    assert_eq!(
        game.apply_action(Action::Randomize(Pos(4, 6)), 'd'),
        Some(())
    );
    assert_eq!(game.state().letter_at(4, 5), Some('c'));
}

#[test]
fn assemble_word_reads_the_tiles_in_order() {
    let mut game = Game::new();
    game.apply_action(
        Action::Exchange {
            pos: Pos(0, 0),
            next: 'k',
        },
        'a',
    );
    game.apply_action(
        Action::Exchange {
            pos: Pos(1, 0),
            next: 'o',
        },
        'a',
    );
    game.apply_action(
        Action::Exchange {
            pos: Pos(1, 1),
            next: 't',
        },
        'a',
    );
    let word = game.assemble_word(&[Pos(0, 0), Pos(1, 0), Pos(1, 1), Pos(1, 0)]);
    assert_eq!(word, "koto");
    let with_gaps = game.assemble_word(&[Pos(9, 9), Pos(1, 1), Pos(0, 6), Pos(1, 0)]);
    assert_eq!(with_gaps, "to");
    assert_eq!(game.assemble_word(&[]), "");
}

#[test]
fn check_word_wants_a_letter() {
    let game = Game::new();
    assert_eq!(game.check_word("a"), Ok(()));
    assert_eq!(game.check_word("koto"), Ok(()));
    assert_eq!(game.check_word(""), Err(()));
}

#[test]
fn word_effects_are_damage_then_heal() {
    let game = Game::new();
    assert_eq!(
        game.extract_word_effects("koto"),
        vec![Effects::Damage(2), Effects::Heal(4)]
    );
}

#[test]
fn submit_word_heals_the_team() {
    let mut game = Game::new();
    assert_eq!(game.submit_word(&[Pos(0, 0), Pos(0, 1)]), Ok(()));
    assert_eq!(game.state().team_health(), 4);
    assert_eq!(game.state().enemy_health(), 0);
    assert_eq!(game.submit_word(&[Pos(5, 5)]), Ok(()));
    assert_eq!(game.state().team_health(), 8);
    assert_eq!(game.state().enemy_health(), 0);
    assert_eq!(game.state().letter_at(0, 0), Some('a'));
}

#[test]
fn submit_word_without_tiles_is_refused() {
    let mut game = Game::new();
    assert_eq!(game.submit_word(&[]), Err(()));
    assert_eq!(game.submit_word(&[Pos(6, 6), Pos(0, 7)]), Err(()));
    assert_eq!(game.state().team_health(), 0);
    assert_eq!(game.state().enemy_health(), 0);
}
