use game::Card::{Flower, Skull};
use game::Event::{
    BidStarted, ChallengeStarted, ChallengeWon, ChallengeWonGameWon, ChallengerChoseSkull, Input,
    PlayerOut,
};
use game::Response::{Bid, Flip, Pass, PlayCard};
use game::{Card, Event, Game, Hand, InputType, State};

use heapless::Vec as FVec;
use rand::{Rng, SeedableRng};

fn cards(cards: &[Card]) -> FVec<Card, 4> {
    FVec::from_slice(cards).unwrap()
}

fn flips(positions: &[usize]) -> FVec<usize, 4> {
    FVec::from_slice(positions).unwrap()
}

fn table_len<const N: usize>(game: &Game<N>) -> usize {
    game.cards_played().iter().map(|pile| pile.len()).sum()
}

fn one_flower_each() -> Game<3> {
    Game::try_create_from(
        [0; 3],
        [Hand::new(); 3],
        [cards(&[Flower]), cards(&[Flower]), cards(&[Flower])],
        State::Playing { current_player: 0 },
        None,
    )
    .unwrap()
}

#[test]
fn new_game_starts_with_full_hands() {
    let mut game: Game<5> = Game::new();
    assert!(game.is_valid());
    assert_eq!(game.player_count(), 5);
    assert_eq!(game.remaining_player_count(), 5);
    assert_eq!(game.scores(), &[0; 5]);
    assert_eq!(game.hands(), &[Hand::new(); 5]);
    assert!(game.cards_played().iter().all(|pile| pile.is_empty()));
    assert_eq!(game.state(), &State::Playing { current_player: 0 });
    assert_eq!(
        game.what_next(),
        Input { player: 0, input: InputType::PlayCard }
    );
}

#[test]
fn commit_to_bid_handoff() {
    let mut game = one_flower_each();
    assert_eq!(game.respond(Bid(2)), Ok(()));
    assert_eq!(
        game.state(),
        &State::Bidding {
            current_bidder: 1,
            highest_bid: 2,
            highest_bidder: 0,
            max_bid: 3,
            passed: [false, false, false],
        }
    );
    assert_eq!(game.what_next(), BidStarted);
    assert!(game.is_valid());
}

#[test]
fn forced_max_bid_starts_challenge_immediately() {
    let mut game = one_flower_each();
    assert_eq!(game.respond(Bid(3)), Ok(()));
    assert_eq!(
        game.state(),
        &State::Challenging {
            challenger: 0,
            target: 3,
            flipped: [FVec::new(), FVec::new(), FVec::new()],
        }
    );
    assert_eq!(game.what_next(), ChallengeStarted);
}

#[test]
fn challenge_loss_and_reset() {
    let mut game = Game::try_create_from(
        [0; 3],
        [Hand::new(); 3],
        [cards(&[Flower, Flower]), cards(&[Flower, Skull]), cards(&[Flower, Flower])],
        State::Challenging {
            challenger: 0,
            target: 4,
            flipped: [flips(&[0, 1]), flips(&[]), flips(&[])],
        },
        None,
    )
    .unwrap();
    assert_eq!(game.respond(Flip(1, 1)), Ok(()));
    assert!(game.is_valid());
    assert_eq!(game.hands()[0].count(), 3);
    assert_eq!(table_len(&game), 6);
    assert_eq!(
        game.what_next(),
        ChallengerChoseSkull { challenger: 0, skull_player: 1 }
    );
    assert_eq!(game.hands()[0].count(), 3);
    assert_eq!(game.hands()[1], Hand::new());
    assert_eq!(table_len(&game), 0);
    assert_eq!(game.state(), &State::Playing { current_player: 1 });
    assert_eq!(
        game.what_next(),
        Input { player: 1, input: InputType::PlayCard }
    );
    assert!(game.is_valid());
}

#[test]
fn second_win_ends_the_game() {
    let mut game = Game::try_create_from(
        [0, 1, 0],
        [Hand::new(); 3],
        [cards(&[Flower]), cards(&[Flower]), cards(&[Skull])],
        State::Challenging {
            challenger: 1,
            target: 2,
            flipped: [flips(&[]), flips(&[0]), flips(&[])],
        },
        None,
    )
    .unwrap();
    assert_eq!(game.respond(Flip(0, 0)), Ok(()));
    assert_eq!(game.scores(), &[0, 2, 0]);
    assert!(game.is_valid());
    assert_eq!(game.what_next(), ChallengeWonGameWon(1));
    assert_eq!(game.scores()[1], 2);
    assert!(!game.is_valid());
}

#[test]
fn forced_bid_after_the_last_card() {
    let mut game = Game::try_create_from(
        [0; 3],
        [Hand::new(), Hand::new(), Hand::try_from(&[Flower][..]).unwrap()],
        [cards(&[Flower]), cards(&[Flower]), cards(&[Flower])],
        State::Playing { current_player: 2 },
        None,
    )
    .unwrap();
    assert_eq!(
        game.what_next(),
        Input { player: 2, input: InputType::StartBid }
    );
    assert_eq!(game.respond(Bid(2)), Ok(()));
    assert_eq!(
        game.state(),
        &State::Bidding {
            current_bidder: 0,
            highest_bid: 2,
            highest_bidder: 2,
            max_bid: 3,
            passed: [false, false, false],
        }
    );
    assert_eq!(game.what_next(), BidStarted);
}

#[test]
fn own_skull_on_top_loses_at_once() {
    let mut game = Game::try_create_from(
        [0; 3],
        [Hand::new(); 3],
        [cards(&[Flower, Skull]), cards(&[Skull, Flower]), cards(&[Skull, Flower])],
        State::Challenging {
            challenger: 0,
            target: 1,
            flipped: [flips(&[]), flips(&[]), flips(&[])],
        },
        Some(ChallengeStarted),
    )
    .unwrap();
    assert_eq!(game.what_next(), ChallengeStarted);
    if let State::Challenging { flipped, .. } = game.state() {
        assert_eq!(flipped[0].as_slice(), &[1]);
        assert!(flipped[1].is_empty());
    } else {
        panic!("the challenge should still run");
    }
    assert!(game.is_valid());
    assert_eq!(
        game.what_next(),
        ChallengerChoseSkull { challenger: 0, skull_player: 0 }
    );
    assert_eq!(
        game.what_next(),
        Input { player: 0, input: InputType::PlayCard }
    );
    assert_eq!(game.hands()[0].count(), 3);
    assert!(game.is_valid());
}

#[test]
fn request_repeats_until_answered() {
    let mut game = one_flower_each();
    let first = game.what_next();
    let second = game.what_next();
    assert_eq!(
        first,
        Input { player: 0, input: InputType::PlayCardOrStartBid }
    );
    assert_eq!(first, second);
    assert_eq!(game.state(), &State::Playing { current_player: 0 });
    assert_eq!(table_len(&game), 3);
}

#[test]
fn table_grows_until_it_is_cleared() {
    let mut game: Game<3> = Game::new();
    let mut before = 0;
    for _ in 0..6 {
        game.respond(PlayCard(Flower)).unwrap();
        let now = table_len(&game);
        assert_eq!(now, before + 1);
        before = now;
        assert!(game.is_valid());
    }
    assert_eq!(game.respond(Bid(1)), Ok(()));
    assert_eq!(table_len(&game), 6);
    assert_eq!(game.what_next(), BidStarted);
    assert_eq!(game.respond(Pass), Ok(()));
    assert_eq!(game.respond(Pass), Ok(()));
    assert_eq!(table_len(&game), 6);
    assert_eq!(game.what_next(), ChallengeStarted);
    assert_eq!(table_len(&game), 6);
    assert_eq!(game.what_next(), ChallengeWon(0));
    assert_eq!(table_len(&game), 0);
    assert_eq!(game.scores(), &[1, 0, 0]);
    assert!(game.is_valid());
}

#[test]
fn played_cards_lie_bottom_to_top() {
    let mut game: Game<3> = Game::new();
    game.respond(PlayCard(Skull)).unwrap();
    game.respond(PlayCard(Flower)).unwrap();
    game.respond(PlayCard(Flower)).unwrap();
    game.respond(PlayCard(Flower)).unwrap();
    let piles = game.cards_played();
    assert_eq!(piles[0], &[Skull, Flower][..]);
    assert_eq!(piles[1], &[Flower][..]);
    assert_eq!(piles[2], &[Flower][..]);
    assert_eq!(game.state(), &State::Playing { current_player: 1 });
    assert_eq!(game.hands(), &[Hand::new(); 3]);
}

#[test]
fn a_card_is_played_once() {
    let mut game: Game<3> = Game::new();
    for _ in 0..3 {
        game.respond(PlayCard(Skull)).unwrap();
    }
    assert_eq!(
        game.respond(PlayCard(Skull)),
        Err(game::ResponseError::CardNotInHand)
    );
    for _ in 0..9 {
        game.respond(PlayCard(Flower)).unwrap();
    }
    assert_eq!(
        game.respond(PlayCard(Flower)),
        Err(game::ResponseError::CardNotInHand)
    );
    assert_eq!(
        game.what_next(),
        Input { player: 0, input: InputType::StartBid }
    );
    assert!(game.is_valid());
}

#[test]
fn turn_skips_players_who_are_out() {
    let mut game = Game::try_create_from(
        [0; 4],
        [Hand::new(), Hand::default(), Hand::default(), Hand::new()],
        [cards(&[]), cards(&[]), cards(&[]), cards(&[])],
        State::Playing { current_player: 0 },
        None,
    )
    .unwrap();
    assert_eq!(game.remaining_player_count(), 2);
    game.respond(PlayCard(Flower)).unwrap();
    assert_eq!(game.state(), &State::Playing { current_player: 3 });
    game.respond(PlayCard(Flower)).unwrap();
    assert_eq!(game.state(), &State::Playing { current_player: 0 });
    game.respond(Bid(1)).unwrap();
    assert_eq!(
        game.state(),
        &State::Bidding {
            current_bidder: 3,
            highest_bid: 1,
            highest_bidder: 0,
            max_bid: 2,
            passed: [false; 4],
        }
    );
    assert_eq!(game.what_next(), BidStarted);
    game.respond(Pass).unwrap();
    assert_eq!(
        game.state(),
        &State::Challenging {
            challenger: 0,
            target: 1,
            flipped: [FVec::new(), FVec::new(), FVec::new(), FVec::new()],
        }
    );
}

#[test]
fn bidding_skips_players_who_have_passed() {
    let mut game = Game::try_create_from(
        [0; 4],
        [Hand::new(); 4],
        [cards(&[Flower]), cards(&[Flower]), cards(&[Flower]), cards(&[Flower])],
        State::Playing { current_player: 0 },
        None,
    )
    .unwrap();
    game.respond(Bid(1)).unwrap();
    assert_eq!(game.what_next(), BidStarted);
    game.respond(Pass).unwrap();
    game.respond(Bid(2)).unwrap();
    game.respond(Pass).unwrap();
    assert_eq!(
        game.state(),
        &State::Bidding {
            current_bidder: 0,
            highest_bid: 2,
            highest_bidder: 2,
            max_bid: 4,
            passed: [false, true, false, true],
        }
    );
    game.respond(Bid(3)).unwrap();
    assert_eq!(
        game.state(),
        &State::Bidding {
            current_bidder: 2,
            highest_bid: 3,
            highest_bidder: 0,
            max_bid: 4,
            passed: [false, true, false, true],
        }
    );
    assert!(game.is_valid());
    game.respond(Pass).unwrap();
    assert_eq!(
        game.state(),
        &State::Challenging {
            challenger: 0,
            target: 3,
            flipped: [FVec::new(), FVec::new(), FVec::new(), FVec::new()],
        }
    );
    assert_eq!(game.what_next(), ChallengeStarted);
    assert_eq!(
        game.what_next(),
        Input { player: 0, input: InputType::FlipCard }
    );
}

#[test]
fn flips_are_counted_up_to_the_target() {
    let mut game = Game::try_create_from(
        [0; 3],
        [Hand::new(); 3],
        [cards(&[Flower]), cards(&[Flower, Flower]), cards(&[Flower])],
        State::Challenging {
            challenger: 0,
            target: 3,
            flipped: [flips(&[]), flips(&[]), flips(&[])],
        },
        Some(ChallengeStarted),
    )
    .unwrap();
    assert_eq!(game.what_next(), ChallengeStarted);
    game.respond(Flip(1, 1)).unwrap();
    assert_eq!(
        game.state(),
        &State::Challenging {
            challenger: 0,
            target: 3,
            flipped: [flips(&[0]), flips(&[1]), flips(&[])],
        }
    );
    assert_eq!(game.scores(), &[0, 0, 0]);
    assert_eq!(
        game.what_next(),
        Input { player: 0, input: InputType::FlipCard }
    );
    game.respond(Flip(1, 0)).unwrap();
    assert_eq!(
        game.state(),
        &State::Challenging {
            challenger: 0,
            target: 3,
            flipped: [flips(&[0]), flips(&[1, 0]), flips(&[])],
        }
    );
    assert_eq!(game.scores(), &[1, 0, 0]);
    assert_eq!(game.what_next(), ChallengeWon(0));
    assert_eq!(game.state(), &State::Playing { current_player: 0 });
}

#[test]
fn losing_the_last_card_puts_the_challenger_out() {
    let mut game = Game::try_create_from(
        [0; 3],
        [Hand::try_from([Skull]).unwrap(), Hand::new(), Hand::new()],
        [cards(&[Skull]), cards(&[Flower]), cards(&[Flower])],
        State::Challenging {
            challenger: 0,
            target: 1,
            flipped: [flips(&[]), flips(&[]), flips(&[])],
        },
        Some(ChallengeStarted),
    )
    .unwrap();
    assert_eq!(game.what_next(), ChallengeStarted);
    assert!(game.hands()[0].empty());
    assert!(game.is_valid());
    assert_eq!(
        game.what_next(),
        ChallengerChoseSkull { challenger: 0, skull_player: 0 }
    );
    assert_eq!(game.state(), &State::Playing { current_player: 1 });
    assert_eq!(game.remaining_player_count(), 2);
    assert!(game.is_valid());
    assert_eq!(game.what_next(), PlayerOut(0));
    assert_eq!(
        game.what_next(),
        Input { player: 1, input: InputType::PlayCard }
    );
    game.respond(PlayCard(Flower)).unwrap();
    game.respond(PlayCard(Flower)).unwrap();
    assert_eq!(game.state(), &State::Playing { current_player: 1 });
}

#[test]
fn a_challenger_put_out_by_another_skull_hands_play_to_its_owner() {
    let mut game = Game::try_create_from(
        [0; 3],
        [Hand::try_from([Flower]).unwrap(), Hand::new(), Hand::new()],
        [cards(&[Flower]), cards(&[Flower]), cards(&[Skull])],
        State::Challenging {
            challenger: 0,
            target: 2,
            flipped: [flips(&[0]), flips(&[]), flips(&[])],
        },
        None,
    )
    .unwrap();
    game.respond(Flip(2, 0)).unwrap();
    assert!(game.hands()[0].empty());
    assert_eq!(
        game.what_next(),
        ChallengerChoseSkull { challenger: 0, skull_player: 2 }
    );
    assert_eq!(game.state(), &State::Playing { current_player: 2 });
    assert_eq!(game.what_next(), PlayerOut(0));
    assert!(game.is_valid());
}

#[test]
fn with_one_player_left_the_match_is_over() {
    let mut game = Game::try_create_from(
        [0; 3],
        [Hand::try_from([Skull]).unwrap(), Hand::default(), Hand::new()],
        [cards(&[Skull]), cards(&[]), cards(&[Flower])],
        State::Challenging {
            challenger: 0,
            target: 1,
            flipped: [flips(&[]), flips(&[]), flips(&[])],
        },
        Some(ChallengeStarted),
    )
    .unwrap();
    assert_eq!(game.what_next(), ChallengeStarted);
    assert!(game.is_valid());
    assert_eq!(
        game.what_next(),
        ChallengerChoseSkull { challenger: 0, skull_player: 0 }
    );
    assert_eq!(game.state(), &State::Playing { current_player: 2 });
    assert_eq!(game.remaining_player_count(), 1);
    assert!(!game.is_valid());
}

#[test]
fn whole_round_stays_valid() {
    let mut game: Game<6> = Game::new();
    let mut answers: Vec<game::Response> = Vec::new();
    for _ in 0..6 {
        answers.push(PlayCard(Flower));
    }
    answers.push(PlayCard(Skull));
    answers.push(Bid(3));
    answers.push(Bid(4));
    answers.push(Pass);
    answers.push(Pass);
    answers.push(Pass);
    answers.push(Pass);
    answers.push(Pass);
    let mut events: Vec<Event> = Vec::new();
    for answer in answers {
        loop {
            let event = game.what_next();
            assert!(game.is_valid());
            if let Input { .. } = event {
                break;
            }
            events.push(event);
        }
        assert_eq!(game.respond(answer), Ok(()));
        assert!(game.is_valid());
    }
    assert_eq!(game.what_next(), ChallengeStarted);
    assert_eq!(
        game.what_next(),
        Input { player: 2, input: InputType::FlipCard }
    );
    assert_eq!(events, vec![BidStarted]);
    game.respond(Flip(1, 0)).unwrap();
    game.respond(Flip(3, 0)).unwrap();
    assert!(game.is_valid());
    game.respond(Flip(0, 1)).unwrap();
    assert!(game.is_valid());
    assert_eq!(game.hands()[2].count(), 3);
    assert_eq!(
        game.what_next(),
        ChallengerChoseSkull { challenger: 2, skull_player: 0 }
    );
    assert_eq!(game.state(), &State::Playing { current_player: 0 });
    assert!(game.is_valid());
}

fn play_at_random<const N: usize>(seed: u64, steps: usize) {
    let mut rng = rand::rngs::StdRng::seed_from_u64(seed);
    let mut game: Game<N> = Game::new();
    for _ in 0..steps {
        let before = table_len(&game);
        let flipped_before = match game.state() {
            State::Challenging { flipped, .. } => Some(flipped.iter().map(|m| m.len()).sum::<usize>()),
            _ => None,
        };
        let event = game.what_next();
        if !game.is_valid() {
            let won = game.scores().iter().any(|s| *s == 2);
            assert!(won || game.remaining_player_count() < 2);
            return;
        }
        let after = table_len(&game);
        assert!(after >= before || after == 0);
        match game.state() {
            State::Playing { current_player } => {
                assert!(!game.hands()[*current_player].empty());
            }
            State::Bidding { current_bidder, passed, .. } => {
                assert!(!game.hands()[*current_bidder].empty());
                assert!(!passed[*current_bidder]);
            }
            State::Challenging { target, flipped, .. } => {
                let now: usize = flipped.iter().map(|m| m.len()).sum();
                assert!(*target <= after);
                assert!(now <= *target);
                if let Some(then) = flipped_before {
                    assert!(now >= then);
                }
            }
        }
        if let Input { player, input } = event {
            assert_eq!(game.what_next(), event);
            let answer = match input {
                InputType::PlayCard | InputType::PlayCardOrStartBid | InputType::StartBid => {
                    match rng.gen_range(0..4) {
                        0 => PlayCard(Skull),
                        1 | 2 => PlayCard(Flower),
                        _ => Bid(rng.gen_range(0..=after + 1)),
                    }
                }
                InputType::BidOrPass => match rng.gen_range(0..2) {
                    0 => Pass,
                    _ => Bid(rng.gen_range(0..=after + 1)),
                },
                InputType::FlipCard => Flip(rng.gen_range(0..=N), rng.gen_range(0..5)),
            };
            assert!(player < N);
            let _ = game.respond(answer);
            assert!(game.is_valid());
            assert!(table_len(&game) >= after);
        }
    }
}

#[test]
fn random_play_keeps_the_rules() {
    for seed in 0..60 {
        play_at_random::<3>(seed, 400);
        play_at_random::<4>(seed, 400);
        play_at_random::<5>(seed, 400);
        play_at_random::<6>(seed, 400);
    }
}

fn lost_challenge(draws: Vec<u8>) -> Game<3> {
    let mut game = Game::try_create_from(
        [0; 3],
        [Hand::new(); 3],
        [cards(&[Flower, Skull]), cards(&[Flower]), cards(&[Flower])],
        State::Challenging {
            challenger: 0,
            target: 1,
            flipped: [flips(&[]), flips(&[]), flips(&[])],
        },
        Some(ChallengeStarted),
    )
    .unwrap();
    game.fix_draws(draws);
    assert!(game.is_valid());
    assert_eq!(game.what_next(), ChallengeStarted);
    game
}

#[test]
fn fixed_draw_decides_the_lost_card() {
    let game = lost_challenge(vec![0]);
    assert_eq!(game.hands()[0], Hand::try_from([Flower, Flower, Flower]).unwrap());
    let game = lost_challenge(vec![4]);
    assert_eq!(game.hands()[0], Hand::try_from([Flower, Flower, Flower]).unwrap());
    for draw in [1, 2, 3, 5, 255] {
        let game = lost_challenge(vec![draw]);
        assert_eq!(game.hands()[0], Hand::try_from([Skull, Flower, Flower]).unwrap());
    }
}

#[test]
fn fixed_draws_are_used_in_turn() {
    let mut game = lost_challenge(vec![1, 4, 0]);
    assert_eq!(game.hands()[0], Hand::try_from([Skull, Flower, Flower]).unwrap());
    assert_eq!(
        game.what_next(),
        ChallengerChoseSkull { challenger: 0, skull_player: 0 }
    );
    assert_eq!(
        game.what_next(),
        Input { player: 0, input: InputType::PlayCard }
    );
    game.respond(PlayCard(Flower)).unwrap();
    game.respond(PlayCard(Flower)).unwrap();
    game.respond(PlayCard(Skull)).unwrap();
    game.respond(Bid(3)).unwrap();
    assert_eq!(game.what_next(), ChallengeStarted);
    game.respond(Flip(1, 0)).unwrap();
    game.respond(Flip(2, 0)).unwrap();
    assert_eq!(game.hands()[0], Hand::try_from([Skull, Flower]).unwrap());
    for expected in [Hand::try_from([Flower]).unwrap(), Hand::default()] {
        assert_eq!(
            game.what_next(),
            ChallengerChoseSkull { challenger: 0, skull_player: 2 }
        );
        assert_eq!(
            game.what_next(),
            Input { player: 2, input: InputType::PlayCard }
        );
        game.respond(PlayCard(Skull)).unwrap();
        game.respond(PlayCard(Flower)).unwrap();
        game.respond(PlayCard(Flower)).unwrap();
        game.respond(PlayCard(Flower)).unwrap();
        assert_eq!(game.state(), &State::Playing { current_player: 0 });
        game.respond(Bid(4)).unwrap();
        assert_eq!(game.what_next(), ChallengeStarted);
        assert_eq!(
            game.what_next(),
            Input { player: 0, input: InputType::FlipCard }
        );
        game.respond(Flip(1, 0)).unwrap();
        game.respond(Flip(2, 1)).unwrap();
        game.respond(Flip(2, 0)).unwrap();
        assert_eq!(game.hands()[0], expected);
        assert!(game.is_valid());
    }
    assert_eq!(
        game.what_next(),
        ChallengerChoseSkull { challenger: 0, skull_player: 2 }
    );
    assert_eq!(game.state(), &State::Playing { current_player: 2 });
    assert_eq!(game.what_next(), PlayerOut(0));
    assert_eq!(game.remaining_player_count(), 2);
}

#[test]
fn chance_reaches_every_card() {
    let mut skulls = 0;
    let mut flowers = 0;
    for _ in 0..400 {
        let game = lost_challenge(Vec::new());
        let hand = game.hands()[0];
        assert_eq!(hand.count(), 3);
        if hand.has_skull() {
            flowers += 1;
        } else {
            skulls += 1;
        }
    }
    assert!(skulls > 0);
    assert!(flowers > skulls);
}

#[test]
fn a_bid_of_nothing_on_an_empty_table_is_a_challenge_for_nothing() {
    let mut game: Game<3> = Game::new();
    assert_eq!(game.respond(Bid(0)), Ok(()));
    assert_eq!(
        game.state(),
        &State::Challenging {
            challenger: 0,
            target: 0,
            flipped: [FVec::new(), FVec::new(), FVec::new()],
        }
    );
    assert!(game.is_valid());
    assert_eq!(game.what_next(), ChallengeStarted);
    assert_eq!(game.what_next(), ChallengeWon(0));
    assert_eq!(game.scores(), &[1, 0, 0]);
    assert!(game.is_valid());
}

fn remade(game: &Game<4>) -> Option<Game<4>> {
    let scores: [u8; 4] = game.scores().try_into().unwrap();
    let hands: [Hand; 4] = game.hands().try_into().unwrap();
    let piles = game.cards_played();
    Game::try_create_from(
        scores,
        hands,
        [cards(piles[0]), cards(piles[1]), cards(piles[2]), cards(piles[3])],
        game.state().clone(),
        None,
    )
}

#[test]
fn what_play_leads_to_can_be_made_again() {
    let mut game: Game<4> = Game::new();
    let answers = [
        PlayCard(Flower),
        PlayCard(Flower),
        PlayCard(Flower),
        PlayCard(Flower),
        PlayCard(Skull),
        Bid(2),
        Pass,
        Bid(3),
        Pass,
        Bid(4),
        Pass,
        Flip(2, 0),
        Flip(3, 0),
        Flip(0, 1),
        PlayCard(Flower),
    ];
    for answer in answers {
        while !matches!(game.what_next(), Input { .. }) {}
        let copy = remade(&game).expect("a game that play has led to is valid");
        assert_eq!(copy.scores(), game.scores());
        assert_eq!(copy.hands(), game.hands());
        assert_eq!(copy.cards_played(), game.cards_played());
        assert_eq!(copy.state(), game.state());
        assert_eq!(game.respond(answer), Ok(()));
    }
    assert_eq!(game.state(), &State::Playing { current_player: 1 });
    assert_eq!(game.hands()[1].count(), 3);
    assert!(remade(&game).is_some());
}
