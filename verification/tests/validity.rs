use game::Card::{Flower, Skull};
use game::{Card, Event, Game, Hand, State};

use heapless::Vec as FVec;

fn laid(cards: &[Card]) -> FVec<Card, 4> {
    FVec::from_slice(cards).unwrap()
}

fn shown(positions: &[usize]) -> FVec<usize, 4> {
    FVec::from_slice(positions).unwrap()
}

fn accepted(
    scores: [u8; 3],
    hands: [Hand; 3],
    piles: [FVec<Card, 4>; 3],
    state: State<3>,
    pending: Option<Event>,
) -> bool {
    Game::try_create_from(scores, hands, piles, state, pending).is_some()
}

fn flowers(n: usize) -> [FVec<Card, 4>; 3] {
    [laid(&vec![Flower; n]), laid(&vec![Flower; n]), laid(&vec![Flower; n])]
}

fn playing(current_player: usize) -> State<3> {
    State::Playing { current_player }
}

#[test]
fn table_needs_three_to_six_seats() {
    assert!(Game::try_create_from([0; 2], [Hand::new(); 2], [laid(&[]), laid(&[])], State::Playing { current_player: 0 }, None).is_none());
    assert!(Game::try_create_from(
        [0; 7],
        [Hand::new(); 7],
        [laid(&[]), laid(&[]), laid(&[]), laid(&[]), laid(&[]), laid(&[]), laid(&[])],
        State::Playing { current_player: 0 },
        None
    )
    .is_none());
    assert!(Game::try_create_from(
        [0; 6],
        [Hand::new(); 6],
        [laid(&[]), laid(&[]), laid(&[]), laid(&[]), laid(&[]), laid(&[])],
        State::Playing { current_player: 5 },
        None
    )
    .is_some());
}

#[test]
fn made_game_holds_the_parts() {
    let game = Game::try_create_from(
        [1, 0, 1],
        [Hand::new(), Hand::try_from([Flower, Flower]).unwrap(), Hand::new()],
        [laid(&[Skull]), laid(&[Flower]), laid(&[])],
        playing(2),
        None,
    )
    .unwrap();
    assert_eq!(game.scores(), &[1, 0, 1]);
    assert_eq!(game.hands()[1].count(), 2);
    assert_eq!(game.cards_played(), vec![&[Skull][..], &[Flower][..], &[][..]]);
    assert_eq!(game.state(), &playing(2));
    assert_eq!(game.player_count(), 3);
    assert_eq!(game.remaining_player_count(), 3);
}

#[test]
fn scores_stay_below_two() {
    assert!(accepted([1, 1, 1], [Hand::new(); 3], flowers(0), playing(0), None));
    assert!(!accepted([2, 0, 0], [Hand::new(); 3], flowers(0), playing(0), None));
    assert!(!accepted([0, 0, 3], [Hand::new(); 3], flowers(0), playing(0), None));
}

#[test]
fn winner_is_announced_with_two_points() {
    let won = |scores: [u8; 3], event: Event| {
        accepted(
            scores,
            [Hand::new(); 3],
            flowers(1),
            State::Challenging {
                challenger: 1,
                target: 1,
                flipped: [shown(&[]), shown(&[0]), shown(&[])],
            },
            Some(event),
        )
    };
    assert!(won([0, 2, 0], Event::ChallengeWonGameWon(1)));
    assert!(!won([0, 1, 0], Event::ChallengeWonGameWon(1)));
    assert!(!won([2, 2, 0], Event::ChallengeWonGameWon(1)));
    assert!(!won([0, 2, 0], Event::ChallengeWonGameWon(0)));
    assert!(won([0, 1, 0], Event::ChallengeWon(1)));
    assert!(!won([0, 2, 0], Event::ChallengeWon(1)));
    assert!(!won([0, 1, 0], Event::ChallengeWon(2)));
}

#[test]
fn pile_comes_from_the_hand() {
    let with = |hand: Hand, pile: &[Card]| {
        accepted(
            [0; 3],
            [hand, Hand::new(), Hand::new()],
            [laid(pile), laid(&[Flower]), laid(&[Flower])],
            playing(1),
            None,
        )
    };
    assert!(with(Hand::new(), &[Flower, Skull]));
    assert!(with(Hand::try_from([Flower, Flower]).unwrap(), &[Flower, Flower]));
    assert!(!with(Hand::try_from([Flower, Flower]).unwrap(), &[Flower, Skull]));
    assert!(!with(Hand::try_from([Skull, Flower]).unwrap(), &[Flower, Flower]));
    assert!(!with(Hand::new(), &[Skull, Skull]));
    assert!(!accepted(
        [0; 3],
        [Hand::new(); 3],
        [laid(&[Flower; 4]), laid(&[Flower; 3]), laid(&[Flower; 3])],
        playing(1),
        None
    ));
}

#[test]
fn nobody_is_two_cards_ahead() {
    let lens = |a: usize, b: usize, c: usize, current: usize| {
        accepted(
            [0; 3],
            [Hand::new(); 3],
            [laid(&vec![Flower; a]), laid(&vec![Flower; b]), laid(&vec![Flower; c])],
            playing(current),
            None,
        )
    };
    assert!(lens(1, 1, 1, 0));
    assert!(lens(2, 1, 1, 1));
    assert!(lens(2, 2, 1, 2));
    assert!(lens(1, 2, 2, 0));
    assert!(!lens(3, 1, 1, 1));
    assert!(!lens(2, 1, 1, 0));
    assert!(!lens(2, 1, 1, 2));
    assert!(!lens(1, 2, 1, 0));
    assert!(lens(1, 2, 1, 2));
}

#[test]
fn current_player_has_a_card() {
    let hands = [Hand::new(), Hand::default(), Hand::new()];
    assert!(accepted([0; 3], hands, flowers(0), playing(0), None));
    assert!(!accepted([0; 3], hands, flowers(0), playing(1), None));
    assert!(!accepted([0; 3], hands, flowers(0), playing(3), None));
    let hands = [Hand::new(), Hand::default(), Hand::default()];
    assert!(!accepted([0; 3], hands, flowers(0), playing(0), None));
}

#[test]
fn notice_belongs_to_the_phase() {
    assert!(!accepted([0; 3], [Hand::new(); 3], flowers(1), playing(0), Some(Event::BidStarted)));
    assert!(!accepted([0; 3], [Hand::new(); 3], flowers(1), playing(0), Some(Event::ChallengeStarted)));
    assert!(!accepted([0; 3], [Hand::new(); 3], flowers(1), playing(0), Some(Event::ChallengeWon(0))));
    assert!(!accepted([0; 3], [Hand::new(); 3], flowers(1), playing(0), Some(Event::PlayerOut(1))));
    assert!(!accepted(
        [0; 3],
        [Hand::new(); 3],
        flowers(1),
        playing(0),
        Some(Event::Input { player: 0, input: game::InputType::PlayCard })
    ));
    assert!(accepted(
        [0; 3],
        [Hand::new(), Hand::default(), Hand::new()],
        flowers(0),
        playing(0),
        Some(Event::PlayerOut(1))
    ));
    let bidding = || State::Bidding {
        current_bidder: 1,
        highest_bid: 1,
        highest_bidder: 0,
        max_bid: 3,
        passed: [false; 3],
    };
    assert!(accepted([0; 3], [Hand::new(); 3], flowers(1), bidding(), Some(Event::BidStarted)));
    assert!(accepted([0; 3], [Hand::new(); 3], flowers(1), bidding(), None));
    assert!(!accepted([0; 3], [Hand::new(); 3], flowers(1), bidding(), Some(Event::ChallengeStarted)));
}

#[test]
fn bidding_is_held_to_the_table() {
    let bidding = |current_bidder: usize, highest_bid: usize, highest_bidder: usize, max_bid: usize, passed: [bool; 3]| {
        accepted(
            [0; 3],
            [Hand::new(); 3],
            flowers(1),
            State::Bidding { current_bidder, highest_bid, highest_bidder, max_bid, passed },
            None,
        )
    };
    assert!(bidding(1, 0, 0, 3, [false; 3]));
    assert!(bidding(2, 2, 0, 3, [false, true, false]));
    assert!(!bidding(2, 2, 0, 3, [false, false, false]));
    assert!(!bidding(1, 3, 0, 3, [false; 3]));
    assert!(!bidding(1, 1, 0, 4, [false; 3]));
    assert!(!bidding(1, 1, 0, 2, [false; 3]));
    assert!(!bidding(0, 1, 0, 3, [false; 3]));
    assert!(!bidding(1, 1, 0, 3, [false, true, false]));
    assert!(!bidding(1, 1, 0, 3, [true, false, false]));
    assert!(!bidding(3, 1, 0, 3, [false; 3]));
    assert!(!bidding(1, 1, 3, 3, [false; 3]));
}

#[test]
fn passed_players_have_a_card() {
    let state = || State::Bidding {
        current_bidder: 0,
        highest_bid: 1,
        highest_bidder: 2,
        max_bid: 2,
        passed: [false, true, false],
    };
    let piles = || [laid(&[Flower]), laid(&[]), laid(&[Flower])];
    assert!(!accepted([0; 3], [Hand::new(), Hand::default(), Hand::new()], piles(), state(), None));
    assert!(accepted(
        [0; 3],
        [Hand::new(), Hand::new(), Hand::new()],
        [laid(&[Flower]), laid(&[Flower]), laid(&[])],
        state(),
        None
    ));
}

#[test]
fn challenge_is_held_to_the_table() {
    let challenge = |target: usize, flipped: [FVec<usize, 4>; 3], pending: Option<Event>| {
        accepted(
            [0; 3],
            [Hand::new(); 3],
            [laid(&[Flower, Flower]), laid(&[Flower, Skull]), laid(&[Flower])],
            State::Challenging { challenger: 0, target, flipped },
            pending,
        )
    };
    let none = || [shown(&[]), shown(&[]), shown(&[])];
    assert!(challenge(5, none(), Some(Event::ChallengeStarted)));
    assert!(!challenge(6, none(), Some(Event::ChallengeStarted)));
    assert!(!challenge(5, none(), None));
    assert!(!challenge(3, [shown(&[0, 1]), shown(&[]), shown(&[])], Some(Event::ChallengeStarted)));
    assert!(challenge(3, [shown(&[0, 1]), shown(&[]), shown(&[])], None));
    assert!(!challenge(3, [shown(&[1, 0]), shown(&[]), shown(&[])], None));
    assert!(!challenge(3, [shown(&[0]), shown(&[]), shown(&[])], None));
    assert!(challenge(3, [shown(&[0, 1]), shown(&[0]), shown(&[])], Some(Event::ChallengeWon(0))));
    assert!(!challenge(3, [shown(&[0, 1]), shown(&[0]), shown(&[])], None));
    assert!(!challenge(4, [shown(&[0, 1]), shown(&[0, 0]), shown(&[])], None));
    assert!(!challenge(4, [shown(&[0, 1]), shown(&[2]), shown(&[])], None));
    assert!(!challenge(4, [shown(&[0, 1]), shown(&[1]), shown(&[])], None));
    assert!(!challenge(2, [shown(&[0, 1]), shown(&[]), shown(&[])], None));
    assert!(challenge(2, [shown(&[0, 1]), shown(&[]), shown(&[])], Some(Event::ChallengeWon(0))));
    assert!(challenge(1, [shown(&[1]), shown(&[]), shown(&[])], Some(Event::ChallengeWon(0))));
    assert!(!challenge(1, [shown(&[0]), shown(&[]), shown(&[])], Some(Event::ChallengeWon(0))));
}

#[test]
fn lost_challenge_names_the_skull() {
    let lost = |hand: Hand, own: &[Card], flipped: [FVec<usize, 4>; 3], skull_player: usize| {
        accepted(
            [0; 3],
            [hand, Hand::new(), Hand::new()],
            [laid(own), laid(&[Flower, Skull]), laid(&[Flower])],
            State::Challenging { challenger: 0, target: 3, flipped },
            Some(Event::ChallengerChoseSkull { challenger: 0, skull_player }),
        )
    };
    let three = Hand::try_from([Flower, Flower, Flower]).unwrap();
    assert!(lost(three, &[Flower, Skull], [shown(&[0, 1]), shown(&[]), shown(&[])], 0));
    assert!(lost(three, &[Flower, Flower], [shown(&[0, 1]), shown(&[]), shown(&[])], 1));
    assert!(!lost(three, &[Flower, Flower], [shown(&[0, 1]), shown(&[]), shown(&[])], 0));
    assert!(!lost(three, &[Flower, Flower], [shown(&[0, 1]), shown(&[]), shown(&[])], 2));
    assert!(!lost(three, &[Flower, Flower], [shown(&[0, 1]), shown(&[]), shown(&[])], 3));
    assert!(!lost(three, &[Flower, Skull], [shown(&[0, 1]), shown(&[]), shown(&[])], 1));
    assert!(lost(Hand::default(), &[Skull], [shown(&[0]), shown(&[]), shown(&[])], 0));
}
