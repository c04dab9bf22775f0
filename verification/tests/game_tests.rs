use cw_uno::card::{Card, Color, Rank};
use cw_uno::contract::{execute, instantiate};
use cw_uno::deck::create_initial_deck;
use cw_uno::error::ContractError;
use cw_uno::msg::{ExecuteMsg, InstantiateMsg};
use cw_uno::registry::{find_player, join_game, leave_game};
use cw_uno::rules::{draw_card, find_card, is_playable, is_skipping, play_card, Outcome};
use cw_uno::state::{Phase, Player, State};
use cw_uno::turn::{advance, deal_opening_hands, reindex_turn};

const WCC: Card = Card { color: Color::Wild, rank: Rank::WildChangeColor };
const WDF: Card = Card { color: Color::Wild, rank: Rank::WildDrawFour };

fn name(s: &str) -> String {
    s.to_string()
}

fn card(color: Color, rank: Rank) -> Card {
    Card { color, rank }
}

fn green(rank: Rank) -> Card {
    card(Color::Green, rank)
}

fn red(rank: Rank) -> Card {
    card(Color::Red, rank)
}

fn total_cards(state: &State) -> usize {
    state.deck.len()
        + state.discard_pile.len()
        + state.players.iter().map(|p| p.hand.len()).sum::<usize>()
}

/// Alice opens the default table and Bob joins, which starts the game.
fn two_player_game() -> State {
    let mut state = instantiate(name("alice"), InstantiateMsg {});
    join_game(&mut state, name("bob")).unwrap();
    state
}

/// A table that starts with three players: alice, bob and carol.
fn three_player_game() -> State {
    let mut state = State::new(name("alice"), 3, 4).unwrap();
    join_game(&mut state, name("bob")).unwrap();
    join_game(&mut state, name("carol")).unwrap();
    state
}

/// A two-player game dealt from a deck that was turned over first, so that
/// the red cards come out on top, with the next card turned face up.
fn red_game() -> State {
    let mut state = instantiate(name("alice"), InstantiateMsg {});
    state.deck.reverse();
    join_game(&mut state, name("bob")).unwrap();
    let top = state.deck.pop().unwrap();
    state.discard_pile.push(top);
    state
}

#[test]
fn instantiate_seats_the_founder_and_waits() {
    let state = instantiate(name("alice"), InstantiateMsg {});
    assert_eq!(state.phase, Phase::WaitingForPlayers);
    assert_eq!(state.players, vec![Player { address: name("alice"), hand: vec![] }]);
    assert_eq!(state.deck, create_initial_deck());
    assert!(state.discard_pile.is_empty());
    assert_eq!(state.current_turn, 0);
    assert_eq!(state.direction, 1);
    assert_eq!(state.winner, None);
    assert_eq!(state.required_players, 2);
    assert_eq!(state.required_players_max, 4);
    assert!(state.is_wf());
    assert_eq!(total_cards(&state), 72);
}

#[test]
fn new_refuses_bounds_that_make_no_game() {
    assert_eq!(State::new(name("alice"), 0, 4), None);
    assert_eq!(State::new(name("alice"), 1, 4), None);
    assert_eq!(State::new(name("alice"), 3, 2), None);
    assert_eq!(State::new(name("alice"), 5, 4), None);
}

#[test]
fn new_accepts_valid_bounds() {
    let state = State::new(name("alice"), 3, 3).unwrap();
    assert_eq!(state.required_players, 3);
    assert_eq!(state.required_players_max, 3);
    assert_eq!(state.phase, Phase::WaitingForPlayers);
    assert_eq!(state.players.len(), 1);
    assert_eq!(state.deck.len(), 72);
    assert_eq!(State::new(name("alice"), 2, 2).unwrap().required_players_max, 2);
}

#[test]
fn two_players_start_the_game() {
    let state = two_player_game();
    assert_eq!(state.deck.len(), 58);
    assert_eq!(state.players.len(), 2);
    assert_eq!(state.players[0].hand.len(), 7);
    assert_eq!(state.players[1].hand.len(), 7);
    assert_eq!(state.phase, Phase::Active);
    assert_eq!(state.current_turn, 0);
    assert_eq!(state.direction, 1);
    assert_eq!(state.winner, None);
    assert!(state.discard_pile.is_empty());
    assert!(state.is_wf());
    assert_eq!(total_cards(&state), 72);
}

#[test]
fn opening_deal_takes_cards_from_the_top_in_seat_order() {
    let state = two_player_game();
    assert_eq!(state.players[0].address, "alice");
    assert_eq!(state.players[0].hand, vec![WDF, WCC, WDF, WCC, WDF, WCC, WDF]);
    assert_eq!(state.players[1].address, "bob");
    assert_eq!(
        state.players[1].hand,
        vec![
            WCC,
            green(Rank::Reverse),
            green(Rank::DrawTwo),
            green(Rank::Skip),
            green(Rank::Reverse),
            green(Rank::DrawTwo),
            green(Rank::Skip),
        ]
    );
    assert_eq!(state.deck[..], create_initial_deck()[..58]);
    assert_eq!(state.deck[57], green(Rank::Number(10)));
}

#[test]
fn color_match_play_then_turn_passes() {
    let mut state = red_game();
    assert_eq!(state.deck.len(), 57);
    assert_eq!(state.discard_pile, vec![red(Rank::DrawTwo)]);
    assert_eq!(
        state.players[0].hand,
        (1..=7).map(|n| red(Rank::Number(n))).collect::<Vec<Card>>()
    );
    let played = red(Rank::Number(3));
    assert_eq!(play_card(&mut state, name("alice"), played, None), Ok(Outcome::Applied));
    assert_eq!(state.players[0].hand.len(), 6);
    assert!(!state.players[0].hand.contains(&played));
    assert_eq!(state.discard_pile, vec![red(Rank::DrawTwo), played]);
    assert_eq!(state.current_turn, 1);
    assert_eq!(state.phase, Phase::Active);
    assert_eq!(total_cards(&state), 72);

    // It is Bob's turn now: Alice is refused, Bob is not.
    let before = state.clone();
    assert_eq!(
        play_card(&mut state, name("alice"), red(Rank::Number(4)), None),
        Err(ContractError::NotYourTurn)
    );
    assert_eq!(state, before);
    assert_eq!(play_card(&mut state, name("bob"), red(Rank::Number(8)), None), Ok(Outcome::Applied));
    assert_eq!(state.current_turn, 0);
}

#[test]
fn draining_the_deck_ends_in_deck_empty() {
    let mut state = two_player_game();
    for drawn in 1..=58 {
        assert_eq!(draw_card(&mut state, name("alice")), Ok(()));
        assert_eq!(state.deck.len(), 58 - drawn);
        assert_eq!(state.players[0].hand.len(), 7 + drawn);
        assert_eq!(state.current_turn, 0);
    }
    assert!(state.deck.is_empty());
    let before = state.clone();
    assert_eq!(draw_card(&mut state, name("alice")), Err(ContractError::DeckEmpty));
    assert_eq!(state, before);
    assert_eq!(total_cards(&state), 72);
    assert!(state.is_wf());
}

#[test]
fn draw_takes_the_top_card_and_keeps_the_turn() {
    let mut state = two_player_game();
    assert_eq!(draw_card(&mut state, name("alice")), Ok(()));
    assert_eq!(state.players[0].hand.len(), 8);
    assert_eq!(state.players[0].hand[7], green(Rank::Number(10)));
    assert_eq!(state.deck.len(), 57);
    assert_eq!(state.deck[56], green(Rank::Number(9)));
    assert_eq!(state.current_turn, 0);
    assert_eq!(state.players[1].hand.len(), 7);
    assert_eq!(state.phase, Phase::Active);
}

#[test]
fn join_full_table_is_session_full() {
    let mut state = State::new(name("alice"), 2, 2).unwrap();
    join_game(&mut state, name("bob")).unwrap();
    let before = state.clone();
    assert_eq!(join_game(&mut state, name("carol")), Err(ContractError::SessionFull));
    assert_eq!(state, before);
    // A full table refuses a seated player for the same reason.
    assert_eq!(join_game(&mut state, name("bob")), Err(ContractError::SessionFull));
    assert_eq!(state, before);
}

#[test]
fn join_default_table_seats_four() {
    let mut state = two_player_game();
    assert_eq!(join_game(&mut state, name("carol")), Ok(()));
    assert_eq!(join_game(&mut state, name("dave")), Ok(()));
    assert_eq!(state.players.len(), 4);
    assert_eq!(join_game(&mut state, name("erin")), Err(ContractError::SessionFull));
    assert_eq!(state.players.len(), 4);
}

#[test]
fn join_twice_is_already_joined() {
    let mut state = instantiate(name("alice"), InstantiateMsg {});
    let before = state.clone();
    assert_eq!(join_game(&mut state, name("alice")), Err(ContractError::AlreadyJoined));
    assert_eq!(state, before);
    join_game(&mut state, name("bob")).unwrap();
    let before = state.clone();
    assert_eq!(join_game(&mut state, name("bob")), Err(ContractError::AlreadyJoined));
    assert_eq!(state, before);
}

#[test]
fn join_below_the_minimum_keeps_waiting() {
    let mut state = State::new(name("alice"), 3, 4).unwrap();
    assert_eq!(join_game(&mut state, name("bob")), Ok(()));
    assert_eq!(state.phase, Phase::WaitingForPlayers);
    assert_eq!(state.deck.len(), 72);
    assert!(state.players.iter().all(|p| p.hand.is_empty()));
    assert_eq!(join_game(&mut state, name("carol")), Ok(()));
    assert_eq!(state.phase, Phase::Active);
    assert_eq!(state.deck.len(), 72 - 21);
    assert!(state.players.iter().all(|p| p.hand.len() == 7));
    assert_eq!(state.current_turn, 0);
}

#[test]
fn join_running_game_gets_an_empty_hand() {
    let mut state = two_player_game();
    assert_eq!(join_game(&mut state, name("carol")), Ok(()));
    assert_eq!(state.players.len(), 3);
    assert_eq!(state.players[2], Player { address: name("carol"), hand: vec![] });
    assert_eq!(state.players[0].hand.len(), 7);
    assert_eq!(state.players[1].hand.len(), 7);
    assert_eq!(state.deck.len(), 58);
    assert_eq!(state.phase, Phase::Active);
    assert!(state.is_wf());
}

#[test]
fn short_deal_when_the_deck_runs_out() {
    let mut state = State::new(name("p0"), 11, 11).unwrap();
    for i in 1..11 {
        join_game(&mut state, format!("p{}", i)).unwrap();
    }
    assert_eq!(state.phase, Phase::Active);
    assert!(state.deck.is_empty());
    for i in 0..10 {
        assert_eq!(state.players[i].hand.len(), 7);
    }
    assert_eq!(state.players[10].hand.len(), 2);
    assert_eq!(state.players[10].hand, vec![red(Rank::Number(2)), red(Rank::Number(1))]);
    assert_eq!(total_cards(&state), 72);
    assert!(state.is_wf());
}

#[test]
fn deal_opening_hands_with_a_small_deck() {
    let mut deck: Vec<Card> = (1..=9).map(|n| red(Rank::Number(n))).collect();
    let mut players = vec![
        Player { address: name("a"), hand: vec![] },
        Player { address: name("b"), hand: vec![] },
        Player { address: name("c"), hand: vec![] },
    ];
    deal_opening_hands(&mut deck, &mut players);
    assert!(deck.is_empty());
    assert_eq!(
        players[0].hand,
        vec![9, 8, 7, 6, 5, 4, 3].into_iter().map(|n| red(Rank::Number(n))).collect::<Vec<Card>>()
    );
    assert_eq!(players[1].hand, vec![red(Rank::Number(2)), red(Rank::Number(1))]);
    assert!(players[2].hand.is_empty());
}

#[test]
fn play_before_start_is_not_started() {
    let mut state = instantiate(name("alice"), InstantiateMsg {});
    let before = state.clone();
    assert_eq!(play_card(&mut state, name("alice"), WCC, Some(Color::Red)), Err(ContractError::NotStarted));
    assert_eq!(draw_card(&mut state, name("alice")), Err(ContractError::NotStarted));
    assert_eq!(draw_card(&mut state, name("nobody")), Err(ContractError::NotStarted));
    assert_eq!(state, before);
}

#[test]
fn act_out_of_turn_is_not_your_turn() {
    let mut state = two_player_game();
    let before = state.clone();
    assert_eq!(draw_card(&mut state, name("bob")), Err(ContractError::NotYourTurn));
    assert_eq!(
        play_card(&mut state, name("bob"), green(Rank::Skip), None),
        Err(ContractError::NotYourTurn)
    );
    assert_eq!(draw_card(&mut state, name("mallory")), Err(ContractError::NotYourTurn));
    assert_eq!(
        play_card(&mut state, name("mallory"), WCC, Some(Color::Red)),
        Err(ContractError::NotYourTurn)
    );
    assert_eq!(state, before);
}

#[test]
fn play_card_not_held_is_card_not_in_hand() {
    let mut state = two_player_game();
    let before = state.clone();
    assert_eq!(
        play_card(&mut state, name("alice"), green(Rank::Skip), None),
        Err(ContractError::CardNotInHand)
    );
    assert_eq!(
        play_card(&mut state, name("alice"), card(Color::Red, Rank::WildDrawFour), Some(Color::Red)),
        Err(ContractError::CardNotInHand)
    );
    assert_eq!(state, before);
}

#[test]
fn play_mismatch_is_illegal_play() {
    let mut state = red_game();
    state.players[0].hand.push(card(Color::Blue, Rank::Number(9)));
    let before = state.clone();
    // Top of the pile is a red draw-two: blue nine matches neither.
    assert_eq!(
        play_card(&mut state, name("alice"), card(Color::Blue, Rank::Number(9)), None),
        Err(ContractError::IllegalPlay)
    );
    assert_eq!(state, before);
}

#[test]
fn play_on_empty_pile_needs_a_wild_card() {
    let mut state = two_player_game();
    state.players[0].hand.push(red(Rank::Number(5)));
    let before = state.clone();
    assert_eq!(
        play_card(&mut state, name("alice"), red(Rank::Number(5)), None),
        Err(ContractError::IllegalPlay)
    );
    assert_eq!(state, before);
    assert_eq!(play_card(&mut state, name("alice"), WCC, Some(Color::Red)), Ok(Outcome::Applied));
}

#[test]
fn play_rank_match_is_accepted() {
    let mut state = red_game();
    state.players[0].hand.push(card(Color::Blue, Rank::DrawTwo));
    // Blue draw-two on red draw-two: the rank matches.
    assert_eq!(
        play_card(&mut state, name("alice"), card(Color::Blue, Rank::DrawTwo), None),
        Ok(Outcome::Applied)
    );
    assert_eq!(state.discard_pile.last(), Some(&card(Color::Blue, Rank::DrawTwo)));
}

#[test]
fn play_number_rank_match_needs_the_same_number() {
    let mut state = red_game();
    state.discard_pile.push(card(Color::Yellow, Rank::Number(4)));
    state.players[0].hand.push(card(Color::Blue, Rank::Number(5)));
    state.players[0].hand.push(card(Color::Blue, Rank::Number(4)));
    assert_eq!(
        play_card(&mut state, name("alice"), card(Color::Blue, Rank::Number(5)), None),
        Err(ContractError::IllegalPlay)
    );
    assert_eq!(
        play_card(&mut state, name("alice"), card(Color::Blue, Rank::Number(4)), None),
        Ok(Outcome::Applied)
    );
}

#[test]
fn is_playable_follows_color_rank_and_wild() {
    let pile = vec![card(Color::Yellow, Rank::Number(4))];
    assert!(is_playable(card(Color::Yellow, Rank::Skip), &pile));
    assert!(is_playable(card(Color::Blue, Rank::Number(4)), &pile));
    assert!(is_playable(WCC, &pile));
    assert!(is_playable(WDF, &pile));
    assert!(!is_playable(card(Color::Blue, Rank::Number(5)), &pile));
    assert!(!is_playable(card(Color::Blue, Rank::Skip), &pile));
    let empty: Vec<Card> = vec![];
    assert!(is_playable(WCC, &empty));
    assert!(!is_playable(card(Color::Blue, Rank::Skip), &empty));
    // Only the top of the pile counts.
    let deeper = vec![card(Color::Blue, Rank::Skip), card(Color::Yellow, Rank::Number(4))];
    assert!(!is_playable(card(Color::Blue, Rank::Number(7)), &deeper));
}

#[test]
fn wild_without_color_is_missing_color_declaration() {
    let mut state = two_player_game();
    let before = state.clone();
    assert_eq!(
        play_card(&mut state, name("alice"), WCC, None),
        Err(ContractError::MissingColorDeclaration)
    );
    assert_eq!(
        play_card(&mut state, name("alice"), WDF, None),
        Err(ContractError::MissingColorDeclaration)
    );
    assert_eq!(
        play_card(&mut state, name("alice"), WDF, Some(Color::Wild)),
        Err(ContractError::MissingColorDeclaration)
    );
    assert_eq!(state, before);
}

#[test]
fn wild_change_color_sets_the_active_color() {
    let mut state = two_player_game();
    assert_eq!(play_card(&mut state, name("alice"), WCC, Some(Color::Green)), Ok(Outcome::Applied));
    assert_eq!(state.discard_pile, vec![card(Color::Green, Rank::WildChangeColor)]);
    assert_eq!(state.players[0].hand, vec![WDF, WDF, WCC, WDF, WCC, WDF]);
    assert_eq!(state.current_turn, 1);
    assert_eq!(state.deck.len(), 58);
    // Bob follows the colour that was named.
    assert_eq!(play_card(&mut state, name("bob"), green(Rank::DrawTwo), None), Ok(Outcome::Applied));
    assert_eq!(total_cards(&state), 72);
}

#[test]
fn wild_declared_color_binds_the_next_player() {
    let mut state = two_player_game();
    assert_eq!(play_card(&mut state, name("alice"), WCC, Some(Color::Red)), Ok(Outcome::Applied));
    assert_eq!(
        play_card(&mut state, name("bob"), green(Rank::Skip), None),
        Err(ContractError::IllegalPlay)
    );
}

#[test]
fn declared_color_is_ignored_for_colored_cards() {
    let mut state = red_game();
    assert_eq!(
        play_card(&mut state, name("alice"), red(Rank::Number(1)), Some(Color::Blue)),
        Ok(Outcome::Applied)
    );
    assert_eq!(state.discard_pile.last(), Some(&red(Rank::Number(1))));
}

#[test]
fn wild_draw_four_makes_the_next_player_draw_and_skip() {
    let mut state = two_player_game();
    assert_eq!(play_card(&mut state, name("alice"), WDF, Some(Color::Blue)), Ok(Outcome::Applied));
    assert_eq!(state.discard_pile, vec![card(Color::Blue, Rank::WildDrawFour)]);
    assert_eq!(state.players[0].hand.len(), 6);
    assert_eq!(state.players[1].hand.len(), 11);
    assert_eq!(
        state.players[1].hand[7..],
        [
            green(Rank::Number(10)),
            green(Rank::Number(9)),
            green(Rank::Number(8)),
            green(Rank::Number(7)),
        ]
    );
    assert_eq!(state.deck.len(), 54);
    // Bob is skipped: at a table of two the turn is Alice's again.
    assert_eq!(state.current_turn, 0);
    assert_eq!(state.direction, 1);
    assert_eq!(total_cards(&state), 72);
    assert!(state.is_wf());
}

#[test]
fn draw_two_makes_the_next_player_draw_and_skip() {
    let mut state = three_player_game();
    // alice: wild cards; bob: a wild card and green action cards; carol:
    // green 10 down to green 4. Top of the deck: green 3.
    assert_eq!(play_card(&mut state, name("alice"), WCC, Some(Color::Green)), Ok(Outcome::Applied));
    assert_eq!(state.current_turn, 1);
    assert_eq!(play_card(&mut state, name("bob"), green(Rank::DrawTwo), None), Ok(Outcome::Applied));
    assert_eq!(state.players[2].hand.len(), 9);
    assert_eq!(state.players[2].hand[7..], [green(Rank::Number(3)), green(Rank::Number(2))]);
    assert_eq!(state.deck.len(), 51 - 2);
    // Carol is skipped.
    assert_eq!(state.current_turn, 0);
    assert_eq!(state.players[1].hand.len(), 6);
    assert_eq!(state.players[0].hand.len(), 6);
    assert_eq!(total_cards(&state), 72);
}

#[test]
fn skip_passes_over_the_next_player() {
    let mut state = three_player_game();
    assert_eq!(play_card(&mut state, name("alice"), WCC, Some(Color::Green)), Ok(Outcome::Applied));
    assert_eq!(play_card(&mut state, name("bob"), green(Rank::Skip), None), Ok(Outcome::Applied));
    assert_eq!(state.current_turn, 0);
    assert_eq!(state.direction, 1);
    assert_eq!(state.players[2].hand.len(), 7);
    assert_eq!(state.deck.len(), 51);
    // The first of Bob's two green skips left his hand.
    assert_eq!(
        state.players[1].hand,
        vec![
            WCC,
            green(Rank::Reverse),
            green(Rank::DrawTwo),
            green(Rank::Reverse),
            green(Rank::DrawTwo),
            green(Rank::Skip),
        ]
    );
}

#[test]
fn skip_at_a_table_of_two_returns_the_turn() {
    let mut state = two_player_game();
    assert_eq!(play_card(&mut state, name("alice"), WCC, Some(Color::Green)), Ok(Outcome::Applied));
    assert_eq!(play_card(&mut state, name("bob"), green(Rank::Skip), None), Ok(Outcome::Applied));
    assert_eq!(state.current_turn, 1);
}

#[test]
fn reverse_flips_the_direction() {
    let mut state = three_player_game();
    assert_eq!(play_card(&mut state, name("alice"), WCC, Some(Color::Green)), Ok(Outcome::Applied));
    assert_eq!(play_card(&mut state, name("bob"), green(Rank::Reverse), None), Ok(Outcome::Applied));
    assert_eq!(state.direction, -1);
    assert_eq!(state.current_turn, 0);
    // Turns now pass downwards: after Alice comes Carol.
    assert_eq!(play_card(&mut state, name("alice"), WCC, Some(Color::Green)), Ok(Outcome::Applied));
    assert_eq!(state.current_turn, 2);
    assert_eq!(
        play_card(&mut state, name("carol"), green(Rank::Number(10)), None),
        Ok(Outcome::Applied)
    );
    assert_eq!(state.current_turn, 1);
    // A second reverse restores the direction.
    assert_eq!(play_card(&mut state, name("bob"), green(Rank::Reverse), None), Ok(Outcome::Applied));
    assert_eq!(state.direction, 1);
    assert_eq!(state.current_turn, 2);
}

#[test]
fn reverse_at_a_table_of_two_acts_as_skip() {
    let mut state = two_player_game();
    assert_eq!(play_card(&mut state, name("alice"), WCC, Some(Color::Green)), Ok(Outcome::Applied));
    assert_eq!(play_card(&mut state, name("bob"), green(Rank::Reverse), None), Ok(Outcome::Applied));
    assert_eq!(state.direction, -1);
    assert_eq!(state.current_turn, 1);
    assert_eq!(play_card(&mut state, name("bob"), green(Rank::Skip), None), Ok(Outcome::Applied));
    assert_eq!(state.current_turn, 1);
}

#[test]
fn wild_draw_four_against_the_direction() {
    let mut state = three_player_game();
    assert_eq!(play_card(&mut state, name("alice"), WCC, Some(Color::Green)), Ok(Outcome::Applied));
    assert_eq!(play_card(&mut state, name("bob"), green(Rank::Reverse), None), Ok(Outcome::Applied));
    // Direction is -1 and it is Alice's turn: the player before her is Carol.
    assert_eq!(play_card(&mut state, name("alice"), WDF, Some(Color::Yellow)), Ok(Outcome::Applied));
    assert_eq!(state.players[2].hand.len(), 11);
    assert_eq!(
        state.players[2].hand[7..],
        [
            green(Rank::Number(3)),
            green(Rank::Number(2)),
            green(Rank::Number(1)),
            card(Color::Blue, Rank::Reverse),
        ]
    );
    assert_eq!(state.current_turn, 1);
    assert_eq!(state.deck.len(), 47);
}

#[test]
fn forced_draw_from_a_short_deck_is_a_short_draw() {
    let mut state = two_player_game();
    state.deck.truncate(3);
    assert_eq!(play_card(&mut state, name("alice"), WDF, Some(Color::Red)), Ok(Outcome::ShortDraw));
    assert!(state.deck.is_empty());
    assert_eq!(state.players[1].hand.len(), 10);
    assert_eq!(
        state.players[1].hand[7..],
        [red(Rank::Number(3)), red(Rank::Number(2)), red(Rank::Number(1))]
    );
    assert_eq!(state.current_turn, 0);
    assert_eq!(state.phase, Phase::Active);
    // With nothing left at all, the play still goes through.
    assert_eq!(play_card(&mut state, name("alice"), WDF, Some(Color::Red)), Ok(Outcome::ShortDraw));
    assert_eq!(state.players[1].hand.len(), 10);
    assert_eq!(state.discard_pile.len(), 2);
}

#[test]
fn forced_draw_of_exactly_what_is_left_is_complete() {
    let mut state = two_player_game();
    state.deck.truncate(4);
    assert_eq!(play_card(&mut state, name("alice"), WDF, Some(Color::Red)), Ok(Outcome::Applied));
    assert!(state.deck.is_empty());
    assert_eq!(state.players[1].hand.len(), 11);
}

#[test]
fn emptying_the_hand_wins() {
    let mut state = red_game();
    state.players[0].hand = vec![red(Rank::Number(7))];
    assert_eq!(play_card(&mut state, name("alice"), red(Rank::Number(7)), None), Ok(Outcome::Applied));
    assert!(state.players[0].hand.is_empty());
    assert_eq!(state.phase, Phase::Finished);
    assert_eq!(state.winner, Some(name("alice")));
    // The turn does not pass on after the winning play.
    assert_eq!(state.current_turn, 0);
    assert!(state.is_wf());
}

#[test]
fn second_to_last_card_does_not_win() {
    let mut state = red_game();
    state.players[0].hand = vec![red(Rank::Number(7)), red(Rank::Number(6))];
    assert_eq!(play_card(&mut state, name("alice"), red(Rank::Number(7)), None), Ok(Outcome::Applied));
    assert_eq!(state.phase, Phase::Active);
    assert_eq!(state.winner, None);
    assert_eq!(state.current_turn, 1);
}

#[test]
fn winning_with_a_draw_two_still_makes_the_next_player_draw() {
    let mut state = red_game();
    state.players[0].hand = vec![red(Rank::DrawTwo)];
    let deck_before = state.deck.len();
    assert_eq!(play_card(&mut state, name("alice"), red(Rank::DrawTwo), None), Ok(Outcome::Applied));
    assert_eq!(state.phase, Phase::Finished);
    assert_eq!(state.winner, Some(name("alice")));
    assert_eq!(state.players[1].hand.len(), 9);
    assert_eq!(state.deck.len(), deck_before - 2);
    // The pointer stopped at the player who had to draw.
    assert_eq!(state.current_turn, 1);
}

#[test]
fn after_the_game_is_over_every_request_is_game_over() {
    let mut state = red_game();
    state.players[0].hand = vec![red(Rank::Number(7))];
    play_card(&mut state, name("alice"), red(Rank::Number(7)), None).unwrap();
    let before = state.clone();
    assert_eq!(
        play_card(&mut state, name("bob"), red(Rank::Number(8)), None),
        Err(ContractError::GameOver)
    );
    assert_eq!(
        play_card(&mut state, name("alice"), red(Rank::Number(8)), None),
        Err(ContractError::GameOver)
    );
    assert_eq!(draw_card(&mut state, name("bob")), Err(ContractError::GameOver));
    assert_eq!(draw_card(&mut state, name("alice")), Err(ContractError::GameOver));
    assert_eq!(join_game(&mut state, name("carol")), Err(ContractError::GameOver));
    assert_eq!(join_game(&mut state, name("bob")), Err(ContractError::GameOver));
    assert_eq!(leave_game(&mut state, name("bob")), Err(ContractError::GameOver));
    assert_eq!(leave_game(&mut state, name("nobody")), Err(ContractError::GameOver));
    assert_eq!(state, before);
}

#[test]
fn leave_unknown_player_is_player_not_found() {
    let mut state = two_player_game();
    let before = state.clone();
    assert_eq!(leave_game(&mut state, name("carol")), Err(ContractError::PlayerNotFound));
    assert_eq!(state, before);
}

#[test]
fn leave_below_the_minimum_ends_the_game_without_winner() {
    let mut state = two_player_game();
    assert_eq!(leave_game(&mut state, name("bob")), Ok(()));
    assert_eq!(state.phase, Phase::Finished);
    assert_eq!(state.winner, None);
    assert_eq!(state.players.len(), 1);
    assert_eq!(state.players[0].address, "alice");
    assert_eq!(state.current_turn, 0);
    // Bob's seven cards left the game with him.
    assert_eq!(total_cards(&state), 72 - 7);
    assert!(state.is_wf());
    assert_eq!(draw_card(&mut state, name("alice")), Err(ContractError::GameOver));
}

#[test]
fn leave_while_waiting_keeps_waiting() {
    let mut state = State::new(name("alice"), 3, 4).unwrap();
    join_game(&mut state, name("bob")).unwrap();
    assert_eq!(leave_game(&mut state, name("alice")), Ok(()));
    assert_eq!(state.phase, Phase::WaitingForPlayers);
    assert_eq!(state.players.len(), 1);
    assert_eq!(state.players[0].address, "bob");
    assert_eq!(state.current_turn, 0);
    assert_eq!(total_cards(&state), 72);
    assert_eq!(leave_game(&mut state, name("bob")), Ok(()));
    assert!(state.players.is_empty());
    assert_eq!(state.phase, Phase::WaitingForPlayers);
    assert_eq!(state.current_turn, 0);
    assert!(state.is_wf());
    // The table can fill up again.
    assert_eq!(join_game(&mut state, name("carol")), Ok(()));
    assert_eq!(state.players[0].address, "carol");
    assert!(state.is_wf());
}

#[test]
fn leave_before_the_pointer_moves_it_down() {
    let mut state = three_player_game();
    join_game(&mut state, name("dave")).unwrap();
    state.current_turn = 2;
    assert_eq!(leave_game(&mut state, name("alice")), Ok(()));
    assert_eq!(state.current_turn, 1);
    assert_eq!(state.players[state.current_turn].address, "carol");
    assert_eq!(state.phase, Phase::Active);
}

#[test]
fn leave_at_the_pointer_passes_the_turn_to_the_next_seat() {
    let mut state = three_player_game();
    join_game(&mut state, name("dave")).unwrap();
    state.current_turn = 1;
    assert_eq!(leave_game(&mut state, name("bob")), Ok(()));
    assert_eq!(state.current_turn, 1);
    assert_eq!(state.players[state.current_turn].address, "carol");
}

#[test]
fn leave_after_the_pointer_leaves_it_alone() {
    let mut state = three_player_game();
    join_game(&mut state, name("dave")).unwrap();
    state.current_turn = 1;
    assert_eq!(leave_game(&mut state, name("dave")), Ok(()));
    assert_eq!(state.current_turn, 1);
    assert_eq!(state.players[state.current_turn].address, "bob");
    assert_eq!(state.players.len(), 3);
}

#[test]
fn leave_of_the_last_seat_at_the_pointer_wraps_round() {
    let mut state = three_player_game();
    join_game(&mut state, name("dave")).unwrap();
    state.current_turn = 3;
    assert_eq!(leave_game(&mut state, name("dave")), Ok(()));
    assert_eq!(state.current_turn, 0);
    assert_eq!(state.players[state.current_turn].address, "alice");
}

#[test]
fn leave_takes_the_hand_out_of_the_game() {
    let mut state = three_player_game();
    join_game(&mut state, name("dave")).unwrap();
    assert_eq!(total_cards(&state), 72);
    assert_eq!(leave_game(&mut state, name("dave")), Ok(()));
    assert_eq!(total_cards(&state), 72);
    assert_eq!(leave_game(&mut state, name("carol")), Ok(()));
    assert_eq!(total_cards(&state), 72 - 7);
    assert_eq!(state.phase, Phase::Finished);
}

#[test]
fn reindex_turn_values() {
    assert_eq!(reindex_turn(2, 0, 3), 1);
    assert_eq!(reindex_turn(1, 1, 3), 1);
    assert_eq!(reindex_turn(1, 3, 3), 1);
    assert_eq!(reindex_turn(3, 3, 3), 0);
    assert_eq!(reindex_turn(0, 0, 1), 0);
    assert_eq!(reindex_turn(0, 0, 0), 0);
    assert_eq!(reindex_turn(5, 2, 0), 0);
}

#[test]
fn advance_values() {
    assert_eq!(advance(0, 1, 4), 1);
    assert_eq!(advance(3, 1, 4), 0);
    assert_eq!(advance(0, -1, 4), 3);
    assert_eq!(advance(2, -1, 4), 1);
    assert_eq!(advance(0, 1, 2), 1);
    assert_eq!(advance(1, 1, 2), 0);
    assert_eq!(advance(0, -1, 2), 1);
    assert_eq!(advance(0, 1, 1), 0);
    assert_eq!(advance(0, -1, 1), 0);
}

#[test]
fn is_skipping_values() {
    assert!(is_skipping(Rank::Skip, 2));
    assert!(is_skipping(Rank::Skip, 4));
    assert!(is_skipping(Rank::DrawTwo, 3));
    assert!(is_skipping(Rank::WildDrawFour, 3));
    assert!(is_skipping(Rank::Reverse, 2));
    assert!(!is_skipping(Rank::Reverse, 3));
    assert!(!is_skipping(Rank::Reverse, 4));
    assert!(!is_skipping(Rank::WildChangeColor, 2));
    assert!(!is_skipping(Rank::Number(7), 2));
}

#[test]
fn find_player_returns_the_seat() {
    let state = three_player_game();
    assert_eq!(find_player(&state.players, &name("alice")), Some(0));
    assert_eq!(find_player(&state.players, &name("bob")), Some(1));
    assert_eq!(find_player(&state.players, &name("carol")), Some(2));
    assert_eq!(find_player(&state.players, &name("dave")), None);
    assert_eq!(find_player(&state.players, &name("")), None);
    assert_eq!(find_player(&vec![], &name("alice")), None);
}

#[test]
fn find_card_returns_the_first_copy() {
    let hand = vec![WDF, WCC, WDF, green(Rank::Skip)];
    assert_eq!(find_card(&hand, WDF), Some(0));
    assert_eq!(find_card(&hand, WCC), Some(1));
    assert_eq!(find_card(&hand, green(Rank::Skip)), Some(3));
    assert_eq!(find_card(&hand, green(Rank::Reverse)), None);
    assert_eq!(find_card(&vec![], WDF), None);
}

#[test]
fn play_removes_the_first_copy_only() {
    let mut state = two_player_game();
    assert_eq!(play_card(&mut state, name("alice"), WDF, Some(Color::Green)), Ok(Outcome::Applied));
    assert_eq!(state.players[0].hand, vec![WCC, WDF, WCC, WDF, WCC, WDF]);
}

#[test]
fn execute_dispatches_each_request() {
    let mut state = instantiate(name("alice"), InstantiateMsg {});
    assert_eq!(execute(&mut state, name("bob"), ExecuteMsg::JoinGame {}), Ok(Outcome::Applied));
    assert_eq!(state, two_player_game());
    assert_eq!(execute(&mut state, name("alice"), ExecuteMsg::DrawCard {}), Ok(Outcome::Applied));
    assert_eq!(state.players[0].hand.len(), 8);
    assert_eq!(
        execute(
            &mut state,
            name("alice"),
            ExecuteMsg::PlayCard { card: WCC, declared_color: Some(Color::Green) }
        ),
        Ok(Outcome::Applied)
    );
    assert_eq!(state.current_turn, 1);
    assert_eq!(state.discard_pile, vec![card(Color::Green, Rank::WildChangeColor)]);
    assert_eq!(execute(&mut state, name("bob"), ExecuteMsg::LeaveGame {}), Ok(Outcome::Applied));
    assert_eq!(state.phase, Phase::Finished);
    assert_eq!(state.players.len(), 1);
}

#[test]
fn execute_reports_refusals_and_changes_nothing() {
    let mut state = two_player_game();
    let before = state.clone();
    assert_eq!(
        execute(&mut state, name("bob"), ExecuteMsg::DrawCard {}),
        Err(ContractError::NotYourTurn)
    );
    assert_eq!(
        execute(&mut state, name("alice"), ExecuteMsg::JoinGame {}),
        Err(ContractError::AlreadyJoined)
    );
    assert_eq!(
        execute(&mut state, name("zed"), ExecuteMsg::LeaveGame {}),
        Err(ContractError::PlayerNotFound)
    );
    assert_eq!(
        execute(&mut state, name("alice"), ExecuteMsg::PlayCard { card: WCC, declared_color: None }),
        Err(ContractError::MissingColorDeclaration)
    );
    assert_eq!(
        execute(
            &mut state,
            name("alice"),
            ExecuteMsg::PlayCard { card: green(Rank::Skip), declared_color: None }
        ),
        Err(ContractError::CardNotInHand)
    );
    assert_eq!(state, before);
}

#[test]
fn execute_reports_a_short_draw() {
    let mut state = two_player_game();
    state.deck.truncate(1);
    assert_eq!(
        execute(
            &mut state,
            name("alice"),
            ExecuteMsg::PlayCard { card: WDF, declared_color: Some(Color::Red) }
        ),
        Ok(Outcome::ShortDraw)
    );
}

#[test]
fn inventory_is_conserved_over_a_game_without_leaves() {
    let mut state = three_player_game();
    let requests = vec![
        (name("alice"), ExecuteMsg::DrawCard {}),
        (name("bob"), ExecuteMsg::DrawCard {}),
        (name("alice"), ExecuteMsg::PlayCard { card: WDF, declared_color: Some(Color::Green) }),
        (name("carol"), ExecuteMsg::PlayCard { card: green(Rank::Number(9)), declared_color: None }),
        (name("alice"), ExecuteMsg::PlayCard { card: green(Rank::Number(10)), declared_color: None }),
        (name("alice"), ExecuteMsg::PlayCard { card: WCC, declared_color: None }),
        (name("alice"), ExecuteMsg::PlayCard { card: WCC, declared_color: Some(Color::Green) }),
        (name("bob"), ExecuteMsg::PlayCard { card: green(Rank::Reverse), declared_color: None }),
        (name("dave"), ExecuteMsg::JoinGame {}),
        (name("alice"), ExecuteMsg::PlayCard { card: WDF, declared_color: Some(Color::Green) }),
        (name("carol"), ExecuteMsg::DrawCard {}),
        (name("carol"), ExecuteMsg::PlayCard { card: green(Rank::Number(8)), declared_color: None }),
        (name("bob"), ExecuteMsg::PlayCard { card: green(Rank::DrawTwo), declared_color: None }),
    ];
    for (sender, msg) in requests {
        let _ = execute(&mut state, sender, msg);
        assert_eq!(total_cards(&state), 72);
        assert!(state.is_wf());
    }
    assert!(state.discard_pile.len() >= 5);
}

#[test]
fn is_wf_refuses_broken_states() {
    let good = two_player_game();
    assert!(good.is_wf());

    let mut s = good.clone();
    s.current_turn = 2;
    assert!(!s.is_wf());

    let mut s = good.clone();
    s.direction = 0;
    assert!(!s.is_wf());

    let mut s = good.clone();
    s.direction = 2;
    assert!(!s.is_wf());

    let mut s = good.clone();
    s.players[1].address = name("alice");
    assert!(!s.is_wf());

    let mut s = good.clone();
    s.phase = Phase::WaitingForPlayers;
    assert!(!s.is_wf());

    let mut s = good.clone();
    s.winner = Some(name("alice"));
    assert!(!s.is_wf());

    let mut s = good.clone();
    s.required_players = 1;
    assert!(!s.is_wf());

    let mut s = good.clone();
    s.required_players = 5;
    assert!(!s.is_wf());

    let mut s = good.clone();
    s.required_players_max = 1;
    assert!(!s.is_wf());

    let mut s = good.clone();
    s.deck.push(card(Color::Wild, Rank::Skip));
    assert!(!s.is_wf());

    let mut s = good.clone();
    s.players[0].hand.push(card(Color::Red, Rank::WildDrawFour));
    assert!(!s.is_wf());

    let mut s = good.clone();
    s.discard_pile.push(card(Color::Wild, Rank::Number(3)));
    assert!(!s.is_wf());

    let mut s = good.clone();
    s.discard_pile.push(card(Color::Red, Rank::Number(11)));
    assert!(!s.is_wf());

    let mut s = good.clone();
    s.players.pop();
    assert!(!s.is_wf());

    let mut s = instantiate(name("alice"), InstantiateMsg {});
    s.players[0].hand.push(WCC);
    assert!(!s.is_wf());

    let mut s = instantiate(name("alice"), InstantiateMsg {});
    s.players.clear();
    s.current_turn = 1;
    assert!(!s.is_wf());
}

#[test]
fn is_wf_accepts_played_wild_cards_on_the_pile() {
    let mut s = two_player_game();
    s.discard_pile.push(card(Color::Red, Rank::WildDrawFour));
    s.discard_pile.push(card(Color::Wild, Rank::WildChangeColor));
    s.discard_pile.push(card(Color::Blue, Rank::Number(0)));
    assert!(s.is_wf());
}
