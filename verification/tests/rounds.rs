use koikoi::cards::Card;
use koikoi::round::{RoundState, State};

fn c(suit: u8, rank: u8) -> Card {
    Card { suit, rank }
}

fn striped() -> Vec<Card> {
    let mut deck = Vec::new();
    for rank in 1..5u8 {
        for suit in 1..13u8 {
            deck.push(c(suit, rank));
        }
    }
    deck
}

fn fill_deck(h0: &[Card], h1: &[Card], field: &[Card]) -> Vec<Card> {
    let mut deck: Vec<Card> = Vec::new();
    deck.extend_from_slice(h0);
    deck.extend_from_slice(h1);
    deck.extend_from_slice(field);
    for suit in 1..13u8 {
        for rank in 1..5u8 {
            let card = c(suit, rank);
            if !deck.contains(&card) {
                deck.push(card);
            }
        }
    }
    deck
}

/// Plays one full turn for whoever acts, answering every ambiguous
/// pairing with the first candidate and handing `claim` to the
/// koi-koi step.
fn play_turn(st: &mut RoundState, claim: Option<bool>) {
    let tp = st.turn_player();
    let card = if tp == 0 { st.hand0[0] } else { st.hand1[0] };
    st.discard(card).unwrap();
    let pick = if st.wait_action() { Some(st.pairing_card()[0]) } else { None };
    st.discard_pick(pick).unwrap();
    st.draw().unwrap();
    assert_eq!(st.current_state(), State::DrawPick);
    let pick = if st.wait_action() { Some(st.pairing_card()[0]) } else { None };
    st.draw_pick(pick).unwrap();
    st.claim_koikoi(claim).unwrap();
}

#[test]
fn replaying_actions_gives_same_trajectory() {
    let mut a = RoundState::new(Some(0));
    let mut b = RoundState::new(Some(0));
    a.deal(&striped()).unwrap();
    b.deal(&striped()).unwrap();
    for _ in 0..5 {
        play_turn(&mut a, None);
        play_turn(&mut b, None);
        assert_eq!(a.hand0, b.hand0);
        assert_eq!(a.hand1, b.hand1);
        assert_eq!(a.pile0, b.pile0);
        assert_eq!(a.pile1, b.pile1);
        assert_eq!(a.field(), b.field());
        assert_eq!(a.stock, b.stock);
        assert_eq!(a.current_state(), b.current_state());
        assert_eq!(a.turn_player(), b.turn_player());
    }
}

#[test]
fn conservation_across_a_whole_round() {
    let mut st = RoundState::new(Some(0));
    st.deal(&striped()).unwrap();
    for turn in 0..16 {
        // between turns: both hands, both piles, field and stock hold
        // each of the 48 cards exactly once
        let mut all: Vec<Card> = Vec::new();
        all.extend_from_slice(&st.hand0);
        all.extend_from_slice(&st.hand1);
        all.extend_from_slice(&st.pile0);
        all.extend_from_slice(&st.pile1);
        all.extend_from_slice(&st.field());
        all.extend_from_slice(&st.stock);
        assert_eq!(all.len(), 48, "turn {}", turn);
        for suit in 1..13u8 {
            for rank in 1..5u8 {
                assert!(all.contains(&c(suit, rank)));
            }
        }
        play_turn(&mut st, None);
    }
    assert_eq!(st.current_state(), State::RoundOver);
}

#[test]
fn stop_declaration_ends_round_with_transfer() {
    let mut st = RoundState::new(Some(0));
    st.deal(&striped()).unwrap();
    let tp = st.turn_player();
    play_turn(&mut st, Some(false));
    assert_eq!(st.current_state(), State::RoundOver);
    let winner_points = st.yaku_point(tp);
    assert_eq!(st.round_point(tp), Some(winner_points));
    assert_eq!(st.round_point(1 - tp), Some(-winner_points));
}

#[test]
fn koikoi_declaration_is_recorded() {
    let mut st = RoundState::new(Some(0));
    st.deal(&striped()).unwrap();
    let tp = st.turn_player();
    assert_eq!(st.koikoi_num(tp), 0);
    play_turn(&mut st, Some(true));
    assert_eq!(st.current_state(), State::Discard);
    assert_eq!(st.koikoi_num(tp), 1);
    assert_eq!(st.koikoi_num(1 - tp), 0);
}

#[test]
fn koikoi_on_final_own_turn_is_forced_to_stop() {
    let mut st = RoundState::new(Some(0));
    st.deal(&striped()).unwrap();
    for _ in 0..14 {
        play_turn(&mut st, None);
    }
    // fifteenth global turn: the dealer's eighth and final own turn
    assert_eq!(st.turn_8(), 8);
    let tp = st.turn_player();
    play_turn(&mut st, Some(true));
    // the continuation claim behaves as a stop: round over, claimant
    // wins, and nothing was recorded as a koi-koi
    assert_eq!(st.current_state(), State::RoundOver);
    assert_eq!(st.koikoi_num(tp), 0);
    let winner_points = st.yaku_point(tp);
    assert_eq!(st.round_point(tp), Some(winner_points));
    assert_eq!(st.round_point(1 - tp), Some(-winner_points));
}

#[test]
fn exhausted_round_pays_the_dealer() {
    let mut st = RoundState::new(Some(1));
    st.deal(&striped()).unwrap();
    for _ in 0..16 {
        play_turn(&mut st, None);
    }
    assert_eq!(st.current_state(), State::RoundOver);
    assert_eq!(st.round_point(1), Some(1));
    assert_eq!(st.round_point(0), Some(-1));
}

#[test]
fn five_lights_completed_by_collection() {
    // the acting player already holds four lights; collecting the
    // phoenix must yield "Five Lights" alone
    let h0 = [c(12, 1), c(2, 1), c(3, 3), c(4, 1), c(5, 1), c(6, 1), c(7, 1), c(8, 3)];
    let h1 = [c(9, 1), c(10, 1), c(11, 3), c(1, 3), c(2, 3), c(4, 3), c(5, 4), c(6, 3)];
    let field = [c(12, 2), c(1, 2), c(2, 2), c(3, 2), c(4, 2), c(5, 2), c(6, 2), c(7, 2)];
    let mut st = RoundState::new(Some(0));
    st.deal(&fill_deck(&h0, &h1, &field)).unwrap();
    st.pile0.push(c(1, 1));
    st.pile0.push(c(3, 1));
    st.pile0.push(c(8, 1));
    st.pile0.push(c(11, 1));
    st.discard(c(12, 1)).unwrap();
    assert!(!st.wait_action());
    st.discard_pick(None).unwrap();
    assert!(st.pile0.contains(&c(12, 1)));
    let yaku = st.yaku(0);
    let lights: Vec<_> = yaku.iter().filter(|e| e.0 <= 4).collect();
    assert_eq!(lights.len(), 1);
    assert_eq!(lights[0].1, "Five Lights");
    assert_eq!(lights[0].2, 10);
    assert_eq!(st.yaku_point(0), 10);
}
