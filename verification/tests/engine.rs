use koikoi::cards::Card;
use koikoi::round::{IllegalAction, RoundState, State};

fn c(suit: u8, rank: u8) -> Card {
    Card { suit, rank }
}

/// A legal deck laid out rank by rank: no suit ends up whole in one
/// dealt container.
fn striped_deck() -> Vec<Card> {
    let mut deck = Vec::new();
    for rank in 1..5u8 {
        for suit in 1..13u8 {
            deck.push(c(suit, rank));
        }
    }
    deck
}

/// A deck with chosen hands and field; the remaining cards fill the
/// stock in (suit, rank) order.
fn build_deck(h0: &[Card], h1: &[Card], field: &[Card]) -> Vec<Card> {
    assert_eq!(h0.len(), 8);
    assert_eq!(h1.len(), 8);
    assert_eq!(field.len(), 8);
    let mut deck: Vec<Card> = Vec::new();
    deck.extend_from_slice(h0);
    deck.extend_from_slice(h1);
    deck.extend_from_slice(field);
    for suit in 1..13u8 {
        for rank in 1..5u8 {
            let card = c(suit, rank);
            if !deck.contains(&card) {
                deck.push(card);
            }
        }
    }
    assert_eq!(deck.len(), 48);
    deck
}

#[test]
fn deal_splits_deck() {
    let mut st = RoundState::new(Some(0));
    assert_eq!(st.current_state(), State::Init);
    st.deal(&striped_deck()).unwrap();
    assert_eq!(st.current_state(), State::Discard);
    assert!(st.wait_action());
    assert_eq!(st.hand0.len(), 8);
    assert_eq!(st.hand1.len(), 8);
    assert_eq!(st.stock.len(), 24);
    let field = st.field();
    assert_eq!(field.len(), 8);
    // the field block was suits 5..=12 of rank 2, and comes back sorted
    for (i, card) in field.iter().enumerate() {
        assert_eq!(*card, c(5 + i as u8, 2));
    }
    // hands come back sorted too
    for (i, card) in st.hand0.iter().enumerate() {
        assert_eq!(*card, c(1 + i as u8, 1));
    }
    assert_eq!(st.turn_player(), 0);
}

#[test]
fn deal_rejects_ordered_deck() {
    // in (suit, rank) order the first hand holds all four cards of
    // suit 1: the reshuffle guard must trip
    let mut deck = Vec::new();
    for suit in 1..13u8 {
        for rank in 1..5u8 {
            deck.push(c(suit, rank));
        }
    }
    let mut st = RoundState::new(None);
    assert_eq!(st.deal(&deck), Err(IllegalAction::SuitConcentrated));
    assert_eq!(st.current_state(), State::Init);
}

#[test]
fn deal_rejects_bad_deck() {
    let mut short = striped_deck();
    short.pop();
    let mut st = RoundState::new(None);
    assert_eq!(st.deal(&short), Err(IllegalAction::BadDeck));

    let mut dup = striped_deck();
    dup[0] = dup[1];
    assert_eq!(st.deal(&dup), Err(IllegalAction::BadDeck));

    let mut fake = striped_deck();
    fake[0] = c(13, 1);
    assert_eq!(st.deal(&fake), Err(IllegalAction::BadDeck));
}

#[test]
fn actions_reject_wrong_state() {
    let mut st = RoundState::new(Some(0));
    assert_eq!(st.discard(c(1, 1)), Err(IllegalAction::WrongState));
    assert_eq!(st.draw(), Err(IllegalAction::WrongState));
    assert_eq!(st.discard_pick(None), Err(IllegalAction::WrongState));
    assert_eq!(st.draw_pick(None), Err(IllegalAction::WrongState));
    assert_eq!(st.claim_koikoi(None), Err(IllegalAction::WrongState));
    st.deal(&striped_deck()).unwrap();
    assert_eq!(st.draw(), Err(IllegalAction::WrongState));
    assert_eq!(st.deal(&striped_deck()), Err(IllegalAction::WrongState));
}

#[test]
fn discard_rejects_foreign_card() {
    let mut st = RoundState::new(Some(0));
    st.deal(&striped_deck()).unwrap();
    // (9, 1) sits in the second player's hand
    assert_eq!(st.discard(c(9, 1)), Err(IllegalAction::NotInHand));
    assert_eq!(st.current_state(), State::Discard);
}

#[test]
fn unmatched_discard_joins_field() {
    let mut st = RoundState::new(Some(0));
    st.deal(&striped_deck()).unwrap();
    // field holds suits 5..=12 (rank 2); suit 1 cannot pair
    st.discard(c(1, 1)).unwrap();
    assert_eq!(st.current_state(), State::DiscardPick);
    assert!(!st.wait_action());
    st.discard_pick(None).unwrap();
    assert_eq!(st.current_state(), State::Draw);
    let field = st.field();
    assert_eq!(field.len(), 9);
    assert!(field.contains(&c(1, 1)));
    assert!(st.pile0.is_empty());
    assert!(st.collect.is_empty());
}

#[test]
fn single_match_collects_both() {
    let mut st = RoundState::new(Some(0));
    st.deal(&striped_deck()).unwrap();
    // (5, 1) pairs with the single (5, 2) on the field
    st.discard(c(5, 1)).unwrap();
    assert!(!st.wait_action());
    st.discard_pick(None).unwrap();
    assert_eq!(st.pile0, vec![c(5, 1), c(5, 2)]);
    assert_eq!(st.collect, vec![c(5, 1), c(5, 2)]);
    assert_eq!(st.field_collect(), vec![c(5, 2)]);
    let field = st.field();
    assert_eq!(field.len(), 7);
    assert!(!field.contains(&c(5, 2)));
}

#[test]
fn triple_match_sweeps_suit() {
    let h0 = [c(2, 1), c(1, 1), c(3, 1), c(4, 1), c(5, 1), c(6, 1), c(7, 1), c(8, 1)];
    let h1 = [c(9, 1), c(10, 1), c(11, 1), c(12, 1), c(1, 3), c(3, 3), c(4, 3), c(5, 3)];
    let field = [c(2, 2), c(2, 3), c(2, 4), c(6, 2), c(7, 2), c(8, 2), c(9, 2), c(10, 2)];
    let mut st = RoundState::new(Some(0));
    st.deal(&build_deck(&h0, &h1, &field)).unwrap();
    st.discard(c(2, 1)).unwrap();
    // three same-suit cards: no choice to make
    assert!(!st.wait_action());
    st.discard_pick(None).unwrap();
    assert_eq!(st.pile0.len(), 4);
    assert!(st.pile0.contains(&c(2, 1)));
    assert!(st.pile0.contains(&c(2, 2)));
    assert!(st.pile0.contains(&c(2, 3)));
    assert!(st.pile0.contains(&c(2, 4)));
    let field_now = st.field();
    assert_eq!(field_now.len(), 5);
    assert!(!field_now.contains(&c(2, 2)));
}

#[test]
fn ambiguous_discard_requires_pick() {
    let h0 = [c(1, 1), c(2, 1), c(3, 1), c(4, 1), c(5, 1), c(6, 1), c(7, 1), c(8, 1)];
    let h1 = [c(9, 1), c(10, 1), c(11, 1), c(12, 1), c(2, 3), c(3, 3), c(4, 3), c(5, 3)];
    let field = [c(1, 2), c(1, 3), c(6, 2), c(7, 2), c(8, 2), c(9, 2), c(10, 2), c(11, 2)];
    let mut st = RoundState::new(Some(0));
    st.deal(&build_deck(&h0, &h1, &field)).unwrap();
    st.discard(c(1, 1)).unwrap();
    // exactly two field cards share the suit: the caller must choose
    assert!(st.wait_action());
    assert_eq!(st.pairing_card(), vec![c(1, 2), c(1, 3)]);
    assert_eq!(st.discard_pick(None), Err(IllegalAction::PickRequired));
    assert_eq!(st.discard_pick(Some(c(6, 2))), Err(IllegalAction::PickNotPairing));
    st.discard_pick(Some(c(1, 2))).unwrap();
    assert_eq!(st.pile0, vec![c(1, 1), c(1, 2)]);
    let field_now = st.field();
    assert!(field_now.contains(&c(1, 3)));
    assert!(!field_now.contains(&c(1, 2)));
}

#[test]
fn pick_forbidden_without_ambiguity() {
    let mut st = RoundState::new(Some(0));
    st.deal(&striped_deck()).unwrap();
    st.discard(c(1, 1)).unwrap();
    assert!(!st.wait_action());
    assert_eq!(st.discard_pick(Some(c(5, 2))), Err(IllegalAction::PickForbidden));
}

#[test]
fn draw_pops_stock_top() {
    let mut st = RoundState::new(Some(0));
    st.deal(&striped_deck()).unwrap();
    st.discard(c(1, 1)).unwrap();
    st.discard_pick(None).unwrap();
    // the stock was ranks 3 and 4 in order; its top is (12, 4)
    st.draw().unwrap();
    assert_eq!(st.current_state(), State::DrawPick);
    assert_eq!(st.show, Some(c(12, 4)));
    assert_eq!(st.stock.len(), 23);
    // (12, 2) sits alone on the field: a single pairing
    assert!(!st.wait_action());
    st.draw_pick(None).unwrap();
    assert_eq!(st.current_state(), State::KoiKoi);
    assert_eq!(st.pile0, vec![c(12, 4), c(12, 2)]);
}

#[test]
fn ambiguous_draw_requires_pick() {
    let h0 = [c(1, 1), c(2, 1), c(4, 1), c(5, 1), c(6, 1), c(7, 1), c(8, 1), c(9, 1)];
    let h1 = [c(10, 1), c(11, 1), c(12, 1), c(1, 2), c(2, 2), c(4, 2), c(5, 2), c(6, 2)];
    let field = [c(3, 1), c(3, 2), c(7, 2), c(8, 2), c(9, 2), c(10, 2), c(11, 2), c(12, 2)];
    let mut deck = build_deck(&h0, &h1, &field);
    // put a third suit-3 card on top of the stock (the stock's top is
    // the deck's last card)
    let pos = deck.iter().position(|&x| x == c(3, 4)).unwrap();
    deck.swap(pos, 47);
    let mut st = RoundState::new(Some(0));
    st.deal(&deck).unwrap();
    st.discard(c(1, 1)).unwrap();
    assert!(!st.wait_action());
    st.discard_pick(None).unwrap();
    st.draw().unwrap();
    assert_eq!(st.show, Some(c(3, 4)));
    assert!(st.wait_action());
    assert_eq!(st.pairing_card(), vec![c(3, 1), c(3, 2)]);
    assert_eq!(st.draw_pick(None), Err(IllegalAction::PickRequired));
    assert_eq!(st.draw_pick(Some(c(7, 2))), Err(IllegalAction::PickNotPairing));
    st.draw_pick(Some(c(3, 1))).unwrap();
    assert_eq!(st.current_state(), State::KoiKoi);
    assert_eq!(st.pile0, vec![c(3, 4), c(3, 1)]);
    let field_now = st.field();
    assert!(field_now.contains(&c(3, 2)));
    assert!(!field_now.contains(&c(3, 1)));
}

#[test]
fn draw_pick_forbidden_without_ambiguity() {
    let mut st = RoundState::new(Some(0));
    st.deal(&striped_deck()).unwrap();
    st.discard(c(1, 1)).unwrap();
    st.discard_pick(None).unwrap();
    st.draw().unwrap();
    assert!(!st.wait_action());
    assert_eq!(st.draw_pick(Some(c(12, 2))), Err(IllegalAction::PickForbidden));
    st.draw_pick(None).unwrap();
    assert_eq!(st.current_state(), State::KoiKoi);
}

#[test]
fn turn_alternates_from_dealer() {
    let mut st = RoundState::new(Some(1));
    st.deal(&striped_deck()).unwrap();
    assert_eq!(st.turn_player(), 1);
    assert_eq!(st.idle_player(), 0);
    assert_eq!(st.turn_8(), 1);
    let card = st.hand1[0];
    st.discard(card).unwrap();
    let pick = if st.wait_action() { Some(st.pairing_card()[0]) } else { None };
    st.discard_pick(pick).unwrap();
    st.draw().unwrap();
    let pick = if st.wait_action() { Some(st.pairing_card()[0]) } else { None };
    st.draw_pick(pick).unwrap();
    st.claim_koikoi(None).unwrap();
    assert_eq!(st.current_state(), State::Discard);
    assert_eq!(st.turn_player(), 0);
    assert_eq!(st.turn_8(), 1);
}

#[test]
fn unseen_cards_are_stock_and_other_hand() {
    let mut st = RoundState::new(Some(0));
    st.deal(&striped_deck()).unwrap();
    let unseen = st.unseen_cards(0);
    assert_eq!(unseen.len(), 32);
    for card in &st.stock {
        assert!(unseen.contains(card));
    }
    for card in &st.hand1 {
        assert!(unseen.contains(card));
    }
    for card in &st.hand0 {
        assert!(!unseen.contains(card));
    }
}

#[test]
fn round_point_is_none_while_running() {
    let mut st = RoundState::new(Some(0));
    st.deal(&striped_deck()).unwrap();
    assert_eq!(st.round_point(0), None);
    assert_eq!(st.round_point(1), None);
}
