//! The round state machine: hands, piles, field, stock, the turn cycle,
//! and the legality rules of every action.

use vstd::prelude::*;
use vstd::multiset::Multiset;
use crate::cards::{
    Card, card_leq, contains_card, copy_cards, deck_ms, filter_suit, is_full_deck,
    lemma_card_leq_total, lemma_full_deck_ms, sort_cards, suit_filter,
};
use crate::yaku;

verus! {

/// The explicit control states of a round.
#[derive(Clone, Copy, PartialEq, Eq, Structural, Debug)]
pub enum State {
    Init,
    Discard,
    DiscardPick,
    Draw,
    DrawPick,
    KoiKoi,
    RoundOver,
}

/// Why an action was rejected. A rejected action never mutates the
/// round.
#[derive(Clone, Copy, PartialEq, Eq, Structural, Debug)]
pub enum IllegalAction {
    /// The action does not belong to the current state.
    WrongState,
    /// The discarded card is not in the acting player's hand.
    NotInHand,
    /// An ambiguous pairing needs a choice, but none was given.
    PickRequired,
    /// A choice was given although the pairing was not ambiguous.
    PickForbidden,
    /// The chosen card is not one of the pairing candidates.
    PickNotPairing,
    /// The deck handed to `deal` is not one copy of the 48 cards.
    BadDeck,
    /// The deal guard tripped: one suit lies whole in a single
    /// container, so the caller must reshuffle and deal again.
    SuitConcentrated,
}

/// One round's complete state. The card containers are public so that
/// collaborators (renderers, feature builders) can read them; the
/// bookkeeping fields are reached through the query methods.
pub struct RoundState {
    /// The two players' hands.
    pub hand0: Vec<Card>,
    pub hand1: Vec<Card>,
    /// The two players' collected piles.
    pub pile0: Vec<Card>,
    pub pile1: Vec<Card>,
    /// The shared field: a fixed arena of optional card slots.
    pub field_slots: Vec<Option<Card>>,
    /// The undealt remainder; `draw` pops from the back.
    pub stock: Vec<Card>,
    /// The card currently in play, between a discard or draw and its
    /// resolution.
    pub show: Option<Card>,
    /// The cards the last collection event moved to a pile (shown card
    /// first) — telemetry only, never rules input.
    pub collect: Vec<Card>,
    /// The global turn index, 1..=16; one full cycle per discard.
    pub turn_16: usize,
    /// Who deals and acts first; fixed for the round.
    pub dealer: usize,
    /// Per own-turn koi-koi declarations of each player.
    pub koikoi0: Vec<bool>,
    pub koikoi1: Vec<bool>,
    /// Set once, at round end.
    pub winner: Option<usize>,
    pub exhausted: bool,
    /// The acting player's score snapshot taken at discard time.
    pub turn_point: i32,
    /// The control state.
    pub state: State,
    /// Whether the pending action needs caller input.
    pub wait_action: bool,
}

pub open spec fn opt_seq(o: Option<Card>) -> Seq<Card> {
    match o {
        Some(c) => seq![c],
        None => Seq::<Card>::empty(),
    }
}

/// The cards sitting in occupied field slots, in slot order.
pub open spec fn occ_seq(slots: Seq<Option<Card>>) -> Seq<Card>
    decreases slots.len(),
{
    if slots.len() == 0 {
        Seq::<Card>::empty()
    } else {
        occ_seq(slots.drop_last()) + opt_seq(slots.last())
    }
}

proof fn lemma_empty_ms()
    ensures
        Seq::<Card>::empty().to_multiset() =~= Multiset::<Card>::empty(),
        forall|c: Card| Seq::<Card>::empty().to_multiset().count(c) == 0,
{
    broadcast use vstd::multiset::group_multiset_axioms;

    Seq::<Card>::empty().to_multiset_ensures();
    assert forall|c: Card| Seq::<Card>::empty().to_multiset().count(c) == 0 by {
        assert(!Seq::<Card>::empty().contains(c));
    };
}

proof fn lemma_opt_ms(o: Option<Card>)
    ensures
        forall|c: Card|
            opt_seq(o).to_multiset().count(c) == if o == Some(c) {
                1int
            } else {
                0int
            },
{
    broadcast use vstd::multiset::group_multiset_axioms;

    lemma_empty_ms();
    match o {
        Some(x) => {
            assert(opt_seq(o) =~= Seq::<Card>::empty().push(x));
            Seq::<Card>::empty().to_multiset_ensures();
            assert(opt_seq(o).to_multiset() =~= Seq::<Card>::empty().to_multiset().insert(x));
        },
        None => {},
    }
}

proof fn lemma_singleton_ms(c: Card)
    ensures
        forall|x: Card|
            seq![c].to_multiset().count(x) == if x == c {
                1int
            } else {
                0int
            },
{
    broadcast use vstd::multiset::group_multiset_axioms;

    lemma_empty_ms();
    assert(seq![c] =~= Seq::<Card>::empty().push(c));
    Seq::<Card>::empty().to_multiset_ensures();
    assert(seq![c].to_multiset() =~= Seq::<Card>::empty().to_multiset().insert(c));
}

/// Replacing one slot trades its old content for the new one in the
/// occupied multiset.
proof fn lemma_occ_update(slots: Seq<Option<Card>>, i: int, v: Option<Card>)
    requires
        0 <= i < slots.len(),
    ensures
        occ_seq(slots.update(i, v)).to_multiset().add(opt_seq(slots[i]).to_multiset())
            =~= occ_seq(slots).to_multiset().add(opt_seq(v).to_multiset()),
    decreases slots.len(),
{
    broadcast use vstd::multiset::group_multiset_axioms;

    let upd = slots.update(i, v);
    assert(occ_seq(upd) == occ_seq(upd.drop_last()) + opt_seq(upd.last()));
    assert(occ_seq(slots) == occ_seq(slots.drop_last()) + opt_seq(slots.last()));
    if i == slots.len() - 1 {
        assert(upd.drop_last() =~= slots.drop_last());
        assert(upd.last() == v);
        assert(slots.last() == slots[i]);
        vstd::seq_lib::lemma_multiset_commutative(occ_seq(slots.drop_last()), opt_seq(v));
        vstd::seq_lib::lemma_multiset_commutative(occ_seq(slots.drop_last()), opt_seq(slots[i]));
        assert(occ_seq(upd) == occ_seq(slots.drop_last()) + opt_seq(v));
        assert(occ_seq(upd).to_multiset() =~= occ_seq(slots.drop_last()).to_multiset().add(
            opt_seq(v).to_multiset(),
        ));
        assert(occ_seq(slots).to_multiset() =~= occ_seq(slots.drop_last()).to_multiset().add(
            opt_seq(slots[i]).to_multiset(),
        ));
    } else {
        assert(upd.drop_last() =~= slots.drop_last().update(i, v));
        assert(upd.last() == slots.last());
        lemma_occ_update(slots.drop_last(), i, v);
        assert(slots.drop_last()[i] == slots[i]);
        vstd::seq_lib::lemma_multiset_commutative(
            occ_seq(slots.drop_last().update(i, v)),
            opt_seq(slots.last()),
        );
        vstd::seq_lib::lemma_multiset_commutative(occ_seq(slots.drop_last()), opt_seq(slots.last()));
        assert(occ_seq(upd) == occ_seq(slots.drop_last().update(i, v)) + opt_seq(slots.last()));
        assert(occ_seq(upd).to_multiset() =~= occ_seq(
            slots.drop_last().update(i, v),
        ).to_multiset().add(opt_seq(slots.last()).to_multiset()));
        assert(occ_seq(slots).to_multiset() =~= occ_seq(slots.drop_last()).to_multiset().add(
            opt_seq(slots.last()).to_multiset(),
        ));
        assert(occ_seq(slots.drop_last().update(i, v)).to_multiset().add(
            opt_seq(slots[i]).to_multiset(),
        ) =~= occ_seq(slots.drop_last()).to_multiset().add(opt_seq(v).to_multiset()));
    }
    assert forall|x: Card|
        occ_seq(upd).to_multiset().add(opt_seq(slots[i]).to_multiset()).count(x) == occ_seq(
            slots,
        ).to_multiset().add(opt_seq(v).to_multiset()).count(x) by {
        if i < slots.len() - 1 {
            assert(occ_seq(slots.drop_last().update(i, v)).to_multiset().add(
                opt_seq(slots[i]).to_multiset(),
            ).count(x) == occ_seq(slots.drop_last()).to_multiset().add(
                opt_seq(v).to_multiset(),
            ).count(x));
        }
    };
    assert(occ_seq(upd).to_multiset().add(opt_seq(slots[i]).to_multiset()) =~= occ_seq(
        slots,
    ).to_multiset().add(opt_seq(v).to_multiset()));
}

/// A card occupies some slot exactly when the occupied multiset holds
/// it.
proof fn lemma_occ_contains(slots: Seq<Option<Card>>, c: Card)
    ensures
        occ_seq(slots).to_multiset().count(c) > 0 <==> exists|i: int|
            0 <= i < slots.len() && slots[i] == Some(c),
    decreases slots.len(),
{
    broadcast use vstd::multiset::group_multiset_axioms;

    if slots.len() == 0 {
        lemma_empty_ms();
    } else {
        lemma_occ_contains(slots.drop_last(), c);
        vstd::seq_lib::lemma_multiset_commutative(occ_seq(slots.drop_last()), opt_seq(slots.last()));
        lemma_opt_ms(slots.last());
        if occ_seq(slots).to_multiset().count(c) > 0 {
            if slots.last() == Some(c) {
                assert(slots[slots.len() - 1] == Some(c));
            } else {
                let i = choose|i: int|
                    0 <= i < slots.drop_last().len() && slots.drop_last()[i] == Some(c);
                assert(slots[i] == Some(c));
            }
        }
        if exists|i: int| 0 <= i < slots.len() && slots[i] == Some(c) {
            let i = choose|i: int| 0 <= i < slots.len() && slots[i] == Some(c);
            if i == slots.len() - 1 {
                assert(opt_seq(slots.last()).to_multiset().count(c) == 1);
            } else {
                assert(slots.drop_last()[i] == Some(c));
            }
        }
    }
}

/// The slots left after every card of one suit is collected.
pub open spec fn clear_matching(slots: Seq<Option<Card>>, su: u8) -> Seq<Option<Card>> {
    Seq::new(
        slots.len(),
        |i: int|
            match slots[i] {
                Some(c) => if c.suit == su {
                    None
                } else {
                    Some(c)
                },
                None => None,
            },
    )
}

/// Clearing one suit keeps exactly the occupied cards of the other
/// suits, in order.
proof fn lemma_occ_clear(slots: Seq<Option<Card>>, su: u8)
    ensures
        occ_seq(clear_matching(slots, su)) == occ_seq(slots).filter(crate::cards::not_suit(su)),
    decreases slots.len(),
{
    reveal(Seq::filter);
    let cl = clear_matching(slots, su);
    if slots.len() == 0 {
        assert(cl =~= Seq::<Option<Card>>::empty());
        assert(occ_seq(slots).filter(crate::cards::not_suit(su)) =~= Seq::<Card>::empty());
    } else {
        lemma_occ_clear(slots.drop_last(), su);
        assert(cl.drop_last() =~= clear_matching(slots.drop_last(), su));
        assert(cl.last() == (match slots.last() {
            Some(c) => if c.suit == su {
                None
            } else {
                Some(c)
            },
            None => None,
        }));
        let rest = occ_seq(slots.drop_last());
        match slots.last() {
            Some(c) => {
                assert(occ_seq(slots) =~= rest.push(c));
                rest.lemma_filter_push(c, crate::cards::not_suit(su));
                if c.suit == su {
                    assert(occ_seq(cl) =~= occ_seq(cl.drop_last()));
                } else {
                    assert(occ_seq(cl) =~= occ_seq(cl.drop_last()).push(c));
                }
            },
            None => {
                assert(occ_seq(slots) =~= rest);
                assert(occ_seq(cl) =~= occ_seq(cl.drop_last()));
            },
        }
    }
}

/// Finds the first slot holding the given card.
fn find_slot(slots: &Vec<Option<Card>>, c: Card) -> (k: usize)
    requires
        exists|i: int| 0 <= i < slots@.len() && slots@[i] == Some(c),
    ensures
        k < slots@.len(),
        slots@[k as int] == Some(c),
        forall|j: int| 0 <= j < k ==> slots@[j] != Some(c),
{
    let mut i: usize = 0;
    while i < slots.len()
        invariant
            i <= slots@.len(),
            exists|j: int| 0 <= j < slots@.len() && slots@[j] == Some(c),
            forall|j: int| 0 <= j < i ==> slots@[j] != Some(c),
        decreases slots@.len() - i,
    {
        match slots[i] {
            Some(x) => {
                if x == c {
                    return i;
                }
            },
            None => {},
        }
        i = i + 1;
    }
    proof {
        assert(false);
    }
    0
}

/// Finds the first empty slot, if any.
fn first_empty_slot(slots: &Vec<Option<Card>>) -> (r: Option<usize>)
    ensures
        match r {
            Some(k) => k < slots@.len() && slots@[k as int] is None && forall|j: int|
                0 <= j < k ==> slots@[j] is Some,
            None => forall|j: int| 0 <= j < slots@.len() ==> slots@[j] is Some,
        },
{
    let mut i: usize = 0;
    while i < slots.len()
        invariant
            i <= slots@.len(),
            forall|j: int| 0 <= j < i ==> slots@[j] is Some,
        decreases slots@.len() - i,
    {
        match slots[i] {
            Some(_) => {},
            None => {
                return Some(i);
            },
        }
        i = i + 1;
    }
    None
}

/// Rewrites one slot.
fn set_slot(slots: &mut Vec<Option<Card>>, i: usize, v: Option<Card>)
    requires
        i < old(slots)@.len(),
    ensures
        final(slots)@ == old(slots)@.update(i as int, v),
{
    slots[i] = v;
}

/// A copy of the slots with every card of one suit removed.
fn clear_suit(slots: &Vec<Option<Card>>, su: u8) -> (r: Vec<Option<Card>>)
    ensures
        r@ == clear_matching(slots@, su),
{
    let mut r: Vec<Option<Card>> = Vec::new();
    let mut i: usize = 0;
    while i < slots.len()
        invariant
            i <= slots@.len(),
            r@.len() == i,
            forall|j: int| 0 <= j < i ==> r@[j] == clear_matching(slots@, su)[j],
        decreases slots@.len() - i,
    {
        match slots[i] {
            Some(c) => {
                if c.suit == su {
                    r.push(None);
                } else {
                    r.push(Some(c));
                }
            },
            None => {
                r.push(None);
            },
        }
        i = i + 1;
    }
    proof {
        assert(r@ =~= clear_matching(slots@, su));
    }
    r
}

fn set_bool(v: &mut Vec<bool>, i: usize, b: bool)
    requires
        i < old(v)@.len(),
    ensures
        final(v)@ == old(v)@.update(i as int, b),
{
    v[i] = b;
}

/// Every card the round has placed somewhere, as a multiset: both
/// hands, both piles, the stock, the occupied field slots, and the
/// shown card when one is in flight.
pub open spec fn placed_ms(s: RoundState) -> Multiset<Card> {
    s.hand0@.to_multiset().add(s.hand1@.to_multiset()).add(s.pile0@.to_multiset()).add(
        s.pile1@.to_multiset(),
    ).add(s.stock@.to_multiset()).add(occ_seq(s.field_slots@).to_multiset()).add(
        opt_seq(s.show).to_multiset(),
    )
}

/// The 48-card partition invariant: each deck card is placed exactly
/// once.
pub open spec fn complete(s: RoundState) -> bool {
    placed_ms(s) == deck_ms()
}

pub open spec fn hand_of(s: RoundState, p: int) -> Seq<Card> {
    if p == 0 {
        s.hand0@
    } else {
        s.hand1@
    }
}

pub open spec fn pile_of(s: RoundState, p: int) -> Seq<Card> {
    if p == 0 {
        s.pile0@
    } else {
        s.pile1@
    }
}

pub open spec fn koikoi_of(s: RoundState, p: int) -> Seq<bool> {
    if p == 0 {
        s.koikoi0@
    } else {
        s.koikoi1@
    }
}

/// How many koi-koi declarations a record holds.
pub open spec fn count_true(s: Seq<bool>) -> int
    decreases s.len(),
{
    if s.len() == 0 {
        0int
    } else {
        count_true(s.drop_last()) + if s.last() {
            1int
        } else {
            0int
        }
    }
}

pub open spec fn turn_player_spec(s: RoundState) -> int {
    if s.turn_16 % 2 == 1 {
        s.dealer as int
    } else {
        1 - s.dealer as int
    }
}

/// The acting player's own-turn index, 1..=8.
pub open spec fn turn8_spec(s: RoundState) -> int {
    (s.turn_16 + 1) / 2 as int
}

/// The occupied field cards in (suit, rank) order: what `field`
/// returns.
pub open spec fn field_sorted(s: RoundState) -> Seq<Card> {
    occ_seq(s.field_slots@).sort_by(card_leq())
}

/// The field cards that share the shown card's suit, in sorted order.
pub open spec fn pairing_spec(s: RoundState) -> Seq<Card> {
    field_sorted(s).filter(suit_filter(s.show.unwrap().suit))
}

/// The scoring total a player would be awarded right now.
pub open spec fn yaku_point_of(s: RoundState, p: int) -> int {
    yaku::yaku_point_spec(pile_of(s, p), count_true(koikoi_of(s, p)))
}

/// Well-formedness: structural bounds, the conservation invariant once
/// cards are dealt, and the coupling of the transient fields to the
/// control state.
pub open spec fn wf(s: RoundState) -> bool {
    &&& s.dealer <= 1
    &&& 1 <= s.turn_16 <= 16
    &&& s.koikoi0@.len() == 8
    &&& s.koikoi1@.len() == 8
    &&& (s.state == State::Init ==> s.hand0@.len() == 0 && s.hand1@.len() == 0 && s.pile0@.len()
        == 0 && s.pile1@.len() == 0 && s.stock@.len() == 0 && s.field_slots@.len() == 0
        && s.show is None)
    &&& (s.state != State::Init ==> complete(s))
    &&& (s.show is Some <==> (s.state == State::DiscardPick || s.state == State::DrawPick))
    &&& (s.winner is Some <==> s.state == State::RoundOver)
    &&& (match s.winner {
        Some(p) => p <= 1,
        None => true,
    })
    &&& (s.exhausted ==> s.state == State::RoundOver)
    &&& ((s.state == State::DiscardPick || s.state == State::DrawPick) ==> s.wait_action == (
    pairing_spec(s).len() == 2))
}

/// How many cards of one suit a container holds.
pub open spec fn suit_cnt(s: Seq<Card>, su: u8) -> int {
    s.filter(suit_filter(su)).len() as int
}

/// One full copy of the deck, in any order.
pub open spec fn deck_ok(deck: Seq<Card>) -> bool {
    deck.len() == 48 && deck.no_duplicates() && forall|i: int|
        0 <= i < deck.len() ==> crate::cards::card_ok(#[trigger] deck[i])
}

/// The deal guard: some suit lies whole in one dealt container, so the
/// deal must be rejected and the deck reshuffled.
pub open spec fn deal_concentrated(deck: Seq<Card>) -> bool {
    exists|su: u8|
        #![trigger suit_cnt(deck.subrange(0, 8), su)]
        1 <= su <= 12 && (suit_cnt(deck.subrange(0, 8), su) == 4 || suit_cnt(
            deck.subrange(8, 16),
            su,
        ) == 4 || suit_cnt(deck.subrange(16, 24), su) == 4)
}

/// The sorted field cards of one suit: the pairing candidates a card
/// of that suit would have.
pub open spec fn suit_pairing(s: RoundState, su: u8) -> Seq<Card> {
    field_sorted(s).filter(suit_filter(su))
}

/// What `discard` does: reject out-of-state calls and cards not in the
/// acting player's hand without touching the round; else snapshot the
/// player's score, move the card from the hand into `show`, and enter
/// `DiscardPick`, flagging the caller when exactly two field cards can
/// pair.
pub open spec fn discard_post(
    pre: RoundState,
    card: Card,
    post: RoundState,
    r: Result<(), IllegalAction>,
) -> bool {
    let tp = turn_player_spec(pre);
    if pre.state != State::Discard {
        post == pre && r == Err::<(), IllegalAction>(IllegalAction::WrongState)
    } else if !hand_of(pre, tp).contains(card) {
        post == pre && r == Err::<(), IllegalAction>(IllegalAction::NotInHand)
    } else {
        &&& r == Ok::<(), IllegalAction>(())
        &&& exists|i: int|
            0 <= i < hand_of(pre, tp).len() && hand_of(pre, tp)[i] == card && (forall|j: int|
                0 <= j < i ==> hand_of(pre, tp)[j] != card) && hand_of(post, tp) == hand_of(
                pre,
                tp,
            ).remove(i)
        &&& hand_of(post, 1 - tp) == hand_of(pre, 1 - tp)
        &&& post.show == Some(card)
        &&& post.turn_point as int == yaku_point_of(pre, tp)
        &&& post.state == State::DiscardPick
        &&& post.wait_action == (suit_pairing(pre, card.suit).len() == 2)
        &&& post.pile0@ == pre.pile0@
        &&& post.pile1@ == pre.pile1@
        &&& post.field_slots@ == pre.field_slots@
        &&& post.stock@ == pre.stock@
        &&& post.collect@ == pre.collect@
        &&& post.turn_16 == pre.turn_16
        &&& post.dealer == pre.dealer
        &&& post.koikoi0@ == pre.koikoi0@
        &&& post.koikoi1@ == pre.koikoi1@
        &&& post.winner == pre.winner
        &&& post.exhausted == pre.exhausted
    }
}

/// The matching engine's effect on the card containers, § by pairing
/// count: with no same-suit field card the shown card fills the first
/// empty slot (a new slot is appended in the unreachable case that all
/// are full); with exactly two the chosen one and the shown card go to
/// the acting player's pile; otherwise every same-suit field card and
/// the shown card go to the pile. `collect` records what moved, shown
/// card first.
pub open spec fn collect_effect(pre: RoundState, pick: Option<Card>, post: RoundState) -> bool {
    let sc = pre.show.unwrap();
    let slots = pre.field_slots@;
    let pairing = pairing_spec(pre);
    let tp = turn_player_spec(pre);
    &&& post.hand0@ == pre.hand0@
    &&& post.hand1@ == pre.hand1@
    &&& post.stock@ == pre.stock@
    &&& post.show is None
    &&& if pairing.len() == 0 {
        &&& post.collect@ == Seq::<Card>::empty()
        &&& post.pile0@ == pre.pile0@
        &&& post.pile1@ == pre.pile1@
        &&& if exists|j: int| 0 <= j < slots.len() && slots[j] is None {
            exists|k: int|
                0 <= k < slots.len() && slots[k] is None && (forall|j: int|
                    0 <= j < k ==> slots[j] is Some) && post.field_slots@ == slots.update(
                    k,
                    Some(sc),
                )
        } else {
            post.field_slots@ == slots.push(Some(sc))
        }
    } else if pairing.len() == 2 {
        let c = pick.unwrap();
        &&& post.collect@ == seq![sc, c]
        &&& pile_of(post, tp) == pile_of(pre, tp) + seq![sc, c]
        &&& pile_of(post, 1 - tp) == pile_of(pre, 1 - tp)
        &&& exists|k: int|
            0 <= k < slots.len() && slots[k] == Some(c) && (forall|j: int|
                0 <= j < k ==> slots[j] != Some(c)) && post.field_slots@ == slots.update(k, None)
    } else {
        &&& post.collect@ == seq![sc] + pairing
        &&& pile_of(post, tp) == pile_of(pre, tp) + seq![sc] + pairing
        &&& pile_of(post, 1 - tp) == pile_of(pre, 1 - tp)
        &&& post.field_slots@ == clear_matching(slots, sc.suit)
    }
}

/// What `discard_pick` does: reject out-of-state calls and malformed
/// pairing choices without touching the round; else resolve the shown
/// card (§ `collect_effect`) and move on to the draw phase.
pub open spec fn discard_pick_post(
    pre: RoundState,
    pick: Option<Card>,
    post: RoundState,
    r: Result<(), IllegalAction>,
) -> bool {
    if pre.state != State::DiscardPick {
        post == pre && r == Err::<(), IllegalAction>(IllegalAction::WrongState)
    } else if pre.wait_action && pick is None {
        post == pre && r == Err::<(), IllegalAction>(IllegalAction::PickRequired)
    } else if !pre.wait_action && pick is Some {
        post == pre && r == Err::<(), IllegalAction>(IllegalAction::PickForbidden)
    } else if pre.wait_action && !pairing_spec(pre).contains(pick.unwrap()) {
        post == pre && r == Err::<(), IllegalAction>(IllegalAction::PickNotPairing)
    } else {
        &&& r == Ok::<(), IllegalAction>(())
        &&& collect_effect(pre, pick, post)
        &&& post.state == State::Draw
        &&& !post.wait_action
        &&& post.turn_16 == pre.turn_16
        &&& post.dealer == pre.dealer
        &&& post.koikoi0@ == pre.koikoi0@
        &&& post.koikoi1@ == pre.koikoi1@
        &&& post.winner == pre.winner
        &&& post.exhausted == pre.exhausted
        &&& post.turn_point == pre.turn_point
    }
}

/// What `draw` does: with stock left, pop its top into `show` and
/// enter `DrawPick`; with the stock empty, the round ends at once as
/// exhausted in the dealer's favour.
pub open spec fn draw_post(pre: RoundState, post: RoundState, r: Result<(), IllegalAction>) -> bool {
    if pre.state != State::Draw {
        post == pre && r == Err::<(), IllegalAction>(IllegalAction::WrongState)
    } else if pre.stock@.len() == 0 {
        &&& r == Ok::<(), IllegalAction>(())
        &&& post.state == State::RoundOver
        &&& post.exhausted
        &&& post.winner == Some(pre.dealer)
        &&& !post.wait_action
        &&& post.hand0@ == pre.hand0@
        &&& post.hand1@ == pre.hand1@
        &&& post.pile0@ == pre.pile0@
        &&& post.pile1@ == pre.pile1@
        &&& post.field_slots@ == pre.field_slots@
        &&& post.stock@ == pre.stock@
        &&& post.show == pre.show
        &&& post.collect@ == pre.collect@
        &&& post.turn_16 == pre.turn_16
        &&& post.dealer == pre.dealer
        &&& post.koikoi0@ == pre.koikoi0@
        &&& post.koikoi1@ == pre.koikoi1@
        &&& post.turn_point == pre.turn_point
    } else {
        &&& r == Ok::<(), IllegalAction>(())
        &&& post.stock@ == pre.stock@.drop_last()
        &&& post.show == Some(pre.stock@.last())
        &&& post.state == State::DrawPick
        &&& post.wait_action == (suit_pairing(pre, pre.stock@.last().suit).len() == 2)
        &&& post.hand0@ == pre.hand0@
        &&& post.hand1@ == pre.hand1@
        &&& post.pile0@ == pre.pile0@
        &&& post.pile1@ == pre.pile1@
        &&& post.field_slots@ == pre.field_slots@
        &&& post.collect@ == pre.collect@
        &&& post.turn_16 == pre.turn_16
        &&& post.dealer == pre.dealer
        &&& post.koikoi0@ == pre.koikoi0@
        &&& post.koikoi1@ == pre.koikoi1@
        &&& post.winner == pre.winner
        &&& post.exhausted == pre.exhausted
        &&& post.turn_point == pre.turn_point
    }
}

/// What `draw_pick` does: like `discard_pick`, but the turn then moves
/// to the koi-koi decision, which is offered exactly when the acting
/// player's score rose above the discard-time snapshot and this is not
/// their final own turn.
pub open spec fn draw_pick_post(
    pre: RoundState,
    pick: Option<Card>,
    post: RoundState,
    r: Result<(), IllegalAction>,
) -> bool {
    if pre.state != State::DrawPick {
        post == pre && r == Err::<(), IllegalAction>(IllegalAction::WrongState)
    } else if pre.wait_action && pick is None {
        post == pre && r == Err::<(), IllegalAction>(IllegalAction::PickRequired)
    } else if !pre.wait_action && pick is Some {
        post == pre && r == Err::<(), IllegalAction>(IllegalAction::PickForbidden)
    } else if pre.wait_action && !pairing_spec(pre).contains(pick.unwrap()) {
        post == pre && r == Err::<(), IllegalAction>(IllegalAction::PickNotPairing)
    } else {
        &&& r == Ok::<(), IllegalAction>(())
        &&& collect_effect(pre, pick, post)
        &&& post.state == State::KoiKoi
        &&& post.wait_action == (yaku_point_of(post, turn_player_spec(pre)) > pre.turn_point
            && turn8_spec(pre) < 8)
        &&& post.turn_16 == pre.turn_16
        &&& post.dealer == pre.dealer
        &&& post.koikoi0@ == pre.koikoi0@
        &&& post.koikoi1@ == pre.koikoi1@
        &&& post.winner == pre.winner
        &&& post.exhausted == pre.exhausted
        &&& post.turn_point == pre.turn_point
    }
}

/// What `claim_koikoi` does. The caller's declaration is forced to a
/// stop on the player's eighth own turn. A stop ends the round with the
/// acting player as winner; without a stop the round either runs out
/// after the sixteenth global turn (exhausted, dealer's favour) or
/// moves to the next turn's discard.
pub open spec fn claim_post(
    pre: RoundState,
    is_koikoi: Option<bool>,
    post: RoundState,
    r: Result<(), IllegalAction>,
) -> bool {
    if pre.state != State::KoiKoi {
        post == pre && r == Err::<(), IllegalAction>(IllegalAction::WrongState)
    } else {
        let tp = turn_player_spec(pre);
        let t8 = turn8_spec(pre);
        let eff = if t8 == 8 && is_koikoi == Some(true) {
            Some(false)
        } else {
            is_koikoi
        };
        &&& r == Ok::<(), IllegalAction>(())
        &&& koikoi_of(post, tp) == koikoi_of(pre, tp).update(t8 - 1, eff == Some(true))
        &&& koikoi_of(post, 1 - tp) == koikoi_of(pre, 1 - tp)
        &&& post.hand0@ == pre.hand0@
        &&& post.hand1@ == pre.hand1@
        &&& post.pile0@ == pre.pile0@
        &&& post.pile1@ == pre.pile1@
        &&& post.field_slots@ == pre.field_slots@
        &&& post.stock@ == pre.stock@
        &&& post.show == pre.show
        &&& post.collect@ == pre.collect@
        &&& post.dealer == pre.dealer
        &&& post.turn_point == pre.turn_point
        &&& if eff == Some(false) {
            &&& post.state == State::RoundOver
            &&& !post.wait_action
            &&& post.winner == Some(
                if tp == 0 {
                    0usize
                } else {
                    1usize
                },
            )
            &&& post.exhausted == pre.exhausted
            &&& post.turn_16 == pre.turn_16
        } else if pre.turn_16 == 16 {
            &&& post.state == State::RoundOver
            &&& !post.wait_action
            &&& post.exhausted
            &&& post.winner == Some(pre.dealer)
            &&& post.turn_16 == pre.turn_16
        } else {
            &&& post.turn_16 == pre.turn_16 + 1
            &&& post.state == State::Discard
            &&& post.wait_action
            &&& post.winner == pre.winner
            &&& post.exhausted == pre.exhausted
        }
    }
}

/// The signed round outcome for one player, defined once a winner is
/// set: an exhausted round pays the dealer one point at the other's
/// cost; otherwise the winner's yaku total moves from the loser to the
/// winner.
pub open spec fn round_point_spec(s: RoundState, p: int) -> Option<i32> {
    match s.winner {
        None => None,
        Some(w) => if s.exhausted {
            if p == s.dealer as int {
                Some(1i32)
            } else {
                Some(-1i32)
            }
        } else if p == w as int {
            Some(yaku_point_of(s, w as int) as i32)
        } else {
            Some((-yaku_point_of(s, w as int)) as i32)
        },
    }
}

/// What `deal` does: reject a malformed or guard-tripping deck without
/// touching the round, else partition the deck into sorted hands, a
/// sorted 8-card field in an 18-slot arena, and a 24-card stock.
pub open spec fn deal_post(
    pre: RoundState,
    deck: Seq<Card>,
    post: RoundState,
    r: Result<(), IllegalAction>,
) -> bool {
    if pre.state != State::Init {
        post == pre && r == Err::<(), IllegalAction>(IllegalAction::WrongState)
    } else if !deck_ok(deck) {
        post == pre && r == Err::<(), IllegalAction>(IllegalAction::BadDeck)
    } else if deal_concentrated(deck) {
        post == pre && r == Err::<(), IllegalAction>(IllegalAction::SuitConcentrated)
    } else {
        &&& r == Ok::<(), IllegalAction>(())
        &&& post.hand0@ == deck.subrange(0, 8).sort_by(card_leq())
        &&& post.hand1@ == deck.subrange(8, 16).sort_by(card_leq())
        &&& post.field_slots@.len() == 18
        &&& forall|i: int|
            0 <= i < 8 ==> post.field_slots@[i] == Some(
                deck.subrange(16, 24).sort_by(card_leq())[i],
            )
        &&& forall|i: int| 8 <= i < 18 ==> post.field_slots@[i] is None
        &&& post.stock@ == deck.subrange(24, 48)
        &&& post.show is None
        &&& post.pile0@ == pre.pile0@
        &&& post.pile1@ == pre.pile1@
        &&& post.collect@ == pre.collect@
        &&& post.turn_16 == pre.turn_16
        &&& post.dealer == pre.dealer
        &&& post.koikoi0@ == pre.koikoi0@
        &&& post.koikoi1@ == pre.koikoi1@
        &&& post.winner == pre.winner
        &&& post.exhausted == pre.exhausted
        &&& post.turn_point == pre.turn_point
        &&& post.state == State::Discard
        &&& post.wait_action == true
    }
}

fn count_true_exec(v: &Vec<bool>) -> (n: usize)
    ensures
        n as int == count_true(v@),
        n <= v@.len(),
{
    let mut n: usize = 0;
    proof {
        assert(v@.take(0) =~= Seq::<bool>::empty());
    }
    let mut i: usize = 0;
    while i < v.len()
        invariant
            i <= v@.len(),
            n as int == count_true(v@.take(i as int)),
            n <= i,
        decreases v@.len() - i,
    {
        proof {
            assert(v@.take(i as int + 1).drop_last() =~= v@.take(i as int));
            assert(v@.take(i as int + 1).last() == v@[i as int]);
        }
        if v[i] {
            n = n + 1;
        }
        i = i + 1;
    }
    proof {
        assert(v@.take(v@.len() as int) =~= v@);
    }
    n
}

impl RoundState {
    /// A fresh, undealt round. `dealer` picks who deals and starts;
    /// the second player deals when no choice is made.
    pub fn new(dealer: Option<usize>) -> (s: Self)
        requires
            match dealer {
                Some(d) => d <= 1,
                None => true,
            },
        ensures
            wf(s),
            s.state == State::Init,
            s.dealer_spec() == match dealer {
                Some(d) => d as int,
                None => 1int,
            },
            s.hand0@.len() == 0 && s.hand1@.len() == 0,
            s.pile0@.len() == 0 && s.pile1@.len() == 0,
            s.field_slots@.len() == 0 && s.stock@.len() == 0,
            s.show is None && s.collect@.len() == 0,
            s.turn_16 == 1,
            s.koikoi0@ =~= Seq::new(8nat, |i: int| false),
            s.koikoi1@ =~= Seq::new(8nat, |i: int| false),
            s.winner is None,
            !s.exhausted,
            s.turn_point == 0,
            !s.wait_action,
    {
        let d = match dealer {
            Some(d) => d,
            None => 1,
        };
        let mut k0: Vec<bool> = Vec::new();
        let mut i: usize = 0;
        while i < 8
            invariant
                i <= 8,
                k0@ =~= Seq::new(i as nat, |j: int| false),
            decreases 8 - i,
        {
            k0.push(false);
            i = i + 1;
        }
        let k1 = copy_bools(&k0);
        RoundState {
            hand0: Vec::new(),
            hand1: Vec::new(),
            pile0: Vec::new(),
            pile1: Vec::new(),
            field_slots: Vec::new(),
            stock: Vec::new(),
            show: None,
            collect: Vec::new(),
            turn_16: 1,
            dealer: d,
            koikoi0: k0,
            koikoi1: k1,
            winner: None,
            exhausted: false,
            turn_point: 0,
            state: State::Init,
            wait_action: false,
        }
    }

    /// The dealer's index, for specifications.
    pub open spec fn dealer_spec(self) -> int {
        self.dealer as int
    }

    /// The global turn index, 1..=16.
    pub open spec fn turn_16_spec(self) -> int {
        self.turn_16 as int
    }

    /// The player whose turn it is: the dealer acts on odd global
    /// turns.
    pub fn turn_player(&self) -> (p: usize)
        requires
            wf(*self),
        ensures
            p as int == turn_player_spec(*self),
            p <= 1,
    {
        if self.turn_16 % 2 == 1 {
            self.dealer
        } else {
            1 - self.dealer
        }
    }

    /// The player waiting for their turn.
    pub fn idle_player(&self) -> (p: usize)
        requires
            wf(*self),
        ensures
            p as int == 1 - turn_player_spec(*self),
            p <= 1,
    {
        1 - self.turn_player()
    }

    /// The acting player's own-turn index, 1..=8.
    pub fn turn_8(&self) -> (t: usize)
        requires
            wf(*self),
        ensures
            t as int == turn8_spec(*self),
            1 <= t <= 8,
    {
        (self.turn_16 + 1) / 2
    }

    pub fn current_state(&self) -> (st: State)
        ensures
            st == self.state,
    {
        self.state
    }

    /// Whether the pending action needs caller input (an ambiguous
    /// pairing choice, or a koi-koi decision).
    pub fn wait_action(&self) -> (w: bool)
        ensures
            w == self.wait_action,
    {
        self.wait_action
    }

    /// How often the player has declared koi-koi this round.
    pub fn koikoi_num(&self, player: usize) -> (n: i32)
        requires
            wf(*self),
            player <= 1,
        ensures
            n as int == count_true(koikoi_of(*self, player as int)),
            0 <= n <= 8,
    {
        let n = if player == 0 {
            count_true_exec(&self.koikoi0)
        } else {
            count_true_exec(&self.koikoi1)
        };
        n as i32
    }

    /// The occupied field cards, sorted by (suit, rank).
    pub fn field(&self) -> (r: Vec<Card>)
        ensures
            r@ == field_sorted(*self),
    {
        let mut occ: Vec<Card> = Vec::new();
        proof {
            assert(self.field_slots@.take(0) =~= Seq::<Option<Card>>::empty());
            assert(occ_seq(self.field_slots@.take(0)) =~= Seq::<Card>::empty());
        }
        let mut i: usize = 0;
        while i < self.field_slots.len()
            invariant
                i <= self.field_slots@.len(),
                occ@ == occ_seq(self.field_slots@.take(i as int)),
            decreases self.field_slots@.len() - i,
        {
            proof {
                assert(self.field_slots@.take(i as int + 1).drop_last() =~= self.field_slots@.take(
                    i as int,
                ));
                assert(self.field_slots@.take(i as int + 1).last() == self.field_slots@[i as int]);
            }
            match self.field_slots[i] {
                Some(c) => {
                    occ.push(c);
                    proof {
                        assert(occ@ =~= occ_seq(self.field_slots@.take(i as int + 1)));
                    }
                },
                None => {
                    proof {
                        assert(occ@ =~= occ_seq(self.field_slots@.take(i as int + 1)));
                    }
                },
            }
            i = i + 1;
        }
        proof {
            assert(self.field_slots@.take(self.field_slots@.len() as int) =~= self.field_slots@);
        }
        sort_cards(&occ)
    }

    /// What the given player cannot see: the stock and the opponent's
    /// hand.
    pub fn unseen_cards(&self, player: usize) -> (r: Vec<Card>)
        requires
            player <= 1,
        ensures
            r@ == self.stock@ + hand_of(*self, 1 - player as int),
    {
        let mut r = copy_cards(&self.stock);
        let other = if player == 0 {
            &self.hand1
        } else {
            &self.hand0
        };
        let mut i: usize = 0;
        while i < other.len()
            invariant
                i <= other@.len(),
                r@ == self.stock@ + other@.take(i as int),
        decreases other@.len() - i,
        {
            proof {
                assert((self.stock@ + other@.take(i as int)).push(other@[i as int]) =~= self.stock@
                    + other@.take(i as int + 1));
            }
            r.push(other[i]);
            i = i + 1;
        }
        proof {
            assert(other@.take(other@.len() as int) =~= other@);
        }
        r
    }

    /// The field cards pairable with the shown card, in sorted order.
    pub fn pairing_card(&self) -> (r: Vec<Card>)
        requires
            self.show is Some,
        ensures
            r@ == pairing_spec(*self),
    {
        let su = match self.show {
            Some(c) => c.suit,
            None => 0,
        };
        let fld = self.field();
        filter_suit(&fld, su)
    }

    /// The cards the last collection took from the field: the collect
    /// record without the shown card it starts with.
    pub fn field_collect(&self) -> (r: Vec<Card>)
        ensures
            r@ == if self.collect@.len() == 0 {
                Seq::<Card>::empty()
            } else {
                self.collect@.drop_first()
            },
    {
        let mut r: Vec<Card> = Vec::new();
        if self.collect.len() == 0 {
            return r;
        }
        let mut i: usize = 1;
        while i < self.collect.len()
            invariant
                1 <= i <= self.collect@.len(),
                r@ == self.collect@.subrange(1, i as int),
            decreases self.collect@.len() - i,
        {
            proof {
                assert(self.collect@.subrange(1, i as int + 1) =~= self.collect@.subrange(
                    1,
                    i as int,
                ).push(self.collect@[i as int]));
            }
            r.push(self.collect[i]);
            i = i + 1;
        }
        proof {
            assert(self.collect@.subrange(1, self.collect@.len() as int)
                =~= self.collect@.drop_first());
        }
        r
    }

    /// The player's achieved combinations, as (id, name, points)
    /// entries.
    pub fn yaku(&self, player: usize) -> (r: Vec<(i32, &'static str, i32)>)
        requires
            wf(*self),
            player <= 1,
        ensures
            yaku::pairs_of(r@) == yaku::yaku_pairs(
                pile_of(*self, player as int),
                count_true(koikoi_of(*self, player as int)),
            ),
            yaku::names_ok(r@),
    {
        let k = self.koikoi_num(player);
        let pile = if player == 0 {
            &self.pile0
        } else {
            &self.pile1
        };
        yaku::yaku_list(pile, k)
    }

    /// The player's current scoring total under the canonical formula.
    pub fn yaku_point(&self, player: usize) -> (r: i32)
        requires
            wf(*self),
            player <= 1,
        ensures
            r as int == yaku_point_of(*self, player as int),
            0 <= r <= 348,
    {
        let k = self.koikoi_num(player);
        let pile = if player == 0 {
            &self.pile0
        } else {
            &self.pile1
        };
        yaku::yaku_point_calc(pile, k)
    }

    /// Deals an ordered deck: 8 cards to each hand, 8 to the field,
    /// 24 to the stock. Shuffling is the caller's concern; the engine
    /// rejects a deck in which some suit lies whole in a single dealt
    /// container, and the caller then reshuffles and deals again.
    #[verifier::rlimit(60)]
    pub fn deal(&mut self, deck: &Vec<Card>) -> (r: Result<(), IllegalAction>)
        requires
            wf(*old(self)),
        ensures
            wf(*final(self)),
            deal_post(*old(self), deck@, *final(self), r),
    {
        if self.state != State::Init {
            return Err(IllegalAction::WrongState);
        }
        if !is_full_deck(deck) {
            return Err(IllegalAction::BadDeck);
        }
        let h0 = crate::cards::sub_vec(deck, 0, 8);
        let h1 = crate::cards::sub_vec(deck, 8, 16);
        let fl = crate::cards::sub_vec(deck, 16, 24);
        let mut su: u8 = 1;
        while su <= 12
            invariant
                1 <= su <= 13,
                *self == *old(self),
                wf(*self),
                self.state == State::Init,
                deck_ok(deck@),
                h0@ == deck@.subrange(0, 8),
                h1@ == deck@.subrange(8, 16),
                fl@ == deck@.subrange(16, 24),
                forall|t: u8|
                    1 <= t < su ==> !(suit_cnt(#[trigger] deck@.subrange(0, 8), t) == 4 || suit_cnt(
                        deck@.subrange(8, 16),
                        t,
                    ) == 4 || suit_cnt(deck@.subrange(16, 24), t) == 4),
            decreases 13 - su,
        {
            let c0 = filter_suit(&h0, su).len();
            let c1 = filter_suit(&h1, su).len();
            let c2 = filter_suit(&fl, su).len();
            proof {
                assert(suit_cnt(deck@.subrange(0, 8), su) == c0 as int);
            }
            if c0 == 4 || c1 == 4 || c2 == 4 {
                proof {
                    assert(deal_concentrated(deck@));
                }
                return Err(IllegalAction::SuitConcentrated);
            }
            su = su + 1;
        }
        proof {
            assert(!deal_concentrated(deck@));
        }
        let h0s = sort_cards(&h0);
        let h1s = sort_cards(&h1);
        let fls = sort_cards(&fl);
        proof {
            lemma_card_leq_total();
            fl@.lemma_sort_by_ensures(card_leq());
            fl@.to_multiset_ensures();
            fls@.to_multiset_ensures();
            assert(fls@.len() == 8);
        }
        let mut slots: Vec<Option<Card>> = Vec::new();
        proof {
            assert(occ_seq(slots@) =~= Seq::<Card>::empty());
            assert(fls@.take(0) =~= Seq::<Card>::empty());
        }
        let mut i: usize = 0;
        while i < 8
            invariant
                i <= 8,
                fls@.len() == 8,
                slots@.len() == i,
                forall|j: int| 0 <= j < i ==> slots@[j] == Some(fls@[j]),
                occ_seq(slots@) == fls@.take(i as int),
            decreases 8 - i,
        {
            let ghost prev = slots@;
            slots.push(Some(fls[i]));
            proof {
                assert(slots@.drop_last() =~= prev);
                assert(occ_seq(slots@) =~= fls@.take(i as int).push(fls@[i as int]));
                assert(fls@.take(i as int + 1) =~= fls@.take(i as int).push(fls@[i as int]));
            }
            i = i + 1;
        }
        proof {
            assert(fls@.take(8) =~= fls@);
        }
        while i < 18
            invariant
                8 <= i <= 18,
                slots@.len() == i,
                forall|j: int| 0 <= j < 8 ==> slots@[j] == Some(fls@[j]),
                forall|j: int| 8 <= j < i ==> slots@[j] is None,
                occ_seq(slots@) == fls@,
            decreases 18 - i,
        {
            let ghost prev = slots@;
            slots.push(None);
            proof {
                assert(slots@.drop_last() =~= prev);
                assert(occ_seq(slots@) =~= fls@);
            }
            i = i + 1;
        }
        let stk = crate::cards::sub_vec(deck, 24, 48);
        self.hand0 = h0s;
        self.hand1 = h1s;
        self.field_slots = slots;
        self.stock = stk;
        self.show = None;
        self.state = State::Discard;
        self.wait_action = true;
        proof {
            lemma_card_leq_total();
            deck@.subrange(0, 8).lemma_sort_by_ensures(card_leq());
            deck@.subrange(8, 16).lemma_sort_by_ensures(card_leq());
            deck@.subrange(16, 24).lemma_sort_by_ensures(card_leq());
            lemma_full_deck_ms(deck@);
            broadcast use vstd::multiset::group_multiset_axioms;

            assert(deck@ =~= deck@.subrange(0, 8) + deck@.subrange(8, 16) + deck@.subrange(16, 24)
                + deck@.subrange(24, 48));
            vstd::seq_lib::lemma_multiset_commutative(
                deck@.subrange(0, 8) + deck@.subrange(8, 16) + deck@.subrange(16, 24),
                deck@.subrange(24, 48),
            );
            vstd::seq_lib::lemma_multiset_commutative(
                deck@.subrange(0, 8) + deck@.subrange(8, 16),
                deck@.subrange(16, 24),
            );
            vstd::seq_lib::lemma_multiset_commutative(deck@.subrange(0, 8), deck@.subrange(8, 16));
            self.pile0@.to_multiset_ensures();
            self.pile1@.to_multiset_ensures();
            opt_seq(self.show).to_multiset_ensures();
            assert forall|c: Card| placed_ms(*self).count(c) == deck_ms().count(c) by {
                assert(!self.pile0@.contains(c));
                assert(!self.pile1@.contains(c));
                assert(!opt_seq(self.show).contains(c));
            };
            assert(placed_ms(*self) =~= deck_ms());
        }
        Ok(())
    }

    /// Resolves the shown card against the field per the matching
    /// policy and moves the collected cards into the acting player's
    /// pile.
    fn resolve_show(&mut self, pick: Option<Card>)
        requires
            wf(*old(self)),
            old(self).show is Some,
            pairing_spec(*old(self)).len() == 2 ==> pick is Some && pairing_spec(
                *old(self),
            ).contains(pick.unwrap()),
            pairing_spec(*old(self)).len() != 2 ==> pick is None,
        ensures
            collect_effect(*old(self), pick, *final(self)),
            placed_ms(*final(self)) == placed_ms(*old(self)),
            final(self).turn_16 == old(self).turn_16,
            final(self).dealer == old(self).dealer,
            final(self).koikoi0@ == old(self).koikoi0@,
            final(self).koikoi1@ == old(self).koikoi1@,
            final(self).winner == old(self).winner,
            final(self).exhausted == old(self).exhausted,
            final(self).turn_point == old(self).turn_point,
            final(self).state == old(self).state,
            final(self).wait_action == old(self).wait_action,
    {
        broadcast use vstd::multiset::group_multiset_axioms;
        broadcast use vstd::multiset::group_multiset_properties;

        let sc = self.show.unwrap();
        let pairing = self.pairing_card();
        let tp = self.turn_player();
        let ghost slots0 = self.field_slots@;
        self.show = None;
        proof {
            lemma_opt_ms(Some(sc));
            lemma_opt_ms(None);
        }
        if pairing.len() == 0 {
            self.collect = Vec::new();
            match first_empty_slot(&self.field_slots) {
                Some(k) => {
                    set_slot(&mut self.field_slots, k, Some(sc));
                    proof {
                        lemma_occ_update(slots0, k as int, Some(sc));
                        lemma_opt_ms(slots0[k as int]);
                        assert(0 <= k < slots0.len() && slots0[k as int] is None && (forall|j: int|
                            0 <= j < k ==> slots0[j] is Some) && self.field_slots@ == slots0.update(
                            k as int,
                            Some(sc),
                        ));
                        assert forall|x: Card|
                            placed_ms(*self).count(x) == placed_ms(*old(self)).count(x) by {
                            assert(occ_seq(self.field_slots@).to_multiset().add(
                                opt_seq(slots0[k as int]).to_multiset(),
                            ).count(x) == occ_seq(slots0).to_multiset().add(
                                opt_seq(Some(sc)).to_multiset(),
                            ).count(x));
                        };
                        assert(placed_ms(*self) =~= placed_ms(*old(self)));
                        assert(collect_effect(*old(self), pick, *self));
                    }
                },
                None => {
                    let ghost prev = self.field_slots@;
                    self.field_slots.push(Some(sc));
                    proof {
                        assert(self.field_slots@.drop_last() =~= prev);
                        assert(occ_seq(self.field_slots@) == occ_seq(prev) + opt_seq(Some(sc)));
                        vstd::seq_lib::lemma_multiset_commutative(occ_seq(prev), opt_seq(Some(sc)));
                        assert forall|x: Card|
                            placed_ms(*self).count(x) == placed_ms(*old(self)).count(x) by {};
                        assert(placed_ms(*self) =~= placed_ms(*old(self)));
                        assert(collect_effect(*old(self), pick, *self));
                    }
                },
            }
        } else if pairing.len() == 2 {
            let c = match pick {
                Some(c) => c,
                None => {
                    proof {
                        assert(false);
                    }
                    sc
                },
            };
            proof {
                lemma_card_leq_total();
                occ_seq(slots0).lemma_sort_by_ensures(card_leq());
                field_sorted(*old(self)).lemma_filter_contains_rev(
                    suit_filter(old(self).show.unwrap().suit),
                    c,
                );
                occ_seq(slots0).to_multiset_ensures();
                lemma_occ_contains(slots0, c);
                assert(occ_seq(slots0).to_multiset().count(c) > 0);
            }
            let k = find_slot(&self.field_slots, c);
            set_slot(&mut self.field_slots, k, None);
            let mut col: Vec<Card> = Vec::new();
            col.push(sc);
            col.push(c);
            proof {
                assert(col@ =~= seq![sc, c]);
            }
            let ghost old_pile = pile_of(*old(self), tp as int);
            if tp == 0 {
                crate::cards::extend_cards(&mut self.pile0, &col);
            } else {
                crate::cards::extend_cards(&mut self.pile1, &col);
            }
            self.collect = col;
            proof {
                lemma_occ_update(slots0, k as int, None);
                lemma_opt_ms(Some(c));
                lemma_opt_ms(slots0[k as int]);
                vstd::seq_lib::lemma_multiset_commutative(old_pile, seq![sc, c]);
                assert(seq![sc, c] =~= seq![sc] + seq![c]);
                vstd::seq_lib::lemma_multiset_commutative(seq![sc], seq![c]);
                lemma_singleton_ms(sc);
                lemma_singleton_ms(c);
                assert(pile_of(*self, tp as int) == old_pile + seq![sc, c]);
                assert(0 <= k < slots0.len() && slots0[k as int] == Some(c) && (forall|j: int|
                    0 <= j < k ==> slots0[j] != Some(c)) && self.field_slots@ == slots0.update(
                    k as int,
                    None,
                ));
                assert forall|x: Card| placed_ms(*self).count(x) == placed_ms(*old(self)).count(
                    x,
                ) by {
                    assert(occ_seq(self.field_slots@).to_multiset().add(
                        opt_seq(slots0[k as int]).to_multiset(),
                    ).count(x) == occ_seq(slots0).to_multiset().add(
                        opt_seq(None).to_multiset(),
                    ).count(x));
                    assert((old_pile + seq![sc, c]).to_multiset().count(x) == old_pile.to_multiset().add(
                        seq![sc, c].to_multiset(),
                    ).count(x));
                };
                assert(placed_ms(*self) =~= placed_ms(*old(self)));
                assert(collect_effect(*old(self), pick, *self));
            }
        } else {
            let su = sc.suit;
            self.field_slots = clear_suit(&self.field_slots, su);
            let mut col: Vec<Card> = Vec::new();
            col.push(sc);
            crate::cards::extend_cards(&mut col, &pairing);
            proof {
                assert(col@ =~= seq![sc] + pairing@);
            }
            let ghost old_pile = pile_of(*old(self), tp as int);
            if tp == 0 {
                crate::cards::extend_cards(&mut self.pile0, &col);
            } else {
                crate::cards::extend_cards(&mut self.pile1, &col);
            }
            self.collect = col;
            proof {
                lemma_card_leq_total();
                lemma_occ_clear(slots0, su);
                occ_seq(slots0).lemma_sort_by_ensures(card_leq());
                assert forall|x: Card| #[trigger] crate::cards::not_suit(su)(x)
                    <==> !crate::cards::suit_filter(su)(x) by {};
                crate::seq_facts::lemma_filter_split_ms(
                    occ_seq(slots0),
                    suit_filter(su),
                    crate::cards::not_suit(su),
                );
                crate::seq_facts::lemma_filter_perm_ms(
                    occ_seq(slots0),
                    field_sorted(*old(self)),
                    suit_filter(su),
                );
                vstd::seq_lib::lemma_multiset_commutative(old_pile, col@);
                vstd::seq_lib::lemma_multiset_commutative(seq![sc], pairing@);
                lemma_singleton_ms(sc);
                assert(pile_of(*self, tp as int) == old_pile + col@);
                assert forall|x: Card| placed_ms(*self).count(x) == placed_ms(*old(self)).count(
                    x,
                ) by {
                    assert(occ_seq(slots0).to_multiset().count(x) == occ_seq(slots0).filter(
                        suit_filter(su),
                    ).to_multiset().add(
                        occ_seq(slots0).filter(crate::cards::not_suit(su)).to_multiset(),
                    ).count(x));
                    assert((old_pile + col@).to_multiset().count(x) == old_pile.to_multiset().add(
                        col@.to_multiset(),
                    ).count(x));
                    assert((seq![sc] + pairing@).to_multiset().count(x)
                        == seq![sc].to_multiset().add(pairing@.to_multiset()).count(x));
                };
                assert(placed_ms(*self) =~= placed_ms(*old(self)));
                assert(old_pile + (seq![sc] + pairing@) =~= old_pile + seq![sc] + pairing@);
                assert(collect_effect(*old(self), pick, *self));
            }
        }
    }

    /// The acting player discards a card from their hand: it becomes
    /// the shown card awaiting resolution.
    pub fn discard(&mut self, card: Card) -> (r: Result<(), IllegalAction>)
        requires
            wf(*old(self)),
        ensures
            wf(*final(self)),
            discard_post(*old(self), card, *final(self), r),
    {
        if self.state != State::Discard {
            return Err(IllegalAction::WrongState);
        }
        let tp = self.turn_player();
        let found = if tp == 0 {
            crate::cards::find_card(&self.hand0, card)
        } else {
            crate::cards::find_card(&self.hand1, card)
        };
        let i = match found {
            Some(i) => i,
            None => {
                return Err(IllegalAction::NotInHand);
            },
        };
        let yp = self.yaku_point(tp);
        self.turn_point = yp;
        let ghost old_hand = hand_of(*old(self), tp as int);
        if tp == 0 {
            self.hand0.remove(i);
        } else {
            self.hand1.remove(i);
        }
        self.show = Some(card);
        self.state = State::DiscardPick;
        let pc = self.pairing_card();
        self.wait_action = pc.len() == 2;
        proof {
            broadcast use vstd::multiset::group_multiset_axioms;
            broadcast use vstd::multiset::group_multiset_properties;

            vstd::seq_lib::to_multiset_remove(old_hand, i as int);
            old_hand.to_multiset_ensures();
            lemma_opt_ms(Some(card));
            lemma_opt_ms(None);
            assert(old_hand.to_multiset().count(card) > 0);
            assert forall|x: Card| placed_ms(*self).count(x) == placed_ms(*old(self)).count(
                x,
            ) by {};
            assert(placed_ms(*self) =~= placed_ms(*old(self)));
            assert(wf(*self));
            assert(pairing_spec(*self) == suit_pairing(*old(self), card.suit));
        }
        Ok(())
    }

    /// Resolves the discarded card against the field. With an
    /// ambiguous pairing the caller names which of the two candidates
    /// to take; otherwise no choice may be passed.
    pub fn discard_pick(&mut self, card: Option<Card>) -> (r: Result<(), IllegalAction>)
        requires
            wf(*old(self)),
        ensures
            wf(*final(self)),
            discard_pick_post(*old(self), card, *final(self), r),
    {
        if self.state != State::DiscardPick {
            return Err(IllegalAction::WrongState);
        }
        if self.wait_action && card.is_none() {
            return Err(IllegalAction::PickRequired);
        }
        if !self.wait_action && card.is_some() {
            return Err(IllegalAction::PickForbidden);
        }
        if self.wait_action {
            let pc = self.pairing_card();
            if !contains_card(&pc, card.unwrap()) {
                return Err(IllegalAction::PickNotPairing);
            }
        }
        self.resolve_show(card);
        self.state = State::Draw;
        self.wait_action = false;
        proof {
            assert(wf(*self));
        }
        Ok(())
    }

    /// Draws the top stock card into `show`; with the stock exhausted
    /// the round instead ends at once in the dealer's favour.
    pub fn draw(&mut self) -> (r: Result<(), IllegalAction>)
        requires
            wf(*old(self)),
        ensures
            wf(*final(self)),
            draw_post(*old(self), *final(self), r),
    {
        if self.state != State::Draw {
            return Err(IllegalAction::WrongState);
        }
        let ghost old_stock = self.stock@;
        match self.stock.pop() {
            Some(c) => {
                self.show = Some(c);
                self.state = State::DrawPick;
                let pc = self.pairing_card();
                self.wait_action = pc.len() == 2;
                proof {
                    broadcast use vstd::multiset::group_multiset_axioms;

                    assert(self.stock@ =~= old_stock.drop_last());
                    assert(old_stock =~= self.stock@.push(c));
                    self.stock@.to_multiset_ensures();
                    lemma_opt_ms(Some(c));
                    lemma_opt_ms(None);
                    assert forall|x: Card| placed_ms(*self).count(x) == placed_ms(
                        *old(self),
                    ).count(x) by {};
                    assert(placed_ms(*self) =~= placed_ms(*old(self)));
                    assert(wf(*self));
                }
            },
            None => {
                self.state = State::RoundOver;
                self.exhausted = true;
                self.winner = Some(self.dealer);
                self.wait_action = false;
                proof {
                    assert(placed_ms(*self) =~= placed_ms(*old(self)));
                    assert(wf(*self));
                }
            },
        }
        Ok(())
    }

    /// Resolves the drawn card against the field, then moves to the
    /// koi-koi decision; the decision is offered only when the acting
    /// player's score rose and this is not their final own turn.
    pub fn draw_pick(&mut self, card: Option<Card>) -> (r: Result<(), IllegalAction>)
        requires
            wf(*old(self)),
        ensures
            wf(*final(self)),
            draw_pick_post(*old(self), card, *final(self), r),
    {
        if self.state != State::DrawPick {
            return Err(IllegalAction::WrongState);
        }
        if self.wait_action && card.is_none() {
            return Err(IllegalAction::PickRequired);
        }
        if !self.wait_action && card.is_some() {
            return Err(IllegalAction::PickForbidden);
        }
        if self.wait_action {
            let pc = self.pairing_card();
            if !contains_card(&pc, card.unwrap()) {
                return Err(IllegalAction::PickNotPairing);
            }
        }
        self.resolve_show(card);
        self.state = State::KoiKoi;
        proof {
            assert(wf(*self));
        }
        let tp = self.turn_player();
        let t8 = self.turn_8();
        let yp = self.yaku_point(tp);
        self.wait_action = yp > self.turn_point && t8 < 8;
        proof {
            assert(wf(*self));
        }
        Ok(())
    }

    /// Records the acting player's koi-koi decision and either ends
    /// the round or hands the turn over. On the player's eighth own
    /// turn a continuation cannot be declared: `Some(true)` is forced
    /// to behave as a stop.
    pub fn claim_koikoi(&mut self, is_koikoi: Option<bool>) -> (r: Result<(), IllegalAction>)
        requires
            wf(*old(self)),
        ensures
            wf(*final(self)),
            claim_post(*old(self), is_koikoi, *final(self), r),
    {
        if self.state != State::KoiKoi {
            return Err(IllegalAction::WrongState);
        }
        let tp = self.turn_player();
        let t8 = self.turn_8();
        let mut kk = is_koikoi;
        if t8 == 8 {
            match kk {
                Some(true) => {
                    kk = Some(false);
                },
                _ => {},
            }
        }
        let rec = match kk {
            Some(true) => true,
            _ => false,
        };
        if tp == 0 {
            set_bool(&mut self.koikoi0, t8 - 1, rec);
        } else {
            set_bool(&mut self.koikoi1, t8 - 1, rec);
        }
        let stop = match kk {
            Some(false) => true,
            _ => false,
        };
        if stop {
            self.state = State::RoundOver;
            self.wait_action = false;
            self.winner = Some(tp);
        } else if self.turn_16 == 16 {
            self.state = State::RoundOver;
            self.wait_action = false;
            self.exhausted = true;
            self.winner = Some(self.dealer);
        } else {
            self.turn_16 = self.turn_16 + 1;
            self.state = State::Discard;
            self.wait_action = true;
        }
        proof {
            assert(placed_ms(*self) =~= placed_ms(*old(self)));
            assert(wf(*self));
        }
        Ok(())
    }

    /// The player's signed round outcome, defined once the round is
    /// over.
    pub fn round_point(&self, player: usize) -> (r: Option<i32>)
        requires
            wf(*self),
            player <= 1,
        ensures
            r == round_point_spec(*self, player as int),
    {
        match self.winner {
            None => None,
            Some(w) => {
                if self.exhausted {
                    if player == self.dealer {
                        Some(1)
                    } else {
                        Some(-1)
                    }
                } else {
                    let yp = self.yaku_point(w);
                    if player == w {
                        Some(yp)
                    } else {
                        Some(-yp)
                    }
                }
            },
        }
    }
}

/// Observable equality of two rounds: every container holds the same
/// cards in the same order, and all bookkeeping agrees.
pub open spec fn same_state(a: RoundState, b: RoundState) -> bool {
    &&& a.hand0@ == b.hand0@
    &&& a.hand1@ == b.hand1@
    &&& a.pile0@ == b.pile0@
    &&& a.pile1@ == b.pile1@
    &&& a.field_slots@ == b.field_slots@
    &&& a.stock@ == b.stock@
    &&& a.show == b.show
    &&& a.collect@ == b.collect@
    &&& a.turn_16 == b.turn_16
    &&& a.dealer == b.dealer
    &&& a.koikoi0@ == b.koikoi0@
    &&& a.koikoi1@ == b.koikoi1@
    &&& a.winner == b.winner
    &&& a.exhausted == b.exhausted
    &&& a.turn_point == b.turn_point
    &&& a.state == b.state
    &&& a.wait_action == b.wait_action
}

/// Conservation: in every dealt round the placed cards are exactly the
/// 48-card deck, each card once.
pub proof fn lemma_conservation(s: RoundState)
    requires
        wf(s),
        s.state != State::Init,
    ensures
        placed_ms(s) == deck_ms(),
{
}

/// Determinism of `deal`: one deck takes one round to one outcome.
pub proof fn lemma_deal_deterministic(
    pre: RoundState,
    deck: Seq<Card>,
    s1: RoundState,
    r1: Result<(), IllegalAction>,
    s2: RoundState,
    r2: Result<(), IllegalAction>,
)
    requires
        deal_post(pre, deck, s1, r1),
        deal_post(pre, deck, s2, r2),
    ensures
        same_state(s1, s2),
        r1 == r2,
{
    if pre.state == State::Init && deck_ok(deck) && !deal_concentrated(deck) {
        assert(s1.field_slots@ =~= s2.field_slots@);
    }
}

/// Determinism of `discard`: the first occurrence of the card is
/// removed, so two runs agree everywhere.
pub proof fn lemma_discard_deterministic(
    pre: RoundState,
    card: Card,
    s1: RoundState,
    r1: Result<(), IllegalAction>,
    s2: RoundState,
    r2: Result<(), IllegalAction>,
)
    requires
        discard_post(pre, card, s1, r1),
        discard_post(pre, card, s2, r2),
    ensures
        same_state(s1, s2),
        r1 == r2,
{
    let tp = turn_player_spec(pre);
    let h = hand_of(pre, tp);
    if pre.state == State::Discard && h.contains(card) {
        let i1 = choose|i: int|
            0 <= i < h.len() && h[i] == card && (forall|j: int| 0 <= j < i ==> h[j] != card)
                && hand_of(s1, tp) == h.remove(i);
        let i2 = choose|i: int|
            0 <= i < h.len() && h[i] == card && (forall|j: int| 0 <= j < i ==> h[j] != card)
                && hand_of(s2, tp) == h.remove(i);
        assert(i1 == i2);
    }
}

proof fn lemma_collect_deterministic(pre: RoundState, pick: Option<Card>, s1: RoundState, s2: RoundState)
    requires
        collect_effect(pre, pick, s1),
        collect_effect(pre, pick, s2),
    ensures
        s1.hand0@ == s2.hand0@,
        s1.hand1@ == s2.hand1@,
        s1.pile0@ == s2.pile0@,
        s1.pile1@ == s2.pile1@,
        s1.field_slots@ == s2.field_slots@,
        s1.stock@ == s2.stock@,
        s1.show == s2.show,
        s1.collect@ == s2.collect@,
{
    let sc = pre.show.unwrap();
    let slots = pre.field_slots@;
    let pairing = pairing_spec(pre);
    let tp = turn_player_spec(pre);
    if pairing.len() == 0 {
        if exists|j: int| 0 <= j < slots.len() && slots[j] is None {
            let k1 = choose|k: int|
                0 <= k < slots.len() && slots[k] is None && (forall|j: int|
                    0 <= j < k ==> slots[j] is Some) && s1.field_slots@ == slots.update(
                    k,
                    Some(sc),
                );
            let k2 = choose|k: int|
                0 <= k < slots.len() && slots[k] is None && (forall|j: int|
                    0 <= j < k ==> slots[j] is Some) && s2.field_slots@ == slots.update(
                    k,
                    Some(sc),
                );
            assert(k1 == k2);
        }
    } else if pairing.len() == 2 {
        let c = pick.unwrap();
        let k1 = choose|k: int|
            0 <= k < slots.len() && slots[k] == Some(c) && (forall|j: int|
                0 <= j < k ==> slots[j] != Some(c)) && s1.field_slots@ == slots.update(k, None);
        let k2 = choose|k: int|
            0 <= k < slots.len() && slots[k] == Some(c) && (forall|j: int|
                0 <= j < k ==> slots[j] != Some(c)) && s2.field_slots@ == slots.update(k, None);
        assert(k1 == k2);
        assert(pile_of(s1, tp) == pile_of(s2, tp));
        assert(pile_of(s1, 1 - tp) == pile_of(s2, 1 - tp));
    } else {
        assert(pile_of(s1, tp) == pile_of(s2, tp));
        assert(pile_of(s1, 1 - tp) == pile_of(s2, 1 - tp));
    }
}

/// Determinism of `discard_pick`.
pub proof fn lemma_discard_pick_deterministic(
    pre: RoundState,
    pick: Option<Card>,
    s1: RoundState,
    r1: Result<(), IllegalAction>,
    s2: RoundState,
    r2: Result<(), IllegalAction>,
)
    requires
        discard_pick_post(pre, pick, s1, r1),
        discard_pick_post(pre, pick, s2, r2),
    ensures
        same_state(s1, s2),
        r1 == r2,
{
    if pre.state == State::DiscardPick && !(pre.wait_action && pick is None) && !(!pre.wait_action
        && pick is Some) && !(pre.wait_action && !pairing_spec(pre).contains(pick.unwrap())) {
        lemma_collect_deterministic(pre, pick, s1, s2);
    }
}

/// Determinism of `draw`.
pub proof fn lemma_draw_deterministic(
    pre: RoundState,
    s1: RoundState,
    r1: Result<(), IllegalAction>,
    s2: RoundState,
    r2: Result<(), IllegalAction>,
)
    requires
        draw_post(pre, s1, r1),
        draw_post(pre, s2, r2),
    ensures
        same_state(s1, s2),
        r1 == r2,
{
}

/// Determinism of `draw_pick`.
pub proof fn lemma_draw_pick_deterministic(
    pre: RoundState,
    pick: Option<Card>,
    s1: RoundState,
    r1: Result<(), IllegalAction>,
    s2: RoundState,
    r2: Result<(), IllegalAction>,
)
    requires
        draw_pick_post(pre, pick, s1, r1),
        draw_pick_post(pre, pick, s2, r2),
    ensures
        same_state(s1, s2),
        r1 == r2,
{
    if pre.state == State::DrawPick && !(pre.wait_action && pick is None) && !(!pre.wait_action
        && pick is Some) && !(pre.wait_action && !pairing_spec(pre).contains(pick.unwrap())) {
        lemma_collect_deterministic(pre, pick, s1, s2);
        let tp = turn_player_spec(pre);
        assert(pile_of(s1, tp) == pile_of(s2, tp));
        assert(koikoi_of(s1, tp) == koikoi_of(s2, tp));
        assert(yaku_point_of(s1, tp) == yaku_point_of(s2, tp));
    }
}

/// Determinism of `claim_koikoi`.
pub proof fn lemma_claim_deterministic(
    pre: RoundState,
    is_koikoi: Option<bool>,
    s1: RoundState,
    r1: Result<(), IllegalAction>,
    s2: RoundState,
    r2: Result<(), IllegalAction>,
)
    requires
        wf(pre),
        claim_post(pre, is_koikoi, s1, r1),
        claim_post(pre, is_koikoi, s2, r2),
    ensures
        same_state(s1, s2),
        r1 == r2,
{
}

/// Koi-koi gating: on a player's eighth own turn, declaring koi-koi is
/// forced to behave exactly as a stop declaration.
pub proof fn lemma_koikoi_gated(
    pre: RoundState,
    s1: RoundState,
    r1: Result<(), IllegalAction>,
    s2: RoundState,
    r2: Result<(), IllegalAction>,
)
    requires
        wf(pre),
        turn8_spec(pre) == 8,
        claim_post(pre, Some(true), s1, r1),
        claim_post(pre, Some(false), s2, r2),
    ensures
        same_state(s1, s2),
        r1 == r2,
{
}

/// Exhaustion: a sixteenth global turn that ends without a stop
/// declaration closes the round as exhausted, and the outcome pays the
/// dealer one point at the other player's cost.
pub proof fn lemma_exhaustion(pre: RoundState, post: RoundState, r: Result<(), IllegalAction>)
    requires
        wf(pre),
        pre.state == State::KoiKoi,
        pre.turn_16 == 16,
        claim_post(pre, None, post, r),
    ensures
        post.exhausted,
        post.winner == Some(pre.dealer),
        post.state == State::RoundOver,
        round_point_spec(post, pre.dealer as int) == Some(1i32),
        round_point_spec(post, 1 - pre.dealer as int) == Some(-1i32),
{
}

fn copy_bools(v: &Vec<bool>) -> (r: Vec<bool>)
    ensures
        r@ == v@,
{
    let mut r: Vec<bool> = Vec::new();
    let mut i: usize = 0;
    while i < v.len()
        invariant
            i <= v@.len(),
            r@ == v@.take(i as int),
        decreases v@.len() - i,
    {
        proof {
            assert(v@.take(i as int + 1) =~= v@.take(i as int).push(v@[i as int]));
        }
        r.push(v[i]);
        i = i + 1;
    }
    proof {
        assert(v@.take(v@.len() as int) =~= v@);
    }
    r
}

} // verus!
