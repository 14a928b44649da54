//! The physical cards: identifiers, ordering, and the full 48-card deck.

use vstd::prelude::*;
use vstd::multiset::Multiset;
use vstd::relations::{sorted_by, total_ordering};
use vstd::seq_lib::lemma_sorted_unique;

verus! {

/// One physical Hanafuda card. `suit` is the month (1..=12) and `rank`
/// distinguishes the four cards of a month (1..=4). The 48 cards are
/// exactly the cross product of the two ranges.
#[derive(Clone, Copy, PartialEq, Eq, Structural, Debug)]
pub struct Card {
    pub suit: u8,
    pub rank: u8,
}

/// A real card of the deck: both coordinates in range.
pub open spec fn card_ok(c: Card) -> bool {
    1 <= c.suit <= 12 && 1 <= c.rank <= 4
}

/// Lexicographic order on (suit, rank).
pub open spec fn card_le(a: Card, b: Card) -> bool {
    a.suit < b.suit || (a.suit == b.suit && a.rank <= b.rank)
}

/// `card_le` packaged as a relation value, for `sort_by` and `sorted_by`.
pub open spec fn card_leq() -> spec_fn(Card, Card) -> bool {
    |a: Card, b: Card| card_le(a, b)
}

pub proof fn lemma_card_leq_total()
    ensures
        total_ordering(card_leq()),
{
}

/// The deck in (suit, rank) order: index `4 * (suit - 1) + (rank - 1)`.
pub open spec fn deck_seq() -> Seq<Card> {
    Seq::new(48, |i: int| Card { suit: (1 + i / 4) as u8, rank: (1 + i % 4) as u8 })
}

/// The 48 cards as a multiset: the reference for the conservation
/// invariant of a round.
pub open spec fn deck_ms() -> Multiset<Card> {
    deck_seq().to_multiset()
}

/// The cards a spec closure keeps: those of the given suit.
pub open spec fn suit_filter(su: u8) -> spec_fn(Card) -> bool {
    |c: Card| c.suit == su
}

/// The complement of `suit_filter`: the cards of every other suit.
pub open spec fn not_suit(su: u8) -> spec_fn(Card) -> bool {
    |c: Card| c.suit != su
}

/// Builds the 48-card deck in (suit, rank) order.
pub fn full_deck() -> (r: Vec<Card>)
    ensures
        r@ == deck_seq(),
{
    let mut r: Vec<Card> = Vec::new();
    let mut k: usize = 0;
    while k < 48
        invariant
            k <= 48,
            r@ == deck_seq().take(k as int),
        decreases 48 - k,
    {
        let c = Card { suit: (k / 4 + 1) as u8, rank: (k % 4 + 1) as u8 };
        proof {
            assert(deck_seq()[k as int] == c);
            assert(deck_seq().take(k as int + 1) =~= deck_seq().take(k as int).push(
                deck_seq()[k as int],
            ));
        }
        r.push(c);
        k = k + 1;
    }
    proof {
        assert(deck_seq().take(48) =~= deck_seq());
    }
    r
}

/// Linear membership scan.
pub fn contains_card(v: &Vec<Card>, c: Card) -> (r: bool)
    ensures
        r == v@.contains(c),
{
    let mut i: usize = 0;
    while i < v.len()
        invariant
            i <= v@.len(),
            forall|j: int| 0 <= j < i ==> v@[j] != c,
        decreases v@.len() - i,
    {
        if v[i] == c {
            return true;
        }
        i = i + 1;
    }
    false
}

/// Element-wise copy of a card list.
pub fn copy_cards(v: &Vec<Card>) -> (r: Vec<Card>)
    ensures
        r@ == v@,
{
    let mut r: Vec<Card> = Vec::new();
    let mut i: usize = 0;
    while i < v.len()
        invariant
            i <= v@.len(),
            r@ == v@.take(i as int),
        decreases v@.len() - i,
    {
        proof {
            assert(v@.take(i as int + 1) =~= v@.take(i as int).push(v@[i as int]));
        }
        r.push(v[i]);
        i = i + 1;
    }
    proof {
        assert(v@.take(v@.len() as int) =~= v@);
    }
    r
}

/// Copies the half-open range `[a, b)` of a card list.
pub fn sub_vec(v: &Vec<Card>, a: usize, b: usize) -> (r: Vec<Card>)
    requires
        a <= b <= v@.len(),
    ensures
        r@ == v@.subrange(a as int, b as int),
{
    let mut r: Vec<Card> = Vec::new();
    let mut i: usize = a;
    while i < b
        invariant
            a <= i <= b <= v@.len(),
            r@ == v@.subrange(a as int, i as int),
        decreases b - i,
    {
        proof {
            assert(v@.subrange(a as int, i as int + 1) =~= v@.subrange(a as int, i as int).push(
                v@[i as int],
            ));
        }
        r.push(v[i]);
        i = i + 1;
    }
    r
}

/// Keeps the cards of one suit, in order.
pub fn filter_suit(v: &Vec<Card>, su: u8) -> (r: Vec<Card>)
    ensures
        r@ == v@.filter(suit_filter(su)),
{
    let mut r: Vec<Card> = Vec::new();
    proof {
        reveal(Seq::filter);
        assert(v@.take(0) =~= Seq::<Card>::empty());
        assert(v@.take(0).filter(suit_filter(su)) =~= Seq::<Card>::empty());
    }
    let mut i: usize = 0;
    while i < v.len()
        invariant
            i <= v@.len(),
            r@ == v@.take(i as int).filter(suit_filter(su)),
        decreases v@.len() - i,
    {
        proof {
            assert(v@.take(i as int + 1) =~= v@.take(i as int).push(v@[i as int]));
            v@.take(i as int).lemma_filter_push(v@[i as int], suit_filter(su));
        }
        if v[i].suit == su {
            r.push(v[i]);
        }
        i = i + 1;
    }
    proof {
        assert(v@.take(v@.len() as int) =~= v@);
    }
    r
}

/// Checks that a card list is exactly one copy of the whole deck:
/// 48 entries, all real cards, no repeats.
pub fn is_full_deck(v: &Vec<Card>) -> (r: bool)
    ensures
        r == (v@.len() == 48 && v@.no_duplicates() && forall|i: int|
            0 <= i < v@.len() ==> card_ok(#[trigger] v@[i])),
{
    if v.len() != 48 {
        return false;
    }
    let mut i: usize = 0;
    while i < 48
        invariant
            i <= 48,
            v@.len() == 48,
            forall|j: int| 0 <= j < i ==> card_ok(#[trigger] v@[j]),
            forall|j: int, l: int| 0 <= j < l < i ==> v@[j] != v@[l],
        decreases 48 - i,
    {
        let c = v[i];
        if c.suit < 1 || c.suit > 12 || c.rank < 1 || c.rank > 4 {
            return false;
        }
        let mut j: usize = 0;
        while j < i
            invariant
                j <= i < 48,
                v@.len() == 48,
                c == v@[i as int],
                forall|l: int| 0 <= l < j ==> v@[l] != v@[i as int],
            decreases i - j,
        {
            if v[j] == c {
                proof {
                    assert(v@[j as int] == v@[i as int]);
                    assert(!v@.no_duplicates());
                }
                return false;
            }
            j = j + 1;
        }
        i = i + 1;
    }
    true
}

proof fn lemma_deck_no_dup()
    ensures
        deck_seq().no_duplicates(),
        forall|i: int| 0 <= i < 48 ==> card_ok(#[trigger] deck_seq()[i]),
{
    assert forall|i: int, j: int| 0 <= i < j < 48 implies deck_seq()[i] != deck_seq()[j] by {
        assert(i == 4 * (i / 4) + i % 4);
        assert(j == 4 * (j / 4) + j % 4);
    };
}

/// A real card sits in the deck, and only real cards do.
proof fn lemma_deck_contains(c: Card)
    ensures
        deck_seq().contains(c) <==> card_ok(c),
{
    if card_ok(c) {
        let i = 4 * (c.suit - 1) + (c.rank - 1);
        assert(0 <= i < 48);
        assert(i / 4 == c.suit - 1 && i % 4 == c.rank - 1) by (nonlinear_arith)
            requires
                i == 4 * (c.suit - 1) + (c.rank - 1),
                1 <= c.suit <= 12,
                1 <= c.rank <= 4,
        ;
        assert(deck_seq()[i] == c);
        assert(deck_seq().contains(c));
    }
    if deck_seq().contains(c) {
        let i = choose|i: int| 0 <= i < 48 && deck_seq()[i] == c;
        assert(card_ok(deck_seq()[i]));
    }
}

/// Forty-eight distinct real cards are, as a multiset, exactly the deck.
pub proof fn lemma_full_deck_ms(s: Seq<Card>)
    requires
        s.len() == 48,
        s.no_duplicates(),
        forall|i: int| 0 <= i < s.len() ==> card_ok(#[trigger] s[i]),
    ensures
        s.to_multiset() =~= deck_ms(),
{
    broadcast use vstd::set::group_set_axioms;
    broadcast use vstd::seq_lib::seq_to_set_is_finite;

    lemma_deck_no_dup();
    s.unique_seq_to_set();
    deck_seq().unique_seq_to_set();
    assert(s.to_set().subset_of(deck_seq().to_set())) by {
        assert forall|c: Card| s.to_set().contains(c) implies deck_seq().to_set().contains(c) by {
            assert(s.contains(c));
            let i = choose|i: int| 0 <= i < s.len() && s[i] == c;
            assert(card_ok(c));
            lemma_deck_contains(c);
        };
    };
    vstd::set_lib::lemma_subset_equality(s.to_set(), deck_seq().to_set());
    s.lemma_multiset_has_no_duplicates();
    deck_seq().lemma_multiset_has_no_duplicates();
    s.to_multiset_ensures();
    deck_seq().to_multiset_ensures();
    assert forall|c: Card| s.to_multiset().count(c) == deck_ms().count(c) by {
        if s.contains(c) {
            assert(s.to_multiset().count(c) > 0);
            assert(s.to_multiset().contains(c));
            assert(s.to_set().contains(c));
            assert(deck_seq().to_set().contains(c));
            assert(deck_seq().contains(c));
            assert(deck_ms().count(c) > 0);
            assert(deck_ms().contains(c));
        } else {
            assert(s.to_multiset().count(c) == 0);
            assert(!s.to_set().contains(c));
            assert(!deck_seq().to_set().contains(c));
            assert(!deck_seq().contains(c));
            assert(deck_ms().count(c) == 0);
        }
    };
}

/// The first position of a card in a list, if any.
pub fn find_card(v: &Vec<Card>, c: Card) -> (r: Option<usize>)
    ensures
        match r {
            Some(i) => i < v@.len() && v@[i as int] == c && forall|j: int|
                0 <= j < i ==> v@[j] != c,
            None => !v@.contains(c),
        },
{
    let mut i: usize = 0;
    while i < v.len()
        invariant
            i <= v@.len(),
            forall|j: int| 0 <= j < i ==> v@[j] != c,
        decreases v@.len() - i,
    {
        if v[i] == c {
            return Some(i);
        }
        i = i + 1;
    }
    None
}

/// Appends a copy of every card of `src` to `dst`.
pub fn extend_cards(dst: &mut Vec<Card>, src: &Vec<Card>)
    ensures
        final(dst)@ == old(dst)@ + src@,
{
    proof {
        assert(old(dst)@ + src@.take(0) =~= old(dst)@);
    }
    let mut i: usize = 0;
    while i < src.len()
        invariant
            i <= src@.len(),
            dst@ == old(dst)@ + src@.take(i as int),
        decreases src@.len() - i,
    {
        proof {
            assert((old(dst)@ + src@.take(i as int)).push(src@[i as int]) =~= old(dst)@
                + src@.take(i as int + 1));
        }
        dst.push(src[i]);
        i = i + 1;
    }
    proof {
        assert(src@.take(src@.len() as int) =~= src@);
    }
}

fn card_le_exec(a: Card, b: Card) -> (r: bool)
    ensures
        r == card_le(a, b),
{
    a.suit < b.suit || (a.suit == b.suit && a.rank <= b.rank)
}

/// Insertion sort under the (suit, rank) order. The result is pinned to
/// the mathematical `sort_by`, so callers get one canonical sequence.
pub fn sort_cards(v: &Vec<Card>) -> (r: Vec<Card>)
    ensures
        r@ == v@.sort_by(card_leq()),
{
    let mut r: Vec<Card> = Vec::new();
    proof {
        assert(v@.take(0) =~= Seq::<Card>::empty());
    }
    let mut i: usize = 0;
    while i < v.len()
        invariant
            i <= v@.len(),
            r@.to_multiset() == v@.take(i as int).to_multiset(),
            sorted_by(r@, card_leq()),
        decreases v@.len() - i,
    {
        let c = v[i];
        let ghost old_r = r@;
        let mut j: usize = 0;
        while j < r.len() && card_le_exec(r[j], c)
            invariant
                j <= r@.len(),
                r@ == old_r,
                forall|k: int| 0 <= k < j ==> card_le(#[trigger] old_r[k], c),
            decreases r@.len() - j,
        {
            j = j + 1;
        }
        let ghost jj = j as int;
        r.insert(j, c);
        proof {
            old_r.insert_ensures(jj, c);
            vstd::seq_lib::to_multiset_insert(old_r, jj, c);
            assert(r@ == old_r.insert(jj, c));
            v@.take(i as int).to_multiset_ensures();
            assert(v@.take(i as int + 1) =~= v@.take(i as int).push(v@[i as int]));
            assert(r@.to_multiset() =~= v@.take(i as int + 1).to_multiset());
            assert forall|a: int, b: int| 0 <= a < b < r@.len() implies card_le(r@[a], r@[b]) by {
                if b < jj {
                    assert(card_leq()(old_r[a], old_r[b]));
                } else if b == jj {
                    assert(card_le(old_r[a], c));
                } else if a == jj {
                    assert(jj < old_r.len());
                    assert(!card_le(old_r[jj], c));
                    assert(r@[b] == old_r[b - 1]);
                    if b - 1 > jj {
                        assert(card_leq()(old_r[jj], old_r[b - 1]));
                    }
                } else if a < jj && b > jj {
                    assert(r@[a] == old_r[a] && r@[b] == old_r[b - 1]);
                    assert(card_leq()(old_r[a], old_r[b - 1]));
                } else {
                    assert(r@[a] == old_r[a - 1] && r@[b] == old_r[b - 1]);
                    assert(card_leq()(old_r[a - 1], old_r[b - 1]));
                }
            }
            assert(sorted_by(r@, card_leq()));
        }
        i = i + 1;
    }
    proof {
        assert(v@.take(v@.len() as int) =~= v@);
        lemma_card_leq_total();
        v@.lemma_sort_by_ensures(card_leq());
        lemma_sorted_unique(r@, v@.sort_by(card_leq()), card_leq());
    }
    r
}

} // verus!
