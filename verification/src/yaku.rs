//! The yaku (scoring combination) evaluator: a pure function of one
//! player's collected pile and of the number of koi-koi declarations the
//! player has made this round.

use vstd::prelude::*;
use crate::cards::{Card, contains_card};

verus! {

pub open spec fn card(su: u8, rk: u8) -> Card {
    Card { suit: su, rank: rk }
}

pub open spec fn crane() -> Card {
    card(1, 1)
}

pub open spec fn curtain() -> Card {
    card(3, 1)
}

pub open spec fn moon() -> Card {
    card(8, 1)
}

pub open spec fn rain_man() -> Card {
    card(11, 1)
}

pub open spec fn phoenix() -> Card {
    card(12, 1)
}

pub open spec fn sake() -> Card {
    card(9, 1)
}

pub open spec fn b2i(b: bool) -> int {
    if b {
        1
    } else {
        0
    }
}

/// How many of the five light cards the pile holds.
#[verifier::opaque]
pub open spec fn num_lights(pile: Seq<Card>) -> int {
    b2i(pile.contains(crane())) + b2i(pile.contains(curtain())) + b2i(pile.contains(moon()))
        + b2i(pile.contains(rain_man())) + b2i(pile.contains(phoenix()))
}

/// How many of the nine seed cards the pile holds.
#[verifier::opaque]
pub open spec fn num_seeds(pile: Seq<Card>) -> int {
    b2i(pile.contains(card(2, 1))) + b2i(pile.contains(card(4, 1))) + b2i(
        pile.contains(card(5, 1)),
    ) + b2i(pile.contains(card(6, 1))) + b2i(pile.contains(card(7, 1))) + b2i(
        pile.contains(card(8, 2)),
    ) + b2i(pile.contains(card(9, 1))) + b2i(pile.contains(card(10, 1))) + b2i(
        pile.contains(card(11, 2)),
    )
}

/// How many of the ten ribbon cards the pile holds.
#[verifier::opaque]
pub open spec fn num_ribbons(pile: Seq<Card>) -> int {
    b2i(pile.contains(card(1, 2))) + b2i(pile.contains(card(2, 2))) + b2i(
        pile.contains(card(3, 2)),
    ) + b2i(pile.contains(card(4, 2))) + b2i(pile.contains(card(5, 2))) + b2i(
        pile.contains(card(6, 2)),
    ) + b2i(pile.contains(card(7, 2))) + b2i(pile.contains(card(9, 2))) + b2i(
        pile.contains(card(10, 2)),
    ) + b2i(pile.contains(card(11, 3)))
}

/// How many entries of the dross table the pile holds. The sake cup
/// (9, 1) is deliberately listed among the dross as well as among the
/// seeds, so it counts towards both totals.
#[verifier::opaque]
pub open spec fn num_dross(pile: Seq<Card>) -> int {
    b2i(pile.contains(card(1, 3))) + b2i(pile.contains(card(1, 4))) + b2i(
        pile.contains(card(2, 3)),
    ) + b2i(pile.contains(card(2, 4))) + b2i(pile.contains(card(3, 3))) + b2i(
        pile.contains(card(3, 4)),
    ) + b2i(pile.contains(card(4, 3))) + b2i(pile.contains(card(4, 4))) + b2i(
        pile.contains(card(5, 3)),
    ) + b2i(pile.contains(card(5, 4))) + b2i(pile.contains(card(6, 3))) + b2i(
        pile.contains(card(6, 4)),
    ) + b2i(pile.contains(card(7, 3))) + b2i(pile.contains(card(7, 4))) + b2i(
        pile.contains(card(8, 3)),
    ) + b2i(pile.contains(card(8, 4))) + b2i(pile.contains(card(9, 3))) + b2i(
        pile.contains(card(9, 4)),
    ) + b2i(pile.contains(card(10, 3))) + b2i(pile.contains(card(10, 4))) + b2i(
        pile.contains(card(11, 4)),
    ) + b2i(pile.contains(card(12, 2))) + b2i(pile.contains(card(12, 3))) + b2i(
        pile.contains(card(12, 4)),
    ) + b2i(pile.contains(sake()))
}

#[verifier::opaque]
pub open spec fn has_boar_deer_butterfly(pile: Seq<Card>) -> bool {
    pile.contains(card(6, 1)) && pile.contains(card(7, 1)) && pile.contains(card(10, 1))
}

#[verifier::opaque]
pub open spec fn has_flower_sake(pile: Seq<Card>) -> bool {
    pile.contains(curtain()) && pile.contains(sake())
}

#[verifier::opaque]
pub open spec fn has_moon_sake(pile: Seq<Card>) -> bool {
    pile.contains(moon()) && pile.contains(sake())
}

#[verifier::opaque]
pub open spec fn has_red_ribbons(pile: Seq<Card>) -> bool {
    pile.contains(card(1, 2)) && pile.contains(card(2, 2)) && pile.contains(card(3, 2))
}

#[verifier::opaque]
pub open spec fn has_blue_ribbons(pile: Seq<Card>) -> bool {
    pile.contains(card(6, 2)) && pile.contains(card(9, 2)) && pile.contains(card(10, 2))
}

/// The mutually exclusive "lights" family, highest first. Lower variants
/// are suppressed once a higher one matches.
pub open spec fn lights_part(pile: Seq<Card>) -> Seq<(i32, i32)> {
    let n = num_lights(pile);
    if n == 5 {
        seq![(1i32, 10i32)]
    } else if n == 4 && !pile.contains(rain_man()) {
        seq![(2i32, 8i32)]
    } else if n == 4 {
        seq![(3i32, 7i32)]
    } else if n == 3 && !pile.contains(rain_man()) {
        seq![(4i32, 5i32)]
    } else {
        Seq::<(i32, i32)>::empty()
    }
}

pub open spec fn bdb_part(pile: Seq<Card>) -> Seq<(i32, i32)> {
    if has_boar_deer_butterfly(pile) {
        seq![(5i32, 5i32)]
    } else {
        Seq::<(i32, i32)>::empty()
    }
}

pub open spec fn flower_part(pile: Seq<Card>, k: int) -> Seq<(i32, i32)> {
    if has_flower_sake(pile) {
        if k == 0 {
            seq![(6i32, 1i32)]
        } else {
            seq![(7i32, 3i32)]
        }
    } else {
        Seq::<(i32, i32)>::empty()
    }
}

pub open spec fn moon_part(pile: Seq<Card>, k: int) -> Seq<(i32, i32)> {
    if has_moon_sake(pile) {
        if k == 0 {
            seq![(8i32, 1i32)]
        } else {
            seq![(9i32, 3i32)]
        }
    } else {
        Seq::<(i32, i32)>::empty()
    }
}

pub open spec fn tane_part(pile: Seq<Card>) -> Seq<(i32, i32)> {
    if num_seeds(pile) >= 5 {
        seq![(10i32, (num_seeds(pile) - 4) as i32)]
    } else {
        Seq::<(i32, i32)>::empty()
    }
}

pub open spec fn ribbon_part(pile: Seq<Card>) -> Seq<(i32, i32)> {
    if has_red_ribbons(pile) && has_blue_ribbons(pile) {
        seq![(11i32, 10i32)]
    } else if has_red_ribbons(pile) {
        seq![(12i32, 5i32)]
    } else if has_blue_ribbons(pile) {
        seq![(13i32, 5i32)]
    } else {
        Seq::<(i32, i32)>::empty()
    }
}

pub open spec fn tan_part(pile: Seq<Card>) -> Seq<(i32, i32)> {
    if num_ribbons(pile) >= 5 {
        seq![(14i32, (num_ribbons(pile) - 4) as i32)]
    } else {
        Seq::<(i32, i32)>::empty()
    }
}

pub open spec fn kasu_part(pile: Seq<Card>) -> Seq<(i32, i32)> {
    if num_dross(pile) >= 10 {
        seq![(15i32, (num_dross(pile) - 9) as i32)]
    } else {
        Seq::<(i32, i32)>::empty()
    }
}

pub open spec fn koikoi_part(k: int) -> Seq<(i32, i32)> {
    if k > 0 {
        seq![(16i32, k as i32)]
    } else {
        Seq::<(i32, i32)>::empty()
    }
}

/// The full achieved combination list, as (priority id, point value)
/// pairs, in the evaluator's fixed order.
pub open spec fn yaku_pairs(pile: Seq<Card>, k: int) -> Seq<(i32, i32)> {
    lights_part(pile) + bdb_part(pile) + flower_part(pile, k) + moon_part(pile, k) + tane_part(
        pile,
    ) + ribbon_part(pile) + tan_part(pile) + kasu_part(pile) + koikoi_part(k)
}

/// The display name that belongs to each priority id.
pub open spec fn yaku_name(id: int) -> Seq<char> {
    if id == 1 {
        "Five Lights"@
    } else if id == 2 {
        "Four Lights"@
    } else if id == 3 {
        "Rainy Four Lights"@
    } else if id == 4 {
        "Three Lights"@
    } else if id == 5 {
        "Boar-Deer-Butterfly"@
    } else if id == 6 || id == 7 {
        "Flower Viewing Sake"@
    } else if id == 8 || id == 9 {
        "Moon Viewing Sake"@
    } else if id == 10 {
        "Tane"@
    } else if id == 11 {
        "Red & Blue Ribbons"@
    } else if id == 12 {
        "Red Ribbons"@
    } else if id == 13 {
        "Blue Ribbons"@
    } else if id == 14 {
        "Tan"@
    } else if id == 15 {
        "Kasu"@
    } else if id == 16 {
        "Koi-Koi"@
    } else {
        ""@
    }
}

/// The point total of every achieved combination except the Koi-Koi
/// entry, which the round outcome arithmetic folds in separately.
pub open spec fn base_points(pile: Seq<Card>, k: int) -> int {
    lights_points(pile) + bdb_points(pile) + flower_points(pile, k) + moon_points(pile, k)
        + tane_points(pile) + ribbon_points(pile) + tan_points(pile) + kasu_points(pile)
}

pub open spec fn lights_points(pile: Seq<Card>) -> int {
    let n = num_lights(pile);
    if n == 5 {
        10
    } else if n == 4 && !pile.contains(rain_man()) {
        8
    } else if n == 4 {
        7
    } else if n == 3 && !pile.contains(rain_man()) {
        5
    } else {
        0
    }
}

pub open spec fn bdb_points(pile: Seq<Card>) -> int {
    if has_boar_deer_butterfly(pile) {
        5
    } else {
        0
    }
}

pub open spec fn flower_points(pile: Seq<Card>, k: int) -> int {
    if has_flower_sake(pile) {
        if k == 0 {
            1
        } else {
            3
        }
    } else {
        0
    }
}

pub open spec fn moon_points(pile: Seq<Card>, k: int) -> int {
    if has_moon_sake(pile) {
        if k == 0 {
            1
        } else {
            3
        }
    } else {
        0
    }
}

pub open spec fn tane_points(pile: Seq<Card>) -> int {
    if num_seeds(pile) >= 5 {
        num_seeds(pile) - 4
    } else {
        0
    }
}

pub open spec fn ribbon_points(pile: Seq<Card>) -> int {
    if has_red_ribbons(pile) && has_blue_ribbons(pile) {
        10
    } else if has_red_ribbons(pile) || has_blue_ribbons(pile) {
        5
    } else {
        0
    }
}

pub open spec fn tan_points(pile: Seq<Card>) -> int {
    if num_ribbons(pile) >= 5 {
        num_ribbons(pile) - 4
    } else {
        0
    }
}

pub open spec fn kasu_points(pile: Seq<Card>) -> int {
    if num_dross(pile) >= 10 {
        num_dross(pile) - 9
    } else {
        0
    }
}

/// The round's canonical scoring formula: the sum of the achieved
/// non-Koi-Koi combination points, then a koi-koi adjustment — up to
/// three declarations add the declaration count, from the fourth on the
/// sum is scaled by (count - 2) instead.
pub open spec fn yaku_point_spec(pile: Seq<Card>, k: int) -> int {
    if k <= 3 {
        base_points(pile, k) + k
    } else {
        base_points(pile, k) * (k - 2)
    }
}

/// The point sum of a combination list.
pub open spec fn part_points(s: Seq<(i32, i32)>) -> int
    decreases s.len(),
{
    if s.len() == 0 {
        0
    } else {
        part_points(s.drop_last()) + s.last().1
    }
}

proof fn lemma_part_points_add(a: Seq<(i32, i32)>, b: Seq<(i32, i32)>)
    ensures
        part_points(a + b) == part_points(a) + part_points(b),
    decreases b.len(),
{
    if b.len() == 0 {
        assert(a + b =~= a);
    } else {
        lemma_part_points_add(a, b.drop_last());
        assert((a + b).drop_last() =~= a + b.drop_last());
        assert((a + b).last() == b.last());
    }
}

proof fn lemma_part_points_single(e: (i32, i32))
    ensures
        part_points(seq![e]) == e.1,
{
    assert(seq![e].drop_last() =~= Seq::<(i32, i32)>::empty());
    assert(part_points(Seq::<(i32, i32)>::empty()) == 0);
    assert(part_points(seq![e]) == part_points(seq![e].drop_last()) + e.1);
}

proof fn lemma_part_points_small(s: Seq<(i32, i32)>)
    requires
        s.len() <= 1,
    ensures
        part_points(s) == if s.len() == 1 {
            s[0].1 as int
        } else {
            0
        },
{
    if s.len() == 1 {
        assert(s =~= seq![s[0]]);
        lemma_part_points_single(s[0]);
    } else {
        assert(s =~= Seq::<(i32, i32)>::empty());
        assert(part_points(Seq::<(i32, i32)>::empty()) == 0);
    }
}

/// The link between the combination list and the scoring base: the base
/// is exactly the point sum of the achieved combinations other than the
/// Koi-Koi entry.
#[verifier::rlimit(30)]
pub proof fn lemma_base_is_non_koikoi_sum(pile: Seq<Card>, k: int)
    requires
        0 <= k <= 8,
    ensures
        part_points(yaku_pairs(pile, k)) == base_points(pile, k) + if k > 0 {
            k
        } else {
            0
        },
{
    reveal(num_seeds);
    reveal(num_ribbons);
    reveal(num_dross);
    let p1 = lights_part(pile);
    let p2 = bdb_part(pile);
    let p3 = flower_part(pile, k);
    let p4 = moon_part(pile, k);
    let p5 = tane_part(pile);
    let p6 = ribbon_part(pile);
    let p7 = tan_part(pile);
    let p8 = kasu_part(pile);
    let p9 = koikoi_part(k);
    lemma_part_points_add(p1, p2);
    lemma_part_points_add(p1 + p2, p3);
    lemma_part_points_add(p1 + p2 + p3, p4);
    lemma_part_points_add(p1 + p2 + p3 + p4, p5);
    lemma_part_points_add(p1 + p2 + p3 + p4 + p5, p6);
    lemma_part_points_add(p1 + p2 + p3 + p4 + p5 + p6, p7);
    lemma_part_points_add(p1 + p2 + p3 + p4 + p5 + p6 + p7, p8);
    lemma_part_points_add(p1 + p2 + p3 + p4 + p5 + p6 + p7 + p8, p9);
    lemma_part_points_small(p1);
    lemma_part_points_small(p2);
    lemma_part_points_small(p3);
    lemma_part_points_small(p4);
    lemma_part_points_small(p5);
    lemma_part_points_small(p6);
    lemma_part_points_small(p7);
    lemma_part_points_small(p8);
    lemma_part_points_small(p9);
    assert(part_points(p1) == lights_points(pile));
    assert(part_points(p2) == bdb_points(pile));
    assert(part_points(p3) == flower_points(pile, k));
    assert(part_points(p4) == moon_points(pile, k));
    assert(part_points(p5) == tane_points(pile));
    assert(part_points(p6) == ribbon_points(pile));
    assert(part_points(p7) == tan_points(pile));
    assert(part_points(p8) == kasu_points(pile));
    assert(part_points(p9) == if k > 0 {
        k
    } else {
        0
    });
}

/// Yaku priority: a pile holding all five lights scores "Five Lights"
/// alone — none of the lower light combinations appears beside it.
pub proof fn lemma_five_lights_priority(pile: Seq<Card>, k: int)
    requires
        pile.contains(crane()),
        pile.contains(curtain()),
        pile.contains(moon()),
        pile.contains(rain_man()),
        pile.contains(phoenix()),
    ensures
        yaku_pairs(pile, k)[0] == (1i32, 10i32),
        forall|i: int|
            0 <= i < yaku_pairs(pile, k).len() ==> (#[trigger] yaku_pairs(pile, k)[i]).0 != 2
                && yaku_pairs(pile, k)[i].0 != 3 && yaku_pairs(pile, k)[i].0 != 4,
{
    reveal(num_lights);
    assert(num_lights(pile) == 5);
    assert(lights_part(pile) == seq![(1i32, 10i32)]);
    let p = yaku_pairs(pile, k);
    assert forall|i: int|
        0 <= i < p.len() implies (#[trigger] p[i]).0 != 2 && p[i].0 != 3 && p[i].0 != 4 by {
        lemma_yaku_ids(pile, k, i);
    }
}

/// The projection of a full combination entry to its (id, points) pair.
pub open spec fn entry_pair(e: (i32, &'static str, i32)) -> (i32, i32) {
    (e.0, e.2)
}

/// The (id, points) pairs of a full combination list.
pub open spec fn pairs_of(s: Seq<(i32, &'static str, i32)>) -> Seq<(i32, i32)> {
    s.map_values(|e: (i32, &'static str, i32)| entry_pair(e))
}

/// All names in a combination list agree with the id table.
pub open spec fn names_ok(s: Seq<(i32, &'static str, i32)>) -> bool {
    forall|i: int| 0 <= i < s.len() ==> (#[trigger] s[i]).1@ == yaku_name(s[i].0 as int)
}

fn count_lights(pile: &Vec<Card>) -> (n: usize)
    ensures
        n as int == num_lights(pile@),
{
    proof {
        reveal(num_lights);
    }
    let mut n: usize = 0;
    if contains_card(pile, Card { suit: 1, rank: 1 }) {
        n = n + 1;
    }
    if contains_card(pile, Card { suit: 3, rank: 1 }) {
        n = n + 1;
    }
    if contains_card(pile, Card { suit: 8, rank: 1 }) {
        n = n + 1;
    }
    if contains_card(pile, Card { suit: 11, rank: 1 }) {
        n = n + 1;
    }
    if contains_card(pile, Card { suit: 12, rank: 1 }) {
        n = n + 1;
    }
    n
}

fn count_seeds(pile: &Vec<Card>) -> (n: usize)
    ensures
        n as int == num_seeds(pile@),
{
    proof {
        reveal(num_seeds);
    }
    let mut n: usize = 0;
    if contains_card(pile, Card { suit: 2, rank: 1 }) {
        n = n + 1;
    }
    if contains_card(pile, Card { suit: 4, rank: 1 }) {
        n = n + 1;
    }
    if contains_card(pile, Card { suit: 5, rank: 1 }) {
        n = n + 1;
    }
    if contains_card(pile, Card { suit: 6, rank: 1 }) {
        n = n + 1;
    }
    if contains_card(pile, Card { suit: 7, rank: 1 }) {
        n = n + 1;
    }
    if contains_card(pile, Card { suit: 8, rank: 2 }) {
        n = n + 1;
    }
    if contains_card(pile, Card { suit: 9, rank: 1 }) {
        n = n + 1;
    }
    if contains_card(pile, Card { suit: 10, rank: 1 }) {
        n = n + 1;
    }
    if contains_card(pile, Card { suit: 11, rank: 2 }) {
        n = n + 1;
    }
    n
}

fn count_ribbons(pile: &Vec<Card>) -> (n: usize)
    ensures
        n as int == num_ribbons(pile@),
{
    proof {
        reveal(num_ribbons);
    }
    let mut n: usize = 0;
    if contains_card(pile, Card { suit: 1, rank: 2 }) {
        n = n + 1;
    }
    if contains_card(pile, Card { suit: 2, rank: 2 }) {
        n = n + 1;
    }
    if contains_card(pile, Card { suit: 3, rank: 2 }) {
        n = n + 1;
    }
    if contains_card(pile, Card { suit: 4, rank: 2 }) {
        n = n + 1;
    }
    if contains_card(pile, Card { suit: 5, rank: 2 }) {
        n = n + 1;
    }
    if contains_card(pile, Card { suit: 6, rank: 2 }) {
        n = n + 1;
    }
    if contains_card(pile, Card { suit: 7, rank: 2 }) {
        n = n + 1;
    }
    if contains_card(pile, Card { suit: 9, rank: 2 }) {
        n = n + 1;
    }
    if contains_card(pile, Card { suit: 10, rank: 2 }) {
        n = n + 1;
    }
    if contains_card(pile, Card { suit: 11, rank: 3 }) {
        n = n + 1;
    }
    n
}

fn count_pair_34(pile: &Vec<Card>, su: u8) -> (n: usize)
    ensures
        n as int == b2i(pile@.contains(card(su, 3))) + b2i(pile@.contains(card(su, 4))),
        n <= 2,
{
    let mut n: usize = 0;
    if contains_card(pile, Card { suit: su, rank: 3 }) {
        n = n + 1;
    }
    if contains_card(pile, Card { suit: su, rank: 4 }) {
        n = n + 1;
    }
    n
}

fn count_dross(pile: &Vec<Card>) -> (n: usize)
    ensures
        n as int == num_dross(pile@),
{
    proof {
        reveal(num_dross);
    }
    let mut n: usize = 0;
    n = n + count_pair_34(pile, 1);
    n = n + count_pair_34(pile, 2);
    n = n + count_pair_34(pile, 3);
    n = n + count_pair_34(pile, 4);
    n = n + count_pair_34(pile, 5);
    n = n + count_pair_34(pile, 6);
    n = n + count_pair_34(pile, 7);
    n = n + count_pair_34(pile, 8);
    n = n + count_pair_34(pile, 9);
    n = n + count_pair_34(pile, 10);
    if contains_card(pile, Card { suit: 11, rank: 4 }) {
        n = n + 1;
    }
    if contains_card(pile, Card { suit: 12, rank: 2 }) {
        n = n + 1;
    }
    n = n + count_pair_34(pile, 12);
    if contains_card(pile, Card { suit: 9, rank: 1 }) {
        n = n + 1;
    }
    n
}

/// Every entry of the combination list carries one of the sixteen known
/// ids, and an id from the lights family only as the lights part's own
/// single entry.
proof fn lemma_yaku_ids(pile: Seq<Card>, k: int, i: int)
    requires
        0 <= i < yaku_pairs(pile, k).len(),
    ensures
        1 <= yaku_pairs(pile, k)[i].0 <= 16,
        (yaku_pairs(pile, k)[i].0 <= 4) ==> i == 0 && yaku_pairs(pile, k)[i] == lights_part(
            pile,
        )[0],
{
    let p1 = lights_part(pile);
    let p2 = bdb_part(pile);
    let p3 = flower_part(pile, k);
    let p4 = moon_part(pile, k);
    let p5 = tane_part(pile);
    let p6 = ribbon_part(pile);
    let p7 = tan_part(pile);
    let p8 = kasu_part(pile);
    let p9 = koikoi_part(k);
    let p = yaku_pairs(pile, k);
    assert(p == p1 + p2 + p3 + p4 + p5 + p6 + p7 + p8 + p9);
    if i < p1.len() {
        assert(p[i] == p1[i]);
    } else if i < (p1 + p2).len() {
        assert(p[i] == p2[i - p1.len()]);
    } else if i < (p1 + p2 + p3).len() {
        assert(p[i] == p3[i - (p1 + p2).len()]);
    } else if i < (p1 + p2 + p3 + p4).len() {
        assert(p[i] == p4[i - (p1 + p2 + p3).len()]);
    } else if i < (p1 + p2 + p3 + p4 + p5).len() {
        assert(p[i] == p5[i - (p1 + p2 + p3 + p4).len()]);
    } else if i < (p1 + p2 + p3 + p4 + p5 + p6).len() {
        assert(p[i] == p6[i - (p1 + p2 + p3 + p4 + p5).len()]);
    } else if i < (p1 + p2 + p3 + p4 + p5 + p6 + p7).len() {
        assert(p[i] == p7[i - (p1 + p2 + p3 + p4 + p5 + p6).len()]);
    } else if i < (p1 + p2 + p3 + p4 + p5 + p6 + p7 + p8).len() {
        assert(p[i] == p8[i - (p1 + p2 + p3 + p4 + p5 + p6 + p7).len()]);
    } else {
        assert(p[i] == p9[i - (p1 + p2 + p3 + p4 + p5 + p6 + p7 + p8).len()]);
    }
}


fn push_lights(r: &mut Vec<(i32, &'static str, i32)>, pile: &Vec<Card>)
    ensures
        pairs_of(final(r)@) == pairs_of(old(r)@) + lights_part(pile@),
        names_ok(old(r)@) ==> names_ok(final(r)@),
{
    let nl = count_lights(pile);
    let rain = contains_card(pile, Card { suit: 11, rank: 1 });
    if nl == 5 {
        r.push((1, "Five Lights", 10));
    } else if nl == 4 && !rain {
        r.push((2, "Four Lights", 8));
    } else if nl == 4 {
        r.push((3, "Rainy Four Lights", 7));
    } else if nl == 3 && !rain {
        r.push((4, "Three Lights", 5));
    }
    proof {
        assert(pairs_of(r@) =~= pairs_of(old(r)@) + lights_part(pile@));
    }
}

fn push_bdb(r: &mut Vec<(i32, &'static str, i32)>, pile: &Vec<Card>)
    ensures
        pairs_of(final(r)@) == pairs_of(old(r)@) + bdb_part(pile@),
        names_ok(old(r)@) ==> names_ok(final(r)@),
{
    proof {
        reveal(has_boar_deer_butterfly);
    }
    if contains_card(pile, Card { suit: 6, rank: 1 }) && contains_card(
        pile,
        Card { suit: 7, rank: 1 },
    ) && contains_card(pile, Card { suit: 10, rank: 1 }) {
        r.push((5, "Boar-Deer-Butterfly", 5));
    }
    proof {
        assert(pairs_of(r@) =~= pairs_of(old(r)@) + bdb_part(pile@));
    }
}

fn push_flower(r: &mut Vec<(i32, &'static str, i32)>, pile: &Vec<Card>, k: i32)
    ensures
        pairs_of(final(r)@) == pairs_of(old(r)@) + flower_part(pile@, k as int),
        names_ok(old(r)@) ==> names_ok(final(r)@),
{
    proof {
        reveal(has_flower_sake);
    }
    if contains_card(pile, Card { suit: 3, rank: 1 }) && contains_card(
        pile,
        Card { suit: 9, rank: 1 },
    ) {
        if k == 0 {
            r.push((6, "Flower Viewing Sake", 1));
        } else {
            r.push((7, "Flower Viewing Sake", 3));
        }
    }
    proof {
        assert(pairs_of(r@) =~= pairs_of(old(r)@) + flower_part(pile@, k as int));
    }
}

fn push_moon(r: &mut Vec<(i32, &'static str, i32)>, pile: &Vec<Card>, k: i32)
    ensures
        pairs_of(final(r)@) == pairs_of(old(r)@) + moon_part(pile@, k as int),
        names_ok(old(r)@) ==> names_ok(final(r)@),
{
    proof {
        reveal(has_moon_sake);
    }
    if contains_card(pile, Card { suit: 8, rank: 1 }) && contains_card(
        pile,
        Card { suit: 9, rank: 1 },
    ) {
        if k == 0 {
            r.push((8, "Moon Viewing Sake", 1));
        } else {
            r.push((9, "Moon Viewing Sake", 3));
        }
    }
    proof {
        assert(pairs_of(r@) =~= pairs_of(old(r)@) + moon_part(pile@, k as int));
    }
}

fn push_tane(r: &mut Vec<(i32, &'static str, i32)>, pile: &Vec<Card>)
    ensures
        pairs_of(final(r)@) == pairs_of(old(r)@) + tane_part(pile@),
        names_ok(old(r)@) ==> names_ok(final(r)@),
{
    let ns = count_seeds(pile);
    proof {
        reveal(num_seeds);
    }
    if ns >= 5 {
        r.push((10, "Tane", (ns - 4) as i32));
    }
    proof {
        assert(pairs_of(r@) =~= pairs_of(old(r)@) + tane_part(pile@));
    }
}

fn push_ribbon(r: &mut Vec<(i32, &'static str, i32)>, pile: &Vec<Card>)
    ensures
        pairs_of(final(r)@) == pairs_of(old(r)@) + ribbon_part(pile@),
        names_ok(old(r)@) ==> names_ok(final(r)@),
{
    proof {
        reveal(has_red_ribbons);
        reveal(has_blue_ribbons);
    }
    let red = contains_card(pile, Card { suit: 1, rank: 2 }) && contains_card(
        pile,
        Card { suit: 2, rank: 2 },
    ) && contains_card(pile, Card { suit: 3, rank: 2 });
    let blue = contains_card(pile, Card { suit: 6, rank: 2 }) && contains_card(
        pile,
        Card { suit: 9, rank: 2 },
    ) && contains_card(pile, Card { suit: 10, rank: 2 });
    if red && blue {
        r.push((11, "Red & Blue Ribbons", 10));
    } else if red {
        r.push((12, "Red Ribbons", 5));
    } else if blue {
        r.push((13, "Blue Ribbons", 5));
    }
    proof {
        assert(pairs_of(r@) =~= pairs_of(old(r)@) + ribbon_part(pile@));
    }
}

fn push_tan(r: &mut Vec<(i32, &'static str, i32)>, pile: &Vec<Card>)
    ensures
        pairs_of(final(r)@) == pairs_of(old(r)@) + tan_part(pile@),
        names_ok(old(r)@) ==> names_ok(final(r)@),
{
    let nr = count_ribbons(pile);
    proof {
        reveal(num_ribbons);
    }
    if nr >= 5 {
        r.push((14, "Tan", (nr - 4) as i32));
    }
    proof {
        assert(pairs_of(r@) =~= pairs_of(old(r)@) + tan_part(pile@));
    }
}

fn push_kasu(r: &mut Vec<(i32, &'static str, i32)>, pile: &Vec<Card>)
    ensures
        pairs_of(final(r)@) == pairs_of(old(r)@) + kasu_part(pile@),
        names_ok(old(r)@) ==> names_ok(final(r)@),
{
    let nd = count_dross(pile);
    proof {
        reveal(num_dross);
    }
    if nd >= 10 {
        r.push((15, "Kasu", (nd - 9) as i32));
    }
    proof {
        assert(pairs_of(r@) =~= pairs_of(old(r)@) + kasu_part(pile@));
    }
}

fn push_koikoi(r: &mut Vec<(i32, &'static str, i32)>, k: i32)
    ensures
        pairs_of(final(r)@) == pairs_of(old(r)@) + koikoi_part(k as int),
        names_ok(old(r)@) ==> names_ok(final(r)@),
{
    if k > 0 {
        r.push((16, "Koi-Koi", k));
    }
    proof {
        assert(pairs_of(r@) =~= pairs_of(old(r)@) + koikoi_part(k as int));
    }
}

/// Evaluates one pile: the achieved combinations as
/// (priority id, name, point value) entries, in fixed priority order.
/// `koikoi_num` is how often the pile's owner has declared koi-koi this
/// round.
pub fn yaku_list(pile: &Vec<Card>, koikoi_num: i32) -> (r: Vec<(i32, &'static str, i32)>)
    ensures
        pairs_of(r@) == yaku_pairs(pile@, koikoi_num as int),
        names_ok(r@),
{
    let k = koikoi_num;
    let mut r: Vec<(i32, &'static str, i32)> = Vec::new();
    proof {
        assert(pairs_of(r@) =~= Seq::<(i32, i32)>::empty());
    }
    push_lights(&mut r, pile);
    push_bdb(&mut r, pile);
    push_flower(&mut r, pile, k);
    push_moon(&mut r, pile, k);
    push_tane(&mut r, pile);
    push_ribbon(&mut r, pile);
    push_tan(&mut r, pile);
    push_kasu(&mut r, pile);
    push_koikoi(&mut r, k);
    proof {
        assert(pairs_of(r@) =~= yaku_pairs(pile@, k as int));
    }
    r
}

fn lights_points_calc(pile: &Vec<Card>) -> (r: i32)
    ensures
        r as int == lights_points(pile@),
        0 <= r <= 10,
{
    let nl = count_lights(pile);
    let rain = contains_card(pile, Card { suit: 11, rank: 1 });
    if nl == 5 {
        10
    } else if nl == 4 && !rain {
        8
    } else if nl == 4 {
        7
    } else if nl == 3 && !rain {
        5
    } else {
        0
    }
}

fn bdb_points_calc(pile: &Vec<Card>) -> (r: i32)
    ensures
        r as int == bdb_points(pile@),
        0 <= r <= 5,
{
    proof {
        reveal(has_boar_deer_butterfly);
    }
    if contains_card(pile, Card { suit: 6, rank: 1 }) && contains_card(
        pile,
        Card { suit: 7, rank: 1 },
    ) && contains_card(pile, Card { suit: 10, rank: 1 }) {
        5
    } else {
        0
    }
}

fn flower_points_calc(pile: &Vec<Card>, k: i32) -> (r: i32)
    ensures
        r as int == flower_points(pile@, k as int),
        0 <= r <= 3,
{
    proof {
        reveal(has_flower_sake);
    }
    if contains_card(pile, Card { suit: 3, rank: 1 }) && contains_card(
        pile,
        Card { suit: 9, rank: 1 },
    ) {
        if k == 0 {
            1
        } else {
            3
        }
    } else {
        0
    }
}

fn moon_points_calc(pile: &Vec<Card>, k: i32) -> (r: i32)
    ensures
        r as int == moon_points(pile@, k as int),
        0 <= r <= 3,
{
    proof {
        reveal(has_moon_sake);
    }
    if contains_card(pile, Card { suit: 8, rank: 1 }) && contains_card(
        pile,
        Card { suit: 9, rank: 1 },
    ) {
        if k == 0 {
            1
        } else {
            3
        }
    } else {
        0
    }
}

fn tane_points_calc(pile: &Vec<Card>) -> (r: i32)
    ensures
        r as int == tane_points(pile@),
        0 <= r <= 5,
{
    let ns = count_seeds(pile);
    proof {
        reveal(num_seeds);
    }
    if ns >= 5 {
        (ns - 4) as i32
    } else {
        0
    }
}

fn ribbon_points_calc(pile: &Vec<Card>) -> (r: i32)
    ensures
        r as int == ribbon_points(pile@),
        0 <= r <= 10,
{
    proof {
        reveal(has_red_ribbons);
        reveal(has_blue_ribbons);
    }
    let red = contains_card(pile, Card { suit: 1, rank: 2 }) && contains_card(
        pile,
        Card { suit: 2, rank: 2 },
    ) && contains_card(pile, Card { suit: 3, rank: 2 });
    let blue = contains_card(pile, Card { suit: 6, rank: 2 }) && contains_card(
        pile,
        Card { suit: 9, rank: 2 },
    ) && contains_card(pile, Card { suit: 10, rank: 2 });
    if red && blue {
        10
    } else if red || blue {
        5
    } else {
        0
    }
}

fn tan_points_calc(pile: &Vec<Card>) -> (r: i32)
    ensures
        r as int == tan_points(pile@),
        0 <= r <= 6,
{
    let nr = count_ribbons(pile);
    proof {
        reveal(num_ribbons);
    }
    if nr >= 5 {
        (nr - 4) as i32
    } else {
        0
    }
}

fn kasu_points_calc(pile: &Vec<Card>) -> (r: i32)
    ensures
        r as int == kasu_points(pile@),
        0 <= r <= 16,
{
    let nd = count_dross(pile);
    proof {
        reveal(num_dross);
    }
    if nd >= 10 {
        (nd - 9) as i32
    } else {
        0
    }
}

/// The non-Koi-Koi point sum of one pile (`base_points`).
fn base_points_calc(pile: &Vec<Card>, koikoi_num: i32) -> (r: i32)
    ensures
        r as int == base_points(pile@, koikoi_num as int),
        0 <= r <= 58,
{
    let k = koikoi_num;
    let base: i32 = lights_points_calc(pile) + bdb_points_calc(pile) + flower_points_calc(pile, k)
        + moon_points_calc(pile, k) + tane_points_calc(pile) + ribbon_points_calc(pile)
        + tan_points_calc(pile) + kasu_points_calc(pile);
    base
}

/// The total point value of one pile under the canonical scoring
/// formula (`yaku_point_spec`).
pub fn yaku_point_calc(pile: &Vec<Card>, koikoi_num: i32) -> (r: i32)
    requires
        0 <= koikoi_num <= 8,
    ensures
        r == yaku_point_spec(pile@, koikoi_num as int),
        0 <= r <= 348,
{
    let k = koikoi_num;
    let base = base_points_calc(pile, k);
    if k <= 3 {
        base + k
    } else {
        proof {
            assert(base * (k - 2) <= 348 && base * (k - 2) >= 0) by (nonlinear_arith)
                requires
                    0 <= base <= 58,
                    4 <= k <= 8,
            ;
        }
        base * (k - 2)
    }
}

} // verus!

