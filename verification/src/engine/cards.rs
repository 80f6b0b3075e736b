//! The card hand of the arcana class: at most two cards are drawn, by weight, from a
//! fixed pool, and the last used card can be drawn again.

use vstd::prelude::*;
use crate::engine::rng::{Rng, xorshift};

verus! {

/// The most cards a hand holds.
pub const HAND_LIMIT: usize = 2;

/// 2^53: random draws use the top 53 bits of a 64-bit random value, read as a
/// fraction of this.
pub const DRAW_SCALE: u128 = 0x20_0000_0000_0000;

/// A card that can be drawn, with its draw weight in thousandths.
#[derive(Clone, Copy, Debug)]
pub struct CardPoolEntry {
    pub skill_id: u32,
    pub draw_weight: u64,
}

/// The sum of the weights of the entries whose card is not in `hand`.
pub open spec fn free_weight(entries: Seq<CardPoolEntry>, hand: Seq<u32>) -> nat
    decreases entries.len(),
{
    if entries.len() == 0 {
        0
    } else if hand.contains(entries.last().skill_id) {
        free_weight(entries.drop_last(), hand)
    } else {
        free_weight(entries.drop_last(), hand) + entries.last().draw_weight as nat
    }
}

/// The card that a roll of `roll` (in units of 2^-53 of a weight) lands on, walking the
/// pool in order and skipping cards in `hand`: the first card whose weight takes the
/// remaining roll below zero.
pub open spec fn landed(entries: Seq<CardPoolEntry>, hand: Seq<u32>, roll: int) -> Option<u32>
    decreases entries.len(),
{
    if entries.len() == 0 {
        None
    } else if hand.contains(entries[0].skill_id) {
        landed(entries.skip(1), hand, roll)
    } else if roll < entries[0].draw_weight * DRAW_SCALE {
        Some(entries[0].skill_id)
    } else {
        landed(entries.skip(1), hand, roll - entries[0].draw_weight * DRAW_SCALE)
    }
}

/// The hand and generator state after a draw from `pool` into `hand` with generator state
/// `state`: nothing happens (and no random value is taken) when the pool is empty, the hand
/// is full, or the cards not held have no weight; else one value `x` is taken and the card
/// that `(x >> 11) * total` lands on is added.
pub open spec fn after_draw(pool: Seq<CardPoolEntry>, hand: Seq<u32>, state: u64) -> (Seq<u32>, u64) {
    let total = free_weight(pool, hand);
    if pool.len() == 0 || hand.len() >= HAND_LIMIT || total == 0 {
        (hand, state)
    } else {
        let x = xorshift(state);
        match landed(pool, hand, (x >> 11u64) * total) {
            Some(id) => (hand.push(id), x),
            None => (hand, x),
        }
    }
}

/// The cards held and the pool they are drawn from.
pub struct CardHand {
    /// Held card ids, in the order drawn.
    pub cards: Vec<u32>,
    card_pool: Vec<CardPoolEntry>,
    last_used_card: Option<u32>,
}

impl CardHand {
    /// The held cards, in the order drawn.
    pub closed spec fn held(&self) -> Seq<u32> {
        self.cards@
    }

    /// The pool cards are drawn from.
    pub closed spec fn pool(&self) -> Seq<CardPoolEntry> {
        self.card_pool@
    }

    /// The card remembered as last used.
    pub closed spec fn last_used(&self) -> Option<u32> {
        self.last_used_card
    }

    /// An empty hand that draws from `card_pool`.
    pub fn new(card_pool: Vec<CardPoolEntry>) -> (hand: Self)
        ensures
            hand.held() == Seq::<u32>::empty(),
            hand.pool() == card_pool@,
            hand.last_used() == None::<u32>,
    {
        CardHand { cards: Vec::new(), card_pool, last_used_card: None }
    }

    /// Draws one card, by weight, from the pool cards not in the hand, when the hand has
    /// room and some such card has weight. The random value is taken only in that case.
    pub fn draw_card(&mut self, rng: &mut Rng)
        ensures
            final(self).pool() == old(self).pool(),
            final(self).last_used() == old(self).last_used(),
            (final(self).held(), final(rng)@) == after_draw(old(self).pool(), old(self).held(), old(rng)@),
    {
        let n = self.card_pool.len();
        if n == 0 || self.cards.len() >= HAND_LIMIT {
            return;
        }
        let ghost hand = self.held();
        let ghost pool = self.card_pool@;
        let mut total: u128 = 0;
        let mut k: usize = 0;
        while k < n
            invariant
                n == pool.len(),
                pool == self.card_pool@,
                hand == self.held(),
                0 <= k <= n,
                total == free_weight(pool.take(k as int), hand),
                total <= k * 0xFFFF_FFFF_FFFF_FFFFu128,
            decreases n - k,
        {
            proof {
                assert(pool.take(k as int + 1).drop_last() =~= pool.take(k as int));
            }
            let e = self.card_pool[k];
            if !contains_card(&self.cards, e.skill_id) {
                total = total + e.draw_weight as u128;
            }
            k += 1;
        }
        assert(pool.take(n as int) =~= pool);
        if total == 0 {
            return;
        }
        let x = rng.next_u64();
        let r: u64 = x >> 11;
        assert(r < 0x20_0000_0000_0000u64) by (bit_vector)
            requires r == x >> 11u64;
        let (q, rem) = split_roll(r, total);
        let ghost roll0: int = (x >> 11u64) * free_weight(pool, hand);
        let mut cum: u128 = 0;
        let mut j: usize = 0;
        while j < n
            invariant
                n == pool.len(),
                pool == self.card_pool@,
                pool == old(self).card_pool@,
                self.last_used_card == old(self).last_used_card,
                hand == self.held(),
                0 <= j <= n,
                hand == old(self).cards@,
                rng@ == xorshift(old(rng)@),
                x == rng@,
                total == free_weight(pool, hand),
                total > 0,
                n > 0,
                hand.len() < HAND_LIMIT,
                roll0 == (x >> 11u64) * free_weight(pool, hand),
                q * DRAW_SCALE + rem == roll0,
                rem < DRAW_SCALE,
                cum <= j * 0xFFFF_FFFF_FFFF_FFFFu128,
                landed(pool.skip(j as int), hand, roll0 - cum * DRAW_SCALE) == landed(pool, hand, roll0),
            decreases n - j,
        {
            let e = self.card_pool[j];
            proof {
                assert(pool.skip(j as int)[0] == e);
                assert(pool.skip(j as int).skip(1) =~= pool.skip(j as int + 1));
            }
            if !contains_card(&self.cards, e.skill_id) {
                let next: u128 = cum + e.draw_weight as u128;
                if q < next {
                    proof {
                        let tail = pool.skip(j as int);
                        assert(!hand.contains(e.skill_id));
                        assert(tail[0] == e);
                        assert(roll0 - cum * DRAW_SCALE < e.draw_weight * DRAW_SCALE);
                        assert(landed(tail, hand, roll0 - cum * DRAW_SCALE) == Some(e.skill_id));
                    }
                    self.cards.push(e.skill_id);
                    return;
                }
                proof {
                    assert(!(roll0 - cum * DRAW_SCALE < e.draw_weight * DRAW_SCALE));
                    assert(roll0 - cum * DRAW_SCALE - e.draw_weight * DRAW_SCALE == roll0 - next * DRAW_SCALE);
                }
                cum = next;
            }
            j += 1;
        }
        assert(pool.skip(n as int).len() == 0);
    }

    /// Some card is held.
    pub fn has_cards(&self) -> (r: bool)
        ensures
            r == (self.held().len() > 0),
    {
        self.cards.len() > 0
    }

    /// `card_id` is held.
    pub fn has_card(&self, card_id: u32) -> (r: bool)
        ensures
            r == self.held().contains(card_id),
    {
        contains_card(&self.cards, card_id)
    }

    /// How many copies of `card_id` are held.
    pub fn card_count(&self, card_id: u32) -> (count: usize)
        ensures
            count == self.held().filter(|c: u32| c == card_id).len(),
    {
        let ghost pred = |c: u32| c == card_id;
        let mut count: usize = 0;
        let n = self.cards.len();
        let mut k: usize = 0;
        while k < n
            invariant
                n == self.held().len(),
                0 <= k <= n,
                pred == (|c: u32| c == card_id),
                count == self.held().take(k as int).filter(pred).len(),
                count <= k,
            decreases n - k,
        {
            proof {
                let t1 = self.held().take(k as int + 1);
                assert(t1.drop_last() =~= self.held().take(k as int));
                reveal_with_fuel(Seq::filter, 1);
            }
            if self.cards[k] == card_id {
                count += 1;
            }
            k += 1;
        }
        assert(self.held().take(n as int) =~= self.held());
        count
    }

    /// The held cards, in order.
    pub fn held_cards(&self) -> (held: Vec<u32>)
        ensures
            held@ == self.held(),
    {
        let mut held: Vec<u32> = Vec::new();
        let n = self.cards.len();
        let mut k: usize = 0;
        while k < n
            invariant
                n == self.held().len(),
                0 <= k <= n,
                held@ == self.held().take(k as int),
            decreases n - k,
        {
            held.push(self.cards[k]);
            proof { assert(self.held().take(k as int + 1) =~= self.held().take(k as int).push(self.held()[k as int])); }
            k += 1;
        }
        assert(self.held().take(n as int) =~= self.held());
        held
    }

    /// Plays `card_id`: its first copy leaves the hand. False when it is not held.
    pub fn use_card(&mut self, card_id: u32) -> (used: bool)
        ensures
            used == old(self).held().contains(card_id),
            final(self).pool() == old(self).pool(),
            final(self).last_used() == old(self).last_used(),
            !used ==> final(self).held() == old(self).held(),
            used ==> exists|i: int| 0 <= i < old(self).held().len()
                && old(self).held()[i] == card_id
                && (forall|j: int| 0 <= j < i ==> #[trigger] old(self).held()[j] != card_id)
                && final(self).held() == old(self).held().remove(i),
    {
        let n = self.cards.len();
        let mut k: usize = 0;
        while k < n
            invariant
                n == self.held().len(),
                self.held() == old(self).held(),
                self.card_pool == old(self).card_pool,
                self.last_used_card == old(self).last_used_card,
                0 <= k <= n,
                forall|j: int| 0 <= j < k ==> #[trigger] self.held()[j] != card_id,
            decreases n - k,
        {
            if self.cards[k] == card_id {
                self.cards.remove(k);
                return true;
            }
            k += 1;
        }
        false
    }

    /// Remembers `card_id` as the last card used.
    pub fn remember_card_use(&mut self, card_id: u32)
        ensures
            final(self).last_used() == Some(card_id),
            final(self).held() == old(self).held(),
            final(self).pool() == old(self).pool(),
    {
        self.last_used_card = Some(card_id);
    }

    /// Draws the last used card again, when one is remembered and the hand has room.
    pub fn draw_last_used_card(&mut self)
        ensures
            final(self).pool() == old(self).pool(),
            final(self).last_used() == old(self).last_used(),
            final(self).held() == (match old(self).last_used() {
                Some(id) if old(self).held().len() < HAND_LIMIT => old(self).held().push(id),
                _ => old(self).held(),
            }),
    {
        if self.cards.len() < HAND_LIMIT {
            match self.last_used_card {
                Some(id) => self.cards.push(id),
                None => {},
            }
        }
    }
}

/// The hand and generator state after `n` draws in a row.
pub open spec fn draws(pool: Seq<CardPoolEntry>, hand: Seq<u32>, state: u64, n: nat) -> (Seq<u32>, u64)
    decreases n,
{
    if n == 0 {
        (hand, state)
    } else {
        let (h, st) = draws(pool, hand, state, (n - 1) as nat);
        after_draw(pool, h, st)
    }
}

impl CardHand {
    /// Fills the card gauge, at `gauge` of `max`, by `amount`: each time it reaches `max` it
    /// empties by `max` and a card is drawn. Returns the new gauge, below `max`; with no
    /// maximum the gauge stays at 0.
    pub fn gain_card_gauge(&mut self, rng: &mut Rng, gauge: u64, amount: u64, max: u64) -> (next: u64)
        requires
            gauge + amount <= u64::MAX,
        ensures
            final(self).pool() == old(self).pool(),
            final(self).last_used() == old(self).last_used(),
            max == 0 ==> next == 0 && final(self).held() == old(self).held() && final(rng)@ == old(rng)@,
            max > 0 ==> next < max && next == (gauge + amount) % (max as int)
                && (final(self).held(), final(rng)@)
                    == draws(old(self).pool(), old(self).held(), old(rng)@, ((gauge + amount) / (max as int)) as nat),
    {
        if max == 0 {
            return 0;
        }
        let total = gauge + amount;
        let mut next = total;
        let mut n: u64 = 0;
        while next >= max
            invariant
                max > 0,
                next + n * max == total,
                self.pool() == old(self).pool(),
                self.last_used() == old(self).last_used(),
                (self.held(), rng@) == draws(old(self).pool(), old(self).held(), old(rng)@, n as nat),
            decreases next,
        {
            next = next - max;
            self.draw_card(rng);
            proof {
                assert((n + 1) * max == n * max + max) by (nonlinear_arith);
                assert(n + 1 <= (n + 1) * max) by (nonlinear_arith)
                    requires
                        max >= 1,
                        n >= 0;
            }
            n = n + 1;
        }
        proof {
            assert(total == n * max + next);
            vstd::arithmetic::div_mod::lemma_fundamental_div_mod_converse(total as int, max as int, n as int, next as int);
        }
        next
    }
}

/// Splits `r * total`, for a 53-bit `r`, into its quotient and remainder by 2^53
/// without forming the product, which may not fit in 128 bits.
pub fn split_roll(r: u64, total: u128) -> (qr: (u128, u128))
    requires
        r < DRAW_SCALE,
    ensures
        qr.0 * DRAW_SCALE + qr.1 == r * total,
        qr.1 < DRAW_SCALE,
{
    let th: u128 = total / DRAW_SCALE;
    let tl: u128 = total % DRAW_SCALE;
    assert(total == th * DRAW_SCALE + tl && tl < DRAW_SCALE);
    assert(r * th + th <= total) by (nonlinear_arith)
        requires
            r < 0x20_0000_0000_0000int,
            total == th * 0x20_0000_0000_0000int + tl,
            tl >= 0,
            th >= 0,
            r >= 0;
    assert(r * tl < 0x20_0000_0000_0000int * 0x20_0000_0000_0000int) by (nonlinear_arith)
        requires
            r < 0x20_0000_0000_0000int,
            tl < 0x20_0000_0000_0000int,
            tl >= 0,
            r >= 0;
    let hi: u128 = r as u128 * th;
    let p: u128 = r as u128 * tl;
    let q: u128 = hi + p / DRAW_SCALE;
    let rem: u128 = p % DRAW_SCALE;
    assert(q * DRAW_SCALE + rem == r * total) by (nonlinear_arith)
        requires
            hi == r * th,
            p == r * tl,
            total == th * 0x20_0000_0000_0000int + tl,
            q == hi + (p as int) / 0x20_0000_0000_0000int,
            rem == (p as int) % 0x20_0000_0000_0000int,
            p >= 0;
    (q, rem)
}

/// `card_id` occurs in `cards`.
fn contains_card(cards: &Vec<u32>, card_id: u32) -> (r: bool)
    ensures
        r == cards@.contains(card_id),
{
    let n = cards.len();
    let mut k: usize = 0;
    while k < n
        invariant
            n == cards@.len(),
            0 <= k <= n,
            forall|j: int| 0 <= j < k ==> #[trigger] cards@[j] != card_id,
        decreases n - k,
    {
        if cards[k] == card_id {
            assert(cards@[k as int] == card_id);
            return true;
        }
        k += 1;
    }
    false
}

/// A card that a roll lands on is in the pool and not in the hand.
pub proof fn lemma_landed_is_free(pool: Seq<CardPoolEntry>, hand: Seq<u32>, roll: int)
    requires
        roll >= 0,
    ensures
        landed(pool, hand, roll) matches Some(id) ==> !hand.contains(id)
            && exists|i: int| 0 <= i < pool.len() && #[trigger] pool[i].skill_id == id && pool[i].draw_weight > 0,
    decreases pool.len(),
{
    if pool.len() > 0 {
        let rest = pool.skip(1);
        let w = pool[0].draw_weight * DRAW_SCALE;
        let held = hand.contains(pool[0].skill_id);
        if held || roll >= w {
            let next = if held { roll } else { roll - w };
            lemma_landed_is_free(rest, hand, next);
            if let Some(id) = landed(rest, hand, next) {
                let i = choose|i: int| 0 <= i < rest.len() && #[trigger] rest[i].skill_id == id && rest[i].draw_weight > 0;
                assert(pool[i + 1] == rest[i]);
            }
        }
    }
}

/// With no pool card outside the hand of positive weight, the free weight is 0.
proof fn lemma_no_free_weight(pool: Seq<CardPoolEntry>, hand: Seq<u32>)
    requires
        forall|i: int| 0 <= i < pool.len() && !hand.contains(pool[i].skill_id) ==> #[trigger] pool[i].draw_weight == 0,
    ensures
        free_weight(pool, hand) == 0,
    decreases pool.len(),
{
    if pool.len() > 0 {
        let rest = pool.drop_last();
        assert forall|i: int| 0 <= i < rest.len() && !hand.contains(rest[i].skill_id) implies #[trigger] rest[i].draw_weight == 0 by {
            assert(rest[i] == pool[i]);
        }
        lemma_no_free_weight(rest, hand);
        assert(pool.last() == pool[pool.len() - 1]);
    }
}

/// Law: a draw adds at most one card, only to a hand with room, and only a pool card that
/// is not already held and has positive weight; so a hand never grows past two cards by
/// drawing. A full hand, or a pool with no such card, draws nothing and takes no random value.
pub proof fn law_draw_adds_a_free_pool_card(pool: Seq<CardPoolEntry>, hand: Seq<u32>, state: u64)
    ensures
        ({
            let (after, _) = after_draw(pool, hand, state);
            &&& after == hand || (hand.len() < HAND_LIMIT && after.len() == hand.len() + 1 && after.drop_last() == hand
                && !hand.contains(after.last())
                && exists|i: int| 0 <= i < pool.len() && #[trigger] pool[i].skill_id == after.last() && pool[i].draw_weight > 0)
            &&& hand.len() <= HAND_LIMIT ==> after.len() <= HAND_LIMIT
        }),
        (hand.len() >= HAND_LIMIT
            || !exists|i: int| 0 <= i < pool.len() && !hand.contains(pool[i].skill_id) && #[trigger] pool[i].draw_weight > 0)
            ==> after_draw(pool, hand, state) == (hand, state),
{
    let total = free_weight(pool, hand);
    if !exists|i: int| 0 <= i < pool.len() && !hand.contains(pool[i].skill_id) && #[trigger] pool[i].draw_weight > 0 {
        lemma_no_free_weight(pool, hand);
    }
    if !(pool.len() == 0 || hand.len() >= HAND_LIMIT || total == 0) {
        let x = xorshift(state);
        lemma_landed_is_free(pool, hand, (x >> 11u64) * total);
        if let Some(id) = landed(pool, hand, (x >> 11u64) * total) {
            assert(hand.push(id).drop_last() =~= hand);
        }
    }
}

/// Law: drawing the last used card never grows a hand past two cards.
pub proof fn law_redraw_within_limit(hand: Seq<u32>, last: Option<u32>)
    requires
        hand.len() <= HAND_LIMIT,
    ensures
        (match last {
            Some(id) if hand.len() < HAND_LIMIT => hand.push(id),
            _ => hand,
        }).len() <= HAND_LIMIT,
{
}

} // verus!
