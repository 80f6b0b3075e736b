//! The arcana card pool of a build: which cards can be drawn, with which weights, and how
//! many are drawn before the fight.

use vstd::prelude::*;
use crate::builder::dto::ArkPassiveClassNodeInput;
use crate::builder::engraving::EngravingInput;
use crate::engine::cards::CardPoolEntry;
use crate::profile::same_text;

verus! {

/// A card of the class, as the build reads it; the draw weight is in thousandths.
pub struct ArcanaCardInput {
    pub skill_id: u32,
    pub name: String,
    pub auto_learn: bool,
    pub draw_weight: u64,
}

/// The card learned through the emperor's edict.
pub const EDICT_CARD: u32 = 19282;
/// The first card that the emperor's gift replaces, and its replacement.
pub const GIFT_FIRST_OLD: u32 = 19099;
/// See `GIFT_FIRST_OLD`.
pub const GIFT_FIRST_NEW: u32 = 19286;
/// The second card that the emperor's gift replaces (from level 2), and its replacement.
pub const GIFT_SECOND_OLD: u32 = 19098;
/// See `GIFT_SECOND_OLD`.
pub const GIFT_SECOND_NEW: u32 = 19287;
/// The card learned through the empress's knight.
pub const KNIGHT_CARD: u32 = 19288;

/// The pool entry of a card.
pub open spec fn entry_of(c: ArcanaCardInput) -> CardPoolEntry {
    CardPoolEntry { skill_id: c.skill_id, draw_weight: c.draw_weight }
}

/// `id` is the card of some entry.
pub open spec fn pool_has(pool: Seq<CardPoolEntry>, id: u32) -> bool {
    exists|i: int| 0 <= i < pool.len() && #[trigger] pool[i].skill_id == id
}

/// `id` is among the cards.
pub open spec fn card_known(cards: Seq<ArcanaCardInput>, id: u32) -> bool {
    exists|i: int| 0 <= i < cards.len() && #[trigger] cards[i].skill_id == id
}

/// `i` is the first of the cards with id `id`.
pub open spec fn first_card(cards: Seq<ArcanaCardInput>, id: u32, i: int) -> bool {
    0 <= i < cards.len() && cards[i].skill_id == id && forall|j: int| 0 <= j < i ==> #[trigger] cards[j].skill_id != id
}

/// The pool after adding card `id`: unchanged when it is already in the pool or is not
/// among `cards`; else the first card of that id is added at the end.
pub open spec fn added(pool: Seq<CardPoolEntry>, cards: Seq<ArcanaCardInput>, id: u32) -> Seq<CardPoolEntry> {
    if pool_has(pool, id) || !card_known(cards, id) {
        pool
    } else {
        pool.push(entry_of(cards[choose|i: int| first_card(cards, id, i)]))
    }
}

/// The pool after replacing card `old_id` by card `new_id`: every entry of `old_id` goes,
/// then `new_id` is added.
pub open spec fn replaced(pool: Seq<CardPoolEntry>, cards: Seq<ArcanaCardInput>, old_id: u32, new_id: u32) -> Seq<CardPoolEntry> {
    added(pool.filter(|e: CardPoolEntry| e.skill_id != old_id), cards, new_id)
}

proof fn lemma_first_card_unique(cards: Seq<ArcanaCardInput>, id: u32, i: int, k: int)
    requires
        first_card(cards, id, i),
        first_card(cards, id, k),
    ensures
        i == k,
{
    if i < k {
        assert(cards[i].skill_id != id);
    } else if k < i {
        assert(cards[k].skill_id != id);
    }
}

fn in_pool(pool: &[CardPoolEntry], id: u32) -> (r: bool)
    ensures
        r == pool_has(pool@, id),
{
    let mut k: usize = 0;
    while k < pool.len()
        invariant
            0 <= k <= pool@.len(),
            forall|j: int| 0 <= j < k ==> #[trigger] pool@[j].skill_id != id,
        decreases pool@.len() - k,
    {
        if pool[k].skill_id == id {
            return true;
        }
        k += 1;
    }
    false
}

fn find_card(cards: &[ArcanaCardInput], id: u32) -> (i: Option<usize>)
    ensures
        i matches Some(i) ==> first_card(cards@, id, i as int),
        i is None ==> !card_known(cards@, id),
{
    let mut k: usize = 0;
    while k < cards.len()
        invariant
            0 <= k <= cards@.len(),
            forall|j: int| 0 <= j < k ==> #[trigger] cards@[j].skill_id != id,
        decreases cards@.len() - k,
    {
        if cards[k].skill_id == id {
            return Some(k);
        }
        k += 1;
    }
    None
}

/// Adds card `card_id` to the pool, with its weight from `cards`, unless it is already there.
pub fn add_card(pool: &mut Vec<CardPoolEntry>, cards: &[ArcanaCardInput], card_id: u32)
    ensures
        final(pool)@ == added(old(pool)@, cards@, card_id),
{
    if !in_pool(pool.as_slice(), card_id) {
        match find_card(cards, card_id) {
            Some(i) => {
                proof {
                    let c = choose|k: int| first_card(cards@, card_id, k);
                    lemma_first_card_unique(cards@, card_id, i as int, c);
                }
                pool.push(CardPoolEntry { skill_id: cards[i].skill_id, draw_weight: cards[i].draw_weight });
            },
            None => {},
        }
    }
}

/// Takes card `old_card_id` out of the pool and adds card `new_card_id`.
pub fn replace_card(pool: &mut Vec<CardPoolEntry>, cards: &[ArcanaCardInput], old_card_id: u32, new_card_id: u32)
    ensures
        final(pool)@ == replaced(old(pool)@, cards@, old_card_id, new_card_id),
{
    let ghost orig = pool@;
    let ghost pred = |e: CardPoolEntry| e.skill_id != old_card_id;
    let mut kept: Vec<CardPoolEntry> = Vec::new();
    let mut k: usize = 0;
    while k < pool.len()
        invariant
            pool@ == orig,
            0 <= k <= orig.len(),
            pred == (|e: CardPoolEntry| e.skill_id != old_card_id),
            kept@ == orig.take(k as int).filter(pred),
        decreases orig.len() - k,
    {
        proof {
            let t1 = orig.take(k as int + 1);
            assert(t1.drop_last() =~= orig.take(k as int));
            reveal_with_fuel(Seq::filter, 1);
        }
        if pool[k].skill_id != old_card_id {
            kept.push(pool[k]);
        }
        k += 1;
    }
    assert(orig.take(orig.len() as int) =~= orig);
    *pool = kept;
    add_card(pool, cards, new_card_id);
}

/// The pool of the cards learned from the start, in order.
pub open spec fn learned(cards: Seq<ArcanaCardInput>) -> Seq<CardPoolEntry>
    decreases cards.len(),
{
    if cards.len() == 0 {
        Seq::empty()
    } else if cards.last().auto_learn {
        learned(cards.drop_last()).push(entry_of(cards.last()))
    } else {
        learned(cards.drop_last())
    }
}

/// The character has the emperor's edict engraving at some level.
pub open spec fn has_edict(engravings: Seq<EngravingInput>) -> bool {
    exists|i: int| 0 <= i < engravings.len() && #[trigger] engravings[i].name@ == "황제의 칙령"@ && engravings[i].level > 0
}

/// The pool after an ark passive class node: the edict adds its card, the gift replaces
/// one card (two from level 2), the knight adds its card.
pub open spec fn node_applied(pool: Seq<CardPoolEntry>, cards: Seq<ArcanaCardInput>, node: ArkPassiveClassNodeInput) -> Seq<CardPoolEntry> {
    if node.name@ == "황제의 칙령"@ && node.level >= 1 {
        added(pool, cards, EDICT_CARD)
    } else if node.name@ == "황제의 하사품"@ && node.level == 1 {
        replaced(pool, cards, GIFT_FIRST_OLD, GIFT_FIRST_NEW)
    } else if node.name@ == "황제의 하사품"@ && node.level >= 2 {
        replaced(replaced(pool, cards, GIFT_FIRST_OLD, GIFT_FIRST_NEW), cards, GIFT_SECOND_OLD, GIFT_SECOND_NEW)
    } else if node.name@ == "황후의 기사"@ && node.level >= 1 {
        added(pool, cards, KNIGHT_CARD)
    } else {
        pool
    }
}

/// The pool after the nodes, in order.
pub open spec fn nodes_applied(pool: Seq<CardPoolEntry>, cards: Seq<ArcanaCardInput>, nodes: Seq<ArkPassiveClassNodeInput>) -> Seq<CardPoolEntry>
    decreases nodes.len(),
{
    if nodes.len() == 0 {
        pool
    } else {
        node_applied(nodes_applied(pool, cards, nodes.drop_last()), cards, nodes.last())
    }
}

/// The pool of a build: the learned cards; with the edict engraving, its card is added and
/// both gift replacements are made; then each class node in order.
pub open spec fn build_pool(cards: Seq<ArcanaCardInput>, engravings: Seq<EngravingInput>, nodes: Seq<ArkPassiveClassNodeInput>) -> Seq<CardPoolEntry> {
    let base = learned(cards);
    let start = if has_edict(engravings) {
        replaced(replaced(added(base, cards, EDICT_CARD), cards, GIFT_FIRST_OLD, GIFT_FIRST_NEW), cards, GIFT_SECOND_OLD, GIFT_SECOND_NEW)
    } else {
        base
    };
    nodes_applied(start, cards, nodes)
}

fn edict_engraved(engravings: &[EngravingInput]) -> (r: bool)
    ensures
        r == has_edict(engravings@),
{
    let mut k: usize = 0;
    while k < engravings.len()
        invariant
            0 <= k <= engravings@.len(),
            forall|j: int| 0 <= j < k ==> !(#[trigger] engravings@[j].name@ == "황제의 칙령"@ && engravings@[j].level > 0),
        decreases engravings@.len() - k,
    {
        if same_text(engravings[k].name.as_str(), "황제의 칙령") && engravings[k].level > 0 {
            return true;
        }
        k += 1;
    }
    false
}

/// The card pool of the build from the cards of the class, the character's engravings and
/// the class nodes of its ark passive (none when it has no ark passive).
pub fn arcana_card_pool(cards: &[ArcanaCardInput], engravings: &[EngravingInput], class_nodes: &[ArkPassiveClassNodeInput]) -> (pool: Vec<CardPoolEntry>)
    ensures
        pool@ == build_pool(cards@, engravings@, class_nodes@),
{
    let mut pool: Vec<CardPoolEntry> = Vec::new();
    let mut k: usize = 0;
    while k < cards.len()
        invariant
            0 <= k <= cards@.len(),
            pool@ == learned(cards@.take(k as int)),
        decreases cards@.len() - k,
    {
        proof {
            assert(cards@.take(k as int + 1).drop_last() =~= cards@.take(k as int));
        }
        if cards[k].auto_learn {
            pool.push(CardPoolEntry { skill_id: cards[k].skill_id, draw_weight: cards[k].draw_weight });
        }
        k += 1;
    }
    assert(cards@.take(cards@.len() as int) =~= cards@);
    if edict_engraved(engravings) {
        add_card(&mut pool, cards, EDICT_CARD);
        replace_card(&mut pool, cards, GIFT_FIRST_OLD, GIFT_FIRST_NEW);
        replace_card(&mut pool, cards, GIFT_SECOND_OLD, GIFT_SECOND_NEW);
    }
    let ghost start = pool@;
    let mut n: usize = 0;
    while n < class_nodes.len()
        invariant
            0 <= n <= class_nodes@.len(),
            pool@ == nodes_applied(start, cards@, class_nodes@.take(n as int)),
        decreases class_nodes@.len() - n,
    {
        proof {
            assert(class_nodes@.take(n as int + 1).drop_last() =~= class_nodes@.take(n as int));
        }
        let node = &class_nodes[n];
        let name = node.name.as_str();
        if same_text(name, "황제의 칙령") && node.level >= 1 {
            add_card(&mut pool, cards, EDICT_CARD);
        } else if same_text(name, "황제의 하사품") && node.level == 1 {
            replace_card(&mut pool, cards, GIFT_FIRST_OLD, GIFT_FIRST_NEW);
        } else if same_text(name, "황제의 하사품") && node.level >= 2 {
            replace_card(&mut pool, cards, GIFT_FIRST_OLD, GIFT_FIRST_NEW);
            replace_card(&mut pool, cards, GIFT_SECOND_OLD, GIFT_SECOND_NEW);
        } else if same_text(name, "황후의 기사") && node.level >= 1 {
            add_card(&mut pool, cards, KNIGHT_CARD);
        }
        n += 1;
    }
    assert(class_nodes@.take(class_nodes@.len() as int) =~= class_nodes@);
    pool
}

/// Cards drawn before the fight: two with the awakening potion on an arcana, else none.
pub fn initial_card_draws(enable_awakening_potion: bool, class_name: &str) -> (n: u32)
    ensures
        n == (if enable_awakening_potion && class_name@ == "아르카나"@ { 2u32 } else { 0u32 }),
{
    if enable_awakening_potion && same_text(class_name, "아르카나") { 2 } else { 0 }
}

/// Law: adding a card is idempotent: adding the same card a second time leaves the pool
/// as the first addition left it.
pub proof fn law_add_card_idempotent(pool: Seq<CardPoolEntry>, cards: Seq<ArcanaCardInput>, id: u32)
    ensures
        added(added(pool, cards, id), cards, id) == added(pool, cards, id),
{
    if !pool_has(pool, id) && card_known(cards, id) {
        let w = choose|i: int| 0 <= i < cards.len() && #[trigger] cards[i].skill_id == id;
        first_witness(cards, id, w);
        let c = choose|i: int| first_card(cards, id, i);
        let once = added(pool, cards, id);
        assert(once[pool.len() as int].skill_id == cards[c].skill_id);
        assert(pool_has(once, id));
    }
}

/// A card of id `id` at `w` means there is a first one.
proof fn first_witness(cards: Seq<ArcanaCardInput>, id: u32, w: int) -> (i: int)
    requires
        0 <= w < cards.len(),
        cards[w].skill_id == id,
    ensures
        first_card(cards, id, i),
    decreases w,
{
    if exists|j: int| 0 <= j < w && #[trigger] cards[j].skill_id == id {
        let j = choose|j: int| 0 <= j < w && #[trigger] cards[j].skill_id == id;
        first_witness(cards, id, j)
    } else {
        w
    }
}

/// Law: after a replacement the old card is gone from the pool, unless it is the card that
/// came in.
pub proof fn law_replaced_card_is_gone(pool: Seq<CardPoolEntry>, cards: Seq<ArcanaCardInput>, old_id: u32, new_id: u32)
    requires
        old_id != new_id,
    ensures
        !pool_has(replaced(pool, cards, old_id, new_id), old_id),
{
    let kept = pool.filter(|e: CardPoolEntry| e.skill_id != old_id);
    assert forall|i: int| 0 <= i < kept.len() implies #[trigger] kept[i].skill_id != old_id by {
        broadcast use vstd::seq_lib::group_filter_ensures;
    }
    if !pool_has(kept, new_id) && card_known(cards, new_id) {
        let w = choose|i: int| 0 <= i < cards.len() && #[trigger] cards[i].skill_id == new_id;
        first_witness(cards, new_id, w);
        let c = choose|i: int| first_card(cards, new_id, i);
        assert(cards[c].skill_id == new_id);
    }
}


/// Adding a card puts it in the pool when it is among the cards, and keeps every card
/// that was there.
proof fn lemma_added_has(pool: Seq<CardPoolEntry>, cards: Seq<ArcanaCardInput>, id: u32, x: u32)
    ensures
        card_known(cards, id) ==> pool_has(added(pool, cards, id), id),
        pool_has(pool, x) ==> pool_has(added(pool, cards, x), x) && pool_has(added(pool, cards, id), x),
{
    if pool_has(pool, x) {
        let i = choose|i: int| 0 <= i < pool.len() && #[trigger] pool[i].skill_id == x;
        if !pool_has(pool, id) && card_known(cards, id) {
            assert(added(pool, cards, id)[i] == pool[i]);
        }
    }
    if card_known(cards, id) && !pool_has(pool, id) {
        let w = choose|i: int| 0 <= i < cards.len() && #[trigger] cards[i].skill_id == id;
        first_witness(cards, id, w);
        let c = choose|i: int| first_card(cards, id, i);
        let once = added(pool, cards, id);
        assert(once[pool.len() as int].skill_id == cards[c].skill_id);
    }
}

/// A replacement keeps every card but the one it takes out.
proof fn lemma_replaced_keeps(pool: Seq<CardPoolEntry>, cards: Seq<ArcanaCardInput>, old_id: u32, new_id: u32, x: u32)
    requires
        x != old_id,
        pool_has(pool, x),
    ensures
        pool_has(replaced(pool, cards, old_id, new_id), x),
{
    let pred = |e: CardPoolEntry| e.skill_id != old_id;
    let i = choose|i: int| 0 <= i < pool.len() && #[trigger] pool[i].skill_id == x;
    let kept = pool.filter(pred);
    pool.lemma_filter_contains(pred, i);
    assert(kept.contains(pool[i]));
    let j = choose|j: int| 0 <= j < kept.len() && kept[j] == pool[i];
    assert(kept[j].skill_id == x);
    assert(pool_has(kept, x));
    lemma_added_has(kept, cards, new_id, x);
}

/// No class node takes the edict card out of a pool.
proof fn lemma_node_keeps_edict(pool: Seq<CardPoolEntry>, cards: Seq<ArcanaCardInput>, node: ArkPassiveClassNodeInput)
    requires
        pool_has(pool, EDICT_CARD),
    ensures
        pool_has(node_applied(pool, cards, node), EDICT_CARD),
{
    lemma_added_has(pool, cards, EDICT_CARD, EDICT_CARD);
    lemma_added_has(pool, cards, KNIGHT_CARD, EDICT_CARD);
    lemma_replaced_keeps(pool, cards, GIFT_FIRST_OLD, GIFT_FIRST_NEW, EDICT_CARD);
    lemma_replaced_keeps(replaced(pool, cards, GIFT_FIRST_OLD, GIFT_FIRST_NEW), cards, GIFT_SECOND_OLD, GIFT_SECOND_NEW, EDICT_CARD);
}

proof fn lemma_nodes_give_edict(start: Seq<CardPoolEntry>, cards: Seq<ArcanaCardInput>, nodes: Seq<ArkPassiveClassNodeInput>, i: int)
    requires
        0 <= i < nodes.len(),
        nodes[i].name@ == "황제의 칙령"@,
        nodes[i].level >= 1,
        card_known(cards, EDICT_CARD),
    ensures
        pool_has(nodes_applied(start, cards, nodes), EDICT_CARD),
    decreases nodes.len(),
{
    let before = nodes_applied(start, cards, nodes.drop_last());
    if i == nodes.len() - 1 {
        lemma_added_has(before, cards, EDICT_CARD, EDICT_CARD);
    } else {
        lemma_nodes_give_edict(start, cards, nodes.drop_last(), i);
        lemma_node_keeps_edict(before, cards, nodes.last());
    }
}

/// Law: a class node named 황제의 칙령 at level 1 or more gives the build its edict card,
/// when that card is among the class's cards, whatever the engravings and the other nodes
/// (before or after it) are; the edict engraving gives it too.
pub proof fn law_edict_gives_its_card(cards: Seq<ArcanaCardInput>, engravings: Seq<EngravingInput>,
    nodes: Seq<ArkPassiveClassNodeInput>, i: int)
    requires
        card_known(cards, EDICT_CARD),
        (0 <= i < nodes.len() && nodes[i].name@ == "황제의 칙령"@ && nodes[i].level >= 1) || has_edict(engravings),
    ensures
        pool_has(build_pool(cards, engravings, nodes), EDICT_CARD),
{
    let base = learned(cards);
    let start = if has_edict(engravings) {
        replaced(replaced(added(base, cards, EDICT_CARD), cards, GIFT_FIRST_OLD, GIFT_FIRST_NEW), cards, GIFT_SECOND_OLD, GIFT_SECOND_NEW)
    } else {
        base
    };
    if 0 <= i < nodes.len() && nodes[i].name@ == "황제의 칙령"@ && nodes[i].level >= 1 {
        lemma_nodes_give_edict(start, cards, nodes, i);
    } else {
        lemma_added_has(base, cards, EDICT_CARD, EDICT_CARD);
        let a = added(base, cards, EDICT_CARD);
        lemma_replaced_keeps(a, cards, GIFT_FIRST_OLD, GIFT_FIRST_NEW, EDICT_CARD);
        lemma_replaced_keeps(replaced(a, cards, GIFT_FIRST_OLD, GIFT_FIRST_NEW), cards, GIFT_SECOND_OLD, GIFT_SECOND_NEW, EDICT_CARD);
        lemma_nodes_keep_edict(start, cards, nodes);
    }
}

proof fn lemma_nodes_keep_edict(start: Seq<CardPoolEntry>, cards: Seq<ArcanaCardInput>, nodes: Seq<ArkPassiveClassNodeInput>)
    requires
        pool_has(start, EDICT_CARD),
    ensures
        pool_has(nodes_applied(start, cards, nodes), EDICT_CARD),
    decreases nodes.len(),
{
    if nodes.len() > 0 {
        lemma_nodes_keep_edict(start, cards, nodes.drop_last());
        lemma_node_keeps_edict(nodes_applied(start, cards, nodes.drop_last()), cards, nodes.last());
    }
}

/// Law: the class nodes give the cards they name, when those cards are among the class's
/// cards: the edict its card, the knight its card; the gift brings in its first new card and
/// takes out the card it replaces, and from level 2 its second new card as well.
pub proof fn law_class_node_cards(pool: Seq<CardPoolEntry>, cards: Seq<ArcanaCardInput>, node: ArkPassiveClassNodeInput)
    ensures
        node.name@ == "황제의 칙령"@ && node.level >= 1 && card_known(cards, EDICT_CARD)
            ==> pool_has(node_applied(pool, cards, node), EDICT_CARD),
        node.name@ == "황후의 기사"@ && node.level >= 1 && card_known(cards, KNIGHT_CARD)
            ==> pool_has(node_applied(pool, cards, node), KNIGHT_CARD),
        node.name@ == "황제의 하사품"@ && node.level >= 1 && card_known(cards, GIFT_FIRST_NEW)
            ==> pool_has(node_applied(pool, cards, node), GIFT_FIRST_NEW) && !pool_has(node_applied(pool, cards, node), GIFT_FIRST_OLD),
        node.name@ == "황제의 하사품"@ && node.level >= 2 && card_known(cards, GIFT_SECOND_NEW)
            ==> pool_has(node_applied(pool, cards, node), GIFT_SECOND_NEW) && !pool_has(node_applied(pool, cards, node), GIFT_SECOND_OLD),
{
    reveal_strlit("황제의 칙령");
    reveal_strlit("황후의 기사");
    reveal_strlit("황제의 하사품");
    lemma_added_has(pool, cards, EDICT_CARD, EDICT_CARD);
    lemma_added_has(pool, cards, KNIGHT_CARD, KNIGHT_CARD);
    let kept1 = pool.filter(|e: CardPoolEntry| e.skill_id != GIFT_FIRST_OLD);
    lemma_added_has(kept1, cards, GIFT_FIRST_NEW, GIFT_FIRST_NEW);
    law_replaced_card_is_gone(pool, cards, GIFT_FIRST_OLD, GIFT_FIRST_NEW);
    let once = replaced(pool, cards, GIFT_FIRST_OLD, GIFT_FIRST_NEW);
    let kept2 = once.filter(|e: CardPoolEntry| e.skill_id != GIFT_SECOND_OLD);
    lemma_added_has(kept2, cards, GIFT_SECOND_NEW, GIFT_SECOND_NEW);
    law_replaced_card_is_gone(once, cards, GIFT_SECOND_OLD, GIFT_SECOND_NEW);
    assert("황후의 기사"@[1] != "황제의 칙령"@[1]);
    assert("황후의 기사"@[1] != "황제의 하사품"@[1]);
    assert("황제의 하사품"@[4] != "황제의 칙령"@[4]);
    if card_known(cards, GIFT_FIRST_NEW) {
        lemma_replaced_keeps(once, cards, GIFT_SECOND_OLD, GIFT_SECOND_NEW, GIFT_FIRST_NEW);
    }
    lemma_replaced_lacks(once, cards, GIFT_SECOND_OLD, GIFT_SECOND_NEW, GIFT_FIRST_OLD);
}

/// A replacement brings in no card but its new one.
proof fn lemma_replaced_lacks(pool: Seq<CardPoolEntry>, cards: Seq<ArcanaCardInput>, old_id: u32, new_id: u32, x: u32)
    requires
        x != new_id,
        !pool_has(pool, x),
    ensures
        !pool_has(replaced(pool, cards, old_id, new_id), x),
{
    let pred = |e: CardPoolEntry| e.skill_id != old_id;
    let kept = pool.filter(pred);
    if pool_has(kept, x) {
        let j = choose|j: int| 0 <= j < kept.len() && #[trigger] kept[j].skill_id == x;
        assert(kept.contains(kept[j]));
        pool.lemma_filter_contains_rev(pred, kept[j]);
        let i = choose|i: int| 0 <= i < pool.len() && pool[i] == kept[j];
        assert(pool[i].skill_id == x);
    }
    if !pool_has(kept, new_id) && card_known(cards, new_id) {
        let w = choose|i: int| 0 <= i < cards.len() && #[trigger] cards[i].skill_id == new_id;
        first_witness(cards, new_id, w);
        let c = choose|i: int| first_card(cards, new_id, i);
        let once = added(kept, cards, new_id);
        assert(once[kept.len() as int].skill_id == new_id);
        assert forall|i: int| 0 <= i < once.len() implies #[trigger] once[i].skill_id != x by {
            if i < kept.len() {
                assert(once[i] == kept[i]);
            }
        }
    }
}


/// Law: the cards learned from the start are exactly the class's cards marked to be learned
/// automatically, each with its own weight, in the class's order.
pub proof fn law_learned_cards_are_the_auto_learned(cards: Seq<ArcanaCardInput>, id: u32)
    ensures
        pool_has(learned(cards), id) <==> exists|i: int| 0 <= i < cards.len() && #[trigger] cards[i].skill_id == id && cards[i].auto_learn,
        learned(cards).len() <= cards.len(),
        forall|j: int| 0 <= j < learned(cards).len() ==> exists|i: int| 0 <= i < cards.len() && cards[i].auto_learn
            && #[trigger] learned(cards)[j] == entry_of(cards[i]),
    decreases cards.len(),
{
    if cards.len() > 0 {
        let init = cards.drop_last();
        law_learned_cards_are_the_auto_learned(init, id);
        let before = learned(init);
        let last = cards.len() - 1;
        assert forall|i: int| 0 <= i < init.len() implies #[trigger] init[i] == cards[i] by {}
        if pool_has(learned(cards), id) {
            let j = choose|j: int| 0 <= j < learned(cards).len() && #[trigger] learned(cards)[j].skill_id == id;
            if j < before.len() {
                assert(learned(cards)[j] == before[j]);
                assert(pool_has(before, id));
                let i = choose|i: int| 0 <= i < init.len() && #[trigger] init[i].skill_id == id && init[i].auto_learn;
                assert(cards[i] == init[i]);
            } else {
                assert(cards[last].skill_id == id && cards[last].auto_learn);
            }
        }
        if exists|i: int| 0 <= i < cards.len() && #[trigger] cards[i].skill_id == id && cards[i].auto_learn {
            let i = choose|i: int| 0 <= i < cards.len() && #[trigger] cards[i].skill_id == id && cards[i].auto_learn;
            if i < last {
                assert(init[i].skill_id == id && init[i].auto_learn);
                assert(pool_has(before, id));
                let j = choose|j: int| 0 <= j < before.len() && #[trigger] before[j].skill_id == id;
                assert(learned(cards)[j] == before[j]);
            } else {
                assert(learned(cards)[before.len() as int].skill_id == id);
            }
        }
        assert forall|j: int| 0 <= j < learned(cards).len() implies exists|i: int| 0 <= i < cards.len() && cards[i].auto_learn
            && #[trigger] learned(cards)[j] == entry_of(cards[i]) by {
            if j < before.len() {
                assert(learned(cards)[j] == before[j]);
                let i = choose|i: int| 0 <= i < init.len() && init[i].auto_learn && #[trigger] before[j] == entry_of(init[i]);
                assert(cards[i] == init[i]);
            } else {
                assert(learned(cards)[j] == entry_of(cards[last]));
            }
        }
    }
}

} // verus!
