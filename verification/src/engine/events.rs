//! The simulation's event queue: events are taken in order of time, then of priority.

use vstd::prelude::*;
use crate::profile::same_text;
use crate::engine::triggers::TriggerEffect;

verus! {

/// Priority of a scheduled trigger; among events at one time, lower values come first.
pub const PRIORITY_SCHEDULED_TRIGGER: u8 = 0;
/// Priority of a skill hit.
pub const PRIORITY_SKILL_HIT: u8 = 1;
/// Priority of a damage-over-time tick.
pub const PRIORITY_DOT_TICK: u8 = 2;
/// Priority of a buff expiry.
pub const PRIORITY_BUFF_EXPIRE: u8 = 3;
/// Priority of a charge recovery.
pub const PRIORITY_CHARGE_RECOVERY: u8 = 4;
/// Priority of the point where the action list picks the next action.
pub const PRIORITY_ACTION_CHECK: u8 = 10;

/// What happens when an event is due. Payloads that carry fractional numbers in
/// the simulator (cast snapshots, damage rows) are named here
/// by the index under which the caller keeps them.
pub enum EventData {
    /// The action list decides the next action.
    ActionCheck,
    /// A hit of a skill; `snap` names the snapshot taken when the skill was cast.
    SkillHit { skill_id: u32, hit_index: usize, snap: usize },
    /// A buff on the actor ends; `expire_at` is the expiry that was current when it was scheduled.
    BuffExpire { buff_id: String, expire_at: u64 },
    /// A buff or debuff on the target ends.
    TargetBuffExpire { buff_id: String, expire_at: u64 },
    /// A damage-over-time tick; `hit` names the damage row.
    DotTick { dot_id: String, skill_id: u32, hit: usize, remaining_ticks: u32, tick_interval_ms: u32 },
    /// A charge of a charged skill comes back.
    ChargeRecovery { skill_id: u32 },
    /// A delayed trigger effect of skill `skill_id`.
    ScheduledTrigger { skill_id: u32, effect: Box<TriggerEffect> },
}

/// An event due at `time_ms`.
pub struct Event {
    pub time_ms: u64,
    pub priority: u8,
    pub data: EventData,
}

/// `a` is due no later than `b`: earlier time, or the same time and a priority no higher.
pub open spec fn precedes(a: Event, b: Event) -> bool {
    a.time_ms < b.time_ms || (a.time_ms == b.time_ms && a.priority <= b.priority)
}

/// The event is an action check.
pub open spec fn is_action_check(e: Event) -> bool {
    e.data is ActionCheck
}

/// The event is a tick of the damage-over-time effect named `id`.
pub open spec fn is_tick_of(e: Event, id: Seq<char>) -> bool {
    match e.data {
        EventData::DotTick { dot_id, .. } => dot_id@ == id,
        _ => false,
    }
}

/// Keeps the events that are not action checks.
pub open spec fn not_action_check() -> spec_fn(Event) -> bool {
    |e: Event| !is_action_check(e)
}

/// Keeps the events that are not ticks of the damage-over-time effect `id`.
pub open spec fn not_tick_of(id: Seq<char>) -> spec_fn(Event) -> bool {
    |e: Event| !is_tick_of(e, id)
}

/// `r` is `q` after scheduling an action check at `t`: every action check of `q` is
/// dropped, the other events keep their order, and one action check is added at the
/// earliest of `t` and the dropped ones.
pub open spec fn action_check_scheduled(q: Seq<Event>, t: u64, r: Seq<Event>) -> bool {
    &&& r.len() > 0
    &&& r.drop_last() == q.filter(not_action_check())
    &&& r.last().priority == PRIORITY_ACTION_CHECK
    &&& r.last().data is ActionCheck
    &&& r.last().time_ms <= t
    &&& forall|j: int| 0 <= j < q.len() && is_action_check(#[trigger] q[j]) ==> r.last().time_ms <= q[j].time_ms
    &&& (r.last().time_ms == t || exists|j: int| 0 <= j < q.len() && is_action_check(#[trigger] q[j]) && q[j].time_ms == r.last().time_ms)
}

/// A queue of pending events.
pub struct EventQueue {
    events: Vec<Event>,
}

fn is_action_check_exec(e: &Event) -> (r: bool)
    ensures
        r == is_action_check(*e),
{
    match e.data {
        EventData::ActionCheck => true,
        _ => false,
    }
}

fn is_tick_of_exec(e: &Event, id: &str) -> (r: bool)
    ensures
        r == is_tick_of(*e, id@),
{
    match &e.data {
        EventData::DotTick { dot_id, .. } => same_text(dot_id.as_str(), id),
        _ => false,
    }
}

impl EventQueue {
    /// The pending events, in the order in which they are kept.
    pub closed spec fn pending(&self) -> Seq<Event> {
        self.events@
    }

    /// An empty queue.
    pub fn new() -> (q: Self)
        ensures
            q.pending() == Seq::<Event>::empty(),
    {
        EventQueue { events: Vec::new() }
    }

    /// Adds `event` to the pending events.
    pub fn push(&mut self, event: Event)
        ensures
            final(self).pending() == old(self).pending().push(event),
    {
        self.events.push(event);
    }

    /// Takes out the event that is due first (the earliest kept one among equals).
    pub fn pop(&mut self) -> (next: Option<Event>)
        ensures
            old(self).pending().len() == 0 ==> next is None && final(self).pending() == old(self).pending(),
            old(self).pending().len() > 0 ==> next is Some,
            next matches Some(e) ==> exists|i: int|
                0 <= i < old(self).pending().len()
                && #[trigger] old(self).pending()[i] == e
                && final(self).pending() == old(self).pending().remove(i)
                && (forall|j: int| 0 <= j < old(self).pending().len() ==> precedes(e, #[trigger] old(self).pending()[j]))
                && (forall|j: int| 0 <= j < i ==> !precedes(#[trigger] old(self).pending()[j], e)),
    {
        let n = self.events.len();
        if n == 0 {
            return None;
        }
        let mut best: usize = 0;
        let mut k: usize = 1;
        while k < n
            invariant
                n == self.events.len(),
                0 <= best < k <= n,
                self.events@ == old(self).pending(),
                forall|j: int| 0 <= j < k ==> precedes(#[trigger] self.events@[best as int], self.events@[j]),
                forall|j: int| 0 <= j < best ==> !precedes(#[trigger] self.events@[j], self.events@[best as int]),
            decreases n - k,
        {
            let better = self.events[k].time_ms < self.events[best].time_ms
                || (self.events[k].time_ms == self.events[best].time_ms
                    && self.events[k].priority < self.events[best].priority);
            if better {
                best = k;
            }
            k += 1;
        }
        let e = self.events.remove(best);
        Some(e)
    }

    /// The time of the event that is due first.
    pub fn peek_time(&self) -> (t: Option<u64>)
        ensures
            self.pending().len() == 0 <==> t is None,
            t matches Some(t) ==> (exists|i: int| 0 <= i < self.pending().len() && #[trigger] self.pending()[i].time_ms == t)
                && (forall|j: int| 0 <= j < self.pending().len() ==> t <= #[trigger] self.pending()[j].time_ms),
    {
        let n = self.events.len();
        if n == 0 {
            return None;
        }
        let mut best: u64 = self.events[0].time_ms;
        let mut k: usize = 1;
        while k < n
            invariant
                n == self.events.len(),
                1 <= k <= n,
                exists|i: int| 0 <= i < k && #[trigger] self.events@[i].time_ms == best,
                forall|j: int| 0 <= j < k ==> best <= #[trigger] self.events@[j].time_ms,
            decreases n - k,
        {
            if self.events[k].time_ms < best {
                best = self.events[k].time_ms;
            }
            k += 1;
        }
        Some(best)
    }

    /// Keeps a single pending action check: at `time_ms`, or at an earlier one already pending.
    pub fn schedule_action_check(&mut self, time_ms: u64)
        ensures
            action_check_scheduled(old(self).pending(), time_ms, final(self).pending()),
    {
        let ghost pred = not_action_check();
        let ghost orig = self.events@;
        let mut earliest: u64 = time_ms;
        let mut kept: Vec<Event> = Vec::new();
        let mut rest: Vec<Event> = Vec::new();
        std::mem::swap(&mut rest, &mut self.events);
        assert(rest@ == orig);
        let n = rest.len();
        let mut k: usize = 0;
        while k < n
            invariant
                n == orig.len(),
                0 <= k <= n,
                rest@ == orig.skip(k as int),
                kept@ == orig.take(k as int).filter(pred),
                pred == not_action_check(),
                earliest <= time_ms,
                forall|j: int| 0 <= j < k && is_action_check(#[trigger] orig[j]) ==> earliest <= orig[j].time_ms,
                earliest == time_ms || exists|j: int| 0 <= j < k && is_action_check(#[trigger] orig[j]) && orig[j].time_ms == earliest,
            decreases n - k,
        {
            assert(rest@.len() > 0);
            let e = rest.remove(0);
            assert(e == orig[k as int]);
            proof {
                let t1 = orig.take(k as int + 1);
                assert(t1.drop_last() =~= orig.take(k as int));
                assert(t1.last() == orig[k as int]);
                reveal_with_fuel(Seq::filter, 1);
                assert(t1.filter(pred) == (if pred(orig[k as int]) {
                    orig.take(k as int).filter(pred).push(orig[k as int])
                } else {
                    orig.take(k as int).filter(pred)
                }));
            }
            if is_action_check_exec(&e) {
                if e.time_ms < earliest {
                    earliest = e.time_ms;
                }
            } else {
                kept.push(e);
            }
            assert(rest@ == orig.skip(k + 1));
            k += 1;
        }
        assert(orig.take(n as int) == orig);
        let ghost filtered = kept@;
        kept.push(Event { time_ms: earliest, priority: PRIORITY_ACTION_CHECK, data: EventData::ActionCheck });
        assert(kept@.drop_last() =~= filtered);
        self.events = kept;
        assert(action_check_scheduled(orig, time_ms, self.events@));
    }

    /// Drops every pending tick of the damage-over-time effect `dot_id`.
    pub fn remove_dot(&mut self, dot_id: &str)
        ensures
            final(self).pending() == old(self).pending().filter(not_tick_of(dot_id@)),
    {
        let ghost pred = not_tick_of(dot_id@);
        let ghost orig = self.events@;
        let mut kept: Vec<Event> = Vec::new();
        let mut rest: Vec<Event> = Vec::new();
        std::mem::swap(&mut rest, &mut self.events);
        let n = rest.len();
        let mut k: usize = 0;
        while k < n
            invariant
                n == orig.len(),
                0 <= k <= n,
                rest@ == orig.skip(k as int),
                kept@ == orig.take(k as int).filter(pred),
                pred == not_tick_of(dot_id@),
            decreases n - k,
        {
            let e = rest.remove(0);
            assert(e == orig[k as int]);
            proof {
                let t1 = orig.take(k as int + 1);
                assert(t1.drop_last() =~= orig.take(k as int));
                assert(t1.last() == orig[k as int]);
                reveal_with_fuel(Seq::filter, 1);
                assert(t1.filter(pred) == (if pred(orig[k as int]) {
                    orig.take(k as int).filter(pred).push(orig[k as int])
                } else {
                    orig.take(k as int).filter(pred)
                }));
            }
            if !is_tick_of_exec(&e, dot_id) {
                kept.push(e);
            }
            assert(rest@ == orig.skip(k + 1));
            k += 1;
        }
        assert(orig.take(n as int) == orig);
        self.events = kept;
    }
}

/// A sequence whose elements all pass the filter is its own filtering.
proof fn lemma_filter_keeps_all(s: Seq<Event>, pred: spec_fn(Event) -> bool)
    requires
        forall|i: int| 0 <= i < s.len() ==> pred(#[trigger] s[i]),
    ensures
        s.filter(pred) == s,
    decreases s.len(),
{
    reveal_with_fuel(Seq::filter, 1);
    if s.len() > 0 {
        lemma_filter_keeps_all(s.drop_last(), pred);
        assert(s.drop_last().push(s.last()) =~= s);
    } else {
        assert(s.filter(pred) =~= s);
    }
}

/// Law: scheduling action checks twice leaves exactly one pending, as the last event, at
/// the earliest of the two times asked for and of those already pending; the other events
/// stay as they were, in order.
pub proof fn law_one_action_check(q: Seq<Event>, t1: u64, q1: Seq<Event>, t2: u64, q2: Seq<Event>)
    requires
        action_check_scheduled(q, t1, q1),
        action_check_scheduled(q1, t2, q2),
    ensures
        q2.drop_last() == q.filter(not_action_check()),
        forall|i: int| 0 <= i < q2.len() - 1 ==> !is_action_check(#[trigger] q2[i]),
        is_action_check(q2.last()),
        q2.last().time_ms <= t1,
        q2.last().time_ms <= t2,
        forall|j: int| 0 <= j < q.len() && is_action_check(#[trigger] q[j]) ==> q2.last().time_ms <= q[j].time_ms,
        q2.last().time_ms == t1 || q2.last().time_ms == t2
            || exists|j: int| 0 <= j < q.len() && is_action_check(#[trigger] q[j]) && q[j].time_ms == q2.last().time_ms,
{
    let p = not_action_check();
    let kept = q.filter(p);
    broadcast use vstd::seq_lib::group_filter_ensures;
    lemma_filter_keeps_all(kept, p);
    assert(q1 =~= kept.push(q1.last()));
    reveal_with_fuel(Seq::filter, 1);
    assert(q1.drop_last() =~= kept);
    assert(q1.filter(p) == kept.filter(p));
    assert(q2.drop_last() == kept);
    assert forall|i: int| 0 <= i < q2.len() - 1 implies !is_action_check(#[trigger] q2[i]) by {
        assert(q2[i] == kept[i]);
        assert(p(kept[i]));
    }
    let l1 = q1.len() - 1;
    assert(is_action_check(q1[l1]));
    assert(q2.last().time_ms <= q1[l1].time_ms);
    if q2.last().time_ms != t2 {
        let j = choose|j: int| 0 <= j < q1.len() && is_action_check(#[trigger] q1[j]) && q1[j].time_ms == q2.last().time_ms;
        if j < l1 {
            assert(q1[j] == kept[j]);
            assert(p(kept[j]));
        }
        assert(j == l1);
    }
}

} // verus!
