//! Active buffs of one actor (or of the target), keyed by buff id.

use vstd::prelude::*;
use crate::collections::{BuffTable, buff_entries};

verus! {

/// How a buff that is applied again combines with the one already active.
#[derive(Clone, Copy, Debug, PartialEq, Eq, Structural)]
pub enum StackType {
    /// Stacks add up to the maximum; the timer restarts at the new expiry.
    Refresh,
    /// Stacks add up to the maximum; the later of the two expiries is kept.
    Extend,
    /// The stacks are replaced by the new ones; the timer restarts.
    Independent,
}

/// What a buff is. `effects` names the buff's stat effects, which the
/// simulator keeps apart because they are fractional numbers.
pub struct BuffSpec {
    pub id: String,
    pub effects: usize,
    pub max_stacks: u32,
    pub stack_type: StackType,
    pub duration_ms: u32,
}

impl Clone for BuffSpec {
    fn clone(&self) -> (copy: Self)
        ensures
            copy == *self,
    {
        BuffSpec {
            id: self.id.clone(),
            effects: self.effects,
            max_stacks: self.max_stacks,
            stack_type: self.stack_type,
            duration_ms: self.duration_ms,
        }
    }
}

/// One active buff.
pub struct Buff {
    pub id: String,
    /// When the buff ends (ms).
    pub expire_time: u64,
    pub stacks: u32,
    pub spec: BuffSpec,
}

/// The buff that results from applying `spec` with `add` stacks and expiry `expire`
/// over `prev`, the entry already kept under the same id.
pub open spec fn applied(prev: Option<Buff>, spec: BuffSpec, expire: u64, add: u32) -> Buff {
    let base = match prev {
        Some(b) => b,
        None => Buff { id: spec.id, expire_time: expire, stacks: 0, spec: spec },
    };
    let summed = if base.stacks + add <= spec.max_stacks { (base.stacks + add) as u32 } else { spec.max_stacks };
    match spec.stack_type {
        StackType::Refresh => Buff { id: base.id, expire_time: expire, stacks: summed, spec: spec },
        StackType::Extend => Buff {
            id: base.id,
            expire_time: if base.expire_time >= expire { base.expire_time } else { expire },
            stacks: summed,
            spec: spec,
        },
        StackType::Independent => Buff { id: base.id, expire_time: expire, stacks: add, spec: spec },
    }
}

/// `m` after an expiry event for `id` with token `at`: the buff goes only when its kept
/// expiry is still `at`.
pub open spec fn expired_if(m: Map<Seq<char>, Buff>, id: Seq<char>, at: u64) -> Map<Seq<char>, Buff> {
    if m.contains_key(id) && m[id].expire_time == at { m.remove(id) } else { m }
}

/// The buff under `id` is present and has not expired at `t`.
pub open spec fn active_at(m: Map<Seq<char>, Buff>, id: Seq<char>, t: u64) -> bool {
    m.contains_key(id) && m[id].expire_time > t
}

/// All buffs that are active, keyed by id.
pub struct BuffManager {
    buffs: BuffTable,
}

impl View for BuffManager {
    type V = Map<Seq<char>, Buff>;

    closed spec fn view(&self) -> Map<Seq<char>, Buff> {
        buff_entries(self.buffs)
    }
}

impl BuffManager {
    /// Each buff is kept under the id of its own spec.
    #[verifier::type_invariant]
    closed spec fn wf(self) -> bool {
        forall|k: Seq<char>| buff_entries(self.buffs).contains_key(k) ==> (#[trigger] buff_entries(self.buffs)[k]).spec.id@ == k
    }

    /// No buff active.
    pub fn new() -> (m: Self)
        ensures
            m@.dom() == Set::<Seq<char>>::empty(),
    {
        BuffManager { buffs: BuffTable::new() }
    }

    /// Applies `spec` with `stacks_to_add` stacks and expiry `expire_time`, and returns
    /// the expiry now kept: the token under which the expiry event is scheduled, so that
    /// an event from before a refresh does not remove the refreshed buff.
    pub fn apply(&mut self, spec: BuffSpec, expire_time: u64, stacks_to_add: u32) -> (token: u64)
        ensures
            final(self)@ == old(self)@.insert(spec.id@, applied(
                if old(self)@.contains_key(spec.id@) { Some(old(self)@[spec.id@]) } else { None },
                spec, expire_time, stacks_to_add)),
            token == final(self)@[spec.id@].expire_time,
    {
        proof { use_type_invariant(&*self); }
        let max_stacks = spec.max_stacks;
        let (id, expire0, stacks0) = match self.buffs.get(spec.id.as_str()) {
            Some(b) => (b.id.clone(), b.expire_time, b.stacks),
            None => (spec.id.clone(), expire_time, 0u32),
        };
        let total: u64 = stacks0 as u64 + stacks_to_add as u64;
        let summed: u32 = if total <= max_stacks as u64 { total as u32 } else { max_stacks };
        let (stacks, expire) = match spec.stack_type {
            StackType::Refresh => (summed, expire_time),
            StackType::Extend => (summed, if expire0 >= expire_time { expire0 } else { expire_time }),
            StackType::Independent => (stacks_to_add, expire_time),
        };
        let key = spec.id.clone();
        let mut table = BuffTable::new();
        std::mem::swap(&mut table, &mut self.buffs);
        table.insert(key, Buff { id, expire_time: expire, stacks, spec });
        self.buffs = table;
        expire
    }

    /// The buff is present and has not expired at `current_time`.
    pub fn is_active(&self, id: &str, current_time: u64) -> (r: bool)
        ensures
            r == active_at(self@, id@, current_time),
    {
        match self.buffs.get(id) {
            Some(b) => b.expire_time > current_time,
            None => false,
        }
    }

    /// The buff is active and at its maximum stacks.
    pub fn is_at_max_stacks(&self, id: &str, current_time: u64) -> (r: bool)
        ensures
            r == (active_at(self@, id@, current_time) && self@[id@].stacks >= self@[id@].spec.max_stacks),
    {
        match self.buffs.get(id) {
            Some(b) => b.expire_time > current_time && b.stacks >= b.spec.max_stacks,
            None => false,
        }
    }

    /// Time left on an active buff; 0 when it is not active.
    pub fn remaining_ms(&self, id: &str, current_time: u64) -> (r: u64)
        ensures
            r == (if active_at(self@, id@, current_time) { (self@[id@].expire_time - current_time) as u64 } else { 0 }),
    {
        match self.buffs.get(id) {
            Some(b) => if b.expire_time > current_time { b.expire_time - current_time } else { 0 },
            None => 0,
        }
    }

    /// Stacks of an active buff; 0 when it is not active.
    pub fn stacks(&self, id: &str, current_time: u64) -> (r: u32)
        ensures
            r == (if active_at(self@, id@, current_time) { self@[id@].stacks } else { 0 }),
    {
        match self.buffs.get(id) {
            Some(b) => if b.expire_time > current_time { b.stacks } else { 0 },
            None => 0,
        }
    }

    /// Removes the buff only when its kept expiry equals the token `expire_at`.
    pub fn expire_if(&mut self, id: &str, expire_at: u64)
        ensures
            final(self)@ == expired_if(old(self)@, id@, expire_at),
    {
        let hit = match self.buffs.get(id) {
            Some(b) => b.expire_time == expire_at,
            None => false,
        };
        if hit {
            self.expire(id);
        }
    }

    /// Removes the buff.
    pub fn expire(&mut self, id: &str)
        ensures
            final(self)@ == old(self)@.remove(id@),
    {
        proof { use_type_invariant(&*self); }
        let mut table = BuffTable::new();
        std::mem::swap(&mut table, &mut self.buffs);
        table.remove(id);
        self.buffs = table;
    }

    /// Takes `stacks` stacks off the buff; removes it when it has expired or has no more
    /// than that many stacks.
    pub fn consume_stacks(&mut self, id: &str, stacks: u32, current_time: u64)
        ensures
            !old(self)@.contains_key(id@) ==> final(self)@ == old(self)@,
            old(self)@.contains_key(id@) && (old(self)@[id@].expire_time <= current_time || old(self)@[id@].stacks <= stacks)
                ==> final(self)@ == old(self)@.remove(id@),
            old(self)@.contains_key(id@) && old(self)@[id@].expire_time > current_time && old(self)@[id@].stacks > stacks
                ==> final(self)@ == old(self)@.insert(id@, Buff { stacks: (old(self)@[id@].stacks - stacks) as u32, ..old(self)@[id@] }),
    {
        proof { use_type_invariant(&*self); }
        let outcome = match self.buffs.get(id) {
            None => None,
            Some(b) => {
                if b.expire_time <= current_time || b.stacks <= stacks {
                    Some(None)
                } else {
                    Some(Some(Buff {
                        id: b.id.clone(),
                        expire_time: b.expire_time,
                        stacks: b.stacks - stacks,
                        spec: b.spec.clone(),
                    }))
                }
            }
        };
        match outcome {
            None => {},
            Some(None) => self.expire(id),
            Some(Some(b)) => {
                let key = id.to_owned();
                let mut table = BuffTable::new();
                std::mem::swap(&mut table, &mut self.buffs);
                table.insert(key, b);
                self.buffs = table;
            }
        }
    }

    /// The ids of the buffs active at `current_time`, each once.
    pub fn active_ids(&self, current_time: u64) -> (ids: Vec<String>)
        ensures
            forall|i: int| 0 <= i < ids@.len() ==> active_at(self@, #[trigger] ids@[i]@, current_time),
            forall|k: Seq<char>| active_at(self@, k, current_time) ==> exists|i: int| 0 <= i < ids@.len() && #[trigger] ids@[i]@ == k,
            forall|i: int, j: int| 0 <= i < j < ids@.len() ==> #[trigger] ids@[i]@ != #[trigger] ids@[j]@,
    {
        let keys = self.buffs.keys();
        let mut ids: Vec<String> = Vec::new();
        let n = keys.len();
        let mut k: usize = 0;
        while k < n
            invariant
                n == keys@.len(),
                0 <= k <= n,
                forall|i: int| 0 <= i < keys@.len() ==> self@.contains_key(#[trigger] keys@[i]@),
                forall|q: Seq<char>| self@.contains_key(q) ==> exists|i: int| 0 <= i < keys@.len() && #[trigger] keys@[i]@ == q,
                forall|i: int, j: int| 0 <= i < j < keys@.len() ==> #[trigger] keys@[i]@ != #[trigger] keys@[j]@,
                forall|i: int| 0 <= i < ids@.len() ==> active_at(self@, #[trigger] ids@[i]@, current_time),
                forall|i: int| #![trigger ids@[i]] 0 <= i < ids@.len() ==> exists|j: int| 0 <= j < k && #[trigger] keys@[j] == ids@[i],
                forall|j: int| 0 <= j < k && active_at(self@, #[trigger] keys@[j]@, current_time)
                    ==> exists|i: int| 0 <= i < ids@.len() && #[trigger] ids@[i] == keys@[j],
                forall|i: int, j: int| 0 <= i < j < ids@.len() ==> #[trigger] ids@[i]@ != #[trigger] ids@[j]@,
            decreases n - k,
        {
            let key = &keys[k];
            let ghost old_ids = ids@;
            if self.is_active(key.as_str(), current_time) {
                ids.push(key.clone());
            }
            proof {
                assert forall|j: int| 0 <= j < k + 1 && active_at(self@, #[trigger] keys@[j]@, current_time)
                    implies exists|i: int| 0 <= i < ids@.len() && #[trigger] ids@[i] == keys@[j] by {
                    if j < k {
                        let i = choose|i: int| 0 <= i < old_ids.len() && #[trigger] old_ids[i] == keys@[j];
                        assert(ids@[i] == old_ids[i]);
                    } else {
                        assert(ids@[ids@.len() - 1] == keys@[j]);
                    }
                }
            }
            k += 1;
        }
        assert forall|q: Seq<char>| active_at(self@, q, current_time) implies exists|i: int| 0 <= i < ids@.len() && #[trigger] ids@[i]@ == q by {
            let j = choose|j: int| 0 <= j < keys@.len() && #[trigger] keys@[j]@ == q;
            assert(active_at(self@, keys@[j]@, current_time));
            let i = choose|i: int| 0 <= i < ids@.len() && #[trigger] ids@[i] == keys@[j];
            assert(ids@[i]@ == q);
        }
        ids
    }

    /// The specs and stacks of the buffs active at `current_time`, each buff once.
    pub fn active_buffs(&self, current_time: u64) -> (active: Vec<(BuffSpec, u32)>)
        ensures
            forall|i: int| 0 <= i < active@.len() ==> #[trigger] active@[i].0 == self@[active@[i].0.id@].spec
                && active_at(self@, active@[i].0.id@, current_time)
                && active@[i].1 == self@[active@[i].0.id@].stacks,
            forall|k: Seq<char>| active_at(self@, k, current_time) ==> exists|i: int| 0 <= i < active@.len() && #[trigger] active@[i].0.id@ == k,
            forall|i: int, j: int| 0 <= i < j < active@.len() ==> #[trigger] active@[i].0.id@ != #[trigger] active@[j].0.id@,
    {
        proof { use_type_invariant(self); }
        let ids = self.active_ids(current_time);
        let mut active: Vec<(BuffSpec, u32)> = Vec::new();
        let n = ids.len();
        let mut k: usize = 0;
        while k < n
            invariant
                n == ids@.len(),
                0 <= k <= n,
                active@.len() == k,
                forall|q: Seq<char>| self@.contains_key(q) ==> (#[trigger] self@[q]).spec.id@ == q,
                forall|i: int| 0 <= i < ids@.len() ==> active_at(self@, #[trigger] ids@[i]@, current_time),
                forall|i: int| 0 <= i < k ==> #[trigger] active@[i].0.id@ == ids@[i]@,
                forall|i: int| 0 <= i < active@.len() ==> #[trigger] active@[i].0 == self@[active@[i].0.id@].spec
                    && active_at(self@, active@[i].0.id@, current_time)
                    && active@[i].1 == self@[active@[i].0.id@].stacks,
            decreases n - k,
        {
            assert(active_at(self@, ids@[k as int]@, current_time));
            match self.buffs.get(ids[k].as_str()) {
                Some(b) => {
                    active.push((b.spec.clone(), b.stacks));
                },
                None => {},
            }
            k += 1;
        }
        assert forall|q: Seq<char>| active_at(self@, q, current_time) implies exists|i: int| 0 <= i < active@.len() && #[trigger] active@[i].0.id@ == q by {
            let i = choose|i: int| 0 <= i < ids@.len() && #[trigger] ids@[i]@ == q;
            assert(active@[i].0.id@ == q);
        }
        active
    }
}

/// The entry kept under `spec`'s id, if any.
pub open spec fn prior(m: Map<Seq<char>, Buff>, id: Seq<char>) -> Option<Buff> {
    if m.contains_key(id) { Some(m[id]) } else { None }
}

/// Law: an expiry event scheduled before a refresh does not remove the refreshed buff.
/// After applying a refresh-type buff with expiry `e1`, then again with a different expiry
/// `e2`, the event for the first token leaves the buffs as they are.
pub proof fn law_stale_expiry_is_ignored(m: Map<Seq<char>, Buff>, spec: BuffSpec, e1: u64, add1: u32, e2: u64, add2: u32)
    requires
        spec.stack_type == StackType::Refresh,
        e1 != e2,
    ensures
        ({
            let m1 = m.insert(spec.id@, applied(prior(m, spec.id@), spec, e1, add1));
            let token = m1[spec.id@].expire_time;
            let m2 = m1.insert(spec.id@, applied(prior(m1, spec.id@), spec, e2, add2));
            expired_if(m2, spec.id@, token) == m2
        }),
{
}

/// Law: an expiry event with the current token removes the buff.
pub proof fn law_current_expiry_removes(m: Map<Seq<char>, Buff>, spec: BuffSpec, e: u64, add: u32)
    ensures
        ({
            let m1 = m.insert(spec.id@, applied(prior(m, spec.id@), spec, e, add));
            !expired_if(m1, spec.id@, m1[spec.id@].expire_time).contains_key(spec.id@)
        }),
{
}

/// Law: refresh and extend buffs never hold more stacks than their spec allows.
pub proof fn law_stacks_capped(prev: Option<Buff>, spec: BuffSpec, e: u64, add: u32)
    requires
        spec.stack_type != StackType::Independent,
    ensures
        applied(prev, spec, e, add).stacks <= spec.max_stacks,
{
}

/// Law: an extend buff keeps the later of its expiries, and a refresh buff takes the new one.
pub proof fn law_expiry_after_apply(prev: Buff, spec: BuffSpec, e: u64, add: u32)
    ensures
        spec.stack_type == StackType::Extend ==> applied(Some(prev), spec, e, add).expire_time >= prev.expire_time
            && applied(Some(prev), spec, e, add).expire_time >= e,
        spec.stack_type != StackType::Extend ==> applied(Some(prev), spec, e, add).expire_time == e,
{
}

} // verus!
