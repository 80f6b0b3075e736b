//! The per-skill pipeline: changes registered by the sources of a build are applied to a
//! skill in four phases (structure, stats, triggers, meta), each in registration order.

use vstd::prelude::*;
use vstd::string::StringExecFns;
use crate::collections::{IndexTable, index_entries};
use crate::constants::COMBO_PHASE_TIMEOUT_MS;
use crate::engine::cooldown::SkillType;
use crate::profile::same_text;

verus! {

/// A sequence of `steps` applied by `f` takes `p` to `out`: each step is applied to the
/// skill as the step before left it and gives back the skill with its changes and whether
/// it succeeded; the first failing step ends the run, its error kept and the changes of
/// every step so far, its own included, kept in the skill.
pub open spec fn runs<S, P, F: Fn(S, P) -> (P, Result<(), String>)>(f: F, steps: Seq<S>, p: P, out: (P, Result<(), String>)) -> bool
    decreases steps.len(),
{
    if steps.len() == 0 {
        out == (p, Ok::<(), String>(()))
    } else {
        ||| exists|q: P| runs(f, steps.drop_last(), p, (q, Ok::<(), String>(()))) && #[trigger] call_ensures(f, (steps.last(), q), out)
        ||| out.1 is Err && runs(f, steps.drop_last(), p, out)
    }
}

/// The steps registered for one skill, by phase.
pub struct SkillPipeline<S> {
    structure: Vec<S>,
    stats: Vec<S>,
    triggers: Vec<S>,
    meta: Vec<S>,
}

impl<S> SkillPipeline<S> {
    /// The steps that change the structure of hits and phases.
    pub closed spec fn structure_steps(&self) -> Seq<S> {
        self.structure@
    }

    /// The steps that change numbers.
    pub closed spec fn stat_steps(&self) -> Seq<S> {
        self.stats@
    }

    /// The steps that register triggers.
    pub closed spec fn trigger_steps(&self) -> Seq<S> {
        self.triggers@
    }

    /// The steps that settle tags and categories.
    pub closed spec fn meta_steps(&self) -> Seq<S> {
        self.meta@
    }

    /// All steps in the order `run` applies them.
    pub open spec fn steps(&self) -> Seq<S> {
        self.structure_steps() + self.stat_steps() + self.trigger_steps() + self.meta_steps()
    }

    /// No steps.
    pub fn new() -> (p: Self)
        ensures
            p.structure_steps() == Seq::<S>::empty(),
            p.stat_steps() == Seq::<S>::empty(),
            p.trigger_steps() == Seq::<S>::empty(),
            p.meta_steps() == Seq::<S>::empty(),
    {
        SkillPipeline { structure: Vec::new(), stats: Vec::new(), triggers: Vec::new(), meta: Vec::new() }
    }

    /// Registers a structure step.
    pub fn add_structure(&mut self, f: S)
        ensures
            final(self).structure_steps() == old(self).structure_steps().push(f),
            final(self).stat_steps() == old(self).stat_steps(),
            final(self).trigger_steps() == old(self).trigger_steps(),
            final(self).meta_steps() == old(self).meta_steps(),
    {
        self.structure.push(f);
    }

    /// Registers a stats step.
    pub fn add_stats(&mut self, f: S)
        ensures
            final(self).structure_steps() == old(self).structure_steps(),
            final(self).stat_steps() == old(self).stat_steps().push(f),
            final(self).trigger_steps() == old(self).trigger_steps(),
            final(self).meta_steps() == old(self).meta_steps(),
    {
        self.stats.push(f);
    }

    /// Registers a trigger step.
    pub fn add_trigger(&mut self, f: S)
        ensures
            final(self).structure_steps() == old(self).structure_steps(),
            final(self).stat_steps() == old(self).stat_steps(),
            final(self).trigger_steps() == old(self).trigger_steps().push(f),
            final(self).meta_steps() == old(self).meta_steps(),
    {
        self.triggers.push(f);
    }

    /// Registers a meta step.
    pub fn add_meta(&mut self, f: S)
        ensures
            final(self).structure_steps() == old(self).structure_steps(),
            final(self).stat_steps() == old(self).stat_steps(),
            final(self).trigger_steps() == old(self).trigger_steps(),
            final(self).meta_steps() == old(self).meta_steps().push(f),
    {
        self.meta.push(f);
    }

    /// Applies every step to `skill` with `apply`, phase by phase, and gives back the skill
    /// with the changes of every step that ran; the first error stops the run and is returned.
    pub fn run<P, F: Fn(S, P) -> (P, Result<(), String>)>(self, skill: P, apply: &F) -> (out: (P, Result<(), String>))
        requires
            forall|s: S, p: P| apply.requires((s, p)),
        ensures
            runs(*apply, self.steps(), skill, out),
    {
        let ghost steps = self.steps();
        let SkillPipeline { structure, mut stats, mut triggers, mut meta } = self;
        let mut all = structure;
        all.append(&mut stats);
        all.append(&mut triggers);
        all.append(&mut meta);
        assert(all@ =~= steps);
        let n = all.len();
        let mut cur = skill;
        let mut k: usize = 0;
        assert(steps.take(0) =~= Seq::<S>::empty());
        while k < n
            invariant
                n == steps.len(),
                steps == self.steps(),
                0 <= k <= n,
                all@ == steps.skip(k as int),
                forall|s: S, p: P| apply.requires((s, p)),
                runs(*apply, steps.take(k as int), skill, (cur, Ok::<(), String>(()))),
            decreases n - k,
        {
            let step = all.remove(0);
            proof {
                assert(steps.take(k as int + 1).drop_last() =~= steps.take(k as int));
                assert(steps.take(k as int + 1).last() == step);
                assert(all@ =~= steps.skip(k as int + 1));
            }
            let ghost before = cur;
            let ghost g_step = step;
            let out = (*apply)(step, cur);
            proof {
                let prev = steps.take(k as int + 1).drop_last();
                assert(prev =~= steps.take(k as int));
                assert(runs(*apply, prev, skill, (before, Ok::<(), String>(()))));
                assert(call_ensures(*apply, (g_step, before), out));
                assert(steps.take(k as int + 1).last() == g_step);
                assert(exists|q: P| #[trigger] runs(*apply, prev, skill, (q, Ok::<(), String>(())))
                    && call_ensures(*apply, (steps.take(k as int + 1).last(), q), out));
                assert(runs(*apply, steps.take(k as int + 1), skill, out));
            }
            let ghost g_out = out;
            let (next, result) = out;
            assert(g_out == (next, result));
            match result {
                Ok(u) => {
                    assert(u == ());
                    assert(result == Ok::<(), String>(()));
                    assert(runs(*apply, steps.take(k as int + 1), skill, (next, Ok::<(), String>(()))));
                    cur = next;
                },
                Err(e) => {
                    assert(runs(*apply, steps.take(k as int + 1), skill, (next, Err::<(), String>(e))));
                    proof { lemma_error_persists(*apply, steps, skill, (next, Err::<(), String>(e)), k as int + 1); }
                    return (next, Err(e));
                },
            }
            k += 1;
        }
        assert(steps.take(n as int) =~= steps);
        (cur, Ok(()))
    }
}

/// Once a run fails, the longer run fails with the same error and the same skill.
proof fn lemma_error_persists<S, P, F: Fn(S, P) -> (P, Result<(), String>)>(f: F, steps: Seq<S>, p: P,
    out: (P, Result<(), String>), k: int)
    requires
        0 <= k <= steps.len(),
        out.1 is Err,
        runs(f, steps.take(k), p, out),
    ensures
        runs(f, steps, p, out),
    decreases steps.len() - k,
{
    if k == steps.len() {
        assert(steps.take(k) =~= steps);
    } else {
        let longer = steps.take(k + 1);
        assert(longer.drop_last() =~= steps.take(k));
        assert(runs(f, longer.drop_last(), p, out));
        assert(longer.len() > 0);
        assert(runs(f, longer, p, out));
        lemma_error_persists(f, steps, p, out, k + 1);
    }
}

/// Law: steps run by phase, not by the order of registration: a stats step registered
/// before a structure step still runs after it, so registering the two in either order
/// gives the same run order.
pub proof fn law_phase_decides_run_order<S>(
    p0: SkillPipeline<S>,
    p1: SkillPipeline<S>,
    p2: SkillPipeline<S>,
    q1: SkillPipeline<S>,
    q2: SkillPipeline<S>,
    structure_step: S,
    stat_step: S,
)
    requires
        p1.structure_steps() == p0.structure_steps(),
        p1.stat_steps() == p0.stat_steps().push(stat_step),
        p1.trigger_steps() == p0.trigger_steps(),
        p1.meta_steps() == p0.meta_steps(),
        p2.structure_steps() == p1.structure_steps().push(structure_step),
        p2.stat_steps() == p1.stat_steps(),
        p2.trigger_steps() == p1.trigger_steps(),
        p2.meta_steps() == p1.meta_steps(),
        q1.structure_steps() == p0.structure_steps().push(structure_step),
        q1.stat_steps() == p0.stat_steps(),
        q1.trigger_steps() == p0.trigger_steps(),
        q1.meta_steps() == p0.meta_steps(),
        q2.structure_steps() == q1.structure_steps(),
        q2.stat_steps() == q1.stat_steps().push(stat_step),
        q2.trigger_steps() == q1.trigger_steps(),
        q2.meta_steps() == q1.meta_steps(),
    ensures
        p2.steps() == q2.steps(),
{
}

/// The pipeline has no steps.
pub open spec fn no_steps<S>(p: SkillPipeline<S>) -> bool {
    &&& p.structure_steps().len() == 0
    &&& p.stat_steps().len() == 0
    &&& p.trigger_steps().len() == 0
    &&& p.meta_steps().len() == 0
}

/// How a skill is cast, by the control type of its data: combo and chain skills run phases
/// up to `max_phase - 1`, with `phase_timeout_ms` between them (the default timeout when it
/// is 0); holding and point skills are named; anything else is a normal skill.
pub open spec fn skill_type_named(control_type: Seq<char>, max_phase: u32, phase_timeout_ms: u32) -> SkillType {
    let last_phase = if max_phase == 0 { 0 } else { (max_phase - 1) as u32 };
    let timeout = if phase_timeout_ms > 0 { phase_timeout_ms } else { COMBO_PHASE_TIMEOUT_MS as u32 };
    if control_type == "Combo"@ {
        SkillType::Combo { last_phase, phase_timeout_ms: timeout }
    } else if control_type == "Chain"@ {
        SkillType::Chain { last_phase, phase_timeout_ms: timeout }
    } else if control_type == "Holding"@ {
        SkillType::Holding { max_hold_ms: 0 }
    } else if control_type == "Point"@ {
        SkillType::Point
    } else {
        SkillType::Normal
    }
}

/// The way a skill is cast, from its data.
pub fn skill_type_of(control_type: &str, max_phase: u32, phase_timeout_ms: u32) -> (t: SkillType)
    ensures
        t == skill_type_named(control_type@, max_phase, phase_timeout_ms),
{
    let last_phase = max_phase.saturating_sub(1);
    let timeout: u32 = if phase_timeout_ms > 0 { phase_timeout_ms } else { COMBO_PHASE_TIMEOUT_MS as u32 };
    if same_text(control_type, "Combo") {
        SkillType::Combo { last_phase, phase_timeout_ms: timeout }
    } else if same_text(control_type, "Chain") {
        SkillType::Chain { last_phase, phase_timeout_ms: timeout }
    } else if same_text(control_type, "Holding") {
        SkillType::Holding { max_hold_ms: 0 }
    } else if same_text(control_type, "Point") {
        SkillType::Point
    } else {
        SkillType::Normal
    }
}

/// A character skill as the pipelines read it: its name and its level, counted from 1.
pub struct SkillRef {
    pub name: String,
    pub level: u32,
}

/// `k` is the last entry of `data` named `name`: the data that a skill of that name uses.
pub open spec fn data_at(data: Seq<String>, name: Seq<char>, k: int) -> bool {
    0 <= k < data.len() && data[k]@ == name && forall|j: int| k < j < data.len() ==> #[trigger] data[j]@ != name
}

/// The level as an index from 0.
pub open spec fn level_index(level: u32) -> usize {
    if level == 0 { 0 } else { (level - 1) as usize }
}

/// The steps that the `i`-th character skill runs: those registered under its name, for
/// the first skill of that name; none for a later one, or a name with no pipeline.
pub open spec fn steps_for<S>(registered: Map<Seq<char>, SkillPipeline<S>>, skills: Seq<SkillRef>, i: int) -> Seq<S> {
    if registered.contains_key(skills[i].name@) && forall|j: int| 0 <= j < i ==> #[trigger] skills[j].name@ != skills[i].name@ {
        registered[skills[i].name@].steps()
    } else {
        Seq::empty()
    }
}

/// "스킬 데이터 없음: " followed by the name.
pub open spec fn missing_data(name: Seq<char>) -> Seq<char> {
    "스킬 데이터 없음: "@ + name
}

/// A run of `steps` on `p` gives the built skill, or the error that ended it.
pub open spec fn run_gave<S, P, F: Fn(S, P) -> (P, Result<(), String>)>(f: F, steps: Seq<S>, p: P, out: Result<P, String>) -> bool {
    match out {
        Ok(v) => runs(f, steps, p, (v, Ok::<(), String>(()))),
        Err(e) => exists|q: P| #[trigger] runs(f, steps, p, (q, Err::<(), String>(e))),
    }
}

/// The `i`-th character skill, with data at `k`, was built into `out`: `base` made its
/// profile from its id, its data and its level, and its steps ran on that profile.
pub open spec fn skill_built<S, P, B: Fn(u32, usize, usize) -> P, F: Fn(S, P) -> (P, Result<(), String>)>(
    registered: Map<Seq<char>, SkillPipeline<S>>, data: Seq<String>, skills: Seq<SkillRef>, base: B, apply: F, i: int,
    out: Result<P, String>,
) -> bool {
    exists|k: int, p: P| #[trigger] data_at(data, skills[i].name@, k)
        && #[trigger] call_ensures(base, (i as u32, k as usize, level_index(skills[i].level)), p)
        && run_gave(apply, steps_for(registered, skills, i), p, out)
}

/// The `i`-th character skill was built into some profile.
pub open spec fn skill_ok<S, P, B: Fn(u32, usize, usize) -> P, F: Fn(S, P) -> (P, Result<(), String>)>(
    registered: Map<Seq<char>, SkillPipeline<S>>, data: Seq<String>, skills: Seq<SkillRef>, base: B, apply: F, i: int,
) -> bool {
    exists|o: P| #[trigger] skill_built(registered, data, skills, base, apply, i, Ok::<P, String>(o))
}

/// The `i`-th character skill fails with `e`: it has no data, or its run failed.
pub open spec fn skill_failed<S, P, B: Fn(u32, usize, usize) -> P, F: Fn(S, P) -> (P, Result<(), String>)>(
    registered: Map<Seq<char>, SkillPipeline<S>>, data: Seq<String>, skills: Seq<SkillRef>, base: B, apply: F, i: int,
    e: String,
) -> bool {
    ||| (forall|k: int| !#[trigger] data_at(data, skills[i].name@, k)) && e@ == missing_data(skills[i].name@)
    ||| skill_built(registered, data, skills, base, apply, i, Err::<P, String>(e))
}

/// The pipelines of a build, one per skill name.
pub struct SkillPipelineMap<S> {
    /// skill name to its place in `pipelines`
    slots: IndexTable,
    pipelines: Vec<SkillPipeline<S>>,
}

impl<S> SkillPipelineMap<S> {
    /// Every name has its own place among the pipelines.
    pub closed spec fn wf(&self) -> bool {
        &&& forall|n: Seq<char>| #[trigger] index_entries(self.slots).contains_key(n)
            ==> index_entries(self.slots)[n] < self.pipelines@.len()
        &&& forall|a: Seq<char>, b: Seq<char>|
            #[trigger] index_entries(self.slots).contains_key(a) && #[trigger] index_entries(self.slots).contains_key(b) && a != b
            ==> index_entries(self.slots)[a] != index_entries(self.slots)[b]
    }

    /// The pipeline of each skill name.
    pub closed spec fn registered(&self) -> Map<Seq<char>, SkillPipeline<S>> {
        Map::new(
            |n: Seq<char>| index_entries(self.slots).contains_key(n),
            |n: Seq<char>| self.pipelines@[index_entries(self.slots)[n] as int],
        )
    }

    /// An empty pipeline for each of the names.
    pub fn new(skill_names: Vec<String>) -> (m: Self)
        ensures
            m.wf(),
            forall|n: Seq<char>| m.registered().contains_key(n)
                <==> exists|i: int| 0 <= i < skill_names@.len() && #[trigger] skill_names@[i]@ == n,
            forall|n: Seq<char>| #[trigger] m.registered().contains_key(n) ==> no_steps(m.registered()[n]),
    {
        let mut slots = IndexTable::new();
        let mut pipelines: Vec<SkillPipeline<S>> = Vec::new();
        let mut i: usize = 0;
        while i < skill_names.len()
            invariant
                0 <= i <= skill_names@.len(),
                forall|n: Seq<char>| #[trigger] index_entries(slots).contains_key(n) ==> index_entries(slots)[n] < pipelines@.len(),
                forall|a: Seq<char>, b: Seq<char>|
                    #[trigger] index_entries(slots).contains_key(a) && #[trigger] index_entries(slots).contains_key(b) && a != b
                    ==> index_entries(slots)[a] != index_entries(slots)[b],
                forall|n: Seq<char>| index_entries(slots).contains_key(n)
                    <==> exists|j: int| 0 <= j < i && #[trigger] skill_names@[j]@ == n,
                forall|k: int| 0 <= k < pipelines@.len() ==> no_steps(#[trigger] pipelines@[k]),
            decreases skill_names@.len() - i,
        {
            let name = skill_names[i].as_str();
            if slots.get(name).is_none() {
                let at = pipelines.len();
                slots.insert(String::from_str(name), at);
                pipelines.push(SkillPipeline::new());
            }
            proof {
                assert forall|n: Seq<char>| (exists|j: int| 0 <= j < i + 1 && #[trigger] skill_names@[j]@ == n)
                    implies index_entries(slots).contains_key(n) by {
                    let j = choose|j: int| 0 <= j < i + 1 && #[trigger] skill_names@[j]@ == n;
                    if j < i {
                        assert(exists|j: int| 0 <= j < i && #[trigger] skill_names@[j]@ == n);
                    }
                }
            }
            i += 1;
        }
        SkillPipelineMap { slots, pipelines }
    }

    /// Builds the profile of each character skill, in order, its index being its id: `base`
    /// makes the profile from the id, the data named like the skill (the last such entry of
    /// `data`) and the level from 0, and the skill's pipeline runs on it. A pipeline runs
    /// once, for the first skill of its name. The first skill without data, or the first
    /// failed run, ends the build with its error.
    pub fn build_all<P, B: Fn(u32, usize, usize) -> P, F: Fn(S, P) -> (P, Result<(), String>)>(
        self, data: &[String], skills: &[SkillRef], base: B, apply: F,
    ) -> (r: Result<Vec<P>, String>)
        requires
            self.wf(),
            skills@.len() <= u32::MAX + 1,
            forall|id: u32, k: usize, level: usize| base.requires((id, k, level)),
            forall|s: S, p: P| apply.requires((s, p)),
        ensures
            r matches Ok(v) ==> v@.len() == skills@.len()
                && forall|i: int| 0 <= i < skills@.len()
                    ==> skill_built(self.registered(), data@, skills@, base, apply, i, Ok::<P, String>(#[trigger] v@[i])),
            r matches Err(e) ==> exists|i: int| 0 <= i < skills@.len()
                && (forall|j: int| 0 <= j < i ==> #[trigger] skill_ok(self.registered(), data@, skills@, base, apply, j))
                && #[trigger] skill_failed(self.registered(), data@, skills@, base, apply, i, e),
    {
        let ghost registered = self.registered();
        let ghost orig = self.pipelines@;
        let ghost slots0 = index_entries(self.slots);
        let mut by_name = IndexTable::new();
        let mut k: usize = 0;
        while k < data.len()
            invariant
                0 <= k <= data@.len(),
                forall|n: Seq<char>| #[trigger] index_entries(by_name).contains_key(n)
                    ==> index_entries(by_name)[n] < k && data@[index_entries(by_name)[n] as int]@ == n
                        && forall|j: int| index_entries(by_name)[n] < j < k ==> #[trigger] data@[j]@ != n,
                forall|j: int| 0 <= j < k ==> index_entries(by_name).contains_key(#[trigger] data@[j]@),
            decreases data@.len() - k,
        {
            by_name.insert(String::from_str(data[k].as_str()), k);
            k += 1;
        }
        let SkillPipelineMap { slots, mut pipelines } = self;
        let mut taken: Vec<bool> = Vec::new();
        while taken.len() < pipelines.len()
            invariant
                taken@.len() <= pipelines@.len(),
                forall|t: int| 0 <= t < taken@.len() ==> !#[trigger] taken@[t],
            decreases pipelines@.len() - taken@.len(),
        {
            taken.push(false);
        }
        let mut out: Vec<P> = Vec::new();
        let mut i: usize = 0;
        while i < skills.len()
            invariant
                0 <= i <= skills@.len(),
                skills@.len() <= u32::MAX + 1,
                forall|id: u32, k: usize, level: usize| base.requires((id, k, level)),
                forall|s: S, p: P| apply.requires((s, p)),
                index_entries(slots) == slots0,
                registered == self.registered(),
                forall|n: Seq<char>| #[trigger] slots0.contains_key(n) ==> slots0[n] < orig.len(),
                forall|a: Seq<char>, b: Seq<char>| #[trigger] slots0.contains_key(a) && #[trigger] slots0.contains_key(b) && a != b
                    ==> slots0[a] != slots0[b],
                registered == Map::new(|n: Seq<char>| slots0.contains_key(n), |n: Seq<char>| orig[slots0[n] as int]),
                pipelines@.len() == orig.len(),
                taken@.len() == orig.len(),
                forall|t: int| 0 <= t < orig.len() && !#[trigger] taken@[t] ==> pipelines@[t] == orig[t],
                forall|n: Seq<char>| #[trigger] slots0.contains_key(n)
                    ==> (taken@[slots0[n] as int] <==> exists|j: int| 0 <= j < i && #[trigger] skills@[j].name@ == n),
                forall|n: Seq<char>| #[trigger] index_entries(by_name).contains_key(n)
                    ==> data_at(data@, n, index_entries(by_name)[n] as int),
                forall|n: Seq<char>| !index_entries(by_name).contains_key(n) ==> forall|k: int| !#[trigger] data_at(data@, n, k),
                out@.len() == i,
                forall|j: int| 0 <= j < i
                    ==> skill_built(registered, data@, skills@, base, apply, j, Ok::<P, String>(#[trigger] out@[j])),
            decreases skills@.len() - i,
        {
            let name = skills[i].name.as_str();
            let at = match by_name.get(name) {
                Some(at) => at,
                None => {
                    let mut m = String::from_str("스킬 데이터 없음: ");
                    m.append(name);
                    proof {
                        assert forall|j: int| 0 <= j < i implies #[trigger] skill_ok(registered, data@, skills@, base, apply, j) by {
                            assert(skill_built(registered, data@, skills@, base, apply, j, Ok::<P, String>(out@[j])));
                        }
                        assert(skill_failed(registered, data@, skills@, base, apply, i as int, m));
                        let ghost r = Err::<Vec<P>, String>(m);
                        assert(skill_failed(self.registered(), data@, skills@, base, apply, i as int, r->Err_0));
                    }
                    return Err(m);
                },
            };
            let level_idx = skills[i].level.saturating_sub(1) as usize;
            let mut pipeline = SkillPipeline::new();
            match slots.get(name) {
                Some(slot) => {
                    if !taken[slot] {
                        std::mem::swap(&mut pipeline, &mut pipelines[slot]);
                        taken.set(slot, true);
                    }
                },
                None => {},
            }
            assert(pipeline.steps() == steps_for(registered, skills@, i as int));
            let profile = base(i as u32, at, level_idx);
            let ghost p0 = profile;
            proof {
                assert(level_idx == level_index(skills@[i as int].level));
                assert(call_ensures(base, ((i as int) as u32, (at as int) as usize, level_index(skills@[i as int].level)), p0));
            }
            let ran = pipeline.run(profile, &apply);
            let ghost g_ran = ran;
            let (built, result) = ran;
            assert(g_ran == (built, result));
            match result {
                Ok(u) => {
                    proof {
                        assert(u == ());
                        assert(result == Ok::<(), String>(()));
                        assert(runs(apply, steps_for(registered, skills@, i as int), p0, (built, Ok::<(), String>(()))));
                        assert(data_at(data@, name@, at as int));
                        assert(skill_built(registered, data@, skills@, base, apply, i as int, Ok::<P, String>(built)));
                    }
                    out.push(built);
                },
                Err(e) => {
                    proof {
                        assert(data_at(data@, name@, at as int));
                        assert(runs(apply, steps_for(registered, skills@, i as int), p0, (built, Err::<(), String>(e))));
                        let ghost o = Err::<P, String>(e);
                        assert(runs(apply, steps_for(registered, skills@, i as int), p0, (built, Err::<(), String>(o->Err_0))));
                        assert(run_gave(apply, steps_for(registered, skills@, i as int), p0, o));
                        assert(skill_built(registered, data@, skills@, base, apply, i as int, Err::<P, String>(e)));
                        assert forall|j: int| 0 <= j < i implies #[trigger] skill_ok(registered, data@, skills@, base, apply, j) by {
                            assert(skill_built(registered, data@, skills@, base, apply, j, Ok::<P, String>(out@[j])));
                        }
                        let ghost r = Err::<Vec<P>, String>(e);
                        assert(skill_failed(self.registered(), data@, skills@, base, apply, i as int, r->Err_0));
                    }
                    return Err(e);
                },
            }
            i += 1;
        }
        Ok(out)
    }

    /// The pipeline of `skill_name`, to register steps in; none when the name has none.
    pub fn get_mut(&mut self, skill_name: &str) -> (r: Option<&mut SkillPipeline<S>>)
        requires
            old(self).wf(),
        ensures
            final(self).wf(),
            r is Some <==> old(self).registered().contains_key(skill_name@),
            r is None ==> final(self).registered() == old(self).registered(),
            r matches Some(p) ==> *p == old(self).registered()[skill_name@]
                && final(self).registered() == old(self).registered().insert(skill_name@, *final(p)),
    {
        match self.slots.get(skill_name) {
            Some(at) => Some(&mut self.pipelines[at]),
            None => None,
        }
    }
}

} // verus!
