//! The vocabulary shared by the builder and the engine: stats, skill tags, trigger
//! filters and comparison operators.

use vstd::prelude::*;
use vstd::std_specs::iter::IteratorSpec;

verus! {

/// Equal text: the same characters in the same order.
pub fn same_text(a: &str, b: &str) -> (same: bool)
    ensures
        same == (a@ == b@),
{
    let mut ia = a.chars();
    let mut ib = b.chars();
    let ghost mut k: int = 0;
    assert(a@.skip(0) =~= a@);
    assert(b@.skip(0) =~= b@);
    loop
        invariant
            0 <= k <= a@.len(),
            k <= b@.len(),
            ia.remaining() == a@.skip(k),
            ib.remaining() == b@.skip(k),
            a@.take(k) =~= b@.take(k),
        decreases a@.len() - k,
    {
        let ca = ia.next();
        let cb = ib.next();
        match (ca, cb) {
            (Some(x), Some(y)) => {
                if x != y {
                    assert(a@[k] != b@[k]);
                    return false;
                }
                proof {
                    assert(a@.skip(k)[0] == a@[k]);
                    assert(b@.skip(k)[0] == b@[k]);
                    assert(a@.skip(k).drop_first() =~= a@.skip(k + 1));
                    assert(b@.skip(k).drop_first() =~= b@.skip(k + 1));
                    assert(a@.take(k + 1) =~= a@.take(k).push(a@[k]));
                    assert(b@.take(k + 1) =~= b@.take(k).push(b@[k]));
                    k = k + 1;
                }
            },
            (None, None) => {
                assert(a@.take(k) =~= a@);
                assert(b@.take(k) =~= b@);
                return true;
            },
            _ => {
                assert(a@.len() != b@.len());
                return false;
            },
        }
    }
}

/// A stat that a buff or an effect changes.
#[derive(Clone, Copy, Debug, PartialEq, Eq, Structural)]
pub enum StatField {
    DamageIncrease,
    TargetDamageIncrease,
    CritRate,
    CritDmg,
    AttackPowerMul,
    AdditionalDamage,
    TypeDamage,
    ElementalDamage,
    WeaponAttackPower,
    EvolutionDamage,
    AttackSpeed,
    MovementSpeed,
    TargetDefenseReduction,
    CooldownReduction,
}

/// A tag that modifiers and triggers select skills by.
#[derive(Clone, Copy, Debug, PartialEq, Eq, Hash, Structural)]
pub enum SkillTag {
    All,
    AttackBack,
    AttackHead,
    NonDirectional,
    NonDirectionalNonAwakening,
    CategoryNormal,
    CategoryAwakening,
    CategorySuperAwakening,
    CategoryHyper,
    CategoryRuin,
    CategoryStacked,
    HoldingCasting,
    Charging,
    UsesMana,
    ElementFire,
    ElementWater,
    ElementElectricity,
    ElementWind,
    ElementDark,
    ElementHoly,
    SkillGroup(u32),
    SkillId(u32),
}

/// When a global trigger is considered.
#[derive(Clone, Copy, Debug, PartialEq, Eq, Structural)]
pub enum TriggerFilter {
    /// Any skill cast.
    SkillCast,
    /// Any hit.
    AnyHit,
    /// Any critical hit.
    AnyCrit,
    /// A hit of a skill with the tag.
    SkillTag(SkillTag),
    /// A cast or a hit of the skill.
    SkillId(u32),
    /// A cast of the skill.
    SkillCastId(u32),
    /// Just before a cast of the skill.
    BeforeSkillCastId(u32),
    /// Any card use.
    CardUse,
}

/// How a stat modifier combines with the others of its tag and stat: added to their sum,
/// added to a percentage that multiplies the result, multiplied in on its own, or
/// overriding all of them.
#[derive(Clone, Copy, Debug, PartialEq, Eq, Structural)]
pub enum OpType {
    Add,
    AddPercent,
    Multiply,
    Override,
}

/// A comparison in an action-list condition.
#[derive(Clone, Copy, Debug, PartialEq, Eq, Structural)]
pub enum CompareOperator {
    Lt,
    Lte,
    Gt,
    Gte,
    Eq,
    Ne,
}

/// The operator written as `text`, if it is one of `<`, `<=`, `>`, `>=`, `==`, `!=`.
pub open spec fn parsed_operator(text: Seq<char>) -> Option<CompareOperator> {
    if text == "<"@ {
        Some(CompareOperator::Lt)
    } else if text == "<="@ {
        Some(CompareOperator::Lte)
    } else if text == ">"@ {
        Some(CompareOperator::Gt)
    } else if text == ">="@ {
        Some(CompareOperator::Gte)
    } else if text == "=="@ {
        Some(CompareOperator::Eq)
    } else if text == "!="@ {
        Some(CompareOperator::Ne)
    } else {
        None
    }
}

/// `a op b`.
pub open spec fn compares(op: CompareOperator, a: int, b: int) -> bool {
    match op {
        CompareOperator::Lt => a < b,
        CompareOperator::Lte => a <= b,
        CompareOperator::Gt => a > b,
        CompareOperator::Gte => a >= b,
        CompareOperator::Eq => a == b,
        CompareOperator::Ne => a != b,
    }
}

impl CompareOperator {
    /// Reads an operator from its text.
    pub fn parse(text: &str) -> (op: Option<CompareOperator>)
        ensures
            op == parsed_operator(text@),
    {
        if same_text(text, "<") {
            Some(CompareOperator::Lt)
        } else if same_text(text, "<=") {
            Some(CompareOperator::Lte)
        } else if same_text(text, ">") {
            Some(CompareOperator::Gt)
        } else if same_text(text, ">=") {
            Some(CompareOperator::Gte)
        } else if same_text(text, "==") {
            Some(CompareOperator::Eq)
        } else if same_text(text, "!=") {
            Some(CompareOperator::Ne)
        } else {
            None
        }
    }

    /// `a self b`.
    pub fn compare(&self, a: i128, b: i128) -> (r: bool)
        ensures
            r == compares(*self, a as int, b as int),
    {
        match self {
            CompareOperator::Lt => a < b,
            CompareOperator::Lte => a <= b,
            CompareOperator::Gt => a > b,
            CompareOperator::Gte => a >= b,
            CompareOperator::Eq => a == b,
            CompareOperator::Ne => a != b,
        }
    }
}

} // verus!
