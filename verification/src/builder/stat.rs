//! The stat builder: sources register operations on the stat profile, which are applied
//! in three phases: flat values, then additive multipliers, then multiplicative ones.

use vstd::prelude::*;

verus! {

/// Applying `ops` in order with `f` takes `p` to `r`.
pub open spec fn folds<O, P, F: Fn(O, P) -> P>(f: F, ops: Seq<(String, O)>, p: P, r: P) -> bool
    decreases ops.len(),
{
    if ops.len() == 0 {
        r == p
    } else {
        exists|q: P| folds(f, ops.drop_last(), p, q) && #[trigger] call_ensures(f, (ops.last().1, q), r)
    }
}

/// The operations registered by the sources of a build, by phase, each with its source.
pub struct StatBuilder<O> {
    flat_ops: Vec<(String, O)>,
    additive_ops: Vec<(String, O)>,
    multiply_ops: Vec<(String, O)>,
}

impl<O> StatBuilder<O> {
    /// The flat operations, in registration order.
    pub closed spec fn flat(&self) -> Seq<(String, O)> {
        self.flat_ops@
    }

    /// The additive operations, in registration order.
    pub closed spec fn additive(&self) -> Seq<(String, O)> {
        self.additive_ops@
    }

    /// The multiplicative operations, in registration order.
    pub closed spec fn multiply(&self) -> Seq<(String, O)> {
        self.multiply_ops@
    }

    /// All operations in the order `build` applies them.
    pub open spec fn ordered(&self) -> Seq<(String, O)> {
        self.flat() + self.additive() + self.multiply()
    }

    /// No operations.
    pub fn new() -> (b: Self)
        ensures
            b.flat() == Seq::<(String, O)>::empty(),
            b.additive() == Seq::<(String, O)>::empty(),
            b.multiply() == Seq::<(String, O)>::empty(),
    {
        StatBuilder { flat_ops: Vec::new(), additive_ops: Vec::new(), multiply_ops: Vec::new() }
    }

    /// Registers a flat operation of `source`.
    pub fn add_flat(&mut self, source: String, f: O)
        ensures
            final(self).flat() == old(self).flat().push((source, f)),
            final(self).additive() == old(self).additive(),
            final(self).multiply() == old(self).multiply(),
    {
        self.flat_ops.push((source, f));
    }

    /// Registers an additive-multiplier operation of `source`.
    pub fn add_additive(&mut self, source: String, f: O)
        ensures
            final(self).flat() == old(self).flat(),
            final(self).additive() == old(self).additive().push((source, f)),
            final(self).multiply() == old(self).multiply(),
    {
        self.additive_ops.push((source, f));
    }

    /// Applies every operation to `start` with `apply`: flat ones, then additive, then
    /// multiplicative, each phase in registration order.
    pub fn build<P, F: Fn(O, P) -> P>(self, start: P, apply: F) -> (built: P)
        requires
            forall|o: O, p: P| apply.requires((o, p)),
        ensures
            folds(apply, self.ordered(), start, built),
    {
        let ghost ops = self.ordered();
        let StatBuilder { flat_ops, mut additive_ops, mut multiply_ops } = self;
        let mut all = flat_ops;
        all.append(&mut additive_ops);
        all.append(&mut multiply_ops);
        assert(all@ =~= ops);
        let n = all.len();
        let mut cur = start;
        let mut k: usize = 0;
        assert(ops.take(0) =~= Seq::<(String, O)>::empty());
        while k < n
            invariant
                n == ops.len(),
                ops == self.ordered(),
                0 <= k <= n,
                all@ == ops.skip(k as int),
                forall|o: O, p: P| apply.requires((o, p)),
                folds(apply, ops.take(k as int), start, cur),
            decreases n - k,
        {
            let (source, op) = all.remove(0);
            let ghost before = cur;
            let ghost g_op = op;
            let next = apply(op, cur);
            proof {
                let prev = ops.take(k as int + 1).drop_last();
                assert(prev =~= ops.take(k as int));
                assert(ops.take(k as int + 1).last().1 == g_op);
                assert(all@ =~= ops.skip(k as int + 1));
                assert(folds(apply, ops.take(k as int + 1), start, next));
            }
            cur = next;
            k += 1;
        }
        assert(ops.take(n as int) =~= ops);
        cur
    }
}

/// Law: operations apply by phase, not by the order of registration: an additive
/// operation registered before a flat one still applies after it, so registering the two
/// in either order gives the same application order.
pub proof fn law_phase_decides_build_order<O>(
    b0: StatBuilder<O>,
    b1: StatBuilder<O>,
    b2: StatBuilder<O>,
    c1: StatBuilder<O>,
    c2: StatBuilder<O>,
    flat_op: (String, O),
    additive_op: (String, O),
)
    requires
        b1.flat() == b0.flat(),
        b1.additive() == b0.additive().push(additive_op),
        b1.multiply() == b0.multiply(),
        b2.flat() == b1.flat().push(flat_op),
        b2.additive() == b1.additive(),
        b2.multiply() == b1.multiply(),
        c1.flat() == b0.flat().push(flat_op),
        c1.additive() == b0.additive(),
        c1.multiply() == b0.multiply(),
        c2.flat() == c1.flat(),
        c2.additive() == c1.additive().push(additive_op),
        c2.multiply() == c1.multiply(),
    ensures
        b2.ordered() == c2.ordered(),
{
}

} // verus!
