use vstd::prelude::*;

verus! {

/// A binary operation on values together with its identity element: `0` for
/// addition and subtraction, `1` for multiplication and division.
///
/// The arithmetic itself is the caller's. The library says to which operands
/// it is applied and where the identity element stands in, and speaks of the
/// results through what `apply` promises of them.
pub struct Operation<V, F> {
    /// The right operand that stands in where none is given, and the value
    /// from which a reduction starts.
    pub identity: V,
    /// Computes the operation on a left and a right operand.
    pub apply: F,
}

impl<V: Copy, F: Fn(V, V) -> V> Operation<V, F> {
    /// The operation may be applied to `a` and `b`.
    pub open spec fn accepts(&self, a: V, b: V) -> bool {
        self.apply.requires((a, b))
    }

    /// `r` is a result of the operation on `a` and `b`.
    pub open spec fn yields(&self, a: V, b: V, r: V) -> bool {
        self.apply.ensures((a, b), r)
    }

    /// The operation has one result for given operands.
    pub open spec fn deterministic(&self) -> bool {
        forall|a: V, b: V, r1: V, r2: V|
            #![trigger self.yields(a, b, r1), self.yields(a, b, r2)]
            self.yields(a, b, r1) && self.yields(a, b, r2) ==> r1 == r2
    }

    /// The identity element as a right operand leaves every left operand as
    /// it is.
    pub open spec fn has_right_identity(&self) -> bool {
        forall|a: V, r: V| #[trigger] self.yields(a, self.identity, r) ==> r == a
    }

    /// The fill value of a binary operation: the one given, else the
    /// identity element.
    pub open spec fn fill_or_identity(&self, fill: Option<V>) -> V {
        match fill {
            Some(value) => value,
            None => self.identity,
        }
    }

    /// `acc` is a result of folding `values` from the left, starting from
    /// the identity element: of no values it is the identity element itself.
    pub open spec fn folds(&self, values: Seq<V>, acc: V) -> bool
        decreases values.len(),
    {
        if values.len() == 0 {
            acc == self.identity
        } else {
            exists|before: V|
                self.folds(values.drop_last(), before) && #[trigger] self.yields(
                    before,
                    values.last(),
                    acc,
                )
        }
    }

    /// A fold of one value more is a fold of the values before it, followed
    /// by one application of the operation.
    pub proof fn lemma_folds_last(&self, values: Seq<V>, acc: V)
        requires
            values.len() > 0,
            self.folds(values, acc),
        ensures
            exists|before: V|
                self.folds(values.drop_last(), before) && #[trigger] self.yields(
                    before,
                    values.last(),
                    acc,
                ),
    {
    }

    /// A deterministic operation folds given values to one result.
    pub proof fn lemma_folds_determined(&self, values: Seq<V>, acc1: V, acc2: V)
        requires
            self.deterministic(),
            self.folds(values, acc1),
            self.folds(values, acc2),
        ensures
            acc1 == acc2,
        decreases values.len(),
    {
        if values.len() > 0 {
            self.lemma_folds_last(values, acc1);
            self.lemma_folds_last(values, acc2);
            let before1 = choose|before: V|
                self.folds(values.drop_last(), before) && #[trigger] self.yields(
                    before,
                    values.last(),
                    acc1,
                );
            let before2 = choose|before: V|
                self.folds(values.drop_last(), before) && #[trigger] self.yields(
                    before,
                    values.last(),
                    acc2,
                );
            self.lemma_folds_determined(values.drop_last(), before1, before2);
        }
    }

    /// Applies the operation to `a` and `b`.
    pub fn call(&self, a: V, b: V) -> (r: V)
        requires
            self.accepts(a, b),
        ensures
            self.yields(a, b, r),
    {
        (self.apply)(a, b)
    }
}

} // verus!
