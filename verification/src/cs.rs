use vstd::prelude::*;
use crate::field::{FieldElement, f_add, f_mul, fe_add, fe_mul};

verus! {

/// Visibility of an allocated variable: disclosed to the verifier, or known
/// only to the prover.
#[derive(Clone, Copy, Debug, PartialEq, Eq, Structural)]
pub enum VarKind {
    Public,
    Private,
}

/// A variable allocated in a constraint system, bound to a field element.
#[derive(Clone, Copy, Debug, PartialEq, Eq, Structural)]
pub struct Variable {
    pub kind: VarKind,
    pub value: FieldElement,
}

/// One addend of a linear combination: a coefficient times the variable at
/// index `var`.
#[derive(Clone, Copy, Debug, PartialEq, Eq, Structural)]
pub struct Term {
    pub coeff: FieldElement,
    pub var: usize,
}

/// An affine combination of variables: a constant plus a sum of terms.
#[derive(Clone, Debug)]
pub struct LinComb {
    pub constant: FieldElement,
    pub terms: Vec<Term>,
}

/// An equality assertion between two linear combinations.
#[derive(Clone, Debug)]
pub struct Constraint {
    pub lhs: LinComb,
    pub rhs: LinComb,
}

/// The failures a constraint-system operation can report.
#[derive(Clone, Copy, Debug, PartialEq, Eq, Structural)]
pub enum ConstraintError {
    /// The matrices violate the multiplication-compatibility invariant or
    /// contain ragged rows.
    DimensionMismatch,
    /// The constraint system cannot accept further entries.
    AllocationError,
    /// The asserted equalities do not hold for the bound values.
    StatementMismatch,
}

/// An append-only collection of allocated variables and equality assertions
/// between linear combinations of those variables.
#[derive(Clone, Debug)]
pub struct ConstraintSystem {
    pub vars: Vec<Variable>,
    pub constraints: Vec<Constraint>,
}

/// The value a sequence of terms adds to `acc0`, folding field additions
/// left to right.
pub open spec fn eval_terms(acc0: nat, terms: Seq<Term>, asn: Seq<nat>) -> nat
    decreases terms.len(),
{
    if terms.len() == 0 {
        acc0
    } else {
        f_add(
            eval_terms(acc0, terms.drop_last(), asn),
            f_mul(terms.last().coeff.value(), asn[terms.last().var as int]),
        )
    }
}

/// The public values of a variable sequence, in allocation order.
pub open spec fn stmt_of(vars: Seq<Variable>) -> Seq<nat>
    decreases vars.len(),
{
    if vars.len() == 0 {
        Seq::empty()
    } else if vars.last().kind == VarKind::Public {
        stmt_of(vars.drop_last()).push(vars.last().value.value())
    } else {
        stmt_of(vars.drop_last())
    }
}

/// Appending one variable extends the statement exactly when the variable
/// is public.
pub proof fn lemma_stmt_push(vars: Seq<Variable>, v: Variable)
    ensures
        stmt_of(vars.push(v)) == if v.kind == VarKind::Public {
            stmt_of(vars).push(v.value.value())
        } else {
            stmt_of(vars)
        },
{
    assert(vars.push(v).drop_last() =~= vars);
    assert(vars.push(v).last() == v);
}

impl LinComb {
    /// All coefficients and the constant are canonical, and every term
    /// points at an allocated variable.
    pub open spec fn wf(self, nvars: nat) -> bool {
        &&& self.constant.wf()
        &&& forall|q: int|
            0 <= q < self.terms@.len() ==> (#[trigger] self.terms@[q]).coeff.wf()
                && self.terms@[q].var < nvars
    }

    /// The canonical value of this combination under an assignment.
    pub open spec fn eval(self, asn: Seq<nat>) -> nat {
        eval_terms(self.constant.value(), self.terms@, asn)
    }
}

impl ConstraintSystem {
    /// The assignment: the canonical value of each variable, in allocation
    /// order.
    pub open spec fn values(self) -> Seq<nat> {
        self.vars@.map_values(|v: Variable| v.value.value())
    }

    /// Every bound value is canonical and every constraint speaks only of
    /// allocated variables.
    pub open spec fn wf(self) -> bool {
        &&& forall|p: int|
            0 <= p < self.vars@.len() ==> (#[trigger] self.vars@[p]).value.wf()
        &&& forall|c: int|
            0 <= c < self.constraints@.len() ==> (#[trigger] self.constraints@[c]).lhs.wf(
                self.vars@.len() as nat,
            ) && self.constraints@[c].rhs.wf(self.vars@.len() as nat)
    }

    /// The equality asserted by the constraint at index `c` holds under the
    /// bound values.
    pub open spec fn constraint_holds(self, c: int) -> bool {
        self.constraints@[c].lhs.eval(self.values()) == self.constraints@[c].rhs.eval(
            self.values(),
        )
    }

    /// Every asserted equality holds under the bound values.
    pub open spec fn satisfied(self) -> bool {
        forall|c: int| 0 <= c < self.constraints@.len() ==> #[trigger] self.constraint_holds(c)
    }

    /// The Statement: the values of the public variables, in allocation
    /// order.
    pub open spec fn statement(self) -> Seq<nat> {
        stmt_of(self.vars@)
    }

    /// An empty constraint system.
    pub fn new() -> (r: ConstraintSystem)
        ensures
            r.vars@.len() == 0,
            r.constraints@.len() == 0,
    {
        ConstraintSystem { vars: Vec::new(), constraints: Vec::new() }
    }

    /// Allocate a variable bound to `value`; the new variable's index is
    /// returned. Fails only when the system can accept no further variable.
    pub fn alloc_var(&mut self, kind: VarKind, value: FieldElement) -> (r: Result<
        usize,
        ConstraintError,
    >)
        ensures
            match r {
                Ok(idx) => {
                    &&& idx == old(self).vars@.len()
                    &&& final(self).vars@ == old(self).vars@.push(Variable { kind, value })
                    &&& final(self).constraints@ == old(self).constraints@
                },
                Err(e) => {
                    &&& e == ConstraintError::AllocationError
                    &&& old(self).vars@.len() == usize::MAX
                    &&& final(self).vars@ == old(self).vars@
                    &&& final(self).constraints@ == old(self).constraints@
                },
            },
    {
        if self.vars.len() == usize::MAX {
            Err(ConstraintError::AllocationError)
        } else {
            let idx = self.vars.len();
            self.vars.push(Variable { kind, value });
            Ok(idx)
        }
    }

    /// Assert equality between two linear combinations. Fails only when the
    /// system can accept no further constraint.
    pub fn enforce_equal(&mut self, lhs: LinComb, rhs: LinComb) -> (r: Result<
        (),
        ConstraintError,
    >)
        ensures
            match r {
                Ok(()) => {
                    &&& final(self).constraints@ == old(self).constraints@.push(
                        Constraint { lhs, rhs },
                    )
                    &&& final(self).vars@ == old(self).vars@
                },
                Err(e) => {
                    &&& e == ConstraintError::AllocationError
                    &&& old(self).constraints@.len() == usize::MAX
                    &&& final(self).vars@ == old(self).vars@
                    &&& final(self).constraints@ == old(self).constraints@
                },
            },
    {
        if self.constraints.len() == usize::MAX {
            Err(ConstraintError::AllocationError)
        } else {
            self.constraints.push(Constraint { lhs, rhs });
            Ok(())
        }
    }

    /// Evaluate every constraint against the bound values: `Ok` exactly when
    /// all asserted equalities hold, `StatementMismatch` otherwise.
    pub fn check_satisfied(&self) -> (r: Result<(), ConstraintError>)
        requires
            self.wf(),
        ensures
            r == Ok::<(), ConstraintError>(()) <==> self.satisfied(),
            r is Err ==> r == Err::<(), ConstraintError>(ConstraintError::StatementMismatch),
    {
        let mut c: usize = 0;
        while c < self.constraints.len()
            invariant
                self.wf(),
                0 <= c <= self.constraints@.len(),
                forall|c0: int| 0 <= c0 < c ==> #[trigger] self.constraint_holds(c0),
            decreases self.constraints@.len() - c,
        {
            let l = eval_lc(&self.constraints[c].lhs, &self.vars);
            let r = eval_lc(&self.constraints[c].rhs, &self.vars);
            if !(l == r) {
                proof {
                    if self.constraint_holds(c as int) {
                        crate::field::lemma_value_injective(l, r);
                    }
                }
                return Err(ConstraintError::StatementMismatch);
            }
            c = c + 1;
        }
        Ok(())
    }

    /// Collect the Statement: the field elements bound to the public
    /// variables, in allocation order.
    pub fn public_inputs(&self) -> (r: Vec<FieldElement>)
        ensures
            r@.map_values(|e: FieldElement| e.value()) == self.statement(),
            self.wf() ==> forall|q: int| 0 <= q < r@.len() ==> (#[trigger] r@[q]).wf(),
    {
        let mut out: Vec<FieldElement> = Vec::new();
        let mut p: usize = 0;
        while p < self.vars.len()
            invariant
                0 <= p <= self.vars@.len(),
                out@.map_values(|e: FieldElement| e.value()) == stmt_of(self.vars@.take(p as int)),
                self.wf() ==> forall|q: int| 0 <= q < out@.len() ==> (#[trigger] out@[q]).wf(),
            decreases self.vars@.len() - p,
        {
            proof {
                assert(self.vars@.take(p as int + 1) =~= self.vars@.take(p as int).push(
                    self.vars@[p as int],
                ));
                lemma_stmt_push(self.vars@.take(p as int), self.vars@[p as int]);
            }
            if self.vars[p].kind == VarKind::Public {
                out.push(self.vars[p].value);
                proof {
                    assert(out@.map_values(|e: FieldElement| e.value()) =~= stmt_of(
                        self.vars@.take(p as int + 1),
                    ));
                }
            }
            p = p + 1;
        }
        proof {
            assert(self.vars@.take(self.vars@.len() as int) =~= self.vars@);
        }
        out
    }
}

/// Evaluate a linear combination against the bound values of `vars`.
fn eval_lc(lc: &LinComb, vars: &Vec<Variable>) -> (r: FieldElement)
    requires
        lc.wf(vars@.len() as nat),
        forall|p: int| 0 <= p < vars@.len() ==> (#[trigger] vars@[p]).value.wf(),
    ensures
        r.value() == lc.eval(vars@.map_values(|v: Variable| v.value.value())),
        r.wf(),
{
    let ghost asn = vars@.map_values(|v: Variable| v.value.value());
    let mut acc = lc.constant;
    let mut q: usize = 0;
    while q < lc.terms.len()
        invariant
            lc.wf(vars@.len() as nat),
            forall|p: int| 0 <= p < vars@.len() ==> (#[trigger] vars@[p]).value.wf(),
            asn == vars@.map_values(|v: Variable| v.value.value()),
            0 <= q <= lc.terms@.len(),
            acc.value() == eval_terms(lc.constant.value(), lc.terms@.take(q as int), asn),
            acc.wf(),
        decreases lc.terms@.len() - q,
    {
        let t = &lc.terms[q];
        let prod = fe_mul(&t.coeff, &vars[t.var].value);
        acc = fe_add(&acc, &prod);
        proof {
            assert(lc.terms@.take(q as int + 1).drop_last() =~= lc.terms@.take(q as int));
            assert(lc.terms@.take(q as int + 1).last() == lc.terms@[q as int]);
        }
        q = q + 1;
    }
    proof {
        assert(lc.terms@.take(lc.terms@.len() as int) =~= lc.terms@);
    }
    acc
}

} // verus!
