use vstd::prelude::*;
use vstd::arithmetic::div_mod::{
    lemma_small_mod, lemma_mod_bound, lemma_fundamental_div_mod, lemma_fundamental_div_mod_converse,
    lemma_mul_mod_noop, lemma_add_mod_noop,
};
use vstd::arithmetic::mul::{
    lemma_mul_inequality, lemma_mul_is_distributive_add_other_way,
    lemma_mul_is_distributive_sub_other_way, lemma_mul_nonnegative, lemma_mul_is_commutative,
};
use crate::field::{f_add, f_mul, fe_zero, fe_from_u64, fe_add, fe_mul, modulus, encode_spec};
use crate::cs::{ConstraintSystem, ConstraintError, Constraint, LinComb, Term, VarKind, Variable, eval_terms};
use crate::matrix::Matrix;

verus! {

/// All rows have the length of the first row.
pub open spec fn rect(s: Seq<Seq<nat>>) -> bool {
    forall|i: int| 0 <= i < s.len() ==> (#[trigger] s[i]).len() == s[0].len()
}

/// The three matrices are nonempty, rectangular, and compatible for the
/// product `X (m x t) * W (t x n) = Y (m x n)`.
pub open spec fn dims_ok(xs: Seq<Seq<nat>>, ws: Seq<Seq<nat>>, ys: Seq<Seq<nat>>) -> bool {
    &&& xs.len() > 0
    &&& xs[0].len() > 0
    &&& rect(xs)
    &&& ws.len() == xs[0].len()
    &&& ws[0].len() > 0
    &&& rect(ws)
    &&& ys.len() == xs.len()
    &&& rect(ys)
    &&& ys[0].len() == ws[0].len()
}

/// The field value of the first `k` addends of row `i` of `xs` against
/// column `j` of `ws`, accumulated by field addition of field products.
pub open spec fn dot(xs: Seq<Seq<nat>>, ws: Seq<Seq<nat>>, i: int, j: int, k: int) -> nat
    decreases k,
{
    if k <= 0 {
        0nat
    } else {
        f_add(dot(xs, ws, i, j, k - 1), f_mul(xs[i][k - 1], ws[k - 1][j]))
    }
}

/// A public variable bound to the canonical value `val`.
pub open spec fn pub_var(v: Variable, val: nat) -> bool {
    v.kind == VarKind::Public && v.value.value() == val && v.value.wf()
}

/// A private variable bound to the canonical value `val`.
pub open spec fn priv_var(v: Variable, val: nat) -> bool {
    v.kind == VarKind::Private && v.value.value() == val && v.value.wf()
}

/// The shape of one output group: a private accumulator variable bound to
/// zero, a public output variable bound to `yval`, and a constraint
/// asserting `s + 1 * accumulator == 1 * output`.
pub open spec fn out_ok(
    con: Constraint,
    zv: Variable,
    yv: Variable,
    zidx: int,
    yidx: int,
    s: nat,
    yval: nat,
) -> bool {
    &&& priv_var(zv, 0)
    &&& pub_var(yv, yval)
    &&& con.lhs.constant.value() == s && con.lhs.constant.wf()
    &&& con.lhs.terms@.len() == 1
    &&& con.lhs.terms@[0].coeff.value() == 1 && con.lhs.terms@[0].coeff.wf()
    &&& con.lhs.terms@[0].var == zidx
    &&& con.rhs.constant.value() == 0 && con.rhs.constant.wf()
    &&& con.rhs.terms@.len() == 1
    &&& con.rhs.terms@[0].coeff.value() == 1 && con.rhs.terms@[0].coeff.wf()
    &&& con.rhs.terms@[0].var == yidx
}

/// What a successful `build` leaves in the constraint system, for matrices
/// of values `xs (m x t)`, `ws (t x n)`, `ys (m x n)`:
/// first one public variable per entry of `xs`, row-major; then one private
/// variable per entry of `ws`, row-major; then, output by output in
/// column-major order, a private accumulator bound to zero, a public
/// variable bound to the output entry, and the equality constraint between
/// them; and a Statement that is the entries of `xs` row-major followed by
/// the entries of `ys` column-major.
pub open spec fn built_ok(
    cs: ConstraintSystem,
    xs: Seq<Seq<nat>>,
    ws: Seq<Seq<nat>>,
    ys: Seq<Seq<nat>>,
) -> bool
    recommends
        dims_ok(xs, ws, ys),
{
    let m = xs.len() as int;
    let t = ws.len() as int;
    let n = ys[0].len() as int;
    let base = m * t + t * n;
    &&& cs.vars@.len() == base + 2 * (n * m)
    &&& cs.constraints@.len() == n * m
    &&& forall|p: int| 0 <= p < m * t ==> pub_var(#[trigger] cs.vars@[p], xs[p / t][p % t])
    &&& forall|p: int|
        m * t <= p < m * t + t * n ==> priv_var(
            #[trigger] cs.vars@[p],
            ws[(p - m * t) / n][(p - m * t) % n],
        )
    &&& forall|c: int|
        0 <= c < n * m ==> out_ok(
            #[trigger] cs.constraints@[c],
            cs.vars@[base + 2 * c],
            cs.vars@[base + 2 * c + 1],
            base + 2 * c,
            base + 2 * c + 1,
            dot(xs, ws, c % m, c / m, t),
            ys[c % m][c / m],
        )
    &&& cs.statement().len() == m * t + n * m
    &&& forall|q: int| 0 <= q < m * t ==> #[trigger] cs.statement()[q] == xs[q / t][q % t]
    &&& forall|q: int|
        m * t <= q < m * t + n * m ==> #[trigger] cs.statement()[q] == ys[(q - m * t) % m][(q - m
            * t) / m]
    &&& cs.wf()
}

/// Populate an empty constraint system with the matrix-multiplication
/// circuit `X * W = Y`: public variables for `X`, private variables for the
/// witness `W`, and per output entry an accumulator, a public output
/// variable and an equality constraint. Rejects empty, ragged or
/// incompatible matrices before allocating anything.
#[verifier::loop_isolation(false)]
pub fn build(cs: &mut ConstraintSystem, x: &Matrix, w: &Matrix, y: &Matrix) -> (r: Result<
    (),
    ConstraintError,
>)
    requires
        old(cs).vars@.len() == 0,
        old(cs).constraints@.len() == 0,
        x.entries_wf(),
        w.entries_wf(),
        y.entries_wf(),
        dims_ok(x.vals(), w.vals(), y.vals()) ==> x.vals().len() * w.vals().len() + w.vals().len()
            * y.vals()[0].len() + 2 * (y.vals()[0].len() * x.vals().len()) <= usize::MAX,
    ensures
        match r {
            Ok(()) => dims_ok(x.vals(), w.vals(), y.vals()) && built_ok(
                *final(cs),
                x.vals(),
                w.vals(),
                y.vals(),
            ),
            Err(e) => {
                &&& e == ConstraintError::DimensionMismatch
                &&& !dims_ok(x.vals(), w.vals(), y.vals())
                &&& *final(cs) == *old(cs)
            },
        },
{
    let ghost xs = x.vals();
    let ghost ws = w.vals();
    let ghost ys = y.vals();

    let m = x.rows.len();
    if m == 0 {
        return Err(ConstraintError::DimensionMismatch);
    }
    let t = x.rows[0].len();
    if t == 0 {
        return Err(ConstraintError::DimensionMismatch);
    }
    let mut i: usize = 0;
    while i < m
        invariant
            i <= m,
            forall|i0: int| 0 <= i0 < i ==> (#[trigger] xs[i0]).len() == t,
        decreases m - i,
    {
        if x.rows[i].len() != t {
            proof {
                assert(xs[i as int].len() != xs[0].len());
            }
            return Err(ConstraintError::DimensionMismatch);
        }
        i = i + 1;
    }
    if w.rows.len() != t {
        return Err(ConstraintError::DimensionMismatch);
    }
    let n = w.rows[0].len();
    if n == 0 {
        return Err(ConstraintError::DimensionMismatch);
    }
    let mut i: usize = 0;
    while i < t
        invariant
            i <= t,
            forall|i0: int| 0 <= i0 < i ==> (#[trigger] ws[i0]).len() == n,
        decreases t - i,
    {
        if w.rows[i].len() != n {
            proof {
                assert(ws[i as int].len() != ws[0].len());
            }
            return Err(ConstraintError::DimensionMismatch);
        }
        i = i + 1;
    }
    if y.rows.len() != m {
        return Err(ConstraintError::DimensionMismatch);
    }
    let mut i: usize = 0;
    while i < m
        invariant
            i <= m,
            forall|i0: int| 0 <= i0 < i ==> (#[trigger] ys[i0]).len() == n,
        decreases m - i,
    {
        if y.rows[i].len() != n {
            proof {
                if i == 0 {
                    assert(ys[0].len() != ws[0].len());
                } else {
                    assert(ys[i as int].len() != ys[0].len());
                }
            }
            return Err(ConstraintError::DimensionMismatch);
        }
        i = i + 1;
    }
    assert(dims_ok(xs, ws, ys));

    let ghost mi = m as int;
    let ghost ti = t as int;
    let ghost ni = n as int;
    let ghost mt = mi * ti;
    let ghost tn = ti * ni;
    let ghost nm = ni * mi;
    let ghost base = mt + tn;
    proof {
        lemma_mul_nonnegative(mi, ti);
        lemma_mul_nonnegative(ti, ni);
        lemma_mul_nonnegative(ni, mi);
    }

    // Step 1: one public variable per entry of X, row-major.
    let mut i: usize = 0;
    while i < m
        invariant
            i <= m,
            cs.constraints@.len() == 0,
            cs.wf(),
            cs.vars@.len() == i * ti,
            cs.statement() == cs.values(),
            forall|p: int| 0 <= p < i * ti ==> pub_var(#[trigger] cs.vars@[p], xs[p / ti][p % ti]),
        decreases m - i,
    {
        let mut k: usize = 0;
        while k < t
            invariant
                i < m,
                k <= t,
                cs.constraints@.len() == 0,
                cs.wf(),
                cs.vars@.len() == i * ti + k,
                cs.statement() == cs.values(),
                forall|p: int|
                    0 <= p < i * ti + k ==> pub_var(#[trigger] cs.vars@[p], xs[p / ti][p % ti]),
            decreases t - k,
        {
            proof {
                lemma_mul_is_distributive_add_other_way(ti, i as int, 1);
                lemma_mul_inequality(i as int + 1, mi, ti);
            }
            proof {
                assert(xs[i as int].len() == t);
            }
            let e = x.rows[i][k];
            let ghost pre = *cs;
            match cs.alloc_var(VarKind::Public, e) {
                Ok(_) => {
                    proof {
                        lemma_fundamental_div_mod_converse((i * ti + k) as int, ti, i as int,
                            k as int);
                        crate::cs::lemma_stmt_push(pre.vars@, Variable { kind: VarKind::Public, value: e });
                        assert(cs.values() =~= pre.values().push(e.value()));
                    }
                }
                Err(_) => {
                    proof {
                        assert(false);
                    }
                    return Err(ConstraintError::DimensionMismatch);
                }
            }
            k = k + 1;
        }
        proof {
            lemma_mul_is_distributive_add_other_way(ti, i as int, 1);
        }
        i = i + 1;
    }

    // Step 2: one private variable per entry of W, row-major.
    let mut i: usize = 0;
    while i < t
        invariant
            i <= t,
            cs.constraints@.len() == 0,
            cs.wf(),
            cs.vars@.len() == mt + i * ni,
            cs.statement().len() == mt,
            forall|p: int| 0 <= p < mt ==> pub_var(#[trigger] cs.vars@[p], xs[p / ti][p % ti]),
            forall|q: int| 0 <= q < mt ==> #[trigger] cs.statement()[q] == xs[q / ti][q % ti],
            forall|p: int|
                mt <= p < mt + i * ni ==> priv_var(
                    #[trigger] cs.vars@[p],
                    ws[(p - mt) / ni][(p - mt) % ni],
                ),
        decreases t - i,
    {
        let mut k: usize = 0;
        while k < n
            invariant
                i < t,
                k <= n,
                cs.constraints@.len() == 0,
                cs.wf(),
                cs.vars@.len() == mt + i * ni + k,
                cs.statement().len() == mt,
                forall|p: int| 0 <= p < mt ==> pub_var(#[trigger] cs.vars@[p], xs[p / ti][p % ti]),
                forall|q: int| 0 <= q < mt ==> #[trigger] cs.statement()[q] == xs[q / ti][q % ti],
                forall|p: int|
                    mt <= p < mt + i * ni + k ==> priv_var(
                        #[trigger] cs.vars@[p],
                        ws[(p - mt) / ni][(p - mt) % ni],
                    ),
            decreases n - k,
        {
            proof {
                lemma_mul_is_distributive_add_other_way(ni, i as int, 1);
                lemma_mul_inequality(i as int + 1, ti, ni);
            }
            proof {
                assert(ws[i as int].len() == n);
            }
            let e = w.rows[i][k];
            let ghost pre = *cs;
            match cs.alloc_var(VarKind::Private, e) {
                Ok(_) => {
                    proof {
                        lemma_fundamental_div_mod_converse((i * ni + k) as int, ni, i as int,
                            k as int);
                        crate::cs::lemma_stmt_push(pre.vars@, Variable { kind: VarKind::Private, value: e });
                    }
                }
                Err(_) => {
                    proof {
                        assert(false);
                    }
                    return Err(ConstraintError::DimensionMismatch);
                }
            }
            k = k + 1;
        }
        proof {
            lemma_mul_is_distributive_add_other_way(ni, i as int, 1);
        }
        i = i + 1;
    }

    // Step 3: per output entry, column-major: accumulator, public output
    // variable, equality constraint.
    let one = fe_from_u64(1);
    let mut j: usize = 0;
    while j < n
        invariant
            j <= n,
            cs.wf(),
            cs.vars@.len() == base + 2 * (j * mi),
            cs.constraints@.len() == j * mi,
            cs.statement().len() == mt + j * mi,
            forall|p: int| 0 <= p < mt ==> pub_var(#[trigger] cs.vars@[p], xs[p / ti][p % ti]),
            forall|p: int|
                mt <= p < base ==> priv_var(
                    #[trigger] cs.vars@[p],
                    ws[(p - mt) / ni][(p - mt) % ni],
                ),
            forall|c: int|
                0 <= c < j * mi ==> out_ok(
                    #[trigger] cs.constraints@[c],
                    cs.vars@[base + 2 * c],
                    cs.vars@[base + 2 * c + 1],
                    base + 2 * c,
                    base + 2 * c + 1,
                    dot(xs, ws, c % mi, c / mi, ti),
                    ys[c % mi][c / mi],
                ),
            forall|q: int| 0 <= q < mt ==> #[trigger] cs.statement()[q] == xs[q / ti][q % ti],
            forall|q: int|
                mt <= q < mt + j * mi ==> #[trigger] cs.statement()[q] == ys[(q - mt) % mi][(q - mt)
                    / mi],
        decreases n - j,
    {
        let mut i: usize = 0;
        while i < m
            invariant
                j < n,
                i <= m,
                cs.wf(),
                cs.vars@.len() == base + 2 * (j * mi + i),
                cs.constraints@.len() == j * mi + i,
                cs.statement().len() == mt + j * mi + i,
                forall|p: int| 0 <= p < mt ==> pub_var(#[trigger] cs.vars@[p], xs[p / ti][p % ti]),
                forall|p: int|
                    mt <= p < base ==> priv_var(
                        #[trigger] cs.vars@[p],
                        ws[(p - mt) / ni][(p - mt) % ni],
                    ),
                forall|c: int|
                    0 <= c < j * mi + i ==> out_ok(
                        #[trigger] cs.constraints@[c],
                        cs.vars@[base + 2 * c],
                        cs.vars@[base + 2 * c + 1],
                        base + 2 * c,
                        base + 2 * c + 1,
                        dot(xs, ws, c % mi, c / mi, ti),
                        ys[c % mi][c / mi],
                    ),
                forall|q: int| 0 <= q < mt ==> #[trigger] cs.statement()[q] == xs[q / ti][q % ti],
                forall|q: int|
                    mt <= q < mt + j * mi + i ==> #[trigger] cs.statement()[q] == ys[(q - mt)
                        % mi][(q - mt) / mi],
            decreases m - i,
        {
            let ghost c = j * mi + i;
            proof {
                lemma_mul_is_distributive_add_other_way(mi, j as int, 1);
                lemma_mul_inequality(j as int + 1, ni, mi);
                lemma_mul_is_commutative(j as int + 1, mi);
                lemma_mul_is_commutative(ni, mi);
                lemma_fundamental_div_mod_converse(c, mi, j as int, i as int);
            }
            // accumulator variable, bound to zero
            let z = fe_zero();
            let ghost pre1 = *cs;
            let zidx = match cs.alloc_var(VarKind::Private, z) {
                Ok(idx) => {
                    proof {
                        crate::cs::lemma_stmt_push(pre1.vars@, Variable { kind: VarKind::Private, value: z });
                    }
                    idx
                }
                Err(_) => {
                    proof {
                        assert(false);
                    }
                    return Err(ConstraintError::DimensionMismatch);
                }
            };
            // accumulate the inner product of row i of X and column j of W
            let mut acc = fe_zero();
            let mut k: usize = 0;
            while k < t
                invariant
                    j < n,
                    i < m,
                    k <= t,
                    acc.wf(),
                    acc.value() == dot(xs, ws, i as int, j as int, k as int),
                decreases t - k,
            {
                proof {
                    assert(xs[i as int].len() == t);
                    assert(ws[k as int].len() == n);
                }
                let prod = fe_mul(&x.rows[i][k], &w.rows[k][j]);
                acc = fe_add(&acc, &prod);
                k = k + 1;
            }
            // public output variable
            proof {
                assert(ys[i as int].len() == n);
            }
            let e = y.rows[i][j];
            let ghost pre2 = *cs;
            let yidx = match cs.alloc_var(VarKind::Public, e) {
                Ok(idx) => {
                    proof {
                        crate::cs::lemma_stmt_push(pre2.vars@, Variable { kind: VarKind::Public, value: e });
                    }
                    idx
                }
                Err(_) => {
                    proof {
                        assert(false);
                    }
                    return Err(ConstraintError::DimensionMismatch);
                }
            };
            // the equality constraint between output and accumulator
            let lhs = LinComb { constant: acc, terms: vec![Term { coeff: one, var: zidx }] };
            let rhs = LinComb { constant: fe_zero(), terms: vec![Term { coeff: one, var: yidx }] };
            match cs.enforce_equal(lhs, rhs) {
                Ok(()) => {}
                Err(_) => {
                    proof {
                        assert(false);
                    }
                    return Err(ConstraintError::DimensionMismatch);
                }
            }
            proof {
                assert(cs.statement()[mt + c] == ys[(mt + c - mt) % mi][(mt + c - mt) / mi]);
            }
            i = i + 1;
        }
        proof {
            lemma_mul_is_distributive_add_other_way(mi, j as int, 1);
        }
        j = j + 1;
    }
    proof {
        lemma_mul_is_commutative(ni, mi);
    }
    Ok(())
}

/// The accumulated inner-product value is always canonical.
pub proof fn lemma_dot_bound(xs: Seq<Seq<nat>>, ws: Seq<Seq<nat>>, i: int, j: int, k: int)
    ensures
        dot(xs, ws, i, j, k) < modulus(),
    decreases k,
{
    if k > 0 {
        lemma_mod_bound(
            (dot(xs, ws, i, j, k - 1) + f_mul(xs[i][k - 1], ws[k - 1][j])) as int,
            modulus() as int,
        );
    }
}

/// A built constraint system is satisfied exactly when every output entry
/// equals the field inner product of the matching row of `xs` and column of
/// `ws`.
pub proof fn lemma_built_satisfied_iff(
    cs: ConstraintSystem,
    xs: Seq<Seq<nat>>,
    ws: Seq<Seq<nat>>,
    ys: Seq<Seq<nat>>,
)
    requires
        dims_ok(xs, ws, ys),
        built_ok(cs, xs, ws, ys),
    ensures
        cs.satisfied() <==> (forall|i: int, j: int|
            0 <= i < xs.len() && 0 <= j < ys[0].len() ==> #[trigger] dot(
                xs,
                ws,
                i,
                j,
                ws.len() as int,
            ) == ys[i][j]),
{
    let m = xs.len() as int;
    let t = ws.len() as int;
    let n = ys[0].len() as int;
    let base = m * t + t * n;
    let vals = cs.values();
    lemma_mul_nonnegative(n, m);
    assert forall|c: int| 0 <= c < n * m implies (cs.constraint_holds(c) <==> dot(
        xs,
        ws,
        c % m,
        c / m,
        t,
    ) == ys[c % m][c / m]) by {
        let con = cs.constraints@[c];
        assert(out_ok(
            con,
            cs.vars@[base + 2 * c],
            cs.vars@[base + 2 * c + 1],
            base + 2 * c,
            base + 2 * c + 1,
            dot(xs, ws, c % m, c / m, t),
            ys[c % m][c / m],
        ));
        let s = dot(xs, ws, c % m, c / m, t);
        let yval = ys[c % m][c / m];
        lemma_dot_bound(xs, ws, c % m, c / m, t);
        assert(vals[base + 2 * c] == 0);
        assert(vals[base + 2 * c + 1] == yval);
        let lterms = con.lhs.terms@;
        let rterms = con.rhs.terms@;
        assert(lterms.drop_last() =~= Seq::<Term>::empty());
        assert(rterms.drop_last() =~= Seq::<Term>::empty());
        assert(lterms.last() == lterms[0]);
        assert(rterms.last() == rterms[0]);
        assert(eval_terms(s, lterms.drop_last(), vals) == s);
        assert(eval_terms(0, rterms.drop_last(), vals) == 0);
        assert(con.lhs.eval(vals) == f_add(
            eval_terms(s, lterms.drop_last(), vals),
            f_mul(lterms.last().coeff.value(), vals[lterms.last().var as int]),
        ));
        assert(con.rhs.eval(vals) == f_add(
            eval_terms(0, rterms.drop_last(), vals),
            f_mul(rterms.last().coeff.value(), vals[rterms.last().var as int]),
        ));
        assert(con.lhs.eval(vals) == f_add(s, f_mul(1, 0)));
        assert(con.rhs.eval(vals) == f_add(0, f_mul(1, yval)));
        lemma_small_mod(0, modulus());
        assert(f_mul(1, 0) == 0);
        lemma_small_mod(s, modulus());
        assert(f_add(s, 0) == s);
        lemma_small_mod(yval, modulus());
        assert(f_mul(1, yval) == yval);
        assert(f_add(0, yval) == yval);
    }
    assert(cs.satisfied() ==> (forall|i: int, j: int|
        0 <= i < xs.len() && 0 <= j < ys[0].len() ==> #[trigger] dot(xs, ws, i, j, ws.len() as int)
            == ys[i][j])) by {
        if cs.satisfied() {
            assert forall|i: int, j: int|
                0 <= i < xs.len() && 0 <= j < ys[0].len() implies #[trigger] dot(
                xs,
                ws,
                i,
                j,
                ws.len() as int,
            ) == ys[i][j] by {
                let c = j * m + i;
                lemma_mul_nonnegative(j, m);
                lemma_mul_inequality(j, n - 1, m);
                lemma_mul_is_distributive_sub_other_way(m, n, 1);
                assert(0 <= c < n * m);
                lemma_fundamental_div_mod_converse(c, m, j, i);
                assert(cs.constraint_holds(c));
            }
        }
    }
    assert((forall|i: int, j: int|
        0 <= i < xs.len() && 0 <= j < ys[0].len() ==> #[trigger] dot(xs, ws, i, j, ws.len() as int)
            == ys[i][j]) ==> cs.satisfied()) by {
        if (forall|i: int, j: int|
            0 <= i < xs.len() && 0 <= j < ys[0].len() ==> #[trigger] dot(
                xs,
                ws,
                i,
                j,
                ws.len() as int,
            ) == ys[i][j]) {
            assert forall|c: int|
                0 <= c < cs.constraints@.len() implies #[trigger] cs.constraint_holds(c) by {
                lemma_fundamental_div_mod(c, m);
                lemma_mod_bound(c, m);
                let i = c % m;
                let j = c / m;
                if j < 0 {
                    lemma_mul_inequality(j, -1, m);
                    assert(false);
                }
                if j >= n {
                    lemma_mul_inequality(n, j, m);
                    lemma_mul_is_commutative(n, m);
                    lemma_mul_is_commutative(j, m);
                    assert(false);
                }
                assert(dot(xs, ws, i, j, ws.len() as int) == ys[i][j]);
            }
        }
    }
}

/// The exact integer inner product of row `i` of `xi` against column `j`
/// of `wi`, over the first `k` addends.
pub open spec fn int_dot(xi: Seq<Seq<int>>, wi: Seq<Seq<int>>, i: int, j: int, k: int) -> int
    decreases k,
{
    if k <= 0 {
        0
    } else {
        int_dot(xi, wi, i, j, k - 1) + xi[i][k - 1] * wi[k - 1][j]
    }
}

/// Encoding commutes with the inner product: the field inner product of
/// encoded entries is the encoding of the exact integer inner product.
pub proof fn lemma_dot_encodes(
    xi: Seq<Seq<int>>,
    wi: Seq<Seq<int>>,
    xs: Seq<Seq<nat>>,
    ws: Seq<Seq<nat>>,
    i: int,
    j: int,
    k: int,
)
    requires
        forall|k0: int| 0 <= k0 < k ==> #[trigger] xs[i][k0] == encode_spec(xi[i][k0]),
        forall|k0: int| 0 <= k0 < k ==> #[trigger] ws[k0][j] == encode_spec(wi[k0][j]),
    ensures
        dot(xs, ws, i, j, k) == encode_spec(int_dot(xi, wi, i, j, k)),
    decreases k,
{
    let mo = modulus() as int;
    if k <= 0 {
        lemma_small_mod(0, modulus());
    } else {
        lemma_dot_encodes(xi, wi, xs, ws, i, j, k - 1);
        let a = int_dot(xi, wi, i, j, k - 1);
        let xv = xi[i][k - 1];
        let wv = wi[k - 1][j];
        lemma_mod_bound(a, mo);
        lemma_mod_bound(xv, mo);
        lemma_mod_bound(wv, mo);
        lemma_mod_bound(xv * wv, mo);
        lemma_mul_mod_noop(xv, wv, mo);
        lemma_add_mod_noop(a, xv * wv, mo);
        assert(f_mul(encode_spec(xv), encode_spec(wv)) == encode_spec(xv * wv));
        assert(f_add(encode_spec(a), encode_spec(xv * wv)) == encode_spec(a + xv * wv));
    }
}

/// When every output entry is the encoding of the exact integer inner
/// product of the encoded input matrices, the built constraint system is
/// satisfied.
pub proof fn lemma_true_product_satisfied(
    cs: ConstraintSystem,
    xi: Seq<Seq<int>>,
    wi: Seq<Seq<int>>,
    xs: Seq<Seq<nat>>,
    ws: Seq<Seq<nat>>,
    ys: Seq<Seq<nat>>,
)
    requires
        dims_ok(xs, ws, ys),
        built_ok(cs, xs, ws, ys),
        forall|i: int, k: int|
            0 <= i < xs.len() && 0 <= k < ws.len() ==> #[trigger] xs[i][k] == encode_spec(
                xi[i][k],
            ),
        forall|k: int, j: int|
            0 <= k < ws.len() && 0 <= j < ys[0].len() ==> #[trigger] ws[k][j] == encode_spec(
                wi[k][j],
            ),
        forall|i: int, j: int|
            0 <= i < xs.len() && 0 <= j < ys[0].len() ==> #[trigger] ys[i][j] == encode_spec(
                int_dot(xi, wi, i, j, ws.len() as int),
            ),
    ensures
        cs.satisfied(),
{
    assert forall|i: int, j: int|
        0 <= i < xs.len() && 0 <= j < ys[0].len() implies #[trigger] dot(
        xs,
        ws,
        i,
        j,
        ws.len() as int,
    ) == ys[i][j] by {
        lemma_dot_encodes(xi, wi, xs, ws, i, j, ws.len() as int);
    }
    lemma_built_satisfied_iff(cs, xs, ws, ys);
}

/// Altering any single output entry away from the field inner product
/// leaves the built constraint system unsatisfied.
pub proof fn lemma_altered_output_unsatisfied(
    cs: ConstraintSystem,
    xs: Seq<Seq<nat>>,
    ws: Seq<Seq<nat>>,
    ys: Seq<Seq<nat>>,
    i: int,
    j: int,
)
    requires
        dims_ok(xs, ws, ys),
        built_ok(cs, xs, ws, ys),
        0 <= i < xs.len(),
        0 <= j < ys[0].len(),
        ys[i][j] != dot(xs, ws, i, j, ws.len() as int),
    ensures
        !cs.satisfied(),
{
    lemma_built_satisfied_iff(cs, xs, ws, ys);
}

} // verus!
