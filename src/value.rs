//! Values of the language: floating scalars, integer scalars and lists, with
//! the broadcasting rules of the binary operators. The floating kind is a type
//! parameter; its arithmetic and its text come from the caller.

use vstd::prelude::*;
use crate::complex::{added, cart_re, icomplex_text, is_isqrt, cardinal_angle, holds, subtracted, trunc_div, truth, IComplex, Relation, CARDINAL_BOUND, SUM_BOUND};

verus! {

/// A value: a floating scalar, an integer scalar, or a list of values.
pub enum Value<F> {
    Float(F),
    Int(IComplex),
    List(Vec<Value<F>>),
}

/// The mathematical form of a [`Value`]: lists as sequences.
pub enum Val<F> {
    Float(F),
    Int(IComplex),
    List(Seq<Val<F>>),
}

pub open spec fn val_view<F>(v: Value<F>) -> Val<F>
    decreases v,
{
    match v {
        Value::Float(f) => Val::Float(f),
        Value::Int(i) => Val::Int(i),
        Value::List(items) => Val::List(val_views(items@)),
    }
}

pub open spec fn val_views<F>(items: Seq<Value<F>>) -> Seq<Val<F>>
    decreases items,
{
    Seq::new(
        items.len(),
        |k: int|
            if 0 <= k < items.len() {
                val_view(items[k])
            } else {
                Val::List(Seq::empty())
            },
    )
}

impl<F> View for Value<F> {
    type V = Val<F>;

    open spec fn view(&self) -> Val<F> {
        val_view(*self)
    }
}

/// An outcome in mathematical form.
pub type Outcome<F> = Result<Val<F>, Seq<char>>;

pub open spec fn outcome<F>(r: Result<Value<F>, String>) -> Outcome<F> {
    match r {
        Ok(v) => Ok(v@),
        Err(e) => Err(e@),
    }
}

/// A binary operator of the language.
#[derive(Clone, Copy, Debug, PartialEq, Eq, Structural)]
pub enum Op {
    Add,
    Sub,
    Mul,
    Div,
    Pow,
    Cmp(Relation),
}

pub open spec fn add_overflow() -> Seq<char> {
    "attempt to add with overflow"@
}

pub open spec fn sub_overflow() -> Seq<char> {
    "attempt to subtract with overflow"@
}

pub open spec fn div_zero() -> Seq<char> {
    "attempt to divide by zero"@
}

pub open spec fn div_overflow() -> Seq<char> {
    "attempt to divide with overflow"@
}

pub open spec fn summable(x: IComplex) -> bool {
    -SUM_BOUND <= x.len <= SUM_BOUND
}

/// An operator other than `^` on two integer scalars.
pub open spec fn int_step<F>(op: Op, x: IComplex, y: IComplex, r: Outcome<F>) -> bool {
    match op {
        Op::Add => if summable(x) && summable(y) {
            exists|z: IComplex| added(x, y, z) && r == Outcome::<F>::Ok(Val::Int(z))
        } else {
            r == Outcome::<F>::Err(add_overflow())
        },
        Op::Sub => if summable(x) && summable(y) {
            exists|z: IComplex| subtracted(x, y, z) && r == Outcome::<F>::Ok(Val::Int(z))
        } else {
            r == Outcome::<F>::Err(sub_overflow())
        },
        Op::Mul => r == Outcome::<F>::Ok(
            Val::Int(IComplex { len: x.len.wrapping_mul(y.len), angle_deg: x.angle_deg.wrapping_add(y.angle_deg) }),
        ),
        Op::Div => if y.len == 0 {
            r == Outcome::<F>::Err(div_zero())
        } else if x.len == i64::MIN && y.len == -1 {
            r == Outcome::<F>::Err(div_overflow())
        } else {
            r == Outcome::<F>::Ok(
                Val::Int(
                    IComplex {
                        len: trunc_div(x.len as int, y.len as int) as i64,
                        angle_deg: x.angle_deg.wrapping_sub(y.angle_deg),
                    },
                ),
            )
        },
        Op::Cmp(rel) => r == Outcome::<F>::Ok(Val::Int(truth(holds(rel, x, y)))),
        Op::Pow => false,
    }
}

/// What `dec_op` may give for two floats.
pub open spec fn dec_rel<F, DF: Fn(F, F) -> F>(dec_op: DF) -> spec_fn(F, F, F) -> bool {
    |x: F, y: F, z: F| call_ensures(dec_op, (x, y), z)
}

/// What `int_pow` may give for two integers.
pub open spec fn pow_rel<IF: Fn(IComplex, IComplex) -> IComplex>(int_pow: IF) -> spec_fn(IComplex, IComplex, IComplex) -> bool {
    |x: IComplex, y: IComplex, z: IComplex| call_ensures(int_pow, (x, y), z)
}

/// What `promote` may give for an integer.
pub open spec fn prom_rel<F, PF: Fn(IComplex) -> F>(promote: PF) -> spec_fn(IComplex, F) -> bool {
    |i: IComplex, f: F| call_ensures(promote, (i,), f)
}

/// `f` is the scalar `v` as a floating one: itself, or what `promote` made
/// of the integer.
pub open spec fn promoted<F>(v: Val<F>, promote: spec_fn(IComplex, F) -> bool, f: F) -> bool {
    match v {
        Val::Float(g) => f == g,
        Val::Int(i) => promote(i, f),
        Val::List(_) => false,
    }
}

/// The operator on two scalars: integer arithmetic when both are integers
/// (`^` through `int_pow`), else `dec_op` on both promoted to floats.
pub open spec fn scalar_step<F>(
    a: Val<F>,
    b: Val<F>,
    op: Op,
    dec_op: spec_fn(F, F, F) -> bool,
    int_pow: spec_fn(IComplex, IComplex, IComplex) -> bool,
    promote: spec_fn(IComplex, F) -> bool,
    r: Outcome<F>,
) -> bool {
    match (a, b) {
        (Val::Int(x), Val::Int(y)) => if op == Op::Pow {
            exists|z: IComplex| int_pow(x, y, z) && r == Outcome::<F>::Ok(Val::Int(z))
        } else {
            int_step(op, x, y, r)
        },
        _ => exists|p: F, q: F, z: F|
            promoted(a, promote, p) && promoted(b, promote, q) && dec_op(p, q, z) && r
                == Outcome::<F>::Ok(Val::Float(z)),
    }
}

/// The operator on two values. Two lists: each item of `a` folded over the
/// items of `b`, in order. A list and a scalar: the operator between each item
/// and the scalar, operands kept in their order. Two scalars: `scalar_step`.
/// A failure of any item fails the whole.
pub open spec fn applied<F>(
    a: Val<F>,
    b: Val<F>,
    op: Op,
    dec_op: spec_fn(F, F, F) -> bool,
    int_pow: spec_fn(IComplex, IComplex, IComplex) -> bool,
    promote: spec_fn(IComplex, F) -> bool,
    r: Outcome<F>,
) -> bool
    decreases b, a,
{
    match (a, b) {
        (Val::List(xs), Val::List(ys)) => match r {
            Ok(Val::List(zs)) => zs.len() == xs.len() && forall|i: int|
                0 <= i < xs.len() ==> folds(xs[i], ys, op, dec_op, int_pow, promote, Outcome::<F>::Ok(zs[i])),
            Ok(_) => false,
            Err(e) => exists|i: int|
                0 <= i < xs.len() && #[trigger] is_index(i) && folds(xs[i], ys, op, dec_op, int_pow, promote, Outcome::<F>::Err(e)),
        },
        (Val::List(xs), _) => match r {
            Ok(Val::List(zs)) => zs.len() == xs.len() && forall|i: int|
                0 <= i < xs.len() ==> applied(xs[i], b, op, dec_op, int_pow, promote, Outcome::<F>::Ok(zs[i])),
            Ok(_) => false,
            Err(e) => exists|i: int|
                0 <= i < xs.len() && #[trigger] is_index(i) && applied(xs[i], b, op, dec_op, int_pow, promote, Outcome::<F>::Err(e)),
        },
        (_, Val::List(ys)) => match r {
            Ok(Val::List(zs)) => zs.len() == ys.len() && forall|i: int|
                0 <= i < ys.len() ==> applied(a, ys[i], op, dec_op, int_pow, promote, Outcome::<F>::Ok(zs[i])),
            Ok(_) => false,
            Err(e) => exists|i: int|
                0 <= i < ys.len() && #[trigger] is_index(i) && applied(a, ys[i], op, dec_op, int_pow, promote, Outcome::<F>::Err(e)),
        },
        _ => scalar_step(a, b, op, dec_op, int_pow, promote, r),
    }
}

/// Marks the position of a failing item.
pub open spec fn is_index(i: int) -> bool {
    true
}

/// Marks an intermediate result of a fold.
pub open spec fn is_mid<F>(m: Val<F>) -> bool {
    true
}

/// `x` folded over `ys` from the left with the operator; a failing step fails
/// the fold.
pub open spec fn folds<F>(
    x: Val<F>,
    ys: Seq<Val<F>>,
    op: Op,
    dec_op: spec_fn(F, F, F) -> bool,
    int_pow: spec_fn(IComplex, IComplex, IComplex) -> bool,
    promote: spec_fn(IComplex, F) -> bool,
    r: Outcome<F>,
) -> bool
    decreases ys, x,
{
    if ys.len() == 0 {
        r == Outcome::<F>::Ok(x)
    } else {
        let init = ys.subrange(0, ys.len() - 1);
        (exists|m: Val<F>|
            #[trigger] is_mid(m) && folds(x, init, op, dec_op, int_pow, promote, Outcome::<F>::Ok(m)) && applied(
                m,
                ys[ys.len() - 1],
                op,
                dec_op,
                int_pow,
                promote,
                r,
            )) || (r is Err && folds(x, init, op, dec_op, int_pow, promote, r))
    }
}

impl<F: Copy> Value<F> {
    /// A deep copy.
    pub fn duplicate(&self) -> (r: Value<F>)
        ensures
            r@ == self@,
        decreases self,
    {
        match self {
            Value::Float(f) => Value::Float(*f),
            Value::Int(i) => Value::Int(*i),
            Value::List(items) => {
                let out = copy_values(items);
                Value::List(out)
            },
        }
    }
}

fn copy_values<F: Copy>(items: &Vec<Value<F>>) -> (out: Vec<Value<F>>)
    ensures
        val_views(out@) == val_views(items@),
    decreases items,
{
    let mut out: Vec<Value<F>> = Vec::new();
    let mut k: usize = 0;
    while k < items.len()
        invariant
            k <= items.len(),
            out.len() == k,
            forall|j: int| 0 <= j < k ==> out@[j]@ == items@[j]@,
        decreases items.len() - k,
    {
        proof {
            vstd::std_specs::vec::axiom_vec_index_decreases(*items, k as int);
        }
        out.push(items[k].duplicate());
        k += 1;
    }
    assert(val_views(out@) =~= val_views(items@));
    out
}

/// An operator other than `^` on two integer scalars, failing where the
/// integer arithmetic would overflow or divide by zero.
fn apply_int<F>(op: Op, x: IComplex, y: IComplex) -> (r: Result<Value<F>, String>)
    requires
        op != Op::Pow,
    ensures
        int_step(op, x, y, outcome(r)),
{
    match op {
        Op::Add => if -SUM_BOUND <= x.len && x.len <= SUM_BOUND && -SUM_BOUND <= y.len && y.len <= SUM_BOUND {
            let z = x.add(y);
            assert(added(x, y, z));
            Ok(Value::Int(z))
        } else {
            Err(String::from_str("attempt to add with overflow"))
        },
        Op::Sub => if -SUM_BOUND <= x.len && x.len <= SUM_BOUND && -SUM_BOUND <= y.len && y.len <= SUM_BOUND {
            let z = x.sub(y);
            assert(subtracted(x, y, z));
            Ok(Value::Int(z))
        } else {
            Err(String::from_str("attempt to subtract with overflow"))
        },
        Op::Mul => Ok(Value::Int(x.mul(y))),
        Op::Div => if y.len == 0 {
            Err(String::from_str("attempt to divide by zero"))
        } else if x.len == i64::MIN && y.len == -1 {
            Err(String::from_str("attempt to divide with overflow"))
        } else {
            Ok(Value::Int(x.div(y)))
        },
        Op::Cmp(rel) => Ok(Value::Int(x.compare(y, rel))),
        Op::Pow => Err(String::new()),
    }
}

fn promote_scalar<F: Copy, PF: Fn(IComplex) -> F>(v: &Value<F>, promote: &PF) -> (f: F)
    requires
        !(v is List),
        forall|i: IComplex| call_requires(*promote, (i,)),
    ensures
        promoted(v@, prom_rel(*promote), f),
{
    match v {
        Value::Float(g) => *g,
        Value::Int(i) => promote(*i),
        Value::List(_) => {
            assert(false);
            promote(IComplex::new_polar(0, 0))
        },
    }
}

fn scalar_op<F: Copy, DF: Fn(F, F) -> F, IF: Fn(IComplex, IComplex) -> IComplex, PF: Fn(IComplex) -> F>(
    a: &Value<F>,
    b: &Value<F>,
    op: Op,
    dec_op: &DF,
    int_pow: &IF,
    promote: &PF,
) -> (r: Result<Value<F>, String>)
    requires
        !(a is List),
        !(b is List),
        forall|x: F, y: F| call_requires(*dec_op, (x, y)),
        forall|x: IComplex, y: IComplex| call_requires(*int_pow, (x, y)),
        forall|i: IComplex| call_requires(*promote, (i,)),
    ensures
        scalar_step(a@, b@, op, dec_rel(*dec_op), pow_rel(*int_pow), prom_rel(*promote), outcome(r)),
{
    match (a, b) {
        (Value::Int(x), Value::Int(y)) => if op == Op::Pow {
            let z = int_pow(*x, *y);
            Ok(Value::Int(z))
        } else {
            apply_int(op, *x, *y)
        },
        _ => {
            let p = promote_scalar(a, promote);
            let q = promote_scalar(b, promote);
            let z = dec_op(p, q);
            Ok(Value::Float(z))
        },
    }
}

proof fn lemma_fold_failure_stays<F>(
    x: Val<F>,
    ys: Seq<Val<F>>,
    k: int,
    op: Op,
    dec_op: spec_fn(F, F, F) -> bool,
    int_pow: spec_fn(IComplex, IComplex, IComplex) -> bool,
    promote: spec_fn(IComplex, F) -> bool,
    e: Seq<char>,
)
    requires
        0 <= k <= ys.len(),
        folds(x, ys.subrange(0, k), op, dec_op, int_pow, promote, Outcome::<F>::Err(e)),
    ensures
        folds(x, ys, op, dec_op, int_pow, promote, Outcome::<F>::Err(e)),
    decreases ys.len() - k,
{
    if k < ys.len() {
        let next = ys.subrange(0, k + 1);
        assert(next.subrange(0, k) =~= ys.subrange(0, k));
        assert(folds(x, next, op, dec_op, int_pow, promote, Outcome::<F>::Err(e)));
        lemma_fold_failure_stays(x, ys, k + 1, op, dec_op, int_pow, promote, e);
    } else {
        assert(ys.subrange(0, k) =~= ys);
    }
}

proof fn lemma_fold_step<F>(
    x: Val<F>,
    vs: Seq<Val<F>>,
    j: int,
    m: Val<F>,
    op: Op,
    dec_op: spec_fn(F, F, F) -> bool,
    int_pow: spec_fn(IComplex, IComplex, IComplex) -> bool,
    promote: spec_fn(IComplex, F) -> bool,
    r: Outcome<F>,
)
    requires
        0 <= j < vs.len(),
        folds(x, vs.subrange(0, j), op, dec_op, int_pow, promote, Outcome::<F>::Ok(m)),
        applied(m, vs[j], op, dec_op, int_pow, promote, r),
    ensures
        folds(x, vs.subrange(0, j + 1), op, dec_op, int_pow, promote, r),
{
    let sub = vs.subrange(0, j + 1);
    assert(sub.subrange(0, sub.len() - 1) =~= vs.subrange(0, j));
    assert(sub[sub.len() - 1] == vs[j]);
    assert(sub.len() > 0);
    assert(folds(x, sub.subrange(0, sub.len() - 1), op, dec_op, int_pow, promote, Outcome::<F>::Ok(m)));
    assert(applied(m, sub[sub.len() - 1], op, dec_op, int_pow, promote, r));
    assert(is_mid(m));
}

/// `x` folded over the items `ys`.
fn fold_over<F: Copy, DF: Fn(F, F) -> F, IF: Fn(IComplex, IComplex) -> IComplex, PF: Fn(IComplex) -> F>(
    x: &Value<F>,
    ys: &Vec<Value<F>>,
    op: Op,
    dec_op: &DF,
    int_pow: &IF,
    promote: &PF,
) -> (r: Result<Value<F>, String>)
    requires
        forall|x: F, y: F| call_requires(*dec_op, (x, y)),
        forall|x: IComplex, y: IComplex| call_requires(*int_pow, (x, y)),
        forall|i: IComplex| call_requires(*promote, (i,)),
    ensures
        folds(x@, val_views(ys@), op, dec_rel(*dec_op), pow_rel(*int_pow), prom_rel(*promote), outcome(r)),
    decreases ys, x, 0int,
{
    let ghost vs = val_views(ys@);
    let mut folded = x.duplicate();
    assert(vs.subrange(0, 0).len() == 0);
    let mut j: usize = 0;
    while j < ys.len()
        invariant
            j <= ys.len(),
            vs == val_views(ys@),
            folds(x@, vs.subrange(0, j as int), op, dec_rel(*dec_op), pow_rel(*int_pow), prom_rel(*promote), Outcome::<F>::Ok(folded@)),
            forall|x: F, y: F| call_requires(*dec_op, (x, y)),
            forall|x: IComplex, y: IComplex| call_requires(*int_pow, (x, y)),
            forall|i: IComplex| call_requires(*promote, (i,)),
        decreases ys.len() - j,
    {
        proof {
            vstd::std_specs::vec::axiom_vec_index_decreases(*ys, j as int);
        }
        let step = do_op(&folded, &ys[j], op, dec_op, int_pow, promote);
        proof {
            lemma_fold_step(x@, vs, j as int, folded@, op, dec_rel(*dec_op), pow_rel(*int_pow), prom_rel(*promote), outcome(step));
        }
        match step {
            Err(e) => {
                proof {
                    lemma_fold_failure_stays(x@, vs, j + 1, op, dec_rel(*dec_op), pow_rel(*int_pow), prom_rel(*promote), e@);
                }
                return Err(e);
            },
            Ok(z) => {
                folded = z;
            },
        }
        j += 1;
    }
    assert(vs.subrange(0, ys.len() as int) =~= vs);
    Ok(folded)
}

/// Each item of `xs` folded over the items `ys`.
fn fold_each<F: Copy, DF: Fn(F, F) -> F, IF: Fn(IComplex, IComplex) -> IComplex, PF: Fn(IComplex) -> F>(
    xs: &Vec<Value<F>>,
    ys: &Vec<Value<F>>,
    op: Op,
    dec_op: &DF,
    int_pow: &IF,
    promote: &PF,
) -> (r: Result<Value<F>, String>)
    requires
        forall|x: F, y: F| call_requires(*dec_op, (x, y)),
        forall|x: IComplex, y: IComplex| call_requires(*int_pow, (x, y)),
        forall|i: IComplex| call_requires(*promote, (i,)),
    ensures
        applied(Val::List(val_views(xs@)), Val::List(val_views(ys@)), op, dec_rel(*dec_op), pow_rel(*int_pow), prom_rel(*promote), outcome(r)),
    decreases ys, xs, 2int,
{
    let ghost yv = val_views(ys@);
    let mut zs: Vec<Value<F>> = Vec::new();
    let mut i: usize = 0;
    while i < xs.len()
        invariant
            i <= xs.len(),
            zs.len() == i,
            yv == val_views(ys@),
            forall|k: int| 0 <= k < i ==> folds(xs@[k]@, yv, op, dec_rel(*dec_op), pow_rel(*int_pow), prom_rel(*promote), Outcome::<F>::Ok(zs@[k]@)),
            forall|x: F, y: F| call_requires(*dec_op, (x, y)),
            forall|x: IComplex, y: IComplex| call_requires(*int_pow, (x, y)),
            forall|i: IComplex| call_requires(*promote, (i,)),
        decreases xs.len() - i,
    {
        proof {
            vstd::std_specs::vec::axiom_vec_index_decreases(*xs, i as int);
        }
        match fold_over(&xs[i], ys, op, dec_op, int_pow, promote) {
            Err(e) => {
                assert(val_views(xs@)[i as int] == xs@[i as int]@);
                assert(is_index(i as int));
                assert(folds(val_views(xs@)[i as int], yv, op, dec_rel(*dec_op), pow_rel(*int_pow), prom_rel(*promote), Outcome::<F>::Err(e@)));
                return Err(e);
            },
            Ok(z) => {
                zs.push(z);
            },
        }
        i += 1;
    }
    assert(forall|k: int| 0 <= k < zs.len() ==> val_views(zs@)[k] == zs@[k]@);
    Ok(Value::List(zs))
}

/// The operator between each item of `xs` and the scalar `b`.
fn map_left<F: Copy, DF: Fn(F, F) -> F, IF: Fn(IComplex, IComplex) -> IComplex, PF: Fn(IComplex) -> F>(
    xs: &Vec<Value<F>>,
    b: &Value<F>,
    op: Op,
    dec_op: &DF,
    int_pow: &IF,
    promote: &PF,
) -> (r: Result<Value<F>, String>)
    requires
        !(b is List),
        forall|x: F, y: F| call_requires(*dec_op, (x, y)),
        forall|x: IComplex, y: IComplex| call_requires(*int_pow, (x, y)),
        forall|i: IComplex| call_requires(*promote, (i,)),
    ensures
        applied(Val::List(val_views(xs@)), b@, op, dec_rel(*dec_op), pow_rel(*int_pow), prom_rel(*promote), outcome(r)),
    decreases b, xs, 0int,
{
    let mut zs: Vec<Value<F>> = Vec::new();
    let mut i: usize = 0;
    while i < xs.len()
        invariant
            i <= xs.len(),
            zs.len() == i,
            !(b is List),
            forall|k: int| 0 <= k < i ==> applied(xs@[k]@, b@, op, dec_rel(*dec_op), pow_rel(*int_pow), prom_rel(*promote), Outcome::<F>::Ok(zs@[k]@)),
            forall|x: F, y: F| call_requires(*dec_op, (x, y)),
            forall|x: IComplex, y: IComplex| call_requires(*int_pow, (x, y)),
            forall|i: IComplex| call_requires(*promote, (i,)),
        decreases xs.len() - i,
    {
        proof {
            vstd::std_specs::vec::axiom_vec_index_decreases(*xs, i as int);
        }
        match do_op(&xs[i], b, op, dec_op, int_pow, promote) {
            Err(e) => {
                assert(val_views(xs@)[i as int] == xs@[i as int]@);
                assert(is_index(i as int));
                assert(applied(val_views(xs@)[i as int], b@, op, dec_rel(*dec_op), pow_rel(*int_pow), prom_rel(*promote), Outcome::<F>::Err(e@)));
                return Err(e);
            },
            Ok(z) => {
                zs.push(z);
            },
        }
        i += 1;
    }
    assert(forall|k: int| 0 <= k < zs.len() ==> val_views(zs@)[k] == zs@[k]@);
    Ok(Value::List(zs))
}

/// The operator between the scalar `a` and each item of `ys`.
fn map_right<F: Copy, DF: Fn(F, F) -> F, IF: Fn(IComplex, IComplex) -> IComplex, PF: Fn(IComplex) -> F>(
    a: &Value<F>,
    ys: &Vec<Value<F>>,
    op: Op,
    dec_op: &DF,
    int_pow: &IF,
    promote: &PF,
) -> (r: Result<Value<F>, String>)
    requires
        !(a is List),
        forall|x: F, y: F| call_requires(*dec_op, (x, y)),
        forall|x: IComplex, y: IComplex| call_requires(*int_pow, (x, y)),
        forall|i: IComplex| call_requires(*promote, (i,)),
    ensures
        applied(a@, Val::List(val_views(ys@)), op, dec_rel(*dec_op), pow_rel(*int_pow), prom_rel(*promote), outcome(r)),
    decreases ys, a, 0int,
{
    let mut zs: Vec<Value<F>> = Vec::new();
    let mut i: usize = 0;
    while i < ys.len()
        invariant
            i <= ys.len(),
            zs.len() == i,
            !(a is List),
            forall|k: int| 0 <= k < i ==> applied(a@, ys@[k]@, op, dec_rel(*dec_op), pow_rel(*int_pow), prom_rel(*promote), Outcome::<F>::Ok(zs@[k]@)),
            forall|x: F, y: F| call_requires(*dec_op, (x, y)),
            forall|x: IComplex, y: IComplex| call_requires(*int_pow, (x, y)),
            forall|i: IComplex| call_requires(*promote, (i,)),
        decreases ys.len() - i,
    {
        proof {
            vstd::std_specs::vec::axiom_vec_index_decreases(*ys, i as int);
        }
        match do_op(a, &ys[i], op, dec_op, int_pow, promote) {
            Err(e) => {
                assert(val_views(ys@)[i as int] == ys@[i as int]@);
                assert(is_index(i as int));
                assert(applied(a@, val_views(ys@)[i as int], op, dec_rel(*dec_op), pow_rel(*int_pow), prom_rel(*promote), Outcome::<F>::Err(e@)));
                return Err(e);
            },
            Ok(z) => {
                zs.push(z);
            },
        }
        i += 1;
    }
    assert(forall|k: int| 0 <= k < zs.len() ==> val_views(zs@)[k] == zs@[k]@);
    Ok(Value::List(zs))
}

/// Applies a binary operator to two values. Two lists: each item of `a`
/// folded over all items of `b`, in order (a fold, not a zip). A list and a
/// scalar, either way round: the operator between each item and the scalar,
/// operands kept in their order. Two scalars: integer arithmetic when both
/// are integers (`^` through `int_pow`), else `dec_op` on both promoted to
/// floats by `promote`. Integer overflow and division by zero fail.
pub fn do_op<F: Copy, DF: Fn(F, F) -> F, IF: Fn(IComplex, IComplex) -> IComplex, PF: Fn(IComplex) -> F>(
    a: &Value<F>,
    b: &Value<F>,
    op: Op,
    dec_op: &DF,
    int_pow: &IF,
    promote: &PF,
) -> (r: Result<Value<F>, String>)
    requires
        forall|x: F, y: F| call_requires(*dec_op, (x, y)),
        forall|x: IComplex, y: IComplex| call_requires(*int_pow, (x, y)),
        forall|i: IComplex| call_requires(*promote, (i,)),
    ensures
        applied(a@, b@, op, dec_rel(*dec_op), pow_rel(*int_pow), prom_rel(*promote), outcome(r)),
    decreases b, a, 3int,
{
    match (a, b) {
        (Value::List(xs), Value::List(ys)) => fold_each(xs, ys, op, dec_op, int_pow, promote),
        (Value::List(xs), _) => map_left(xs, b, op, dec_op, int_pow, promote),
        (_, Value::List(ys)) => map_right(a, ys, op, dec_op, int_pow, promote),
        _ => scalar_op(a, b, op, dec_op, int_pow, promote),
    }
}

/// The space-separated texts of list items, each followed by a space.
pub open spec fn join(ts: Seq<Seq<char>>) -> Seq<char>
    decreases ts.len(),
{
    if ts.len() == 0 {
        Seq::empty()
    } else {
        join(ts.subrange(0, ts.len() - 1)) + ts[ts.len() - 1] + " "@
    }
}

/// Marks the item texts of a rendered list.
pub open spec fn item_texts(ts: Seq<Seq<char>>) -> bool {
    true
}

/// `s` renders `v`: an integer by `icomplex_text`, a list as `[ ` then each
/// item's text and a space, then `]`, a floating scalar as `float_text`
/// allows.
pub open spec fn rendered<F>(v: Val<F>, float_text: spec_fn(F, Seq<char>) -> bool, s: Seq<char>) -> bool
    decreases v,
{
    match v {
        Val::Float(f) => float_text(f, s),
        Val::Int(i) => s == icomplex_text(i),
        Val::List(xs) => exists|ts: Seq<Seq<char>>|
            #[trigger] item_texts(ts) && ts.len() == xs.len() && (forall|k: int|
                0 <= k < xs.len() ==> rendered(xs[k], float_text, ts[k])) && s == "[ "@ + join(ts) + "]"@,
    }
}

/// What `render` may give for a float, as text.
pub open spec fn render_rel<F, RF: Fn(F) -> String>(render: RF) -> spec_fn(F, Seq<char>) -> bool {
    |f: F, s: Seq<char>| exists|out: String| #[trigger] call_ensures(render, (f,), out) && out@ == s
}

/// What a float map `m` may give for a float.
pub open spec fn map_rel<F, MF: Fn(F) -> F>(m: MF) -> spec_fn(F, F) -> bool {
    |f: F, g: F| call_ensures(m, (f,), g)
}

/// The value times the imaginary unit: every integer scalar turned a quarter
/// turn (its angle plus 90 degrees, wrapping), every float as `float_lat`
/// allows, lists item by item.
pub open spec fn lat_val<F>(v: Val<F>, float_lat: spec_fn(F, F) -> bool, r: Val<F>) -> bool
    decreases v,
{
    match v {
        Val::Float(f) => match r {
            Val::Float(g) => float_lat(f, g),
            _ => false,
        },
        Val::Int(i) => r == Val::<F>::Int(IComplex { len: i.len, angle_deg: i.angle_deg.wrapping_add(90) }),
        Val::List(xs) => match r {
            Val::List(zs) => zs.len() == xs.len() && forall|k: int| 0 <= k < xs.len() ==> lat_val(xs[k], float_lat, zs[k]),
            _ => false,
        },
    }
}

/// The value with every integer scalar's magnitude negated (wrapping), every
/// float as `float_neg` allows, lists item by item.
pub open spec fn negated_val<F>(v: Val<F>, float_neg: spec_fn(F, F) -> bool, r: Val<F>) -> bool
    decreases v,
{
    match v {
        Val::Float(f) => match r {
            Val::Float(g) => float_neg(f, g),
            _ => false,
        },
        Val::Int(i) => r == Val::<F>::Int(IComplex { len: 0i64.wrapping_sub(i.len), angle_deg: i.angle_deg }),
        Val::List(xs) => match r {
            Val::List(zs) => zs.len() == xs.len() && forall|k: int| 0 <= k < xs.len() ==> negated_val(xs[k], float_neg, zs[k]),
            _ => false,
        },
    }
}

impl<F: Copy> Value<F> {
    /// The text of the value; `render` gives the text of a floating scalar.
    pub fn to_string<RF: Fn(F) -> String>(&self, render: &RF) -> (r: String)
        requires
            forall|f: F| call_requires(*render, (f,)),
        ensures
            rendered(self@, render_rel(*render), r@),
        decreases self,
    {
        match self {
            Value::Float(f) => render(*f),
            Value::Int(i) => i.to_string(),
            Value::List(items) => render_items(items, render),
        }
    }

    /// The value with every scalar negated: integers by their magnitude,
    /// floats by `negate`.
    pub fn to_neg<NF: Fn(F) -> F>(&self, negate: &NF) -> (r: Value<F>)
        requires
            forall|f: F| call_requires(*negate, (f,)),
        ensures
            negated_val(self@, map_rel(*negate), r@),
        decreases self,
    {
        match self {
            Value::Float(f) => Value::Float(negate(*f)),
            Value::Int(i) => Value::Int(i.negated()),
            Value::List(items) => Value::List(negate_items(items, negate)),
        }
    }
}

impl<F: Copy> Value<F> {
    /// The value times the imaginary unit; `lateral` turns a float.
    pub fn to_lat<LF: Fn(F) -> F>(&self, lateral: &LF) -> (r: Value<F>)
        requires
            forall|f: F| call_requires(*lateral, (f,)),
        ensures
            lat_val(self@, map_rel(*lateral), r@),
        decreases self,
    {
        match self {
            Value::Float(f) => Value::Float(lateral(*f)),
            Value::Int(i) => Value::Int(IComplex::new_polar(i.len, i.angle_deg.wrapping_add(90))),
            Value::List(items) => Value::List(lat_items(items, lateral)),
        }
    }
}

fn lat_items<F: Copy, LF: Fn(F) -> F>(items: &Vec<Value<F>>, lateral: &LF) -> (r: Vec<Value<F>>)
    requires
        forall|f: F| call_requires(*lateral, (f,)),
    ensures
        lat_val(Val::List(val_views(items@)), map_rel(*lateral), Val::List(val_views(r@))),
    decreases items,
{
    let mut out: Vec<Value<F>> = Vec::new();
    let mut k: usize = 0;
    while k < items.len()
        invariant
            k <= items.len(),
            out.len() == k,
            forall|j: int| 0 <= j < k ==> lat_val(items@[j]@, map_rel(*lateral), out@[j]@),
            forall|f: F| call_requires(*lateral, (f,)),
        decreases items.len() - k,
    {
        proof {
            vstd::std_specs::vec::axiom_vec_index_decreases(*items, k as int);
        }
        out.push(items[k].to_lat(lateral));
        k += 1;
    }
    proof {
        assert(forall|j: int| 0 <= j < items.len() ==> val_views(items@)[j] == items@[j]@);
        assert(forall|j: int| 0 <= j < out.len() ==> val_views(out@)[j] == out@[j]@);
    }
    out
}

fn render_items<F: Copy, RF: Fn(F) -> String>(items: &Vec<Value<F>>, render: &RF) -> (r: String)
    requires
        forall|f: F| call_requires(*render, (f,)),
    ensures
        rendered(Val::List(val_views(items@)), render_rel(*render), r@),
    decreases items,
{
    proof {
        reveal_strlit("[ ");
        reveal_strlit(" ");
    }
    let mut out = String::from_str("[ ");
    let ghost mut ts: Seq<Seq<char>> = Seq::empty();
    let mut k: usize = 0;
    while k < items.len()
        invariant
            k <= items.len(),
            ts.len() == k,
            forall|j: int| 0 <= j < k ==> rendered(items@[j]@, render_rel(*render), ts[j]),
            out@ == "[ "@ + join(ts),
            forall|f: F| call_requires(*render, (f,)),
        decreases items.len() - k,
    {
        proof {
            vstd::std_specs::vec::axiom_vec_index_decreases(*items, k as int);
        }
        let t = items[k].to_string(render);
        out.append(t.as_str());
        out.append(" ");
        proof {
            let old_ts = ts;
            ts = ts.push(t@);
            assert(ts.subrange(0, ts.len() - 1) =~= old_ts);
        }
        k += 1;
    }
    out.append("]");
    proof {
        assert(item_texts(ts));
        assert(forall|j: int| 0 <= j < items.len() ==> val_views(items@)[j] == items@[j]@);
    }
    out
}

fn negate_items<F: Copy, NF: Fn(F) -> F>(items: &Vec<Value<F>>, negate: &NF) -> (r: Vec<Value<F>>)
    requires
        forall|f: F| call_requires(*negate, (f,)),
    ensures
        negated_val(Val::List(val_views(items@)), map_rel(*negate), Val::List(val_views(r@))),
    decreases items,
{
    let mut out: Vec<Value<F>> = Vec::new();
    let mut k: usize = 0;
    while k < items.len()
        invariant
            k <= items.len(),
            out.len() == k,
            forall|j: int| 0 <= j < k ==> negated_val(items@[j]@, map_rel(*negate), out@[j]@),
            forall|f: F| call_requires(*negate, (f,)),
        decreases items.len() - k,
    {
        proof {
            vstd::std_specs::vec::axiom_vec_index_decreases(*items, k as int);
        }
        out.push(items[k].to_neg(negate));
        k += 1;
    }
    proof {
        assert(forall|j: int| 0 <= j < items.len() ==> val_views(items@)[j] == items@[j]@);
        assert(forall|j: int| 0 <= j < out.len() ==> val_views(out@)[j] == out@[j]@);
    }
    out
}

} // verus!
