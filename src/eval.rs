//! The environment of variables and user functions, and the evaluator.

use vstd::prelude::*;
use crate::complex::{IComplex, CARDINAL_BOUND};
use crate::parser::Token;
use crate::text::{decimal, digit, is_digit, push_decimal};
use crate::value::{
    applied, dec_rel, do_op, lat_val, map_rel, negated_val, outcome, pow_rel, prom_rel, render_rel, rendered, val_views, Op,
    Outcome,
    Val, Value,
};
use crate::parser::{tok_views, Ast};
use crate::complex::Relation;

verus! {

/// A user-defined function: its parameter names, in order, and its body.
pub struct Func {
    pub args: Vec<String>,
    pub expr: Token,
}

impl Func {
    pub fn new(args: Vec<String>, expr: Token) -> (r: Func)
        ensures
            r.args@ == args@,
            r.expr@ == expr@,
    {
        Func { args, expr }
    }

    /// A deep copy.
    pub fn duplicate(&self) -> (r: Func)
        ensures
            r.args@ == self.args@,
            r.expr@ == self.expr@,
    {
        let mut args: Vec<String> = Vec::new();
        let mut i: usize = 0;
        while i < self.args.len()
            invariant
                i <= self.args.len(),
                args@ == self.args@.subrange(0, i as int),
            decreases self.args.len() - i,
        {
            args.push(self.args[i].clone());
            i += 1;
            assert(args@ =~= self.args@.subrange(0, i as int));
        }
        assert(args@ =~= self.args@);
        Func { args, expr: self.expr.duplicate() }
    }
}

/// What the evaluator needs from the floating kind and from the outside: the
/// evaluator decides, the host computes.
pub trait Host<F> {
    /// The floating scalar a number literal denotes, if it is one.
    fn parse_number(&self, text: &str) -> Option<F>;

    /// The text of a floating scalar.
    fn render(&self, f: F) -> String;

    /// A binary operator on two floating scalars.
    fn float_op(&self, op: Op, a: F, b: F) -> F;

    /// `^` on two integer scalars.
    fn int_pow(&self, a: IComplex, b: IComplex) -> IComplex;

    /// An integer scalar as a floating one.
    fn promote(&self, i: IComplex) -> F;

    /// A floating scalar with its magnitude negated.
    fn negate(&self, f: F) -> F;

    /// A floating scalar's real part turned lateral.
    fn lateral(&self, f: F) -> F;

    /// Runs the builtin `name`, one of `sin`, `cos`, `tan`, `e` and `pi`,
    /// which compute in floats, on evaluated arguments.
    fn call_builtin(&self, name: &str, args: Vec<Value<F>>) -> Result<Value<F>, String>;

    /// Runs the external function of library `lib` on evaluated arguments.
    fn call_plugin(&self, lib: &str, args: Vec<Value<F>>) -> Result<Value<F>, String>;
}

/// Bindings in mathematical form: names with what they are bound to.
pub type Binds<T> = Seq<(Seq<char>, T)>;

/// An environment in mathematical form: variables, and functions with their
/// parameter names and body.
pub type EnvM<F> = (Binds<Val<F>>, Binds<(Seq<Seq<char>>, Ast)>);

/// What the first binding of `name` holds.
pub open spec fn mlookup<T>(binds: Binds<T>, name: Seq<char>) -> Option<T>
    decreases binds.len(),
{
    if binds.len() == 0 {
        None
    } else if binds[0].0 == name {
        Some(binds[0].1)
    } else {
        mlookup(binds.drop_first(), name)
    }
}

/// The bindings with `name` bound to `v`: its first binding replaced, or a
/// new binding at the end.
pub open spec fn mbind<T>(binds: Binds<T>, name: Seq<char>, v: T) -> Binds<T>
    decreases binds.len(),
{
    if binds.len() == 0 {
        seq![(name, v)]
    } else if binds[0].0 == name {
        binds.update(0, (name, v))
    } else {
        seq![binds[0]] + mbind(binds.drop_first(), name, v)
    }
}

/// `names` bound to `vals` one after the other, in order.
pub open spec fn bind_all<T>(binds: Binds<T>, names: Seq<Seq<char>>, vals: Seq<T>) -> Binds<T>
    decreases names.len(),
{
    if names.len() == 0 || vals.len() == 0 {
        binds
    } else {
        mbind(
            bind_all(binds, names.drop_last(), vals.drop_last()),
            names[names.len() - 1],
            vals[vals.len() - 1],
        )
    }
}

pub open spec fn names_unique<T>(binds: Seq<(String, T)>) -> bool {
    forall|i: int, j: int| 0 <= i < j < binds.len() ==> binds[i].0@ != binds[j].0@
}

pub open spec fn vars_view<F>(s: Seq<(String, Value<F>)>) -> Binds<Val<F>> {
    s.map_values(|b: (String, Value<F>)| (b.0@, b.1@))
}

pub open spec fn funcs_view(s: Seq<(String, Func)>) -> Binds<(Seq<Seq<char>>, Ast)> {
    s.map_values(|b: (String, Func)| (b.0@, (b.1.args@.map_values(|a: String| a@), b.1.expr@)))
}

proof fn lemma_mbind_at<T>(binds: Binds<T>, name: Seq<char>, v: T, i: int)
    requires
        0 <= i < binds.len(),
        binds[i].0 == name,
        forall|k: int| 0 <= k < i ==> binds[k].0 != name,
    ensures
        mbind(binds, name, v) == binds.update(i, (name, v)),
        mlookup(binds, name) == Some(binds[i].1),
    decreases i,
{
    if i > 0 {
        lemma_mbind_at(binds.drop_first(), name, v, i - 1);
        assert(binds =~= seq![binds[0]] + binds.drop_first());
        assert(seq![binds[0]] + binds.drop_first().update(i - 1, (name, v)) =~= binds.update(i, (name, v)));
    }
}

proof fn lemma_mbind_new<T>(binds: Binds<T>, name: Seq<char>, v: T)
    requires
        forall|k: int| 0 <= k < binds.len() ==> binds[k].0 != name,
    ensures
        mbind(binds, name, v) == binds.push((name, v)),
        mlookup(binds, name) is None,
    decreases binds.len(),
{
    if binds.len() > 0 {
        lemma_mbind_new(binds.drop_first(), name, v);
        assert(seq![binds[0]] + binds.drop_first().push((name, v)) =~= binds.push((name, v)));
    }
}

/// Variables and user functions by name.
pub struct Environment<F> {
    pub vars: Vec<(String, Value<F>)>,
    pub funcs: Vec<(String, Func)>,
}

impl<F: Copy> Environment<F> {
    pub open spec fn wf(&self) -> bool {
        names_unique(self.vars@) && names_unique(self.funcs@)
    }

    pub open spec fn model(&self) -> EnvM<F> {
        (vars_view(self.vars@), funcs_view(self.funcs@))
    }

    pub fn new() -> (r: Self)
        ensures
            r.wf(),
            r.model().0.len() == 0,
            r.model().1.len() == 0,
    {
        Environment { vars: Vec::new(), funcs: Vec::new() }
    }

    /// A deep copy, for one call of a user function.
    pub fn snapshot(&self) -> (r: Self)
        requires
            self.wf(),
        ensures
            r.wf(),
            r.model() == self.model(),
    {
        let mut vars: Vec<(String, Value<F>)> = Vec::new();
        let mut i: usize = 0;
        while i < self.vars.len()
            invariant
                i <= self.vars.len(),
                vars.len() == i,
                forall|k: int| 0 <= k < i ==> vars@[k].0@ == self.vars@[k].0@ && vars@[k].1@ == self.vars@[k].1@,
            decreases self.vars.len() - i,
        {
            vars.push((self.vars[i].0.clone(), self.vars[i].1.duplicate()));
            i += 1;
        }
        let mut funcs: Vec<(String, Func)> = Vec::new();
        let mut j: usize = 0;
        while j < self.funcs.len()
            invariant
                j <= self.funcs.len(),
                funcs.len() == j,
                forall|k: int|
                    0 <= k < j ==> funcs@[k].0@ == self.funcs@[k].0@ && funcs@[k].1.args@ == self.funcs@[k].1.args@
                        && funcs@[k].1.expr@ == self.funcs@[k].1.expr@,
            decreases self.funcs.len() - j,
        {
            funcs.push((self.funcs[j].0.clone(), self.funcs[j].1.duplicate()));
            j += 1;
        }
        let r = Environment { vars, funcs };
        assert(vars_view(r.vars@) =~= vars_view(self.vars@));
        assert(funcs_view(r.funcs@) =~= funcs_view(self.funcs@));
        r
    }

    /// The position of the variable `name`.
    pub fn find_var(&self, name: &String) -> (r: Option<usize>)
        ensures
            match r {
                Some(i) => i < self.vars@.len() && self.vars@[i as int].0@ == name@ && forall|k: int|
                    0 <= k < i ==> self.vars@[k].0@ != name@,
                None => forall|k: int| 0 <= k < self.vars@.len() ==> self.vars@[k].0@ != name@,
            },
    {
        let mut i: usize = 0;
        while i < self.vars.len()
            invariant
                i <= self.vars.len(),
                forall|k: int| 0 <= k < i ==> self.vars@[k].0@ != name@,
            decreases self.vars.len() - i,
        {
            if self.vars[i].0 == *name {
                return Some(i);
            }
            i += 1;
        }
        None
    }

    /// The position of the function `name`.
    pub fn find_func(&self, name: &String) -> (r: Option<usize>)
        ensures
            match r {
                Some(i) => i < self.funcs@.len() && self.funcs@[i as int].0@ == name@ && forall|k: int|
                    0 <= k < i ==> self.funcs@[k].0@ != name@,
                None => forall|k: int| 0 <= k < self.funcs@.len() ==> self.funcs@[k].0@ != name@,
            },
    {
        let mut i: usize = 0;
        while i < self.funcs.len()
            invariant
                i <= self.funcs.len(),
                forall|k: int| 0 <= k < i ==> self.funcs@[k].0@ != name@,
            decreases self.funcs.len() - i,
        {
            if self.funcs[i].0 == *name {
                return Some(i);
            }
            i += 1;
        }
        None
    }

    /// Binds `name` to `v`, replacing an earlier binding; true when the name
    /// was new.
    pub fn set_var(&mut self, name: String, v: Value<F>) -> (created: bool)
        requires
            old(self).wf(),
        ensures
            final(self).wf(),
            created == mlookup(old(self).model().0, name@) is None,
            final(self).model().0 == mbind(old(self).model().0, name@, v@),
            final(self).funcs == old(self).funcs,
    {
        let ghost m = vars_view(self.vars@);
        let ghost n = name@;
        let ghost vv = v@;
        match self.find_var(&name) {
            Some(i) => {
                proof {
                    lemma_mbind_at(m, n, vv, i as int);
                }
                self.vars.set(i, (name, v));
                assert(vars_view(self.vars@) =~= m.update(i as int, (n, vv)));
                false
            },
            None => {
                proof {
                    lemma_mbind_new(m, n, vv);
                }
                self.vars.push((name, v));
                assert(vars_view(self.vars@) =~= m.push((n, vv)));
                true
            },
        }
    }

    /// Stores `f` under `name`, replacing an earlier definition; true when the
    /// name was new.
    pub fn set_func(&mut self, name: String, f: Func) -> (created: bool)
        requires
            old(self).wf(),
        ensures
            final(self).wf(),
            created == mlookup(old(self).model().1, name@) is None,
            final(self).model().1 == mbind(
                old(self).model().1,
                name@,
                (f.args@.map_values(|a: String| a@), f.expr@),
            ),
            final(self).vars == old(self).vars,
    {
        let ghost m = funcs_view(self.funcs@);
        let ghost n = name@;
        let ghost fv = (f.args@.map_values(|a: String| a@), f.expr@);
        match self.find_func(&name) {
            Some(i) => {
                proof {
                    lemma_mbind_at(m, n, fv, i as int);
                }
                self.funcs.set(i, (name, f));
                assert(funcs_view(self.funcs@) =~= m.update(i as int, (n, fv)));
                false
            },
            None => {
                proof {
                    lemma_mbind_new(m, n, fv);
                }
                self.funcs.push((name, f));
                assert(funcs_view(self.funcs@) =~= m.push((n, fv)));
                true
            },
        }
    }
}

/// `a`, then `b`, then `c`.
fn text3(a: &str, b: &str, c: &str) -> (r: String)
    ensures
        r@ == a@ + b@ + c@,
{
    let mut out = String::from_str(a);
    out.append(b);
    out.append(c);
    out
}

/// `a`, then `b`.
fn text2(a: &str, b: &str) -> (r: String)
    ensures
        r@ == a@ + b@,
{
    let mut out = String::from_str(a);
    out.append(b);
    out
}

fn word_is(name: &String, w: &str) -> (b: bool)
    ensures
        b == (name@ == w@),
{
    *name == String::from_str(w)
}

/* Marks for the existential witnesses below. */

pub open spec fn got<F>(o: Outcome<F>) -> bool {
    true
}

pub open spec fn got_all<F>(o: Result<Seq<Val<F>>, Seq<char>>) -> bool {
    true
}

pub open spec fn some_text(s: Seq<char>) -> bool {
    true
}

pub open spec fn text_rel<F>(rr: spec_fn(F, Seq<char>) -> bool) -> bool {
    true
}

pub open spec fn map_mark<F>(m: spec_fn(F, F) -> bool) -> bool {
    true
}

pub open spec fn op_rels<F>(
    d: spec_fn(F, F, F) -> bool,
    ip: spec_fn(IComplex, IComplex, IComplex) -> bool,
    p: spec_fn(IComplex, F) -> bool,
) -> bool {
    true
}

/// `s` is a text of `v`, whatever text the host gives its floats.
pub open spec fn renders_as<F>(v: Val<F>, s: Seq<char>) -> bool {
    exists|rr: spec_fn(F, Seq<char>) -> bool| #[trigger] text_rel(rr) && rendered(v, rr, s)
}

/// `z` is `v` negated, whatever the host makes of its floats.
pub open spec fn negates_to<F>(v: Val<F>, z: Val<F>) -> bool {
    exists|m: spec_fn(F, F) -> bool| #[trigger] map_mark(m) && negated_val(v, m, z)
}

/// `z` is `v` times the imaginary unit, whatever the host makes of its
/// floats.
pub open spec fn lats_to<F>(v: Val<F>, z: Val<F>) -> bool {
    exists|m: spec_fn(F, F) -> bool| #[trigger] map_mark(m) && lat_val(v, m, z)
}

/// `r` is `op` on `a` and `b`, whatever the host computes for floats and
/// integer powers.
pub open spec fn applies_to<F>(a: Val<F>, b: Val<F>, op: Op, r: Outcome<F>) -> bool {
    exists|
        d: spec_fn(F, F, F) -> bool,
        ip: spec_fn(IComplex, IComplex, IComplex) -> bool,
        p: spec_fn(IComplex, F) -> bool,
    | #[trigger] op_rels(d, ip, p) && applied(a, b, op, d, ip, p, r)
}

/// The operator a product or sum node names.
pub open spec fn arith_op(o: Seq<char>) -> Op {
    if o == "*"@ {
        Op::Mul
    } else if o == "/"@ {
        Op::Div
    } else if o == "+"@ {
        Op::Add
    } else {
        Op::Sub
    }
}

/// The relation a relational node names.
pub open spec fn relation_of(o: Seq<char>) -> Relation {
    if o == "="@ {
        Relation::Equal
    } else if o == "=/="@ {
        Relation::NotEqual
    } else if o == ">"@ {
        Relation::Greater
    } else if o == "<"@ {
        Relation::Less
    } else if o == ">="@ {
        Relation::AtLeast
    } else {
        Relation::AtMost
    }
}

/// The value of an integer literal: its digits read in base ten, `_`
/// skipped; none when another character occurs or the value passes
/// `i64::MAX`.
pub open spec fn literal_value(t: Seq<char>) -> Option<int>
    decreases t.len(),
{
    if t.len() == 0 {
        Some(0)
    } else {
        match literal_value(t.drop_last()) {
            None => None,
            Some(v) => {
                let c = t[t.len() - 1];
                if is_digit(c) {
                    let w = v * 10 + ((c as u32) as int - 48);
                    if w > i64::MAX {
                        None
                    } else {
                        Some(w)
                    }
                } else if c == '_' {
                    Some(v)
                } else {
                    None
                }
            },
        }
    }
}

/// The identifier an argument of `call` names: a bare identifier term.
pub open spec fn ident_of(a: Ast) -> Option<Seq<char>> {
    match a {
        Ast::Expression(u, _, _) => match *u {
            Ast::UnaryExpression(e, _) => match *e {
                Ast::ExponentialExpression(p, _) => match *p {
                    Ast::ProductExpression(q, _, _) => match *q {
                        Ast::SumExpression(r, _, _) => match *r {
                            Ast::RelationalExpression(t, _, _) => match *t {
                                Ast::Term(i) => match *i {
                                    Ast::Identifier(l) => Some(l),
                                    _ => None,
                                },
                                _ => None,
                            },
                            _ => None,
                        },
                        _ => None,
                    },
                    _ => None,
                },
                _ => None,
            },
            _ => None,
        },
        _ => None,
    }
}

/// The builtin functions, looked up before user functions.
pub open spec fn is_builtin(n: Seq<char>) -> bool {
n == "sin"@ ||
        n == "cos"@ ||
        n == "tan"@ ||
        n == "asin"@ ||
        n == "acos"@ ||
        n == "atan"@ ||
        n == "d2r"@ ||
        n == "r2d"@ ||
        n == "log"@ ||
        n == "ln"@ ||
        n == "e"@ ||
        n == "pi"@ ||
        n == "mod"@ ||
        n == "floor"@ ||
        n == "ceil"@ ||
        n == "abs"@ ||
        n == "idx"@ ||
        n == "len"@ ||
        n == "app"@ ||
        n == "del"@ ||
        n == "sign"@ ||
        n == "comp"@
}

/// The builtins whose work is done by the host in floats.
pub open spec fn host_builtin(n: Seq<char>) -> bool {
    n == "sin"@ || n == "cos"@ || n == "tan"@ || n == "e"@ || n == "pi"@
}

/// What the builtin `n` gives for the values `vs`: `len` counts a list's
/// items (a scalar counts one), the host's builtins give what the host gives,
/// the others are not implemented.
pub open spec fn builtin_result<F>(n: Seq<char>, vs: Seq<Val<F>>, r: Outcome<F>) -> bool {
    if n == "len"@ {
        if vs.len() != 1 {
            r == Outcome::<F>::Err("Expected on argument for len."@)
        } else {
            match vs[0] {
                Val::List(xs) => r == Outcome::<F>::Ok(Val::Int(IComplex { len: xs.len() as i64, angle_deg: 0 })),
                _ => r == Outcome::<F>::Ok(Val::Int(IComplex { len: 1, angle_deg: 0 })),
            }
        }
    } else if host_builtin(n) {
        true
    } else {
        r == Outcome::<F>::Err("Not implemented"@)
    }
}

/// The message for a user function called with the wrong number of
/// arguments.
pub open spec fn count_msg(n: Seq<char>, want: nat, given: nat) -> Seq<char> {
    "Function '"@ + n + "' expects "@ + decimal(want) + " arguments, got "@ + decimal(given)
}

/// The message when evaluation nests deeper than the fuel it was given.
pub open spec fn too_deep() -> Seq<char> {
    "Evaluation nested too deeply"@
}

/// What evaluating `ast` in `env` with `fuel` may give. Each nested
/// evaluation uses one unit of fuel. Operands are evaluated left to right and
/// the first failure is the result. A conditional takes its else branch
/// exactly when its test's text is `0`. A call is the external-call form
/// `call(lib, fn, args...)`, else a builtin, else a user function, whose body
/// is evaluated in the environment with its parameters bound in order;
/// anything else fails.
pub open spec fn evals<F>(ast: Ast, env: EnvM<F>, fuel: nat, r: Outcome<F>) -> bool
    decreases fuel, 0int,
{
    if fuel == 0 {
        r == Outcome::<F>::Err(too_deep())
    } else {
        let f = (fuel - 1) as nat;
        match ast {
            Ast::Expression(c, Some(t), Some(e)) => exists|o: Outcome<F>|
                #[trigger] got(o) && evals(*c, env, f, o) && match o {
                    Err(m) => r == Outcome::<F>::Err(m),
                    Ok(v) => exists|s: Seq<char>|
                        #[trigger] some_text(s) && renders_as(v, s) && if s == "0"@ {
                            evals(*e, env, f, r)
                        } else {
                            evals(*t, env, f, r)
                        },
                },
            Ast::Expression(c, _, _) => evals(*c, env, f, r),
            Ast::UnaryExpression(b, op) => exists|o: Outcome<F>|
                #[trigger] got(o) && evals(*b, env, f, o) && match o {
                    Err(m) => r == Outcome::<F>::Err(m),
                    Ok(v) => match op {
                        None => r == Outcome::<F>::Ok(v),
                        Some(name) => match r {
                            Ok(z) => if name == "j"@ {
                                lats_to(v, z)
                            } else {
                                negates_to(v, z)
                            },
                            Err(_) => false,
                        },
                    },
                },
            Ast::ExponentialExpression(l, Some(rt)) => binary(*l, *rt, Op::Pow, env, f, r),
            Ast::ExponentialExpression(l, None) => evals(*l, env, f, r),
            Ast::ProductExpression(l, Some(o), Some(rt)) => binary(*l, *rt, arith_op(o), env, f, r),
            Ast::ProductExpression(l, _, _) => evals(*l, env, f, r),
            Ast::SumExpression(l, Some(o), Some(rt)) => binary(*l, *rt, arith_op(o), env, f, r),
            Ast::SumExpression(l, _, _) => evals(*l, env, f, r),
            Ast::RelationalExpression(l, Some(o), Some(rt)) => binary(*l, *rt, Op::Cmp(relation_of(o)), env, f, r),
            Ast::RelationalExpression(l, _, _) => evals(*l, env, f, r),
            Ast::Term(b) => evals(*b, env, f, r),
            Ast::Integer(text) => match literal_value(text) {
                Some(n) => r == Outcome::<F>::Ok(Val::Int(IComplex { len: n as i64, angle_deg: 0 })),
                None => r == Outcome::<F>::Err("Failed to parse integer "@ + text),
            },
            Ast::Number(text) => match r {
                Ok(Val::Float(_)) => true,
                Ok(_) => false,
                Err(m) => m == "Failed to parse number "@ + text,
            },
            Ast::Identifier(n) => match mlookup(env.0, n) {
                Some(v) => r == Outcome::<F>::Ok(v),
                None => r == Outcome::<F>::Err("No such variable '"@ + n + "'"@),
            },
            Ast::List(items) => exists|o: Result<Seq<Val<F>>, Seq<char>>|
                #[trigger] got_all(o) && evals_list(items, env, f, o) && match o {
                    Err(m) => r == Outcome::<F>::Err(m),
                    Ok(vs) => r == Outcome::<F>::Ok(Val::List(vs)),
                },
            Ast::FunctionCall(n, args) => if n == "call"@ {
                if args.len() < 2 {
                    r == Outcome::<F>::Err("Two few arguments to 'call'"@)
                } else if ident_of(args[0]) is None {
                    r == Outcome::<F>::Err("Expected ident for 1st argument in 'call'"@)
                } else if ident_of(args[1]) is None {
                    r == Outcome::<F>::Err("Expected ident for 2nd argument in 'call'"@)
                } else {
                    exists|o: Result<Seq<Val<F>>, Seq<char>>|
                        #[trigger] got_all(o) && evals_list(args.subrange(2, args.len() as int), env, f, o) && match o {
                            Err(m) => r == Outcome::<F>::Err(m),
                            Ok(_) => true,
                        }
                }
            } else if is_builtin(n) {
                exists|o: Result<Seq<Val<F>>, Seq<char>>|
                    #[trigger] got_all(o) && evals_list(args, env, f, o) && match o {
                        Err(m) => r == Outcome::<F>::Err(m),
                        Ok(vs) => builtin_result(n, vs, r),
                    }
            } else {
                match mlookup(env.1, n) {
                    None => r == Outcome::<F>::Err("No such function '"@ + n + "'"@),
                    Some(def) => exists|o: Result<Seq<Val<F>>, Seq<char>>|
                        #[trigger] got_all(o) && evals_list(args, env, f, o) && match o {
                            Err(m) => r == Outcome::<F>::Err(m),
                            Ok(vs) => if vs.len() != def.0.len() {
                                r == Outcome::<F>::Err(count_msg(n, def.0.len(), vs.len()))
                            } else {
                                evals(def.1, (bind_all(env.0, def.0, vs), env.1), f, r)
                            },
                        },
                }
            },
            _ => r == Outcome::<F>::Err("Impossible!"@),
        }
    }
}

/// A binary node: the left operand, then the right, then the operator.
pub open spec fn binary<F>(l: Ast, rt: Ast, op: Op, env: EnvM<F>, fuel: nat, r: Outcome<F>) -> bool
    decreases fuel, 1int,
{
    exists|ol: Outcome<F>|
        #[trigger] got(ol) && evals(l, env, fuel, ol) && match ol {
            Err(m) => r == Outcome::<F>::Err(m),
            Ok(a) => exists|or: Outcome<F>|
                #[trigger] got(or) && evals(rt, env, fuel, or) && match or {
                    Err(m) => r == Outcome::<F>::Err(m),
                    Ok(b) => applies_to(a, b, op, r),
                },
        }
}

/// The items evaluated left to right: their values, or the first failure.
pub open spec fn evals_list<F>(items: Seq<Ast>, env: EnvM<F>, fuel: nat, r: Result<Seq<Val<F>>, Seq<char>>) -> bool
    decreases fuel, items.len() + 1,
{
    if items.len() == 0 {
        r == Ok::<Seq<Val<F>>, Seq<char>>(Seq::empty())
    } else {
        exists|rest: Result<Seq<Val<F>>, Seq<char>>|
            #[trigger] got_all(rest) && evals_list(items.drop_last(), env, fuel, rest) && match rest {
                Err(m) => r == Err::<Seq<Val<F>>, Seq<char>>(m),
                Ok(vs) => exists|o: Outcome<F>|
                    #[trigger] got(o) && evals(items[items.len() - 1], env, fuel, o) && match o {
                        Err(m) => r == Err::<Seq<Val<F>>, Seq<char>>(m),
                        Ok(v) => r == Ok::<Seq<Val<F>>, Seq<char>>(vs.push(v)),
                    },
            }
    }
}

pub open spec fn all_outcome<F>(r: Result<Vec<Value<F>>, String>) -> Result<Seq<Val<F>>, Seq<char>> {
    match r {
        Ok(v) => Ok(val_views(v@)),
        Err(e) => Err(e@),
    }
}

proof fn lemma_list_step<F>(xs: Seq<Ast>, j: int, env: EnvM<F>, f: nat, prefix: Result<Seq<Val<F>>, Seq<char>>, o: Outcome<F>)
    requires
        0 <= j < xs.len(),
        evals_list(xs.subrange(0, j), env, f, prefix),
        prefix is Ok,
        evals(xs[j], env, f, o),
    ensures
        evals_list(
            xs.subrange(0, j + 1),
            env,
            f,
            match o {
                Err(m) => Err(m),
                Ok(v) => Ok(prefix->Ok_0.push(v)),
            },
        ),
{
    let sub = xs.subrange(0, j + 1);
    assert(sub.drop_last() =~= xs.subrange(0, j));
    assert(sub[sub.len() - 1] == xs[j]);
    assert(got_all(prefix));
    assert(got(o));
}

proof fn lemma_list_failure_stays<F>(xs: Seq<Ast>, k: int, env: EnvM<F>, f: nat, m: Seq<char>)
    requires
        0 <= k <= xs.len(),
        evals_list(xs.subrange(0, k), env, f, Err(m)),
    ensures
        evals_list(xs, env, f, Err(m)),
    decreases xs.len() - k,
{
    if k < xs.len() {
        let next = xs.subrange(0, k + 1);
        assert(next.drop_last() =~= xs.subrange(0, k));
        assert(got_all(Err::<Seq<Val<F>>, Seq<char>>(m)));
        assert(evals_list(next, env, f, Err(m)));
        lemma_list_failure_stays(xs, k + 1, env, f, m);
    } else {
        assert(xs.subrange(0, k) =~= xs);
    }
}

/// Evaluates `args[from..]` left to right, stopping at the first failure.
fn eval_all<F: Copy, H: Host<F>>(args: &Vec<Box<Token>>, from: usize, env: &Environment<F>, host: &H, fuel: u64) -> (r: Result<Vec<Value<F>>, String>)
    requires
        env.wf(),
        fuel > 0,
        from <= args.len(),
    ensures
        evals_list(
            tok_views(args@).subrange(from as int, args@.len() as int),
            env.model(),
            (fuel - 1) as nat,
            all_outcome(r),
        ),
    decreases fuel, 0int,
{
    let ghost xs = tok_views(args@).subrange(from as int, args@.len() as int);
    let mut vals: Vec<Value<F>> = Vec::new();
    let mut i: usize = from;
    assert(xs.subrange(0, 0).len() == 0);
    assert(val_views(vals@) =~= Seq::<Val<F>>::empty());
    while i < args.len()
        invariant
            from <= i <= args.len(),
            xs == tok_views(args@).subrange(from as int, args@.len() as int),
            evals_list(xs.subrange(0, i - from), env.model(), (fuel - 1) as nat, Ok(val_views(vals@))),
            env.wf(),
            fuel > 0,
        decreases args.len() - i,
    {
        let res = eval_expr(&args[i], env, host, fuel - 1);
        proof {
            assert(xs[i - from] == args@[i as int]@);
            lemma_list_step(xs, i - from, env.model(), (fuel - 1) as nat, Ok(val_views(vals@)), outcome(res));
        }
        match res {
            Err(e) => {
                proof {
                    lemma_list_failure_stays(xs, i - from + 1, env.model(), (fuel - 1) as nat, e@);
                }
                return Err(e);
            },
            Ok(v) => {
                let ghost before = val_views(vals@);
                vals.push(v);
                assert(val_views(vals@) =~= before.push(v@));
            },
        }
        i += 1;
    }
    assert(xs.subrange(0, args.len() - from) =~= xs);
    Ok(vals)
}

proof fn lemma_literal_none_stays(t: Seq<char>, k: int)
    requires
        0 <= k <= t.len(),
        literal_value(t.subrange(0, k)) is None,
    ensures
        literal_value(t) is None,
    decreases t.len() - k,
{
    if k < t.len() {
        assert(t.subrange(0, k + 1).drop_last() =~= t.subrange(0, k));
        lemma_literal_none_stays(t, k + 1);
    } else {
        assert(t.subrange(0, k) =~= t);
    }
}

/// The value of an integer literal, as `literal_value` gives it.
fn parse_integer_literal(text: &String) -> (r: Option<i64>)
    ensures
        match r {
            Some(n) => literal_value(text@) == Some(n as int),
            None => literal_value(text@) is None,
        },
{
    let s = text.as_str();
    let n = s.unicode_len();
    let mut value: i64 = 0;
    let mut k: usize = 0;
    assert(s@.subrange(0, 0).len() == 0);
    while k < n
        invariant
            n == s@.len(),
            s@ == text@,
            k <= n,
            value >= 0,
            literal_value(s@.subrange(0, k as int)) == Some(value as int),
        decreases n - k,
    {
        let c = s.get_char(k);
        assert(s@.subrange(0, k + 1).drop_last() =~= s@.subrange(0, k as int));
        assert(s@.subrange(0, k + 1)[k as int] == c);
        if digit(c) {
            let d = (c as u32 - '0' as u32) as i64;
            match value.checked_mul(10) {
                None => {
                    proof {
                        lemma_literal_none_stays(s@, k + 1);
                    }
                    return None;
                },
                Some(m) => match m.checked_add(d) {
                    None => {
                        proof {
                            lemma_literal_none_stays(s@, k + 1);
                        }
                        return None;
                    },
                    Some(v) => value = v,
                },
            }
        } else if c != '_' {
            proof {
                lemma_literal_none_stays(s@, k + 1);
            }
            return None;
        }
        k += 1;
    }
    assert(s@.subrange(0, n as int) =~= s@);
    Some(value)
}

/// The identifier that a `call` argument must be.
fn ident_arg(arg: &Token) -> (r: Option<String>)
    ensures
        match r {
            Some(l) => ident_of(arg@) == Some(l@),
            None => ident_of(arg@) is None,
        },
{
    proof {
        reveal_with_fuel(crate::parser::tok_view, 9);
    }
    if let Token::Expression(u, _, _) = arg {
        if let Token::UnaryExpression(e, _) = &**u {
            if let Token::ExponentialExpression(p, _) = &**e {
                if let Token::ProductExpression(q, _, _) = &**p {
                    if let Token::SumExpression(r, _, _) = &**q {
                        if let Token::RelationalExpression(t, _, _) = &**r {
                            if let Token::Term(i) = &**t {
                                if let Token::Identifier(l) = &**i {
                                    return Some(l.clone());
                                }
                            }
                        }
                    }
                }
            }
        }
    }
    None
}

fn builtin_name(name: &String) -> (b: bool)
    ensures
        b == is_builtin(name@),
{
    word_is(name, "sin") ||
        word_is(name, "cos") ||
        word_is(name, "tan") ||
        word_is(name, "asin") ||
        word_is(name, "acos") ||
        word_is(name, "atan") ||
        word_is(name, "d2r") ||
        word_is(name, "r2d") ||
        word_is(name, "log") ||
        word_is(name, "ln") ||
        word_is(name, "e") ||
        word_is(name, "pi") ||
        word_is(name, "mod") ||
        word_is(name, "floor") ||
        word_is(name, "ceil") ||
        word_is(name, "abs") ||
        word_is(name, "idx") ||
        word_is(name, "len") ||
        word_is(name, "app") ||
        word_is(name, "del") ||
        word_is(name, "sign") ||
        word_is(name, "comp")
}

/// Runs the builtin `name` on `vals`.
fn call_builtin<F: Copy, H: Host<F>>(name: &String, vals: Vec<Value<F>>, host: &H) -> (r: Result<Value<F>, String>)
    ensures
        builtin_result(name@, val_views(vals@), outcome(r)),
{
    if word_is(name, "len") {
        if vals.len() != 1 {
            return Err(String::from_str("Expected on argument for len."));
        }
        assert(val_views(vals@)[0] == vals@[0]@);
        match &vals[0] {
            Value::List(xs) => Ok(Value::Int(IComplex::new_polar(xs.len() as i64, 0))),
            _ => Ok(Value::Int(IComplex::new_polar(1, 0))),
        }
    } else if word_is(name, "sin") || word_is(name, "cos") || word_is(name, "tan") || word_is(name, "e") || word_is(name, "pi") {
        host.call_builtin(name.as_str(), vals)
    } else {
        Err(String::from_str("Not implemented"))
    }
}

fn apply_op<F: Copy, H: Host<F>>(a: &Value<F>, b: &Value<F>, op: Op, host: &H) -> (r: Result<Value<F>, String>)
    ensures
        applies_to(a@, b@, op, outcome(r)),
{
    let dec = |x: F, y: F| -> (z: F) { host.float_op(op, x, y) };
    let ip = |x: IComplex, y: IComplex| -> (z: IComplex) { host.int_pow(x, y) };
    let pr = |i: IComplex| -> (z: F) { host.promote(i) };
    let r = do_op(a, b, op, &dec, &ip, &pr);
    assert(op_rels(dec_rel(dec), pow_rel(ip), prom_rel(pr)));
    r
}

fn eval_binary<F: Copy, H: Host<F>>(left: &Token, right: &Token, op: Op, env: &Environment<F>, host: &H, fuel: u64) -> (r: Result<Value<F>, String>)
    requires
        env.wf(),
        fuel > 0,
    ensures
        binary(left@, right@, op, env.model(), (fuel - 1) as nat, outcome(r)),
    decreases fuel, 2int,
{
    let lres = eval_expr(left, env, host, fuel - 1);
    assert(got(outcome(lres)));
    match lres {
        Err(e) => Err(e),
        Ok(l) => {
            let rres = eval_expr(right, env, host, fuel - 1);
            assert(got(outcome(rres)));
            match rres {
                Err(e) => Err(e),
                Ok(rv) => apply_op(&l, &rv, op, host),
            }
        },
    }
}

/// Evaluates an expression, as `evals` states.
pub fn eval_expr<F: Copy, H: Host<F>>(ast: &Token, env: &Environment<F>, host: &H, fuel: u64) -> (r: Result<Value<F>, String>)
    requires
        env.wf(),
    ensures
        evals(ast@, env.model(), fuel as nat, outcome(r)),
    decreases fuel, 3int,
{
    if fuel == 0 {
        return Err(String::from_str("Evaluation nested too deeply"));
    }
    let f = fuel - 1;
    match ast {
        Token::Expression(un, t, fb) => match (t, fb) {
            (Some(t), Some(fb)) => {
                let test = eval_expr(un, env, host, f);
                assert(got(outcome(test)));
                match test {
                    Err(e) => Err(e),
                    Ok(v) => {
                        let render = |x: F| -> (s: String) { host.render(x) };
                        let text = v.to_string(&render);
                        assert(text_rel(render_rel(render)));
                        assert(some_text(text@));
                        if text == String::from_str("0") {
                            eval_expr(fb, env, host, f)
                        } else {
                            eval_expr(t, env, host, f)
                        }
                    },
                }
            },
            _ => eval_expr(un, env, host, f),
        },
        Token::UnaryExpression(exp, op) => {
            let res = eval_expr(exp, env, host, f);
            assert(got(outcome(res)));
            match res {
                Err(e) => Err(e),
                Ok(val) => match op {
                    None => Ok(val),
                    Some(o) => if word_is(o, "j") {
                        let lat = |x: F| -> (z: F) { host.lateral(x) };
                        let z = val.to_lat(&lat);
                        assert(map_mark(map_rel(lat)));
                        Ok(z)
                    } else {
                        let neg = |x: F| -> (z: F) { host.negate(x) };
                        let z = val.to_neg(&neg);
                        assert(map_mark(map_rel(neg)));
                        Ok(z)
                    },
                },
            }
        },
        Token::ExponentialExpression(left, right) => match right {
            None => eval_expr(left, env, host, f),
            Some(right) => eval_binary(left, right, Op::Pow, env, host, fuel),
        },
        Token::ProductExpression(left, op, right) | Token::SumExpression(left, op, right) => match (op, right) {
            (Some(o), Some(right)) => {
                let code = if word_is(o, "*") {
                    Op::Mul
                } else if word_is(o, "/") {
                    Op::Div
                } else if word_is(o, "+") {
                    Op::Add
                } else {
                    Op::Sub
                };
                eval_binary(left, right, code, env, host, fuel)
            },
            _ => eval_expr(left, env, host, f),
        },
        Token::RelationalExpression(left, op, right) => match (op, right) {
            (Some(o), Some(right)) => {
                let rel = if word_is(o, "=") {
                    Relation::Equal
                } else if word_is(o, "=/=") {
                    Relation::NotEqual
                } else if word_is(o, ">") {
                    Relation::Greater
                } else if word_is(o, "<") {
                    Relation::Less
                } else if word_is(o, ">=") {
                    Relation::AtLeast
                } else {
                    Relation::AtMost
                };
                eval_binary(left, right, Op::Cmp(rel), env, host, fuel)
            },
            _ => eval_expr(left, env, host, f),
        },
        Token::Term(inner) => eval_expr(inner, env, host, f),
        Token::Integer(text) => match parse_integer_literal(text) {
            Some(n) => Ok(Value::Int(IComplex::new_polar(n, 0))),
            None => Err(text2("Failed to parse integer ", text.as_str())),
        },
        Token::Number(text) => match host.parse_number(text.as_str()) {
            Some(x) => Ok(Value::Float(x)),
            None => Err(text2("Failed to parse number ", text.as_str())),
        },
        Token::Identifier(name) => {
            let ghost m = env.model().0;
            match env.find_var(name) {
                Some(i) => {
                    proof {
                        lemma_mbind_at(m, name@, m[i as int].1, i as int);
                    }
                    Ok(env.vars[i].1.duplicate())
                },
                None => {
                    proof {
                        lemma_mbind_new(m, name@, Val::<F>::List(Seq::empty()));
                    }
                    Err(text3("No such variable '", name.as_str(), "'"))
                },
            }
        },
        Token::List(items) => {
            let res = eval_all(items, 0, env, host, fuel);
            assert(tok_views(items@).subrange(0, items@.len() as int) =~= tok_views(items@));
            assert(got_all(all_outcome(res)));
            match res {
                Err(e) => Err(e),
                Ok(vals) => Ok(Value::List(vals)),
            }
        },
        Token::FunctionCall(name, args) => eval_call(name, args, env, host, fuel),
        _ => Err(String::from_str("Impossible!")),
    }
}

fn eval_call<F: Copy, H: Host<F>>(name: &String, args: &Vec<Box<Token>>, env: &Environment<F>, host: &H, fuel: u64) -> (r: Result<Value<F>, String>)
    requires
        env.wf(),
        fuel > 0,
    ensures
        evals(Ast::FunctionCall(name@, tok_views(args@)), env.model(), fuel as nat, outcome(r)),
    decreases fuel, 2int,
{
    let ghost xs = tok_views(args@);
    assert(xs.subrange(0, args@.len() as int) =~= xs);
    if word_is(name, "call") {
        if args.len() < 2 {
            return Err(String::from_str("Two few arguments to 'call'"));
        }
        let lib = match ident_arg(&args[0]) {
            Some(l) => l,
            None => return Err(String::from_str("Expected ident for 1st argument in 'call'")),
        };
        if ident_arg(&args[1]).is_none() {
            return Err(String::from_str("Expected ident for 2nd argument in 'call'"));
        }
        let res = eval_all(args, 2, env, host, fuel);
        assert(got_all(all_outcome(res)));
        match res {
            Err(e) => Err(e),
            Ok(vals) => host.call_plugin(lib.as_str(), vals),
        }
    } else if builtin_name(name) {
        let res = eval_all(args, 0, env, host, fuel);
        assert(got_all(all_outcome(res)));
        match res {
            Err(e) => Err(e),
            Ok(vals) => call_builtin(name, vals, host),
        }
    } else {
        let ghost fm = env.model().1;
        match env.find_func(name) {
            None => {
                proof {
                    lemma_mbind_new(fm, name@, (Seq::<Seq<char>>::empty(), Ast::List(Seq::empty())));
                }
                Err(text3("No such function '", name.as_str(), "'"))
            },
            Some(k) => {
                proof {
                    lemma_mbind_at(fm, name@, fm[k as int].1, k as int);
                }
                let res = eval_all(args, 0, env, host, fuel);
                assert(got_all(all_outcome(res)));
                match res {
                    Err(e) => Err(e),
                    Ok(vals) => {
                        let func = &env.funcs[k].1;
                        let ghost ps = func.args@.map_values(|a: String| a@);
                        let ghost vs = val_views(vals@);
                        if vals.len() != func.args.len() {
                            let mut msg = text3("Function '", name.as_str(), "' expects ");
                            push_decimal(&mut msg, func.args.len() as u64);
                            msg.append(" arguments, got ");
                            push_decimal(&mut msg, vals.len() as u64);
                            return Err(msg);
                        }
                        let mut f_env = env.snapshot();
                        let n = func.args.len();
                        let mut i: usize = 0;
                        assert(ps.subrange(0, 0).len() == 0);
                        assert(vs.subrange(0, 0).len() == 0);
                        while i < n
                            invariant
                                f_env.wf(),
                                n == func.args.len(),
                                vals.len() == n,
                                i <= n,
                                ps == func.args@.map_values(|a: String| a@),
                                vs == val_views(vals@),
                                f_env.model().1 == env.model().1,
                                f_env.model().0 == bind_all(env.model().0, ps.subrange(0, i as int), vs.subrange(0, i as int)),
                            decreases n - i,
                        {
                            let v = vals[i].duplicate();
                            let pname = func.args[i].clone();
                            proof {
                                assert(ps.subrange(0, i + 1).drop_last() =~= ps.subrange(0, i as int));
                                assert(vs.subrange(0, i + 1).drop_last() =~= vs.subrange(0, i as int));
                                assert(ps.subrange(0, i + 1)[i as int] == pname@);
                                assert(vs.subrange(0, i + 1)[i as int] == v@);
                            }
                            f_env.set_var(pname, v);
                            i += 1;
                        }
                        assert(ps.subrange(0, n as int) =~= ps);
                        assert(vs.subrange(0, n as int) =~= vs);
                        eval_expr(&func.expr, &f_env, host, fuel - 1)
                    },
                }
            },
        }
    }
}

/// The parameter list as the definition message shows it: `["a", "b"]`.
pub open spec fn quoted(ps: Seq<Seq<char>>) -> Seq<char>
    decreases ps.len(),
{
    if ps.len() == 0 {
        Seq::empty()
    } else {
        quoted(ps.drop_last()) + (if ps.len() > 1 {
            ", "@
        } else {
            Seq::empty()
        }) + "\""@ + ps[ps.len() - 1] + "\""@
    }
}

/// A function definition: `name` bound to its parameters and body, the
/// variables kept, and the report.
pub open spec fn def_outcome<F>(
    old: EnvM<F>,
    new: EnvM<F>,
    name: Seq<char>,
    ps: Seq<Seq<char>>,
    body: Ast,
    r: Seq<char>,
) -> bool {
    &&& new.1 == mbind(old.1, name, (ps, body))
    &&& new.0 == old.0
    &&& r == if mlookup(old.1, name) is None {
        "Added function '"@ + name + "' with args ["@ + quoted(ps) + "] to environment."@
    } else {
        "Updated function '"@ + name + "'"@
    }
}

/// An assignment: on success `name` bound to the value and the report with
/// its text; on failure nothing changed and `Error: ` with the message.
pub open spec fn asgn_outcome<F>(old: EnvM<F>, new: EnvM<F>, name: Seq<char>, body: Ast, fuel: nat, r: Seq<char>) -> bool {
    exists|o: Outcome<F>|
        #[trigger] got(o) && evals(body, old, fuel, o) && match o {
            Err(m) => new == old && r == "Error: "@ + m,
            Ok(v) => new.0 == mbind(old.0, name, v) && new.1 == old.1 && exists|s: Seq<char>|
                #[trigger] some_text(s) && renders_as(v, s) && r == if mlookup(old.0, name) is None {
                    "Added var '"@ + name + "' with value "@ + s + " to environment."@
                } else {
                    "Updated var '"@ + name + "' to "@ + s
                },
        }
}

/// An expression statement: nothing changed, and the value's text or
/// `Error: ` with the message.
pub open spec fn expr_outcome<F>(old: EnvM<F>, new: EnvM<F>, e: Ast, fuel: nat, r: Seq<char>) -> bool {
    new == old && exists|o: Outcome<F>|
        #[trigger] got(o) && evals(e, old, fuel, o) && match o {
            Err(m) => r == "Error: "@ + m,
            Ok(v) => renders_as(v, r),
        }
}

/// What a statement does to the environment and reports.
pub open spec fn stmt_outcome<F>(ast: Ast, old: EnvM<F>, new: EnvM<F>, fuel: nat, r: Seq<char>) -> bool {
    match ast {
        Ast::Statement(b) => match *b {
            Ast::FunctionDefinition(n, ps, body) => def_outcome(old, new, n, ps, *body, r),
            Ast::Assignment(n, body) => asgn_outcome(old, new, n, *body, fuel, r),
            other => expr_outcome(old, new, other, fuel, r),
        },
        _ => new == old && r == "Not implemented"@,
    }
}

/// Evaluates a statement against the environment and reports the outcome as
/// text, as `stmt_outcome` states.
pub fn eval<F: Copy, H: Host<F>>(ast: &Token, env: &mut Environment<F>, host: &H, fuel: u64) -> (r: String)
    requires
        old(env).wf(),
    ensures
        final(env).wf(),
        stmt_outcome(ast@, old(env).model(), final(env).model(), fuel as nat, r@),
{
    proof {
        reveal_with_fuel(crate::parser::tok_view, 2);
    }
    match ast {
        Token::Statement(stmt) => match &**stmt {
            Token::FunctionDefinition(name, args, body) => eval_func_def(name, args, body, env),
            Token::Assignment(name, body) => eval_asgn(name, body, env, host, fuel),
            other => {
                let res = eval_expr(other, env, host, fuel);
                assert(got(outcome(res)));
                match res {
                    Err(e) => text2("Error: ", e.as_str()),
                    Ok(v) => {
                        let render = |x: F| -> (s: String) { host.render(x) };
                        let t = v.to_string(&render);
                        assert(text_rel(render_rel(render)));
                        t
                    },
                }
            },
        },
        _ => String::from_str("Not implemented"),
    }
}

/// Stores a function definition, as `def_outcome` states.
pub fn eval_func_def<F: Copy>(name: &String, args: &Vec<String>, body: &Token, env: &mut Environment<F>) -> (r: String)
    requires
        old(env).wf(),
    ensures
        final(env).wf(),
        def_outcome(old(env).model(), final(env).model(), name@, args@.map_values(|a: String| a@), body@, r@),
{
    let mut copied: Vec<String> = Vec::new();
    let mut i: usize = 0;
    while i < args.len()
        invariant
            i <= args.len(),
            copied@ == args@.subrange(0, i as int),
        decreases args.len() - i,
    {
        copied.push(args[i].clone());
        i += 1;
        assert(copied@ =~= args@.subrange(0, i as int));
    }
    assert(copied@ =~= args@);
    let ghost ps = args@.map_values(|a: String| a@);
    let created = env.set_func(name.clone(), Func::new(copied, body.duplicate()));
    if created {
        proof {
            reveal_strlit(", ");
            reveal_strlit("\"");
        }
        let mut msg = text3("Added function '", name.as_str(), "' with args [");
        let ghost base = msg@;
        let mut k: usize = 0;
        assert(ps.subrange(0, 0).len() == 0);
        while k < args.len()
            invariant
                k <= args.len(),
                ps == args@.map_values(|a: String| a@),
                msg@ == base + quoted(ps.subrange(0, k as int)),
            decreases args.len() - k,
        {
            let ghost before = msg@;
            if k > 0 {
                msg.append(", ");
            }
            msg.append("\"");
            msg.append(args[k].as_str());
            msg.append("\"");
            proof {
                let sub = ps.subrange(0, k + 1);
                assert(sub.drop_last() =~= ps.subrange(0, k as int));
                assert(sub[sub.len() - 1] == args@[k as int]@);
                let sep = if k > 0 {
                    ", "@
                } else {
                    Seq::<char>::empty()
                };
                assert(msg@ =~= before + sep + "\""@ + args@[k as int]@ + "\""@);
                assert(quoted(sub) =~= quoted(ps.subrange(0, k as int)) + sep + "\""@ + args@[k as int]@ + "\""@);
            }
            k += 1;
        }
        assert(ps.subrange(0, args.len() as int) =~= ps);
        msg.append("] to environment.");
        msg
    } else {
        text3("Updated function '", name.as_str(), "'")
    }
}

/// Evaluates the right-hand side and binds it, as `asgn_outcome` states.
pub fn eval_asgn<F: Copy, H: Host<F>>(name: &String, body: &Token, env: &mut Environment<F>, host: &H, fuel: u64) -> (r: String)
    requires
        old(env).wf(),
    ensures
        final(env).wf(),
        asgn_outcome(old(env).model(), final(env).model(), name@, body@, fuel as nat, r@),
{
    let res = eval_expr(body, env, host, fuel);
    assert(got(outcome(res)));
    match res {
        Err(e) => text2("Error: ", e.as_str()),
        Ok(v) => {
            let render = |x: F| -> (s: String) { host.render(x) };
            let text = v.to_string(&render);
            assert(text_rel(render_rel(render)));
            assert(some_text(text@));
            if env.set_var(name.clone(), v) {
                let mut msg = text3("Added var '", name.as_str(), "' with value ");
                msg.append(text.as_str());
                msg.append(" to environment.");
                msg
            } else {
                let mut msg = text3("Updated var '", name.as_str(), "' to ");
                msg.append(text.as_str());
                msg
            }
        },
    }
}

} // verus!
