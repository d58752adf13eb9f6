use calc::complex::{IComplex, Relation};
use calc::eval::{eval, Environment, Host};
use calc::parser::parse_stmt;
use calc::value::{do_op, Op, Value};

#[derive(Clone, Copy, Debug, PartialEq, PartialOrd)]
struct Fc {
    len: f64,
    angle: f64,
}

impl Fc {
    fn polar(len: f64, angle: f64) -> Fc {
        Fc { len, angle }
    }

    fn cardinal(re: f64, lat: f64) -> Fc {
        let len = (re * re + lat * lat).sqrt();
        let pi = std::f64::consts::PI;
        let angle = if re == 0.0 {
            pi
        } else if re > 0.0 {
            (lat / re).atan()
        } else {
            (lat / re).atan() + pi
        };
        Fc::polar(len, angle)
    }

    fn parts(self) -> (f64, f64) {
        (self.len * self.angle.cos(), self.len * self.angle.sin())
    }
}

struct TestHost;

impl Host<Fc> for TestHost {
    fn parse_number(&self, text: &str) -> Option<Fc> {
        text.parse::<f64>().ok().map(|v| Fc::polar(v, 0.0))
    }

    fn render(&self, f: Fc) -> String {
        let (re, lat) = f.parts();
        let trim = |x: f64| (x * 1e12).round() / 1e12;
        if lat.abs() > 1e-12 * f.len.abs() {
            format!("{}+j{}", trim(re), trim(lat))
        } else {
            format!("{}", trim(re))
        }
    }

    fn float_op(&self, op: Op, a: Fc, b: Fc) -> Fc {
        let (r1, l1) = a.parts();
        let (r2, l2) = b.parts();
        match op {
            Op::Add => Fc::cardinal(r1 + r2, l1 + l2),
            Op::Sub => Fc::cardinal(r1 - r2, l1 - l2),
            Op::Mul => Fc::polar(a.len * b.len, a.angle + b.angle),
            Op::Div => Fc::polar(a.len / b.len, a.angle - b.angle),
            Op::Pow => {
                let ln_z = Fc::cardinal(a.len.ln(), a.angle);
                let e = Fc::polar(b.len * ln_z.len, b.angle + ln_z.angle);
                let (ea, eb) = e.parts();
                Fc::polar(ea.exp(), eb)
            }
            Op::Cmp(rel) => {
                let o = a.partial_cmp(&b);
                let t = match o {
                    None => false,
                    Some(o) => match rel {
                        Relation::Equal => o.is_eq(),
                        Relation::NotEqual => o.is_ne(),
                        Relation::Greater => o.is_gt(),
                        Relation::Less => o.is_lt(),
                        Relation::AtLeast => o.is_ge(),
                        Relation::AtMost => o.is_le(),
                    },
                };
                Fc::polar(if t { -1.0 } else { 0.0 }, 0.0)
            }
        }
    }

    fn int_pow(&self, a: IComplex, b: IComplex) -> IComplex {
        let r = self.float_op(Op::Pow, self.promote(a), self.promote(b));
        IComplex::new_polar(r.len.round() as i64, r.angle.to_degrees().round() as i64)
    }

    fn promote(&self, i: IComplex) -> Fc {
        Fc::polar(i.len as f64, (i.angle_deg as f64).to_radians())
    }

    fn negate(&self, f: Fc) -> Fc {
        Fc::polar(-f.len, f.angle)
    }

    fn lateral(&self, f: Fc) -> Fc {
        Fc::polar(f.len, f.angle + std::f64::consts::FRAC_PI_2)
    }

    fn call_builtin(&self, name: &str, _args: Vec<Value<Fc>>) -> Result<Value<Fc>, String> {
        Err(format!("No such function '{}'", name))
    }

    fn call_plugin(&self, _lib: &str, _args: Vec<Value<Fc>>) -> Result<Value<Fc>, String> {
        Err(String::from("Plugin directory does not exist."))
    }
}

fn run(env: &mut Environment<Fc>, line: &str) -> String {
    match parse_stmt(line) {
        Err(e) => format!("Error: {}", e),
        Ok(ast) => eval(&ast, env, &TestHost, u64::MAX),
    }
}

fn run_one(line: &str) -> String {
    let mut env = Environment::new();
    run(&mut env, line)
}

#[test]
fn scenario_assignment_adds_var() {
    let mut env = Environment::new();
    let out = run(&mut env, "let x = 5");
    assert!(out.starts_with("Added var 'x'"));
    assert_eq!(out, "Added var 'x' with value 5 to environment.");
    assert_eq!(env.vars.len(), 1);
    assert_eq!(env.vars[0].0, "x");
    assert_eq!(run(&mut env, "let x = 6"), "Updated var 'x' to 6");
}

#[test]
fn scenario_variable_in_sum() {
    let mut env = Environment::new();
    run(&mut env, "let x = 5");
    assert_eq!(run(&mut env, "x + 3"), "8");
}

#[test]
fn scenario_list_literal() {
    assert_eq!(run_one("[1,2,3]"), "[ 1 2 3 ]");
    assert_eq!(run_one("[]"), "[ ]");
}

#[test]
fn scenario_user_function() {
    let mut env = Environment::new();
    assert_eq!(
        run(&mut env, "\\sq(n) -> n * n"),
        "Added function 'sq' with args [\"n\"] to environment."
    );
    assert_eq!(run(&mut env, "sq(4)"), "16");
    assert_eq!(run(&mut env, "\\sq(n) -> n"), "Updated function 'sq'");
}

#[test]
fn scenario_power() {
    assert_eq!(run_one("2_ ^ 3_"), "8");
    assert_eq!(run_one("2.0 ^ 3"), "8");
    assert_eq!(run_one("2 ^ 3"), "8");
}

#[test]
fn scenario_unknown_variable() {
    assert_eq!(run_one("unknown_var"), "Error: No such variable 'unknown_var'");
}

#[test]
fn unknown_function_fails() {
    assert_eq!(run_one("nope(1)"), "Error: No such function 'nope'");
}

#[test]
fn wrong_argument_count_fails() {
    let mut env = Environment::new();
    run(&mut env, "\\f(a) -> a");
    assert_eq!(run(&mut env, "f(1, 2)"), "Error: Function 'f' expects 1 arguments, got 2");
    assert_eq!(run(&mut env, "f()"), "Error: Function 'f' expects 1 arguments, got 0");
}

#[test]
fn function_body_sees_a_copy() {
    let mut env = Environment::new();
    run(&mut env, "let a = 1");
    run(&mut env, "\\g(a) -> a + 1");
    assert_eq!(run(&mut env, "g(10)"), "11");
    assert_eq!(run(&mut env, "a"), "1");
}

#[test]
fn broadcasting_list_with_scalar() {
    assert_eq!(run_one("[1,2,3] + 10"), "[ 11 12 13 ]");
    assert_eq!(run_one("10 - [1,2]"), "[ 9 8 ]");
}

#[test]
fn broadcasting_two_lists_folds() {
    // each left item is folded over every right item: 1+10+20, 2+10+20
    assert_eq!(run_one("[1,2] + [10,20]"), "[ 31 32 ]");
}

#[test]
fn comparisons_yield_truth_scalars() {
    assert_eq!(run_one("3 = 3"), "-1");
    assert_eq!(run_one("3 > 4"), "0");
    assert_eq!(run_one("4 > 3"), "-1");
    assert_eq!(run_one("3_ = 3_"), "-1");
}

#[test]
fn conditional_selects_by_text_zero() {
    assert_eq!(run_one("1 = 2 ? 5 : 6"), "6");
    assert_eq!(run_one("1 = 1 ? 5 : 6"), "5");
    assert_eq!(run_one("[0] ? 5 : 6"), "5");
}

#[test]
fn integer_arithmetic() {
    assert_eq!(run_one("5_ + 3_"), "8");
    assert_eq!(run_one("5_ - 3_"), "2");
    assert_eq!(run_one("1_000_ * 3_"), "3000");
    assert_eq!(run_one("7_ / 2_"), "3");
    assert_eq!(run_one("-4_"), "-4");
}

#[test]
fn integer_division_by_zero_is_an_error() {
    assert_eq!(run_one("7_ / 0_"), "Error: attempt to divide by zero");
}

#[test]
fn integer_literal_overflow_is_an_error() {
    assert_eq!(
        run_one("99999999999999999999_"),
        "Error: Failed to parse integer 99999999999999999999_"
    );
}

#[test]
fn integer_promotes_with_float() {
    assert_eq!(run_one("5_ + 0.5"), "5.5");
}

#[test]
fn call_form_checks_identifiers() {
    assert_eq!(run_one("call(1)"), "Error: Two few arguments to 'call'");
    assert_eq!(run_one("call(1, f)"), "Error: Expected ident for 1st argument in 'call'");
    assert_eq!(run_one("call(lib, 2)"), "Error: Expected ident for 2nd argument in 'call'");
    assert_eq!(run_one("call(lib, f, 1)"), "Error: Plugin directory does not exist.");
}

#[test]
fn first_error_propagates() {
    assert_eq!(run_one("[1, nope, zip]"), "Error: No such variable 'nope'");
}

#[test]
fn do_op_folds_nested_lists() {
    let one = Value::Int(IComplex::new_polar(1, 0));
    let two = Value::Int(IComplex::new_polar(2, 0));
    let ten = Value::Int(IComplex::new_polar(10, 0));
    let left: Value<Fc> = Value::List(vec![one, two]);
    let right: Value<Fc> = Value::List(vec![ten.duplicate(), ten]);
    let r = do_op(&left, &right, Op::Add, &|a: Fc, _b: Fc| a, &|a: IComplex, _b: IComplex| a, &|i: IComplex| {
        Fc::polar(i.len as f64, 0.0)
    })
    .unwrap();
    let render = |f: Fc| format!("{}", f.len);
    assert_eq!(r.to_string(&render), "[ 21 22 ]");
}

#[test]
fn lateral_cast_is_a_quarter_turn() {
    assert_eq!(run_one("j 5_"), "0+j5");
    assert_eq!(run_one("j (j 5_)"), "-5");
    assert_eq!(run_one("j [1_, 2_]"), "[ 0+j1 0+j2 ]");
}

#[test]
fn builtin_len_and_placeholders() {
    assert_eq!(run_one("len([1, 2, 3])"), "3");
    assert_eq!(run_one("len(7)"), "1");
    assert_eq!(run_one("len(1, 2)"), "Error: Expected on argument for len.");
    assert_eq!(run_one("floor(1)"), "Error: Not implemented");
    assert_eq!(run_one("sin(1)"), "Error: No such function 'sin'");
}

#[test]
fn builtins_come_before_user_functions() {
    let mut env = Environment::new();
    run(&mut env, "\\len(a) -> 42");
    assert_eq!(run(&mut env, "len(1)"), "1");
}

#[test]
fn failed_assignment_changes_nothing() {
    let mut env = Environment::new();
    assert_eq!(run(&mut env, "let y = nope"), "Error: No such variable 'nope'");
    assert_eq!(env.vars.len(), 0);
}
