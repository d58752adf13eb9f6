use calc::complex::{IComplex, Relation};
use calc::parser::{parse_stmt, Token};

fn inner(t: Token) -> Token {
    match t {
        Token::Statement(b) => *b,
        other => panic!("not a statement: {:?}", other),
    }
}

#[test]
fn parse_stmts() {
    println!("Assignment: {:?}", parse_stmt("\\sum(x, y) -> x + y").unwrap());
    println!("Assignment: {:?}", parse_stmt("let x = 500").unwrap());

    assert!(parse_stmt("\\sum(x, y) -> x + y").is_ok());
    assert!(parse_stmt("let x = 500").is_ok());
}

#[test]
fn function_definition_keeps_name_and_params() {
    match inner(parse_stmt("\\sum(x, y) -> x + y").unwrap()) {
        Token::FunctionDefinition(name, params, _) => {
            assert_eq!(name, "sum");
            assert_eq!(params, vec![String::from("x"), String::from("y")]);
        }
        other => panic!("unexpected {:?}", other),
    }
}

#[test]
fn function_definition_without_params() {
    match inner(parse_stmt("\\f() -> 1").unwrap()) {
        Token::FunctionDefinition(name, params, _) => {
            assert_eq!(name, "f");
            assert!(params.is_empty());
        }
        other => panic!("unexpected {:?}", other),
    }
}

#[test]
fn assignment_binds_name() {
    match inner(parse_stmt("let x = 5").unwrap()) {
        Token::Assignment(name, _) => assert_eq!(name, "x"),
        other => panic!("unexpected {:?}", other),
    }
}

#[test]
fn expression_statement_structure() {
    let t = inner(parse_stmt("x + 3").unwrap());
    let s = format!("{:?}", t);
    assert!(s.starts_with("Expression(UnaryExpression(ExponentialExpression(ProductExpression(SumExpression("));
    assert!(s.contains("Some(\"+\")"));
    assert!(s.contains("Identifier(\"x\")"));
    assert!(s.contains("Number(\"3\")"));
}

#[test]
fn list_literal_items() {
    let s = format!("{:?}", parse_stmt("[1,2,3]").unwrap());
    assert!(s.contains("List(["));
    assert!(s.contains("Number(\"1\")"));
    assert!(s.contains("Number(\"2\")"));
    assert!(s.contains("Number(\"3\")"));
}

#[test]
fn empty_list_and_call() {
    assert!(parse_stmt("[]").is_ok());
    let s = format!("{:?}", parse_stmt("pi()").unwrap());
    assert!(s.contains("FunctionCall(\"pi\", [])"));
}

#[test]
fn integer_literal_needs_trailing_underscore() {
    let s = format!("{:?}", parse_stmt("10_").unwrap());
    assert!(s.contains("Integer(\"10_\")"));
    let s = format!("{:?}", parse_stmt("1_000_").unwrap());
    assert!(s.contains("Integer(\"1_000_\")"));
    let s = format!("{:?}", parse_stmt("10").unwrap());
    assert!(s.contains("Number(\"10\")"));
}

#[test]
fn number_literal_exponent_is_spelled_upper() {
    let s = format!("{:?}", parse_stmt("6.022e24").unwrap());
    assert!(s.contains("Number(\"6.022E24\")"));
    let s = format!("{:?}", parse_stmt(".9E-7").unwrap());
    assert!(s.contains("Number(\".9E-7\")"));
}

#[test]
fn number_with_dangling_exponent_mark_fails_cleanly() {
    assert_eq!(
        parse_stmt("5E").unwrap_err(),
        "Extra characters at end of expression starting at 1"
    );
}

#[test]
fn trailing_characters_are_rejected() {
    assert_eq!(
        parse_stmt("1 2").unwrap_err(),
        "Extra characters at end of expression starting at 2"
    );
    assert_eq!(
        parse_stmt("let x = 1 )").unwrap_err(),
        "Extra characters at end of expression starting at 10"
    );
}

#[test]
fn missing_term_reports_position() {
    assert_eq!(parse_stmt("").unwrap_err(), "Expected term at pos 0");
    assert_eq!(parse_stmt("+").unwrap_err(), "Expected term at pos 0");
}

#[test]
fn missing_paren_reports_position() {
    assert_eq!(parse_stmt("(1 + 2").unwrap_err(), "Missing ')' at pos 6");
}

#[test]
fn conditional_errors_report_position() {
    assert_eq!(parse_stmt("1 ? 2").unwrap_err(), "Expected ':' at pos 5");
    assert_eq!(parse_stmt("1 ? ").unwrap_err(), "Expected expression after '?' at pos 4");
    assert_eq!(parse_stmt("1 ? 2 : ").unwrap_err(), "Expected expression after ':' at pos 8");
}

#[test]
fn conditional_parses_three_parts() {
    let s = format!("{:?}", parse_stmt("a = b ? x : y").unwrap());
    assert!(s.contains("Some(\"=\")"));
    assert!(s.contains("Identifier(\"x\")"));
    assert!(s.contains("Identifier(\"y\")"));
}

#[test]
fn relational_operators_longest_first() {
    let s = format!("{:?}", parse_stmt("a =/= b").unwrap());
    assert!(s.contains("Some(\"=/=\")"));
    let s = format!("{:?}", parse_stmt("a >= b").unwrap());
    assert!(s.contains("Some(\">=\")"));
    let s = format!("{:?}", parse_stmt("a < b").unwrap());
    assert!(s.contains("Some(\"<\")"));
}

#[test]
fn unary_prefixes() {
    let s = format!("{:?}", parse_stmt("j 2").unwrap());
    assert!(s.contains("Some(\"j\")"));
    let s = format!("{:?}", parse_stmt("-x").unwrap());
    assert!(s.contains("Some(\"-\")"));
}

#[test]
fn identifiers_never_start_with_j() {
    let s = format!("{:?}", parse_stmt("jx").unwrap());
    assert!(s.contains("Some(\"j\")"));
    assert!(s.contains("Identifier(\"x\")"));
}

#[test]
fn power_without_right_operand_is_left_unread() {
    assert_eq!(
        parse_stmt("2 ^").unwrap_err(),
        "Extra characters at end of expression starting at 2"
    );
    let s = format!("{:?}", parse_stmt("2 ^ 3").unwrap());
    assert!(s.contains("ExponentialExpression("));
    assert!(s.contains("Number(\"3\")"));
}

#[test]
fn non_ascii_whitespace_is_skipped() {
    assert!(parse_stmt("1 +\u{a0}2").is_ok());
}

#[test]
fn duplicate_is_equal() {
    let t = parse_stmt("\\f(a, b) -> [a, b] + g(1, 2_) ? -a : j b").unwrap();
    assert_eq!(format!("{:?}", t.duplicate()), format!("{:?}", t));
}

#[test]
fn icomplex_text() {
    assert_eq!(IComplex::new_polar(8, 0).to_string(), "8");
    assert_eq!(IComplex::new_polar(-3, 90).to_string(), "0+j-3");
    assert_eq!(IComplex::new_polar(5, 90).to_string(), "0+j5");
    assert_eq!(IComplex::new_polar(2, 180).to_string(), "-2");
    assert_eq!(IComplex::new_polar(i64::MIN, 0).to_string(), "-9223372036854775808");
}

#[test]
fn icomplex_polar_arithmetic() {
    let a = IComplex::new_polar(4, 30);
    let b = IComplex::new_polar(-3, 15);
    assert_eq!(a.mul(b), IComplex::new_polar(-12, 45));
    assert_eq!(a.div(b), IComplex::new_polar(-1, 15));
    assert_eq!(IComplex::new_polar(7, 0).div(IComplex::new_polar(2, 0)), IComplex::new_polar(3, 0));
    assert_eq!(a.negated(), IComplex::new_polar(-4, 30));
}

#[test]
fn icomplex_to_cardinal_whole_degrees() {
    assert_eq!(IComplex::new_polar(5, 0).to_cardinal(), (5, 0));
    assert_eq!(IComplex::new_polar(5, 90).to_cardinal(), (0, 5));
    assert_eq!(IComplex::new_polar(10, 30).to_cardinal(), (8, 5));
    assert_eq!(IComplex::new_polar(-4, 180).to_cardinal(), (4, 0));
    assert_eq!(IComplex::new_polar(10, -330).to_cardinal(), (8, 5));
}

#[test]
fn icomplex_new_cardinal() {
    assert_eq!(IComplex::new_cardinal(3, 4), IComplex::new_polar(5, 45));
    assert_eq!(IComplex::new_cardinal(0, 7), IComplex::new_polar(7, 180));
    assert_eq!(IComplex::new_cardinal(-2, 4), IComplex::new_polar(4, 117));
    assert_eq!(IComplex::new_cardinal(8, 0), IComplex::new_polar(8, 0));
}

#[test]
fn icomplex_sum_and_difference() {
    let five = IComplex::new_polar(5, 0);
    let three = IComplex::new_polar(3, 0);
    assert_eq!(five.add(three), IComplex::new_polar(8, 0));
    assert_eq!(five.add(three).to_string(), "8");
    assert_eq!(five.sub(three), IComplex::new_polar(2, 0));
    assert_eq!(three.sub(five), IComplex::new_polar(2, 180));
}

#[test]
fn icomplex_comparisons_yield_truth_scalars() {
    let a = IComplex::new_polar(2, 0);
    let b = IComplex::new_polar(3, 0);
    let t = IComplex::new_polar(-1, 0);
    let f = IComplex::new_polar(0, 0);
    assert_eq!(a.compare(a, Relation::Equal), t);
    assert_eq!(a.compare(b, Relation::Equal), f);
    assert_eq!(a.compare(b, Relation::NotEqual), t);
    assert_eq!(b.compare(a, Relation::Greater), t);
    assert_eq!(a.compare(b, Relation::Greater), f);
    assert_eq!(a.compare(b, Relation::Less), t);
    assert_eq!(a.compare(a, Relation::AtLeast), t);
    assert_eq!(b.compare(a, Relation::AtMost), f);
    assert_eq!(IComplex::new_polar(2, 10).compare(a, Relation::Greater), t);
    assert_eq!(a.compare(b, Relation::Equal).to_string(), "0");
}
