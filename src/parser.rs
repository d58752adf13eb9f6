//! The statement parser.

use vstd::prelude::*;
use crate::text::{
    decimal, digit, ident_char, ident_start, is_digit, is_ident_char, is_ident_start, is_ws, message_at,
    ws,
};

verus! {

/// A node of the syntax tree. Binary forms carry an operator and a right
/// operand together, or neither.
#[derive(Debug)]
pub enum Token {
    Statement(Box<Token>),
    FunctionDefinition(String, Vec<String>, Box<Token>),
    Assignment(String, Box<Token>),
    Expression(Box<Token>, Option<Box<Token>>, Option<Box<Token>>),
    UnaryExpression(Box<Token>, Option<String>),
    ExponentialExpression(Box<Token>, Option<Box<Token>>),
    ProductExpression(Box<Token>, Option<String>, Option<Box<Token>>),
    SumExpression(Box<Token>, Option<String>, Option<Box<Token>>),
    RelationalExpression(Box<Token>, Option<String>, Option<Box<Token>>),
    Term(Box<Token>),
    Identifier(String),
    Number(String),
    Integer(String),
    List(Vec<Box<Token>>),
    FunctionCall(String, Vec<Box<Token>>),
}

/// The mathematical form of a [`Token`]: names and literals as character
/// sequences, children as values.
pub enum Ast {
    Statement(Box<Ast>),
    FunctionDefinition(Seq<char>, Seq<Seq<char>>, Box<Ast>),
    Assignment(Seq<char>, Box<Ast>),
    Expression(Box<Ast>, Option<Box<Ast>>, Option<Box<Ast>>),
    UnaryExpression(Box<Ast>, Option<Seq<char>>),
    ExponentialExpression(Box<Ast>, Option<Box<Ast>>),
    ProductExpression(Box<Ast>, Option<Seq<char>>, Option<Box<Ast>>),
    SumExpression(Box<Ast>, Option<Seq<char>>, Option<Box<Ast>>),
    RelationalExpression(Box<Ast>, Option<Seq<char>>, Option<Box<Ast>>),
    Term(Box<Ast>),
    Identifier(Seq<char>),
    Number(Seq<char>),
    Integer(Seq<char>),
    List(Seq<Ast>),
    FunctionCall(Seq<char>, Seq<Ast>),
}

pub open spec fn str_opt_view(o: Option<String>) -> Option<Seq<char>> {
    match o {
        Some(s) => Some(s@),
        None => None,
    }
}

pub open spec fn tok_view(t: Token) -> Ast
    decreases t,
{
    match t {
        Token::Statement(b) => Ast::Statement(Box::new(tok_view(*b))),
        Token::FunctionDefinition(n, ps, b) => Ast::FunctionDefinition(
            n@,
            ps@.map_values(|p: String| p@),
            Box::new(tok_view(*b)),
        ),
        Token::Assignment(n, b) => Ast::Assignment(n@, Box::new(tok_view(*b))),
        Token::Expression(c, t1, f1) => Ast::Expression(
            Box::new(tok_view(*c)),
            match t1 {
                Some(b) => Some(Box::new(tok_view(*b))),
                None => None,
            },
            match f1 {
                Some(b) => Some(Box::new(tok_view(*b))),
                None => None,
            },
        ),
        Token::UnaryExpression(b, op) => Ast::UnaryExpression(
            Box::new(tok_view(*b)),
            str_opt_view(op),
        ),
        Token::ExponentialExpression(l, r) => Ast::ExponentialExpression(
            Box::new(tok_view(*l)),
            match r {
                Some(b) => Some(Box::new(tok_view(*b))),
                None => None,
            },
        ),
        Token::ProductExpression(l, op, r) => Ast::ProductExpression(
            Box::new(tok_view(*l)),
            str_opt_view(op),
            match r {
                Some(b) => Some(Box::new(tok_view(*b))),
                None => None,
            },
        ),
        Token::SumExpression(l, op, r) => Ast::SumExpression(
            Box::new(tok_view(*l)),
            str_opt_view(op),
            match r {
                Some(b) => Some(Box::new(tok_view(*b))),
                None => None,
            },
        ),
        Token::RelationalExpression(l, op, r) => Ast::RelationalExpression(
            Box::new(tok_view(*l)),
            str_opt_view(op),
            match r {
                Some(b) => Some(Box::new(tok_view(*b))),
                None => None,
            },
        ),
        Token::Term(b) => Ast::Term(Box::new(tok_view(*b))),
        Token::Identifier(s) => Ast::Identifier(s@),
        Token::Number(s) => Ast::Number(s@),
        Token::Integer(s) => Ast::Integer(s@),
        Token::List(items) => Ast::List(
            tok_views(items@),
        ),
        Token::FunctionCall(n, items) => Ast::FunctionCall(
            n@,
            tok_views(items@),
        ),
    }
}

/// The views of a sequence of boxed tokens, element by element.
pub open spec fn tok_views(items: Seq<Box<Token>>) -> Seq<Ast>
    decreases items,
{
    Seq::new(
        items.len(),
        |k: int|
            if 0 <= k < items.len() {
                tok_view(*items[k])
            } else {
                Ast::List(Seq::empty())
            },
    )
}

impl View for Token {
    type V = Ast;

    open spec fn view(&self) -> Ast {
        tok_view(*self)
    }
}


/// What a successful rule hands back: the node it built and the offset,
/// counted in characters from the start of the line, just after the node and
/// the whitespace that follows it.
pub struct ParseResult {
    pub new_start: usize,
    pub token: Token,
}

/// A parse outcome in the mathematical form of the grammar rules below.
pub type Parsed = Result<(Ast, int), Seq<char>>;

/// `j` when it lies in `lo ..= s.len()`, else `lo`. Every rule returns an
/// offset in that range; writing the bound out lets the grammar's recursion
/// be seen to terminate from the definitions alone.
pub open spec fn fit(s: Seq<char>, lo: int, j: int) -> int {
    if lo <= j && j <= s.len() {
        j
    } else {
        lo
    }
}

/// The first offset at or after `i` that does not hold whitespace.
pub open spec fn ws_end(s: Seq<char>, i: int) -> int
    decreases s.len() - i,
{
    if 0 <= i < s.len() && is_ws(s[i]) {
        ws_end(s, i + 1)
    } else {
        i
    }
}

/// The end of the run of identifier characters that starts at `i`.
pub open spec fn ident_end(s: Seq<char>, i: int) -> int
    decreases s.len() - i,
{
    if 0 <= i < s.len() && is_ident_char(s[i]) {
        ident_end(s, i + 1)
    } else {
        i
    }
}

/// The end of the run of digits and `_` that starts at `i`.
pub open spec fn int_run_end(s: Seq<char>, i: int) -> int
    decreases s.len() - i,
{
    if 0 <= i < s.len() && (is_digit(s[i]) || s[i] == '_') {
        int_run_end(s, i + 1)
    } else {
        i
    }
}

/// The end of the run of digits that starts at `i`.
pub open spec fn digits_end(s: Seq<char>, i: int) -> int
    decreases s.len() - i,
{
    if 0 <= i < s.len() && is_digit(s[i]) {
        digits_end(s, i + 1)
    } else {
        i
    }
}

/// The end of the run of digits with at most one `.` that starts at `i`;
/// `dot` says whether the run has already had its `.`.
pub open spec fn mantissa_end(s: Seq<char>, i: int, dot: bool) -> int
    decreases s.len() - i,
{
    if 0 <= i < s.len() && (is_digit(s[i]) || (s[i] == '.' && !dot)) {
        mantissa_end(s, i + 1, dot || s[i] == '.')
    } else {
        i
    }
}

/// The word `w` at `i`, then whitespace: the offset after both.
pub open spec fn word_at(s: Seq<char>, i: int, w: Seq<char>) -> Option<int> {
    if w.len() > 0 && 0 <= i && i + w.len() <= s.len() && s.subrange(i, i + w.len()) == w {
        Some(fit(s, i + w.len(), ws_end(s, i + w.len())))
    } else {
        None
    }
}

/// The first of two operator words found at `i`.
pub open spec fn op_at(s: Seq<char>, i: int, a: Seq<char>, b: Seq<char>) -> Option<(Seq<char>, int)> {
    match word_at(s, i, a) {
        Some(k) => Some((a, k)),
        None => match word_at(s, i, b) {
            Some(k) => Some((b, k)),
            None => None,
        },
    }
}

/// The relational operator at `i`; longer operators are tried before their
/// prefixes.
pub open spec fn rel_op_at(s: Seq<char>, i: int) -> Option<(Seq<char>, int)> {
    match op_at(s, i, "=/="@, "="@) {
        Some(r) => Some(r),
        None => match op_at(s, i, ">="@, "<="@) {
            Some(r) => Some(r),
            None => op_at(s, i, ">"@, "<"@),
        },
    }
}

/// An identifier at `i`: a letter or `_` other than `j`, then letters,
/// digits and `_`.
pub open spec fn ident_at(s: Seq<char>, i: int) -> Option<(Seq<char>, int)> {
    if 0 <= i < s.len() && is_ident_start(s[i]) {
        let j = fit(s, i + 1, ident_end(s, i + 1));
        Some((s.subrange(i, j), fit(s, j, ws_end(s, j))))
    } else {
        None
    }
}

/// An integer literal at `i`: a digit, then digits and `_`, ending in `_`.
pub open spec fn integer_at(s: Seq<char>, i: int) -> Option<(Seq<char>, int)> {
    if 0 <= i < s.len() && is_digit(s[i]) {
        let j = fit(s, i + 1, int_run_end(s, i + 1));
        if s[j - 1] == '_' {
            Some((s.subrange(i, j), fit(s, j, ws_end(s, j))))
        } else {
            None
        }
    } else {
        None
    }
}

/// The exponent of a number literal at `i` (just after the `E` or `e`): its
/// text as the literal keeps it and the offset after it, when it has digits.
pub open spec fn exponent_at(s: Seq<char>, i: int) -> Option<(Seq<char>, int)> {
    let neg = 0 <= i < s.len() && s[i] == '-';
    let k = if neg {
        i + 1
    } else {
        i
    };
    let d = fit(s, k, digits_end(s, k));
    if 0 <= i && d > k {
        let mark = if neg {
            seq!['E', '-']
        } else {
            seq!['E']
        };
        Some((mark + s.subrange(k, d), d))
    } else {
        None
    }
}

/// A number literal at `i`: digits with at most one `.`, then an optional
/// exponent written `E` or `e`, an optional `-` and digits. The literal's
/// text always spells the exponent mark `E`.
pub open spec fn number_at(s: Seq<char>, i: int) -> Option<(Seq<char>, int)> {
    if 0 <= i <= s.len() {
        let m = fit(s, i, mantissa_end(s, i, false));
        let (text, e) = if m < s.len() && (s[m] == 'E' || s[m] == 'e') {
            match exponent_at(s, m + 1) {
                Some((x, d)) => (s.subrange(i, m) + x, d),
                None => (s.subrange(i, m), m),
            }
        } else {
            (s.subrange(i, m), m)
        };
        if text.len() > 0 {
            Some((text, fit(s, e, ws_end(s, e))))
        } else {
            None
        }
    } else {
        None
    }
}

pub open spec fn bx(a: Ast) -> Box<Ast> {
    Box::new(a)
}

/// `<expr> ::= <un-expr> [ '?' <expr> ':' <expr> ]`
pub open spec fn expr_at(s: Seq<char>, i: int) -> Parsed
    decreases s.len() - i, 9int,
{
    match un_at(s, i) {
        Err(e) => Err(e),
        Ok((u, j0)) => {
            let j = fit(s, i, j0);
            match word_at(s, j, "?"@) {
                None => Ok((Ast::Expression(bx(u), None, None), j)),
                Some(k) => match expr_at(s, k) {
                    Err(_) => Err("Expected expression after '?' at pos "@ + decimal(k as nat)),
                    Ok((t, m0)) => {
                        let m = fit(s, k, m0);
                        match word_at(s, m, ":"@) {
                            None => Err("Expected ':' at pos "@ + decimal(m as nat)),
                            Some(n) => match expr_at(s, n) {
                                Err(_) => Err(
                                    "Expected expression after ':' at pos "@ + decimal(n as nat),
                                ),
                                Ok((f, p)) => Ok(
                                    (
                                        Ast::Expression(bx(u), Some(bx(t)), Some(bx(f))),
                                        fit(s, n, p),
                                    ),
                                ),
                            },
                        }
                    },
                },
            }
        },
    }
}

/// `<un-expr> ::= [ 'j' | '-' ] <exp-expr>`
pub open spec fn un_at(s: Seq<char>, i: int) -> Parsed
    decreases s.len() - i, 8int,
{
    let (op, k) = match op_at(s, i, "j"@, "-"@) {
        Some((o, k)) => (Some(o), k),
        None => (None, i),
    };
    match exp_at(s, k) {
        Err(e) => Err(e),
        Ok((x, m)) => Ok((Ast::UnaryExpression(bx(x), op), fit(s, k, m))),
    }
}

/// `<exp-expr> ::= <prod-expr> [ '^' <prod-expr> ]`; a `^` without a right
/// operand is left unconsumed.
pub open spec fn exp_at(s: Seq<char>, i: int) -> Parsed
    decreases s.len() - i, 7int,
{
    match prod_at(s, i) {
        Err(e) => Err(e),
        Ok((a, j0)) => {
            let j = fit(s, i, j0);
            match word_at(s, j, "^"@) {
                None => Ok((Ast::ExponentialExpression(bx(a), None), j)),
                Some(k) => match prod_at(s, k) {
                    Err(_) => Ok((Ast::ExponentialExpression(bx(a), None), j)),
                    Ok((b, m)) => Ok((Ast::ExponentialExpression(bx(a), Some(bx(b))), fit(s, k, m))),
                },
            }
        },
    }
}

/// `<prod-expr> ::= <sum-expr> [ ( '*' | '/' ) <sum-expr> ]`
pub open spec fn prod_at(s: Seq<char>, i: int) -> Parsed
    decreases s.len() - i, 6int,
{
    match sum_at(s, i) {
        Err(e) => Err(e),
        Ok((a, j0)) => {
            let j = fit(s, i, j0);
            match op_at(s, j, "*"@, "/"@) {
                None => Ok((Ast::ProductExpression(bx(a), None, None), j)),
                Some((o, k)) => match sum_at(s, k) {
                    Err(_) => Ok((Ast::ProductExpression(bx(a), None, None), j)),
                    Ok((b, m)) => Ok(
                        (Ast::ProductExpression(bx(a), Some(o), Some(bx(b))), fit(s, k, m)),
                    ),
                },
            }
        },
    }
}

/// `<sum-expr> ::= <rel-expr> [ ( '+' | '-' ) <rel-expr> ]`
pub open spec fn sum_at(s: Seq<char>, i: int) -> Parsed
    decreases s.len() - i, 5int,
{
    match rel_at(s, i) {
        Err(e) => Err(e),
        Ok((a, j0)) => {
            let j = fit(s, i, j0);
            match op_at(s, j, "+"@, "-"@) {
                None => Ok((Ast::SumExpression(bx(a), None, None), j)),
                Some((o, k)) => match rel_at(s, k) {
                    Err(_) => Ok((Ast::SumExpression(bx(a), None, None), j)),
                    Ok((b, m)) => Ok(
                        (Ast::SumExpression(bx(a), Some(o), Some(bx(b))), fit(s, k, m)),
                    ),
                },
            }
        },
    }
}

/// `<rel-expr> ::= <term> [ <rel-op> <term> ]`
pub open spec fn rel_at(s: Seq<char>, i: int) -> Parsed
    decreases s.len() - i, 4int,
{
    match term_at(s, i) {
        Err(e) => Err(e),
        Ok((a, j0)) => {
            let j = fit(s, i, j0);
            match rel_op_at(s, j) {
                None => Ok((Ast::RelationalExpression(bx(a), None, None), j)),
                Some((o, k)) => match term_at(s, k) {
                    Err(_) => Ok((Ast::RelationalExpression(bx(a), None, None), j)),
                    Ok((b, m)) => Ok(
                        (Ast::RelationalExpression(bx(a), Some(o), Some(bx(b))), fit(s, k, m)),
                    ),
                },
            }
        },
    }
}

/// `<term> ::= '(' <expr> ')' | <list> | <func-call> | <ident> | <int> | <float>`,
/// tried in that order.
pub open spec fn term_at(s: Seq<char>, i: int) -> Parsed
    decreases s.len() - i, 3int,
{
    match word_at(s, i, "("@) {
        Some(k) => match expr_at(s, k) {
            Err(e) => Err(e),
            Ok((x, m0)) => {
                let m = fit(s, k, m0);
                match word_at(s, m, ")"@) {
                    None => Err("Missing ')' at pos "@ + decimal(m as nat)),
                    Some(n) => Ok((Ast::Term(bx(x)), n)),
                }
            },
        },
        None => match list_at(s, i) {
            Some((l, k)) => Ok((Ast::Term(bx(l)), fit(s, i, k))),
            None => match call_at(s, i) {
                Some((c, k)) => Ok((Ast::Term(bx(c)), fit(s, i, k))),
                None => match ident_at(s, i) {
                    Some((n, k)) => Ok((Ast::Term(bx(Ast::Identifier(n))), k)),
                    None => match integer_at(s, i) {
                        Some((n, k)) => Ok((Ast::Term(bx(Ast::Integer(n))), k)),
                        None => match number_at(s, i) {
                            Some((n, k)) => Ok((Ast::Term(bx(Ast::Number(n))), k)),
                            None => Err("Expected term at pos "@ + decimal(i as nat)),
                        },
                    },
                },
            },
        },
    }
}

/// `[ <expr> { ',' <expr> } ] <close>` after an opening delimiter that ended
/// at `k > i`: the items and the offset after `close`.
pub open spec fn items_at(s: Seq<char>, i: int, k: int, close: Seq<char>) -> Option<(Seq<Ast>, int)>
    decreases s.len() - i, 1int,
{
    if i < k && k <= s.len() {
        match expr_at(s, k) {
            Ok((first, m0)) => {
                let m = fit(s, k, m0);
                match more_at(s, m) {
                    None => None,
                    Some((rest, n0)) => match word_at(s, fit(s, m, n0), close) {
                        None => None,
                        Some(p) => Some((seq![first] + rest, p)),
                    },
                }
            },
            Err(_) => match word_at(s, k, close) {
                None => None,
                Some(p) => Some((seq![], p)),
            },
        }
    } else {
        None
    }
}

/// `{ ',' <expr> }` at `i`; a `,` that is not followed by an expression
/// fails the enclosing list.
pub open spec fn more_at(s: Seq<char>, i: int) -> Option<(Seq<Ast>, int)>
    decreases s.len() - i, 0int,
{
    match word_at(s, i, ","@) {
        None => Some((seq![], i)),
        Some(k) => match expr_at(s, k) {
            Err(_) => None,
            Ok((e, m0)) => {
                let m = fit(s, k, m0);
                match more_at(s, m) {
                    None => None,
                    Some((rest, n)) => Some((seq![e] + rest, fit(s, m, n))),
                }
            },
        },
    }
}

/// `<list> ::= '[' [ <expr> { ',' <expr> } ] ']'`
pub open spec fn list_at(s: Seq<char>, i: int) -> Option<(Ast, int)>
    decreases s.len() - i, 2int,
{
    match word_at(s, i, "["@) {
        None => None,
        Some(k) => match items_at(s, i, k, "]"@) {
            None => None,
            Some((items, p)) => Some((Ast::List(items), fit(s, i, p))),
        },
    }
}

/// `<func-call> ::= <ident> '(' [ <expr> { ',' <expr> } ] ')'`
pub open spec fn call_at(s: Seq<char>, i: int) -> Option<(Ast, int)>
    decreases s.len() - i, 2int,
{
    match ident_at(s, i) {
        None => None,
        Some((name, k)) => match word_at(s, k, "("@) {
            None => None,
            Some(k2) => match items_at(s, i, k2, ")"@) {
                None => None,
                Some((args, p)) => Some((Ast::FunctionCall(name, args), fit(s, i, p))),
            },
        },
    }
}

/// `{ ',' <ident> }` at `i`.
pub open spec fn params_more(s: Seq<char>, i: int) -> Option<(Seq<Seq<char>>, int)>
    decreases s.len() - i,
{
    match word_at(s, i, ","@) {
        None => Some((seq![], i)),
        Some(k) => match ident_at(s, k) {
            None => None,
            Some((p, m)) => match params_more(s, m) {
                None => None,
                Some((ps, n)) => Some((seq![p] + ps, n)),
            },
        },
    }
}

/// `[ <ident> { ',' <ident> } ]` at `i`.
pub open spec fn params_at(s: Seq<char>, i: int) -> Option<(Seq<Seq<char>>, int)> {
    match ident_at(s, i) {
        None => Some((seq![], i)),
        Some((p, m)) => match params_more(s, m) {
            None => None,
            Some((ps, n)) => Some((seq![p] + ps, n)),
        },
    }
}

/// `<func-def> ::= '\' <ident> '(' [ <ident> { ',' <ident> } ] ')' '->' <expr>`
pub open spec fn func_def_at(s: Seq<char>) -> Option<(Ast, int)> {
    match word_at(s, 0, "\\"@) {
        None => None,
        Some(a) => match ident_at(s, a) {
            None => None,
            Some((name, b)) => match word_at(s, b, "("@) {
                None => None,
                Some(c) => match params_at(s, c) {
                    None => None,
                    Some((ps, d)) => match word_at(s, d, ")"@) {
                        None => None,
                        Some(e) => match word_at(s, e, "->"@) {
                            None => None,
                            Some(f) => match expr_at(s, f) {
                                Err(_) => None,
                                Ok((body, g)) => Some(
                                    (Ast::FunctionDefinition(name, ps, bx(body)), g),
                                ),
                            },
                        },
                    },
                },
            },
        },
    }
}

/// `<asgn> ::= 'let' <ident> '=' <expr>`
pub open spec fn asgn_at(s: Seq<char>) -> Option<(Ast, int)> {
    match word_at(s, 0, "let"@) {
        None => None,
        Some(a) => match ident_at(s, a) {
            None => None,
            Some((name, b)) => match word_at(s, b, "="@) {
                None => None,
                Some(c) => match expr_at(s, c) {
                    Err(_) => None,
                    Ok((body, d)) => Some((Ast::Assignment(name, bx(body)), d)),
                },
            },
        },
    }
}

/// The first statement form that matches at the start of the line, with the
/// offset where it ends: a function definition, an assignment, or else an
/// expression.
pub open spec fn stmt_prefix(s: Seq<char>) -> Parsed {
    match func_def_at(s) {
        Some(r) => Ok(r),
        None => match asgn_at(s) {
            Some(r) => Ok(r),
            None => expr_at(s, 0),
        },
    }
}

/// The message for a line whose statement ends at `j`, before its end.
pub open spec fn extra_chars(j: int) -> Seq<char> {
    "Extra characters at end of expression starting at "@ + decimal(j as nat)
}

/// A whole line as one statement: the statement's node wrapped in
/// `Statement`, or the failure of its last form, or a failure because
/// characters remain after it.
pub open spec fn statement(s: Seq<char>) -> Result<Ast, Seq<char>> {
    match stmt_prefix(s) {
        Err(e) => Err(e),
        Ok((t, j)) => if j < s.len() {
            Err(extra_chars(j))
        } else {
            Ok(Ast::Statement(bx(t)))
        },
    }
}

/* How executable results relate to the grammar above. */

pub open spec fn same_pos(r: Option<usize>, m: Option<int>) -> bool {
    match r {
        Some(j) => m == Some(j as int),
        None => m is None,
    }
}

pub open spec fn same_text(r: Option<(String, usize)>, m: Option<(Seq<char>, int)>) -> bool {
    match r {
        Some((t, j)) => m == Some((t@, j as int)),
        None => m is None,
    }
}

pub open spec fn same_node(r: Option<ParseResult>, m: Option<(Ast, int)>) -> bool {
    match r {
        Some(p) => m == Some((p.token@, p.new_start as int)),
        None => m is None,
    }
}

pub open spec fn same_items(r: Option<(Vec<Box<Token>>, usize)>, m: Option<(Seq<Ast>, int)>) -> bool {
    match r {
        Some((v, j)) => m == Some((tok_views(v@), j as int)),
        None => m is None,
    }
}

pub open spec fn same_parse(r: Result<ParseResult, String>, m: Parsed) -> bool {
    match r {
        Ok(p) => m == Parsed::Ok((p.token@, p.new_start as int)),
        Err(e) => m == Parsed::Err(e@),
    }
}

/// A successful result ends in `lo ..= hi`.
pub open spec fn ends_within(r: Result<ParseResult, String>, lo: int, hi: int) -> bool {
    match r {
        Ok(p) => lo <= p.new_start <= hi,
        Err(_) => true,
    }
}

pub open spec fn node_within(r: Option<ParseResult>, lo: int, hi: int) -> bool {
    match r {
        Some(p) => lo <= p.new_start <= hi,
        None => true,
    }
}

pub open spec fn text_within(r: Option<(String, usize)>, lo: int, hi: int) -> bool {
    match r {
        Some((_, j)) => lo <= j <= hi,
        None => true,
    }
}

/* The executable parser. Offsets count characters of the line. */

fn parse_whitespace(cs: &Vec<char>, i: usize) -> (j: usize)
    requires
        i <= cs.len(),
    ensures
        j == ws_end(cs@, i as int),
        i <= j <= cs.len(),
{
    let mut j = i;
    while j < cs.len() && ws(cs[j])
        invariant
            i <= j <= cs.len(),
            ws_end(cs@, j as int) == ws_end(cs@, i as int),
        decreases cs.len() - j,
    {
        j += 1;
    }
    j
}

fn scan_ident(cs: &Vec<char>, i: usize) -> (j: usize)
    requires
        i <= cs.len(),
    ensures
        j == ident_end(cs@, i as int),
        i <= j <= cs.len(),
{
    let mut j = i;
    while j < cs.len() && ident_char(cs[j])
        invariant
            i <= j <= cs.len(),
            ident_end(cs@, j as int) == ident_end(cs@, i as int),
        decreases cs.len() - j,
    {
        j += 1;
    }
    j
}

fn scan_int_run(cs: &Vec<char>, i: usize) -> (j: usize)
    requires
        i <= cs.len(),
    ensures
        j == int_run_end(cs@, i as int),
        i <= j <= cs.len(),
{
    let mut j = i;
    while j < cs.len() && (digit(cs[j]) || cs[j] == '_')
        invariant
            i <= j <= cs.len(),
            int_run_end(cs@, j as int) == int_run_end(cs@, i as int),
        decreases cs.len() - j,
    {
        j += 1;
    }
    j
}

fn scan_digits(cs: &Vec<char>, i: usize) -> (j: usize)
    requires
        i <= cs.len(),
    ensures
        j == digits_end(cs@, i as int),
        i <= j <= cs.len(),
{
    let mut j = i;
    while j < cs.len() && digit(cs[j])
        invariant
            i <= j <= cs.len(),
            digits_end(cs@, j as int) == digits_end(cs@, i as int),
        decreases cs.len() - j,
    {
        j += 1;
    }
    j
}

fn scan_mantissa(cs: &Vec<char>, i: usize) -> (j: usize)
    requires
        i <= cs.len(),
    ensures
        j == mantissa_end(cs@, i as int, false),
        i <= j <= cs.len(),
{
    let mut j = i;
    let mut dot = false;
    while j < cs.len() && (digit(cs[j]) || (cs[j] == '.' && !dot))
        invariant
            i <= j <= cs.len(),
            mantissa_end(cs@, j as int, dot) == mantissa_end(cs@, i as int, false),
        decreases cs.len() - j,
    {
        dot = dot || cs[j] == '.';
        j += 1;
    }
    j
}

/// The word `word` at `i`, then whitespace.
fn parse_word(word: &str, cs: &Vec<char>, i: usize) -> (r: Option<usize>)
    requires
        i <= cs.len(),
    ensures
        same_pos(r, word_at(cs@, i as int, word@)),
        match r {
            Some(j) => i < j <= cs.len(),
            None => true,
        },
{
    let n = word.unicode_len();
    if n == 0 || n > cs.len() - i {
        return None;
    }
    let mut k: usize = 0;
    while k < n
        invariant
            n == word@.len(),
            i + n <= cs.len(),
            k <= n,
            forall|t: int| 0 <= t < k ==> cs@[i + t] == word@[t],
        decreases n - k,
    {
        if cs[i + k] != word.get_char(k) {
            proof {
                assert(cs@.subrange(i as int, i + n)[k as int] != word@[k as int]);
            }
            return None;
        }
        k += 1;
    }
    proof {
        assert(cs@.subrange(i as int, i + n) =~= word@);
    }
    Some(parse_whitespace(cs, i + n))
}

/// The first of the words `a`, `b` at `i`, as an operator string.
fn parse_op(a: &str, b: &str, cs: &Vec<char>, i: usize) -> (r: Option<(String, usize)>)
    requires
        i <= cs.len(),
    ensures
        same_text(r, op_at(cs@, i as int, a@, b@)),
        text_within(r, i + 1, cs.len() as int),
{
    match parse_word(a, cs, i) {
        Some(k) => Some((String::from_str(a), k)),
        None => match parse_word(b, cs, i) {
            Some(k) => Some((String::from_str(b), k)),
            None => None,
        },
    }
}

fn parse_rel_op(cs: &Vec<char>, i: usize) -> (r: Option<(String, usize)>)
    requires
        i <= cs.len(),
    ensures
        same_text(r, rel_op_at(cs@, i as int)),
        text_within(r, i + 1, cs.len() as int),
{
    match parse_op("=/=", "=", cs, i) {
        Some(r) => Some(r),
        None => match parse_op(">=", "<=", cs, i) {
            Some(r) => Some(r),
            None => parse_op(">", "<", cs, i),
        },
    }
}

/// `<ident> ::= /[A-Za-z_][A-Za-z_0-9]*/`, not starting with `j`.
fn parse_ident(code: &str, cs: &Vec<char>, i: usize) -> (r: Option<(String, usize)>)
    requires
        code@ == cs@,
        i <= cs.len(),
    ensures
        same_text(r, ident_at(cs@, i as int)),
        text_within(r, i + 1, cs.len() as int),
{
    if i < cs.len() && ident_start(cs[i]) {
        let j = scan_ident(cs, i + 1);
        let name = String::from_str(code.substring_char(i, j));
        let k = parse_whitespace(cs, j);
        Some((name, k))
    } else {
        None
    }
}

/// `<int> ::= /[0-9][0-9_]*_/`
fn parse_integer(code: &str, cs: &Vec<char>, i: usize) -> (r: Option<(String, usize)>)
    requires
        code@ == cs@,
        i <= cs.len(),
    ensures
        same_text(r, integer_at(cs@, i as int)),
        text_within(r, i + 1, cs.len() as int),
{
    if i < cs.len() && digit(cs[i]) {
        let j = scan_int_run(cs, i + 1);
        if cs[j - 1] == '_' {
            let text = String::from_str(code.substring_char(i, j));
            let k = parse_whitespace(cs, j);
            Some((text, k))
        } else {
            None
        }
    } else {
        None
    }
}

fn parse_exponent(code: &str, cs: &Vec<char>, i: usize) -> (r: Option<(String, usize)>)
    requires
        code@ == cs@,
        i <= cs.len(),
    ensures
        same_text(r, exponent_at(cs@, i as int)),
        text_within(r, i as int, cs.len() as int),
{
    proof {
        reveal_strlit("E");
        reveal_strlit("E-");
    }
    let neg = i < cs.len() && cs[i] == '-';
    let k = if neg {
        i + 1
    } else {
        i
    };
    let d = scan_digits(cs, k);
    if d > k {
        let mut text = String::from_str(
            if neg {
                "E-"
            } else {
                "E"
            },
        );
        text.append(code.substring_char(k, d));
        proof {
            let mark = if neg {
                seq!['E', '-']
            } else {
                seq!['E']
            };
            assert(text@ =~= mark + cs@.subrange(k as int, d as int));
        }
        Some((text, d))
    } else {
        None
    }
}

/// `<float> ::= /[0-9.]*([Ee]-?[0-9]+)?/` with at most one `.`, not empty.
fn parse_number(code: &str, cs: &Vec<char>, i: usize) -> (r: Option<(String, usize)>)
    requires
        code@ == cs@,
        i <= cs.len(),
    ensures
        same_text(r, number_at(cs@, i as int)),
        text_within(r, i as int, cs.len() as int),
{
    let m = scan_mantissa(cs, i);
    let mut text = String::from_str(code.substring_char(i, m));
    let mut e = m;
    if m < cs.len() && (cs[m] == 'E' || cs[m] == 'e') {
        match parse_exponent(code, cs, m + 1) {
            Some((x, d)) => {
                text.append(x.as_str());
                e = d;
            },
            None => {},
        }
    }
    if text.as_str().unicode_len() > 0 {
        let k = parse_whitespace(cs, e);
        Some((text, k))
    } else {
        None
    }
}

/// `<expr> ::= <un-expr> [ '?' <expr> ':' <expr> ]`
fn parse_expr(code: &str, cs: &Vec<char>, pos: usize) -> (r: Result<ParseResult, String>)
    requires
        code@ == cs@,
        pos <= cs.len(),
    ensures
        same_parse(r, expr_at(cs@, pos as int)),
        ends_within(r, pos as int, cs.len() as int),
    decreases cs@.len() - pos, 9int, 1int,
{
    match parse_un_expr(code, cs, pos) {
        Err(e) => Err(e),
        Ok(u) => {
            let ParseResult { new_start: j, token: ut } = u;
            match parse_word("?", cs, j) {
                None => Ok(ParseResult { new_start: j, token: Token::Expression(Box::new(ut), None, None) }),
                Some(k) => match parse_expr(code, cs, k) {
                    Err(_) => Err(message_at("Expected expression after '?' at pos ", k)),
                    Ok(t) => {
                        let ParseResult { new_start: m, token: tt } = t;
                        match parse_word(":", cs, m) {
                            None => Err(message_at("Expected ':' at pos ", m)),
                            Some(n) => match parse_expr(code, cs, n) {
                                Err(_) => Err(message_at("Expected expression after ':' at pos ", n)),
                                Ok(f) => Ok(
                                    ParseResult {
                                        new_start: f.new_start,
                                        token: Token::Expression(
                                            Box::new(ut),
                                            Some(Box::new(tt)),
                                            Some(Box::new(f.token)),
                                        ),
                                    },
                                ),
                            },
                        }
                    },
                },
            }
        },
    }
}

/// `<un-expr> ::= [ 'j' | '-' ] <exp-expr>`
fn parse_un_expr(code: &str, cs: &Vec<char>, pos: usize) -> (r: Result<ParseResult, String>)
    requires
        code@ == cs@,
        pos <= cs.len(),
    ensures
        same_parse(r, un_at(cs@, pos as int)),
        ends_within(r, pos as int, cs.len() as int),
    decreases cs@.len() - pos, 8int, 1int,
{
    let (op, k) = match parse_op("j", "-", cs, pos) {
        Some((o, k)) => (Some(o), k),
        None => (None, pos),
    };
    match parse_exp_expr(code, cs, k) {
        Err(e) => Err(e),
        Ok(x) => Ok(ParseResult { new_start: x.new_start, token: Token::UnaryExpression(Box::new(x.token), op) }),
    }
}

/// `<exp-expr> ::= <prod-expr> [ '^' <prod-expr> ]`
fn parse_exp_expr(code: &str, cs: &Vec<char>, pos: usize) -> (r: Result<ParseResult, String>)
    requires
        code@ == cs@,
        pos <= cs.len(),
    ensures
        same_parse(r, exp_at(cs@, pos as int)),
        ends_within(r, pos as int, cs.len() as int),
    decreases cs@.len() - pos, 7int, 1int,
{
    match parse_prod_expr(code, cs, pos) {
        Err(e) => Err(e),
        Ok(a) => exp_tail(code, cs, pos, a),
    }
}

/// The optional `'^' <prod-expr>` after the base `a` of an exponential
/// expression that starts at `pos`.
fn exp_tail(code: &str, cs: &Vec<char>, pos: usize, a: ParseResult) -> (r: Result<ParseResult, String>)
    requires
        code@ == cs@,
        pos <= a.new_start <= cs.len(),
        prod_at(cs@, pos as int) == Parsed::Ok((a.token@, a.new_start as int)),
    ensures
        same_parse(r, exp_at(cs@, pos as int)),
        ends_within(r, pos as int, cs.len() as int),
    decreases cs@.len() - pos, 7int, 0int,
{
    let ParseResult { new_start: j, token: at } = a;
    let ghost av = at@;
    match parse_word("^", cs, j) {
        None => {
            let t = Token::ExponentialExpression(Box::new(at), None);
            assert(t@ == Ast::ExponentialExpression(bx(av), None));
            Ok(ParseResult { new_start: j, token: t })
        },
        Some(k) => match parse_prod_expr(code, cs, k) {
            Err(_) => {
                let t = Token::ExponentialExpression(Box::new(at), None);
                assert(t@ == Ast::ExponentialExpression(bx(av), None));
                Ok(ParseResult { new_start: j, token: t })
            },
            Ok(b) => {
                let ghost bv = b.token@;
                let m = b.new_start;
                let t = Token::ExponentialExpression(Box::new(at), Some(Box::new(b.token)));
                assert(t@ == Ast::ExponentialExpression(bx(av), Some(bx(bv))));
                Ok(ParseResult { new_start: m, token: t })
            },
        },
    }
}

/// `<prod-expr> ::= <sum-expr> [ ( '*' | '/' ) <sum-expr> ]`
fn parse_prod_expr(code: &str, cs: &Vec<char>, pos: usize) -> (r: Result<ParseResult, String>)
    requires
        code@ == cs@,
        pos <= cs.len(),
    ensures
        same_parse(r, prod_at(cs@, pos as int)),
        ends_within(r, pos as int, cs.len() as int),
    decreases cs@.len() - pos, 6int, 1int,
{
    match parse_sum_expr(code, cs, pos) {
        Err(e) => Err(e),
        Ok(a) => {
            let ParseResult { new_start: j, token: at } = a;
            match parse_op("*", "/", cs, j) {
                None => Ok(ParseResult { new_start: j, token: Token::ProductExpression(Box::new(at), None, None) }),
                Some((o, k)) => match parse_sum_expr(code, cs, k) {
                    Err(_) => Ok(ParseResult { new_start: j, token: Token::ProductExpression(Box::new(at), None, None) }),
                    Ok(b) => Ok(
                        ParseResult {
                            new_start: b.new_start,
                            token: Token::ProductExpression(Box::new(at), Some(o), Some(Box::new(b.token))),
                        },
                    ),
                },
            }
        },
    }
}

/// `<sum-expr> ::= <rel-expr> [ ( '+' | '-' ) <rel-expr> ]`
fn parse_sum_expr(code: &str, cs: &Vec<char>, pos: usize) -> (r: Result<ParseResult, String>)
    requires
        code@ == cs@,
        pos <= cs.len(),
    ensures
        same_parse(r, sum_at(cs@, pos as int)),
        ends_within(r, pos as int, cs.len() as int),
    decreases cs@.len() - pos, 5int, 1int,
{
    match parse_rel_expr(code, cs, pos) {
        Err(e) => Err(e),
        Ok(a) => {
            let ParseResult { new_start: j, token: at } = a;
            match parse_op("+", "-", cs, j) {
                None => Ok(ParseResult { new_start: j, token: Token::SumExpression(Box::new(at), None, None) }),
                Some((o, k)) => match parse_rel_expr(code, cs, k) {
                    Err(_) => Ok(ParseResult { new_start: j, token: Token::SumExpression(Box::new(at), None, None) }),
                    Ok(b) => Ok(
                        ParseResult {
                            new_start: b.new_start,
                            token: Token::SumExpression(Box::new(at), Some(o), Some(Box::new(b.token))),
                        },
                    ),
                },
            }
        },
    }
}

/// `<rel-expr> ::= <term> [ ( '=' | '=/=' | '>' | '<' | '>=' | '<=' ) <term> ]`
fn parse_rel_expr(code: &str, cs: &Vec<char>, pos: usize) -> (r: Result<ParseResult, String>)
    requires
        code@ == cs@,
        pos <= cs.len(),
    ensures
        same_parse(r, rel_at(cs@, pos as int)),
        ends_within(r, pos as int, cs.len() as int),
    decreases cs@.len() - pos, 4int, 1int,
{
    match parse_term(code, cs, pos) {
        Err(e) => Err(e),
        Ok(a) => {
            let ParseResult { new_start: j, token: at } = a;
            match parse_rel_op(cs, j) {
                None => Ok(ParseResult { new_start: j, token: Token::RelationalExpression(Box::new(at), None, None) }),
                Some((o, k)) => match parse_term(code, cs, k) {
                    Err(_) => Ok(ParseResult { new_start: j, token: Token::RelationalExpression(Box::new(at), None, None) }),
                    Ok(b) => Ok(
                        ParseResult {
                            new_start: b.new_start,
                            token: Token::RelationalExpression(Box::new(at), Some(o), Some(Box::new(b.token))),
                        },
                    ),
                },
            }
        },
    }
}

/// `<term> ::= '(' <expr> ')' | <list> | <func-call> | <ident> | <int> | <float>`
fn parse_term(code: &str, cs: &Vec<char>, pos: usize) -> (r: Result<ParseResult, String>)
    requires
        code@ == cs@,
        pos <= cs.len(),
    ensures
        same_parse(r, term_at(cs@, pos as int)),
        ends_within(r, pos as int, cs.len() as int),
    decreases cs@.len() - pos, 3int, 1int,
{
    match parse_word("(", cs, pos) {
        Some(k) => match parse_expr(code, cs, k) {
            Err(e) => Err(e),
            Ok(x) => {
                let ParseResult { new_start: m, token: xt } = x;
                let ghost xv = xt@;
                match parse_word(")", cs, m) {
                    None => Err(message_at("Missing ')' at pos ", m)),
                    Some(n) => {
                        let t = Token::Term(Box::new(xt));
                        assert(t@ == Ast::Term(bx(xv)));
                        Ok(ParseResult { new_start: n, token: t })
                    },
                }
            },
        },
        None => term_atom(code, cs, pos),
    }
}

/// The terms that do not start with `(`, tried in order.
#[verifier::rlimit(50)]
fn term_atom(code: &str, cs: &Vec<char>, pos: usize) -> (r: Result<ParseResult, String>)
    requires
        code@ == cs@,
        pos <= cs.len(),
        word_at(cs@, pos as int, "("@) is None,
    ensures
        same_parse(r, term_at(cs@, pos as int)),
        ends_within(r, pos as int, cs.len() as int),
    decreases cs@.len() - pos, 3int, 0int,
{
    match parse_list(code, cs, pos) {
        Some(l) => {
            let ghost lv = l.token@;
            let t = Token::Term(Box::new(l.token));
            assert(t@ == Ast::Term(bx(lv)));
            Ok(ParseResult { new_start: l.new_start, token: t })
        },
        None => match parse_func_call(code, cs, pos) {
            Some(c) => {
                let ghost cv = c.token@;
                let t = Token::Term(Box::new(c.token));
                assert(t@ == Ast::Term(bx(cv)));
                Ok(ParseResult { new_start: c.new_start, token: t })
            },
            None => match parse_ident(code, cs, pos) {
                Some((n, k)) => {
                    let ghost nv = n@;
                    let inner = Token::Identifier(n);
                    assert(inner@ == Ast::Identifier(nv));
                    let t = Token::Term(Box::new(inner));
                    assert(t@ == Ast::Term(bx(Ast::Identifier(nv))));
                    Ok(ParseResult { new_start: k, token: t })
                },
                None => match parse_integer(code, cs, pos) {
                    Some((n, k)) => {
                        let ghost nv = n@;
                        let inner = Token::Integer(n);
                    assert(inner@ == Ast::Integer(nv));
                    let t = Token::Term(Box::new(inner));
                        assert(t@ == Ast::Term(bx(Ast::Integer(nv))));
                        Ok(ParseResult { new_start: k, token: t })
                    },
                    None => match parse_number(code, cs, pos) {
                        Some((n, k)) => {
                            let ghost nv = n@;
                            let inner = Token::Number(n);
                    assert(inner@ == Ast::Number(nv));
                    let t = Token::Term(Box::new(inner));
                            assert(t@ == Ast::Term(bx(Ast::Number(nv))));
                            Ok(ParseResult { new_start: k, token: t })
                        },
                        None => Err(message_at("Expected term at pos ", pos)),
                    },
                },
            },
        },
    }
}

/// The items of a list or an argument list whose opening delimiter ended at
/// `k`, through the closing word `close`.
#[verifier::rlimit(100)]
fn parse_items(code: &str, cs: &Vec<char>, pos: usize, k: usize, close: &str) -> (r: Option<(Vec<Box<Token>>, usize)>)
    requires
        code@ == cs@,
        pos < k <= cs.len(),
    ensures
        same_items(r, items_at(cs@, pos as int, k as int, close@)),
        match r {
            Some((_, j)) => k < j <= cs.len(),
            None => true,
        },
    decreases cs@.len() - pos, 1int, 1int,
{
    match parse_expr(code, cs, k) {
        Ok(first) => items_tail(code, cs, pos, k, first, close),
        Err(_) => match parse_word(close, cs, k) {
            None => None,
            Some(p) => {
                proof {
                    assert(tok_views(Seq::<Box<Token>>::empty()) =~= Seq::<Ast>::empty());
                }
                Some((Vec::new(), p))
            },
        },
    }
}

/// The rest of a list or an argument list after its first item `first`.
#[verifier::rlimit(100)]
fn items_tail(code: &str, cs: &Vec<char>, pos: usize, k: usize, first: ParseResult, close: &str) -> (r: Option<(Vec<Box<Token>>, usize)>)
    requires
        code@ == cs@,
        pos < k <= first.new_start <= cs.len(),
        expr_at(cs@, k as int) == Parsed::Ok((first.token@, first.new_start as int)),
    ensures
        same_items(r, items_at(cs@, pos as int, k as int, close@)),
        match r {
            Some((_, j)) => k < j <= cs.len(),
            None => true,
        },
    decreases cs@.len() - pos, 1int, 0int,
{
    let ParseResult { new_start: m, token: ft } = first;
    match parse_more(code, cs, m) {
        None => None,
        Some((rest, n)) => match parse_word(close, cs, n) {
            None => None,
            Some(p) => {
                let ghost rv = rest@;
                let ghost fv = ft@;
                let mut items = rest;
                items.insert(0, Box::new(ft));
                proof {
                    assert(tok_views(items@) =~= seq![fv] + tok_views(rv));
                }
                Some((items, p))
            },
        },
    }
}

/// `{ ',' <expr> }`
fn parse_more(code: &str, cs: &Vec<char>, pos: usize) -> (r: Option<(Vec<Box<Token>>, usize)>)
    requires
        code@ == cs@,
        pos <= cs.len(),
    ensures
        same_items(r, more_at(cs@, pos as int)),
        match r {
            Some((_, j)) => pos <= j <= cs.len(),
            None => true,
        },
    decreases cs@.len() - pos, 0int, 1int,
{
    match parse_word(",", cs, pos) {
        None => {
            proof {
                assert(tok_views(Seq::<Box<Token>>::empty()) =~= Seq::<Ast>::empty());
            }
            Some((Vec::new(), pos))
        },
        Some(k) => match parse_expr(code, cs, k) {
            Err(_) => None,
            Ok(e) => {
                let ParseResult { new_start: m, token: et } = e;
                match parse_more(code, cs, m) {
                    None => None,
                    Some((rest, n)) => {
                        let ghost rv = rest@;
                        let ghost ev = et@;
                        let mut items = rest;
                        items.insert(0, Box::new(et));
                        proof {
                            assert(tok_views(items@) =~= seq![ev] + tok_views(rv));
                        }
                        Some((items, n))
                    },
                }
            },
        },
    }
}

/// `<list> ::= '[' [ <expr> { ',' <expr> } ] ']'`
#[verifier::rlimit(100)]
fn parse_list(code: &str, cs: &Vec<char>, pos: usize) -> (r: Option<ParseResult>)
    requires
        code@ == cs@,
        pos <= cs.len(),
    ensures
        same_node(r, list_at(cs@, pos as int)),
        node_within(r, pos as int, cs.len() as int),
    decreases cs@.len() - pos, 2int, 1int,
{
    match parse_word("[", cs, pos) {
        None => None,
        Some(k) => match parse_items(code, cs, pos, k, "]") {
            None => None,
            Some((items, p)) => Some(ParseResult { new_start: p, token: Token::List(items) }),
        },
    }
}

/// `<func-call> ::= <ident> '(' [ <expr> { ',' <expr> } ] ')'`
#[verifier::rlimit(100)]
fn parse_func_call(code: &str, cs: &Vec<char>, pos: usize) -> (r: Option<ParseResult>)
    requires
        code@ == cs@,
        pos <= cs.len(),
    ensures
        same_node(r, call_at(cs@, pos as int)),
        node_within(r, pos as int, cs.len() as int),
    decreases cs@.len() - pos, 2int, 1int,
{
    match parse_ident(code, cs, pos) {
        None => None,
        Some((name, k)) => match parse_word("(", cs, k) {
            None => None,
            Some(k2) => match parse_items(code, cs, pos, k2, ")") {
                None => None,
                Some((args, p)) => Some(ParseResult { new_start: p, token: Token::FunctionCall(name, args) }),
            },
        },
    }
}

pub open spec fn same_names(r: Option<(Vec<String>, usize)>, m: Option<(Seq<Seq<char>>, int)>) -> bool {
    match r {
        Some((v, j)) => m == Some((v@.map_values(|p: String| p@), j as int)),
        None => m is None,
    }
}

/// `{ ',' <ident> }`
fn parse_params_more(code: &str, cs: &Vec<char>, pos: usize) -> (r: Option<(Vec<String>, usize)>)
    requires
        code@ == cs@,
        pos <= cs.len(),
    ensures
        same_names(r, params_more(cs@, pos as int)),
        match r {
            Some((_, j)) => pos <= j <= cs.len(),
            None => true,
        },
    decreases cs.len() - pos,
{
    match parse_word(",", cs, pos) {
        None => {
            proof {
                assert(Seq::<String>::empty().map_values(|p: String| p@) =~= Seq::<Seq<char>>::empty());
            }
            Some((Vec::new(), pos))
        },
        Some(k) => match parse_ident(code, cs, k) {
            None => None,
            Some((p, m)) => match parse_params_more(code, cs, m) {
                None => None,
                Some((rest, n)) => {
                    let ghost rv = rest@;
                    let ghost pv = p@;
                    let mut names = rest;
                    names.insert(0, p);
                    proof {
                        assert(names@.map_values(|p: String| p@) =~= seq![pv] + rv.map_values(
                            |p: String| p@,
                        ));
                    }
                    Some((names, n))
                },
            },
        },
    }
}

/// `[ <ident> { ',' <ident> } ]`
fn parse_params(code: &str, cs: &Vec<char>, pos: usize) -> (r: Option<(Vec<String>, usize)>)
    requires
        code@ == cs@,
        pos <= cs.len(),
    ensures
        same_names(r, params_at(cs@, pos as int)),
        match r {
            Some((_, j)) => pos <= j <= cs.len(),
            None => true,
        },
{
    match parse_ident(code, cs, pos) {
        None => {
            proof {
                assert(Seq::<String>::empty().map_values(|p: String| p@) =~= Seq::<Seq<char>>::empty());
            }
            Some((Vec::new(), pos))
        },
        Some((p, m)) => match parse_params_more(code, cs, m) {
            None => None,
            Some((rest, n)) => {
                let ghost rv = rest@;
                let ghost pv = p@;
                let mut names = rest;
                names.insert(0, p);
                proof {
                    assert(names@.map_values(|p: String| p@) =~= seq![pv] + rv.map_values(
                        |p: String| p@,
                    ));
                }
                Some((names, n))
            },
        },
    }
}

/// `<func-def> ::= '\' <ident> '(' [ <ident> { ',' <ident> } ] ')' '->' <expr>`
fn parse_func_def(code: &str, cs: &Vec<char>) -> (r: Option<ParseResult>)
    requires
        code@ == cs@,
    ensures
        same_node(r, func_def_at(cs@)),
        node_within(r, 0, cs.len() as int),
{
    let a = parse_word("\\", cs, 0)?;
    let (name, b) = parse_ident(code, cs, a)?;
    let c = parse_word("(", cs, b)?;
    let (params, d) = parse_params(code, cs, c)?;
    let e = parse_word(")", cs, d)?;
    let f = parse_word("->", cs, e)?;
    match parse_expr(code, cs, f) {
        Err(_) => None,
        Ok(body) => {
            let ghost bv = body.token@;
            let t = Token::FunctionDefinition(name, params, Box::new(body.token));
            assert(t@ == Ast::FunctionDefinition(name@, params@.map_values(|p: String| p@), bx(bv)));
            Some(ParseResult { new_start: body.new_start, token: t })
        },
    }
}

/// `<asgn> ::= 'let' <ident> '=' <expr>`
fn parse_asgn(code: &str, cs: &Vec<char>) -> (r: Option<ParseResult>)
    requires
        code@ == cs@,
    ensures
        same_node(r, asgn_at(cs@)),
        node_within(r, 0, cs.len() as int),
{
    let a = parse_word("let", cs, 0)?;
    let (name, b) = parse_ident(code, cs, a)?;
    let c = parse_word("=", cs, b)?;
    match parse_expr(code, cs, c) {
        Err(_) => None,
        Ok(body) => {
            let ghost bv = body.token@;
            let t = Token::Assignment(name, Box::new(body.token));
            assert(t@ == Ast::Assignment(name@, bx(bv)));
            Some(ParseResult { new_start: body.new_start, token: t })
        },
    }
}

/// The characters of `code`, in order.
fn chars_of(code: &str) -> (cs: Vec<char>)
    ensures
        cs@ == code@,
{
    let n = code.unicode_len();
    let mut cs: Vec<char> = Vec::new();
    let mut i: usize = 0;
    while i < n
        invariant
            n == code@.len(),
            i <= n,
            cs@ == code@.subrange(0, i as int),
        decreases n - i,
    {
        cs.push(code.get_char(i));
        i += 1;
        assert(cs@ =~= code@.subrange(0, i as int));
    }
    assert(cs@ =~= code@);
    cs
}

/// Parses one line as a statement: a function definition, an assignment, or
/// an expression, tried in that order. The line must be used up, save for
/// whitespace after the last token; a line that is not fails with a message
/// that gives the offset where the unused part starts.
pub fn parse_stmt(code: &str) -> (r: Result<Token, String>)
    ensures
        match r {
            Ok(t) => statement(code@) == Ok::<Ast, Seq<char>>(t@),
            Err(e) => statement(code@) == Err::<Ast, Seq<char>>(e@),
        },
{
    let cs = chars_of(code);
    let n = cs.len();
    let attempt = match parse_func_def(code, &cs) {
        Some(d) => Ok(d),
        None => match parse_asgn(code, &cs) {
            Some(a) => Ok(a),
            None => parse_expr(code, &cs, 0),
        },
    };
    match attempt {
        Err(e) => Err(e),
        Ok(p) => if p.new_start < n {
            Err(message_at("Extra characters at end of expression starting at ", p.new_start))
        } else {
            let ghost pv = p.token@;
            let t = Token::Statement(Box::new(p.token));
            assert(t@ == Ast::Statement(bx(pv)));
            Ok(t)
        },
    }
}

/// A line is accepted exactly when the statement form that matched it runs to
/// the end of the line: a parse never succeeds while leaving characters
/// unread, and never fails once the matched statement uses the whole line.
pub proof fn lemma_accepted_line_is_consumed(s: Seq<char>)
    ensures
        match stmt_prefix(s) {
            Ok((t, j)) => (statement(s) is Ok <==> j == s.len()) && (j == s.len() ==> statement(s)
                == Ok::<Ast, Seq<char>>(Ast::Statement(bx(t)))),
            Err(e) => statement(s) == Err::<Ast, Seq<char>>(e),
        },
{
    lemma_expr_end_within(s, 0);
    match word_at(s, 0, "\\"@) {
        None => {},
        Some(a) => match ident_at(s, a) {
            None => {},
            Some((name, b)) => match word_at(s, b, "("@) {
                None => {},
                Some(c) => match params_at(s, c) {
                    None => {},
                    Some((ps, d)) => {
                        lemma_params_end_within(s, c);
                        match word_at(s, d, ")"@) {
                            None => {},
                            Some(e) => match word_at(s, e, "->"@) {
                                None => {},
                                Some(f) => lemma_expr_end_within(s, f),
                            },
                        }
                    },
                },
            },
        },
    }
    match word_at(s, 0, "let"@) {
        None => {},
        Some(a) => match ident_at(s, a) {
            None => {},
            Some((name, b)) => match word_at(s, b, "="@) {
                None => {},
                Some(c) => lemma_expr_end_within(s, c),
            },
        },
    }
}

proof fn lemma_expr_end_within(s: Seq<char>, i: int)
    requires
        0 <= i <= s.len(),
    ensures
        match expr_at(s, i) {
            Ok((_, j)) => i <= j <= s.len(),
            Err(_) => true,
        },
{
}

proof fn lemma_params_more_within(s: Seq<char>, i: int)
    requires
        0 <= i <= s.len(),
    ensures
        match params_more(s, i) {
            Some((_, j)) => i <= j <= s.len(),
            None => true,
        },
    decreases s.len() - i,
{
    match word_at(s, i, ","@) {
        None => {},
        Some(k) => match ident_at(s, k) {
            None => {},
            Some((p, m)) => lemma_params_more_within(s, m),
        },
    }
}

proof fn lemma_params_end_within(s: Seq<char>, i: int)
    requires
        0 <= i <= s.len(),
    ensures
        match params_at(s, i) {
            Some((_, j)) => i <= j <= s.len(),
            None => true,
        },
{
    match ident_at(s, i) {
        None => {},
        Some((p, m)) => lemma_params_more_within(s, m),
    }
}

impl Token {
    /// A deep copy of the tree.
    pub fn duplicate(&self) -> (r: Token)
        ensures
            r@ == self@,
        decreases self,
    {
        match self {
            Token::Statement(b) => Token::Statement(Box::new(b.duplicate())),
            Token::FunctionDefinition(n, ps, b) => {
                let copied = copy_names(ps);
                Token::FunctionDefinition(n.clone(), copied, Box::new(b.duplicate()))
            },
            Token::Assignment(n, b) => Token::Assignment(n.clone(), Box::new(b.duplicate())),
            Token::Expression(c, t, f) => Token::Expression(
                Box::new(c.duplicate()),
                match t {
                    Some(x) => Some(Box::new(x.duplicate())),
                    None => None,
                },
                match f {
                    Some(x) => Some(Box::new(x.duplicate())),
                    None => None,
                },
            ),
            Token::UnaryExpression(b, op) => Token::UnaryExpression(Box::new(b.duplicate()), op.clone()),
            Token::ExponentialExpression(l, r) => Token::ExponentialExpression(
                Box::new(l.duplicate()),
                match r {
                    Some(x) => Some(Box::new(x.duplicate())),
                    None => None,
                },
            ),
            Token::ProductExpression(l, op, r) => Token::ProductExpression(
                Box::new(l.duplicate()),
                op.clone(),
                match r {
                    Some(x) => Some(Box::new(x.duplicate())),
                    None => None,
                },
            ),
            Token::SumExpression(l, op, r) => Token::SumExpression(
                Box::new(l.duplicate()),
                op.clone(),
                match r {
                    Some(x) => Some(Box::new(x.duplicate())),
                    None => None,
                },
            ),
            Token::RelationalExpression(l, op, r) => Token::RelationalExpression(
                Box::new(l.duplicate()),
                op.clone(),
                match r {
                    Some(x) => Some(Box::new(x.duplicate())),
                    None => None,
                },
            ),
            Token::Term(b) => Token::Term(Box::new(b.duplicate())),
            Token::Identifier(n) => Token::Identifier(n.clone()),
            Token::Number(n) => Token::Number(n.clone()),
            Token::Integer(n) => Token::Integer(n.clone()),
            Token::List(items) => Token::List(copy_items(items)),
            Token::FunctionCall(n, items) => Token::FunctionCall(n.clone(), copy_items(items)),
        }
    }
}

fn copy_names(v: &Vec<String>) -> (r: Vec<String>)
    ensures
        r@ == v@,
{
    let mut r: Vec<String> = Vec::new();
    let mut i: usize = 0;
    while i < v.len()
        invariant
            i <= v.len(),
            r@ == v@.subrange(0, i as int),
        decreases v.len() - i,
    {
        r.push(v[i].clone());
        i += 1;
        assert(r@ =~= v@.subrange(0, i as int));
    }
    assert(r@ =~= v@);
    r
}

fn copy_items(v: &Vec<Box<Token>>) -> (r: Vec<Box<Token>>)
    ensures
        tok_views(r@) == tok_views(v@),
    decreases v,
{
    let mut r: Vec<Box<Token>> = Vec::new();
    let mut i: usize = 0;
    while i < v.len()
        invariant
            i <= v.len(),
            r.len() == i,
            forall|k: int| 0 <= k < i ==> tok_view(*r@[k]) == tok_view(*v@[k]),
        decreases v.len() - i,
    {
        proof {
            vstd::std_specs::vec::axiom_vec_index_decreases(*v, i as int);
        }
        let c = v[i].duplicate();
        r.push(Box::new(c));
        i += 1;
    }
    assert(tok_views(r@) =~= tok_views(v@));
    r
}

} // verus!
