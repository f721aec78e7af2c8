//! The parser: recursive descent with precedence climbing.
//!
//! The specification-level parser is a family of functions over token
//! sequences, made total by an explicit fuel argument; `parse_fuel`
//! gives a fuel that is proven sufficient, so the canonical results
//! never run out. `sp_factor` parses constants, the prefix operators
//! (which recurse into factors, binding tighter than any binary
//! operator), and parenthesized groups; `sp_climb` folds binary
//! operators of precedence at least `min_prec` left-associatively,
//! parsing each right operand with the next higher minimum. The
//! executable parser is proven to return exactly the specification
//! result, and `lemma_parser_precedence_shape` shows that on inputs
//! without parentheses the tree shape follows the precedence table.
use crate::ast;
use crate::lexer::Token;
use crate::lexer::TokenView;
use vstd::prelude::*;
use vstd::string::*;

verus! {

#[derive(Debug, PartialEq, Eq)]
pub enum ParseError {
    /// A token that violates the grammar.
    UnexpectedToken(Token),
    /// The token stream ended inside a production.
    UnexpectedEOF,
}

/// The mathematical model of a `ParseError`.
pub enum ParseErrorView {
    UnexpectedToken(TokenView),
    UnexpectedEOF,
}

impl View for ParseError {
    type V = ParseErrorView;

    open spec fn view(&self) -> ParseErrorView {
        match self {
            ParseError::UnexpectedToken(t) => ParseErrorView::UnexpectedToken(t@),
            ParseError::UnexpectedEOF => ParseErrorView::UnexpectedEOF,
        }
    }
}

/// Outcome of a specification-level expression parse: the expression
/// with the unconsumed rest, a parse error, or fuel exhaustion (which
/// the canonical fuel never reaches).
pub enum ParsedExpr {
    Found(ast::Expression, Seq<TokenView>),
    Fail(ParseErrorView),
    OutOfFuel,
}

/// Whether a token is a binary operator.
pub open spec fn spec_is_binary_operator(t: TokenView) -> bool {
    match t {
        TokenView::Plus => true,
        TokenView::Minus => true,
        TokenView::Star => true,
        TokenView::Slash => true,
        TokenView::Percent => true,
        _ => false,
    }
}

/// The precedence of a binary operator token: `* / %` bind tighter
/// than `+ -`.
pub open spec fn spec_precedence(t: TokenView) -> int {
    match t {
        TokenView::Star => 50,
        TokenView::Slash => 50,
        TokenView::Percent => 50,
        TokenView::Minus => 45,
        TokenView::Plus => 45,
        _ => 0,
    }
}

/// The syntax tree operator for a binary operator token.
pub open spec fn spec_binary_operation(t: TokenView) -> ast::BinaryOperation {
    match t {
        TokenView::Plus => ast::BinaryOperation::Add,
        TokenView::Minus => ast::BinaryOperation::Subtract,
        TokenView::Star => ast::BinaryOperation::Multiply,
        TokenView::Slash => ast::BinaryOperation::Divide,
        _ => ast::BinaryOperation::Remainder,
    }
}

/// Parses one factor: a constant, a prefix `-` or `~` applied to a
/// factor, or a parenthesized expression.
pub open spec fn sp_factor(ts: Seq<TokenView>, fuel: nat) -> ParsedExpr
    decreases fuel,
{
    if fuel == 0 {
        ParsedExpr::OutOfFuel
    } else if ts.len() == 0 {
        ParsedExpr::Fail(ParseErrorView::UnexpectedEOF)
    } else {
        match ts[0] {
            TokenView::Constant(n) => ParsedExpr::Found(ast::Expression::Constant(n), ts.skip(1)),
            TokenView::Minus => match sp_factor(ts.skip(1), (fuel - 1) as nat) {
                ParsedExpr::Found(e, rest) => ParsedExpr::Found(
                    ast::Expression::Unary(ast::UnaryOperation::Negate, Box::new(e)),
                    rest,
                ),
                o => o,
            },
            TokenView::Tilde => match sp_factor(ts.skip(1), (fuel - 1) as nat) {
                ParsedExpr::Found(e, rest) => ParsedExpr::Found(
                    ast::Expression::Unary(ast::UnaryOperation::Complement, Box::new(e)),
                    rest,
                ),
                o => o,
            },
            TokenView::OpenParenthesis => match sp_expr(ts.skip(1), 0, (fuel - 1) as nat) {
                ParsedExpr::Found(e, rest) => {
                    if rest.len() == 0 {
                        ParsedExpr::Fail(ParseErrorView::UnexpectedEOF)
                    } else if rest[0] is CloseParenthesis {
                        ParsedExpr::Found(e, rest.skip(1))
                    } else {
                        ParsedExpr::Fail(ParseErrorView::UnexpectedToken(rest[0]))
                    }
                },
                o => o,
            },
            t => ParsedExpr::Fail(ParseErrorView::UnexpectedToken(t)),
        }
    }
}

/// Parses one expression at the given minimum precedence: a factor,
/// then a left-associative climb over binary operators.
pub open spec fn sp_expr(ts: Seq<TokenView>, min_prec: int, fuel: nat) -> ParsedExpr
    decreases fuel,
{
    if fuel == 0 {
        ParsedExpr::OutOfFuel
    } else {
        match sp_factor(ts, (fuel - 1) as nat) {
            ParsedExpr::Found(left, rest) => sp_climb(left, rest, min_prec, (fuel - 1) as nat),
            o => o,
        }
    }
}

/// Folds binary operators onto `left` while the next token is an
/// operator of precedence at least `min_prec`; the right operand is
/// parsed at the operator's precedence plus one, which makes every
/// operator left-associative.
pub open spec fn sp_climb(
    left: ast::Expression,
    ts: Seq<TokenView>,
    min_prec: int,
    fuel: nat,
) -> ParsedExpr
    decreases fuel,
{
    if fuel == 0 {
        ParsedExpr::OutOfFuel
    } else if ts.len() == 0 || !spec_is_binary_operator(ts[0]) || spec_precedence(ts[0])
        < min_prec {
        ParsedExpr::Found(left, ts)
    } else {
        let prec = spec_precedence(ts[0]);
        let op = spec_binary_operation(ts[0]);
        match sp_expr(ts.skip(1), prec + 1, (fuel - 1) as nat) {
            ParsedExpr::Found(right, rest) => sp_climb(
                ast::Expression::Binary(op, Box::new(left), Box::new(right)),
                rest,
                min_prec,
                (fuel - 1) as nat,
            ),
            o => o,
        }
    }
}

/// A fuel that is sufficient for any parse of `n` tokens.
pub open spec fn parse_fuel(n: nat) -> nat {
    3 * n + 3
}

/// The canonical expression parse, with sufficient fuel.
pub open spec fn spec_parse_expression(ts: Seq<TokenView>, min_prec: int) -> ParsedExpr {
    sp_expr(ts, min_prec, parse_fuel(ts.len()))
}

/// Fuel exhaustion, progress, suffix structure and operation count:
/// a successful factor or expression parse consumes at least one
/// token, leaves a literal suffix of its input, and builds at most one
/// operation per consumed token.
proof fn lemma_parser_facts(ts: Seq<TokenView>, min_prec: int, left: ast::Expression, fuel: nat)
    ensures
        ({
            let r = sp_factor(ts, fuel);
            r is Found ==> {
                let rest = r->Found_1;
                &&& rest.len() < ts.len()
                &&& rest == ts.skip(ts.len() - rest.len())
                &&& crate::tacky::count_ops(r->Found_0) <= ts.len() - rest.len()
            }
        }),
        ({
            let r = sp_expr(ts, min_prec, fuel);
            r is Found ==> {
                let rest = r->Found_1;
                &&& rest.len() < ts.len()
                &&& rest == ts.skip(ts.len() - rest.len())
                &&& crate::tacky::count_ops(r->Found_0) <= ts.len() - rest.len()
            }
        }),
        ({
            let r = sp_climb(left, ts, min_prec, fuel);
            r is Found ==> {
                let rest = r->Found_1;
                &&& rest.len() <= ts.len()
                &&& rest == ts.skip(ts.len() - rest.len())
                &&& crate::tacky::count_ops(r->Found_0) <= crate::tacky::count_ops(left) + (
                ts.len() - rest.len())
            }
        }),
    decreases fuel,
{
    if fuel == 0 {
    } else {
        let f1 = (fuel - 1) as nat;
        // factor
        if ts.len() > 0 {
            match ts[0] {
                TokenView::Constant(_) => {
                    assert(ts.skip(1) == ts.skip(ts.len() - ts.skip(1).len()));
                },
                TokenView::Minus => {
                    lemma_parser_facts(ts.skip(1), 0, left, f1);
                    if sp_factor(ts.skip(1), f1) is Found {
                        let rest = sp_factor(ts.skip(1), f1)->Found_1;
                        assert(ts.skip(1).skip(ts.skip(1).len() - rest.len()) =~= ts.skip(
                            ts.len() - rest.len(),
                        ));
                    }
                },
                TokenView::Tilde => {
                    lemma_parser_facts(ts.skip(1), 0, left, f1);
                    if sp_factor(ts.skip(1), f1) is Found {
                        let rest = sp_factor(ts.skip(1), f1)->Found_1;
                        assert(ts.skip(1).skip(ts.skip(1).len() - rest.len()) =~= ts.skip(
                            ts.len() - rest.len(),
                        ));
                    }
                },
                TokenView::OpenParenthesis => {
                    lemma_parser_facts(ts.skip(1), 0, left, f1);
                    if sp_expr(ts.skip(1), 0, f1) is Found {
                        let rest = sp_expr(ts.skip(1), 0, f1)->Found_1;
                        assert(ts.skip(1).skip(ts.skip(1).len() - rest.len()) =~= ts.skip(
                            ts.len() - rest.len(),
                        ));
                        if rest.len() > 0 && rest[0] is CloseParenthesis {
                            assert(rest.skip(1) =~= ts.skip(ts.len() - rest.skip(1).len()));
                        }
                    }
                },
                _ => {},
            }
        }
        // expression
        lemma_parser_facts(ts, min_prec, left, f1);
        if sp_factor(ts, f1) is Found {
            let l0 = sp_factor(ts, f1)->Found_0;
            let r0 = sp_factor(ts, f1)->Found_1;
            lemma_parser_facts(r0, min_prec, l0, f1);
            if sp_climb(l0, r0, min_prec, f1) is Found {
                let rest = sp_climb(l0, r0, min_prec, f1)->Found_1;
                assert(r0.skip(r0.len() - rest.len()) =~= ts.skip(ts.len() - rest.len()));
            }
        }
        // climb
        if ts.len() == 0 || !spec_is_binary_operator(ts[0]) || spec_precedence(ts[0]) < min_prec {
            assert(ts == ts.skip(ts.len() - ts.len()));
        } else {
            let prec = spec_precedence(ts[0]);
            let op = spec_binary_operation(ts[0]);
            lemma_parser_facts(ts.skip(1), prec + 1, left, f1);
            if sp_expr(ts.skip(1), prec + 1, f1) is Found {
                let right = sp_expr(ts.skip(1), prec + 1, f1)->Found_0;
                let rest1 = sp_expr(ts.skip(1), prec + 1, f1)->Found_1;
                let bigger = ast::Expression::Binary(op, Box::new(left), Box::new(right));
                assert(ts.skip(1).skip(ts.skip(1).len() - rest1.len()) =~= ts.skip(
                    ts.len() - rest1.len(),
                ));
                lemma_parser_facts(rest1, min_prec, bigger, f1);
                if sp_climb(bigger, rest1, min_prec, f1) is Found {
                    let rest = sp_climb(bigger, rest1, min_prec, f1)->Found_1;
                    assert(rest1.skip(rest1.len() - rest.len()) =~= ts.skip(
                        ts.len() - rest.len(),
                    ));
                    assert(crate::tacky::count_ops(bigger) == 1 + crate::tacky::count_ops(left)
                        + crate::tacky::count_ops(right));
                }
            }
        }
    }
}

/// Adding fuel never changes a result that did not run out.
proof fn lemma_parser_mono(
    ts: Seq<TokenView>,
    min_prec: int,
    left: ast::Expression,
    f1: nat,
    f2: nat,
)
    requires
        f1 <= f2,
    ensures
        sp_factor(ts, f1) is OutOfFuel || sp_factor(ts, f2) == sp_factor(ts, f1),
        sp_expr(ts, min_prec, f1) is OutOfFuel || sp_expr(ts, min_prec, f2) == sp_expr(
            ts,
            min_prec,
            f1,
        ),
        sp_climb(left, ts, min_prec, f1) is OutOfFuel || sp_climb(left, ts, min_prec, f2)
            == sp_climb(left, ts, min_prec, f1),
    decreases f1,
{
    if f1 == 0 {
    } else {
        let g1 = (f1 - 1) as nat;
        let g2 = (f2 - 1) as nat;
        // factor
        if ts.len() > 0 {
            match ts[0] {
                TokenView::Minus => {
                    lemma_parser_mono(ts.skip(1), 0, left, g1, g2);
                },
                TokenView::Tilde => {
                    lemma_parser_mono(ts.skip(1), 0, left, g1, g2);
                },
                TokenView::OpenParenthesis => {
                    lemma_parser_mono(ts.skip(1), 0, left, g1, g2);
                },
                _ => {},
            }
        }
        // expression
        lemma_parser_mono(ts, min_prec, left, g1, g2);
        if sp_factor(ts, g1) is Found {
            let l0 = sp_factor(ts, g1)->Found_0;
            let r0 = sp_factor(ts, g1)->Found_1;
            lemma_parser_mono(r0, min_prec, l0, g1, g2);
        }
        // climb
        if !(ts.len() == 0 || !spec_is_binary_operator(ts[0]) || spec_precedence(ts[0])
            < min_prec) {
            let prec = spec_precedence(ts[0]);
            let op = spec_binary_operation(ts[0]);
            lemma_parser_mono(ts.skip(1), prec + 1, left, g1, g2);
            if sp_expr(ts.skip(1), prec + 1, g1) is Found {
                let right = sp_expr(ts.skip(1), prec + 1, g1)->Found_0;
                let rest1 = sp_expr(ts.skip(1), prec + 1, g1)->Found_1;
                let bigger = ast::Expression::Binary(op, Box::new(left), Box::new(right));
                lemma_parser_mono(rest1, min_prec, bigger, g1, g2);
            }
        }
    }
}

/// The canonical fuel is sufficient: no parse runs out.
proof fn lemma_parser_enough(ts: Seq<TokenView>, min_prec: int, left: ast::Expression, fuel: nat)
    ensures
        fuel >= 3 * ts.len() + 2 ==> !(sp_factor(ts, fuel) is OutOfFuel),
        fuel >= 3 * ts.len() + 3 ==> !(sp_expr(ts, min_prec, fuel) is OutOfFuel),
        fuel >= 3 * ts.len() + 2 ==> !(sp_climb(left, ts, min_prec, fuel) is OutOfFuel),
    decreases fuel,
{
    if fuel == 0 {
    } else {
        let f1 = (fuel - 1) as nat;
        // factor
        if fuel >= 3 * ts.len() + 2 && ts.len() > 0 {
            match ts[0] {
                TokenView::Minus => {
                    lemma_parser_enough(ts.skip(1), 0, left, f1);
                },
                TokenView::Tilde => {
                    lemma_parser_enough(ts.skip(1), 0, left, f1);
                },
                TokenView::OpenParenthesis => {
                    lemma_parser_enough(ts.skip(1), 0, left, f1);
                },
                _ => {},
            }
        }
        // expression
        if fuel >= 3 * ts.len() + 3 {
            lemma_parser_enough(ts, min_prec, left, f1);
            if sp_factor(ts, f1) is Found {
                let l0 = sp_factor(ts, f1)->Found_0;
                let r0 = sp_factor(ts, f1)->Found_1;
                lemma_parser_facts(ts, min_prec, left, f1);
                lemma_parser_enough(r0, min_prec, l0, f1);
            }
        }
        // climb
        if fuel >= 3 * ts.len() + 2 {
            if !(ts.len() == 0 || !spec_is_binary_operator(ts[0]) || spec_precedence(ts[0])
                < min_prec) {
                let prec = spec_precedence(ts[0]);
                let op = spec_binary_operation(ts[0]);
                lemma_parser_enough(ts.skip(1), prec + 1, left, f1);
                if sp_expr(ts.skip(1), prec + 1, f1) is Found {
                    let right = sp_expr(ts.skip(1), prec + 1, f1)->Found_0;
                    let rest1 = sp_expr(ts.skip(1), prec + 1, f1)->Found_1;
                    let bigger = ast::Expression::Binary(op, Box::new(left), Box::new(right));
                    lemma_parser_facts(ts.skip(1), prec + 1, left, f1);
                    lemma_parser_enough(rest1, min_prec, bigger, f1);
                }
            }
        }
    }
}

/// Any sufficient fuel gives the canonical factor result.
proof fn lemma_canonical_factor(ts: Seq<TokenView>, fuel: nat)
    requires
        fuel >= 3 * ts.len() + 2,
    ensures
        sp_factor(ts, fuel) == sp_factor(ts, parse_fuel(ts.len())),
        !(sp_factor(ts, fuel) is OutOfFuel),
{
    let e = ast::Expression::Constant(0);
    lemma_parser_enough(ts, 0, e, (3 * ts.len() + 2) as nat);
    lemma_parser_mono(ts, 0, e, (3 * ts.len() + 2) as nat, fuel);
    lemma_parser_mono(ts, 0, e, (3 * ts.len() + 2) as nat, parse_fuel(ts.len()));
}

/// Any sufficient fuel gives the canonical expression result.
proof fn lemma_canonical_expr(ts: Seq<TokenView>, min_prec: int, fuel: nat)
    requires
        fuel >= 3 * ts.len() + 3,
    ensures
        sp_expr(ts, min_prec, fuel) == spec_parse_expression(ts, min_prec),
        !(sp_expr(ts, min_prec, fuel) is OutOfFuel),
{
    let e = ast::Expression::Constant(0);
    lemma_parser_enough(ts, min_prec, e, (3 * ts.len() + 3) as nat);
    lemma_parser_mono(ts, min_prec, e, (3 * ts.len() + 3) as nat, fuel);
    lemma_parser_mono(ts, min_prec, e, (3 * ts.len() + 3) as nat, parse_fuel(ts.len()));
}

/// Any sufficient fuel gives the canonical climb result.
proof fn lemma_canonical_climb(left: ast::Expression, ts: Seq<TokenView>, min_prec: int, fuel: nat)
    requires
        fuel >= 3 * ts.len() + 2,
    ensures
        sp_climb(left, ts, min_prec, fuel) == sp_climb(left, ts, min_prec, parse_fuel(ts.len())),
        !(sp_climb(left, ts, min_prec, fuel) is OutOfFuel),
{
    lemma_parser_enough(ts, min_prec, left, (3 * ts.len() + 2) as nat);
    lemma_parser_mono(ts, min_prec, left, (3 * ts.len() + 2) as nat, fuel);
    lemma_parser_mono(ts, min_prec, left, (3 * ts.len() + 2) as nat, parse_fuel(ts.len()));
}

/// One-token expectation: succeeds iff the next token is `t`.
pub open spec fn sp_expect(ts: Seq<TokenView>, t: TokenView) -> Result<
    Seq<TokenView>,
    ParseErrorView,
> {
    if ts.len() == 0 {
        Err(ParseErrorView::UnexpectedEOF)
    } else if ts[0] == t {
        Ok(ts.skip(1))
    } else {
        Err(ParseErrorView::UnexpectedToken(ts[0]))
    }
}

/// The statement production: `return` expression `;`.
pub open spec fn sp_statement(ts: Seq<TokenView>) -> Result<
    (ast::Statement, Seq<TokenView>),
    ParseErrorView,
> {
    match sp_expect(ts, TokenView::Return) {
        Err(e) => Err(e),
        Ok(ts1) => match spec_parse_expression(ts1, 0) {
            ParsedExpr::Found(e, ts2) => match sp_expect(ts2, TokenView::Semicolon) {
                Err(err) => Err(err),
                Ok(ts3) => Ok((ast::Statement::Return(e), ts3)),
            },
            ParsedExpr::Fail(err) => Err(err),
            // The canonical fuel never runs out; this arm is unreachable.
            ParsedExpr::OutOfFuel => Err(ParseErrorView::UnexpectedEOF),
        },
    }
}

/// The function production: `int` name `(` `void` `)` `{` statement `}`.
pub open spec fn sp_function(ts: Seq<TokenView>) -> Result<
    (ast::FunctionDefinitionView, Seq<TokenView>),
    ParseErrorView,
> {
    match sp_expect(ts, TokenView::Int) {
        Err(e) => Err(e),
        Ok(ts1) => {
            if ts1.len() == 0 {
                Err(ParseErrorView::UnexpectedEOF)
            } else {
                match ts1[0] {
                    TokenView::Identifier(name) => {
                        let ts2 = ts1.skip(1);
                        match sp_expect(ts2, TokenView::OpenParenthesis) {
                            Err(e) => Err(e),
                            Ok(ts3) => match sp_expect(ts3, TokenView::Void) {
                                Err(e) => Err(e),
                                Ok(ts4) => match sp_expect(ts4, TokenView::CloseParenthesis) {
                                    Err(e) => Err(e),
                                    Ok(ts5) => match sp_expect(ts5, TokenView::OpenBrace) {
                                        Err(e) => Err(e),
                                        Ok(ts6) => match sp_statement(ts6) {
                                            Err(e) => Err(e),
                                            Ok((body, ts7)) => match sp_expect(
                                                ts7,
                                                TokenView::CloseBrace,
                                            ) {
                                                Err(e) => Err(e),
                                                Ok(ts8) => Ok(
                                                    (
                                                        ast::FunctionDefinitionView { name, body },
                                                        ts8,
                                                    ),
                                                ),
                                            },
                                        },
                                    },
                                },
                            },
                        }
                    },
                    t => Err(ParseErrorView::UnexpectedToken(t)),
                }
            }
        },
    }
}

/// The whole program: one function definition, then end of stream;
/// a trailing token is an error.
pub open spec fn spec_parse(ts: Seq<TokenView>) -> Result<ast::ProgramView, ParseErrorView> {
    match sp_function(ts) {
        Err(e) => Err(e),
        Ok((f, rest)) => {
            if rest.len() == 0 {
                Ok(ast::ProgramView { function_definition: f })
            } else {
                Err(ParseErrorView::UnexpectedToken(rest[0]))
            }
        },
    }
}

/// The precedence of a binary operation in the syntax tree.
pub open spec fn op_prec(op: ast::BinaryOperation) -> int {
    match op {
        ast::BinaryOperation::Multiply => 50,
        ast::BinaryOperation::Divide => 50,
        ast::BinaryOperation::Remainder => 50,
        ast::BinaryOperation::Add => 45,
        ast::BinaryOperation::Subtract => 45,
    }
}

/// How tightly the root of an expression binds: factors (constants and
/// prefix operations) bind tightest, a binary node as its operator.
pub open spec fn root_prec(e: ast::Expression) -> int {
    match e {
        ast::Expression::Constant(_) => 100,
        ast::Expression::Unary(_, _) => 100,
        ast::Expression::Binary(op, _, _) => op_prec(op),
    }
}

/// The tree shape the precedence table and left-associativity dictate
/// for an expression parsed without parentheses: every binary node's
/// left subtree binds at least as tightly as the node itself, its
/// right subtree strictly tighter, and a prefix operator applies to a
/// factor.
pub open spec fn precedence_shaped(e: ast::Expression) -> bool
    decreases e,
{
    match e {
        ast::Expression::Constant(_) => true,
        ast::Expression::Unary(_, inner) => precedence_shaped(*inner) && root_prec(*inner) == 100,
        ast::Expression::Binary(op, l, r) => precedence_shaped(*l) && precedence_shaped(*r)
            && root_prec(*l) >= op_prec(op) && root_prec(*r) > op_prec(op),
    }
}

/// A token sequence without parentheses.
pub open spec fn paren_free(ts: Seq<TokenView>) -> bool {
    forall|i: int| 0 <= i < ts.len() ==> !(#[trigger] ts[i] is OpenParenthesis)
}

proof fn lemma_paren_free_suffix(ts: Seq<TokenView>, rest: Seq<TokenView>)
    requires
        paren_free(ts),
        rest == ts.skip(ts.len() - rest.len()),
        rest.len() <= ts.len(),
    ensures
        paren_free(rest),
{
    assert forall|i: int| 0 <= i < rest.len() implies !(#[trigger] rest[i] is OpenParenthesis) by {
        assert(rest[i] == ts[ts.len() - rest.len() + i]);
    }
}

proof fn lemma_shape_facts(ts: Seq<TokenView>, min_prec: int, left: ast::Expression, fuel: nat)
    ensures
        paren_free(ts) ==> ({
            let r = sp_factor(ts, fuel);
            r is Found ==> precedence_shaped(r->Found_0) && root_prec(r->Found_0) == 100
        }),
        paren_free(ts) ==> ({
            let r = sp_expr(ts, min_prec, fuel);
            r is Found ==> {
                &&& precedence_shaped(r->Found_0)
                &&& (root_prec(r->Found_0) >= min_prec || root_prec(r->Found_0) == 100)
                &&& (r->Found_1.len() > 0 && spec_is_binary_operator(r->Found_1[0])
                    ==> spec_precedence(r->Found_1[0]) < min_prec)
            }
        }),
        (paren_free(ts) && precedence_shaped(left) && (ts.len() > 0 && spec_is_binary_operator(
            ts[0],
        ) ==> spec_precedence(ts[0]) <= root_prec(left))) ==> ({
            let r = sp_climb(left, ts, min_prec, fuel);
            r is Found ==> {
                &&& precedence_shaped(r->Found_0)
                &&& (root_prec(r->Found_0) >= min_prec || r->Found_0 == left)
                &&& (r->Found_1.len() > 0 && spec_is_binary_operator(r->Found_1[0])
                    ==> spec_precedence(r->Found_1[0]) < min_prec)
            }
        }),
    decreases fuel,
{
    if fuel == 0 {
    } else {
        let f1 = (fuel - 1) as nat;
        // factor
        if paren_free(ts) && ts.len() > 0 {
            assert(!(ts[0] is OpenParenthesis));
            match ts[0] {
                TokenView::Minus => {
                    lemma_parser_facts(ts.skip(1), 0, left, f1);
                    assert(paren_free(ts.skip(1))) by {
                        lemma_paren_free_suffix(ts, ts.skip(1));
                    }
                    lemma_shape_facts(ts.skip(1), 0, left, f1);
                },
                TokenView::Tilde => {
                    lemma_parser_facts(ts.skip(1), 0, left, f1);
                    assert(paren_free(ts.skip(1))) by {
                        lemma_paren_free_suffix(ts, ts.skip(1));
                    }
                    lemma_shape_facts(ts.skip(1), 0, left, f1);
                },
                _ => {},
            }
        }
        // expression
        if paren_free(ts) {
            lemma_shape_facts(ts, min_prec, left, f1);
            if sp_factor(ts, f1) is Found {
                let l0 = sp_factor(ts, f1)->Found_0;
                let r0 = sp_factor(ts, f1)->Found_1;
                lemma_parser_facts(ts, min_prec, left, f1);
                lemma_paren_free_suffix(ts, r0);
                lemma_shape_facts(r0, min_prec, l0, f1);
            }
        }
        // climb
        if paren_free(ts) && precedence_shaped(left) && (ts.len() > 0 && spec_is_binary_operator(
            ts[0],
        ) ==> spec_precedence(ts[0]) <= root_prec(left)) {
            if !(ts.len() == 0 || !spec_is_binary_operator(ts[0]) || spec_precedence(ts[0])
                < min_prec) {
                let prec = spec_precedence(ts[0]);
                let op = spec_binary_operation(ts[0]);
                assert(op_prec(op) == prec);
                lemma_paren_free_suffix(ts, ts.skip(1));
                lemma_shape_facts(ts.skip(1), prec + 1, left, f1);
                if sp_expr(ts.skip(1), prec + 1, f1) is Found {
                    let right = sp_expr(ts.skip(1), prec + 1, f1)->Found_0;
                    let rest1 = sp_expr(ts.skip(1), prec + 1, f1)->Found_1;
                    let bigger = ast::Expression::Binary(op, Box::new(left), Box::new(right));
                    assert(root_prec(right) > prec);
                    assert(root_prec(left) >= prec);
                    assert(precedence_shaped(bigger));
                    lemma_parser_facts(ts.skip(1), prec + 1, left, f1);
                    lemma_paren_free_suffix(ts.skip(1), rest1);
                    assert(rest1.len() > 0 && spec_is_binary_operator(rest1[0])
                        ==> spec_precedence(rest1[0]) <= root_prec(bigger));
                    lemma_shape_facts(rest1, min_prec, bigger, f1);
                }
            }
        }
    }
}

/// Parser precedence: for an expression over integer literals and the
/// unary and binary operators, without parentheses, a successful parse
/// returns a tree whose shape follows the precedence table and
/// left-associativity.
pub proof fn lemma_parser_precedence_shape(ts: Seq<TokenView>, min_prec: int)
    requires
        paren_free(ts),
    ensures
        spec_parse_expression(ts, min_prec) is Found ==> precedence_shaped(
            spec_parse_expression(ts, min_prec)->Found_0,
        ),
{
    lemma_shape_facts(ts, min_prec, ast::Expression::Constant(0), parse_fuel(ts.len()));
}

/// The program-level form: when the tokens after the function header
/// (its first seven: `int`, the name, `(`, `void`, `)`, `{`, and
/// `return`) hold no parentheses, a successfully parsed program's
/// return expression has the precedence-table shape.
pub proof fn lemma_parse_precedence_shape(ts: Seq<TokenView>)
    ensures
        (spec_parse(ts) is Ok && paren_free(ts.skip(7))) ==> ({
            let body = spec_parse(ts)->Ok_0.function_definition.body;
            match body {
                ast::Statement::Return(e) => precedence_shaped(e),
            }
        }),
{
    if spec_parse(ts) is Ok && paren_free(ts.skip(7)) {
        let ts1 = sp_expect(ts, TokenView::Int)->Ok_0;
        let ts2 = ts1.skip(1);
        let ts3 = sp_expect(ts2, TokenView::OpenParenthesis)->Ok_0;
        let ts4 = sp_expect(ts3, TokenView::Void)->Ok_0;
        let ts5 = sp_expect(ts4, TokenView::CloseParenthesis)->Ok_0;
        let ts6 = sp_expect(ts5, TokenView::OpenBrace)->Ok_0;
        let ts7 = sp_expect(ts6, TokenView::Return)->Ok_0;
        assert(ts7 =~= ts.skip(7));
        lemma_parser_precedence_shape(ts7, 0);
    }
}

/// A parsed program builds at most one operation per input token.
pub proof fn lemma_parse_count_ops(ts: Seq<TokenView>)
    ensures
        spec_parse(ts) is Ok ==> crate::tacky::count_ops_stmt(
            spec_parse(ts)->Ok_0.function_definition.body,
        ) <= ts.len(),
{
    if spec_parse(ts) is Ok {
        let ts1 = sp_expect(ts, TokenView::Int)->Ok_0;
        let ts2 = ts1.skip(1);
        let ts3 = sp_expect(ts2, TokenView::OpenParenthesis)->Ok_0;
        let ts4 = sp_expect(ts3, TokenView::Void)->Ok_0;
        let ts5 = sp_expect(ts4, TokenView::CloseParenthesis)->Ok_0;
        let ts6 = sp_expect(ts5, TokenView::OpenBrace)->Ok_0;
        let ts7 = sp_expect(ts6, TokenView::Return)->Ok_0;
        lemma_parser_facts(ts7, 0, ast::Expression::Constant(0), parse_fuel(ts7.len()));
        assert(ts7.len() <= ts.len());
    }
}

/// Whether two tokens are the same token with the same lexeme.
fn token_eq(a: &Token, b: &Token) -> (r: bool)
    ensures
        r == (a@ == b@),
{
    match (a, b) {
        (Token::Identifier(x), Token::Identifier(y)) => x.eq(y),
        (Token::Constant(x), Token::Constant(y)) => *x == *y,
        (Token::Int, Token::Int) => true,
        (Token::Void, Token::Void) => true,
        (Token::Return, Token::Return) => true,
        (Token::OpenParenthesis, Token::OpenParenthesis) => true,
        (Token::CloseParenthesis, Token::CloseParenthesis) => true,
        (Token::OpenBrace, Token::OpenBrace) => true,
        (Token::CloseBrace, Token::CloseBrace) => true,
        (Token::Semicolon, Token::Semicolon) => true,
        (Token::Tilde, Token::Tilde) => true,
        (Token::Minus, Token::Minus) => true,
        (Token::DoubleMinus, Token::DoubleMinus) => true,
        (Token::Plus, Token::Plus) => true,
        (Token::Star, Token::Star) => true,
        (Token::Slash, Token::Slash) => true,
        (Token::Percent, Token::Percent) => true,
        _ => false,
    }
}

/// Whether a token is a binary operator.
fn is_binary_operator(token: &Token) -> (r: bool)
    ensures
        r == spec_is_binary_operator(token@),
{
    match token {
        Token::Minus => true,
        Token::Plus => true,
        Token::Star => true,
        Token::Slash => true,
        Token::Percent => true,
        _ => false,
    }
}

/// The precedence of a binary operator token.
fn precedence(token: &Token) -> (r: u32)
    ensures
        r as int == spec_precedence(token@),
{
    match token {
        Token::Star => 50,
        Token::Slash => 50,
        Token::Percent => 50,
        Token::Minus => 45,
        Token::Plus => 45,
        _ => 0,
    }
}

/// Parses a token stream into a program.
pub fn parse(token_stream: Vec<Token>) -> (r: Result<ast::Program, ParseError>)
    ensures
        ({
            let s = spec_parse(crate::lexer::tokens_view(token_stream@));
            match r {
                Ok(p) => s == Ok::<ast::ProgramView, ParseErrorView>(p@),
                Err(e) => s == Err::<ast::ProgramView, ParseErrorView>(e@),
            }
        }),
{
    let ghost all = crate::lexer::tokens_view(token_stream@);
    let mut parser = Parser { tokens: token_stream, position: 0 };
    proof {
        assert(parser.rest() =~= all);
    }
    let program = match parser.parse_program() {
        Ok(p) => p,
        Err(e) => {
            return Err(e);
        },
    };
    if !parser.is_empty() {
        match parser.bump() {
            Some(t) => {
                return Err(ParseError::UnexpectedToken(t));
            },
            None => {
                proof {
                    assert(false);
                }
                return Err(ParseError::UnexpectedEOF);
            },
        }
    }
    Ok(program)
}

struct Parser {
    tokens: Vec<Token>,
    position: usize,
}

impl Parser {
    spec fn wf(&self) -> bool {
        self.position <= self.tokens@.len()
    }

    /// The tokens not yet consumed.
    spec fn rest(&self) -> Seq<TokenView> {
        crate::lexer::tokens_view(self.tokens@).skip(self.position as int)
    }

    fn parse_program(&mut self) -> (r: Result<ast::Program, ParseError>)
        requires
            old(self).wf(),
        ensures
            final(self).wf(),
            final(self).tokens == old(self).tokens,
            match r {
                Ok(p) => sp_function(old(self).rest()) == Ok::<
                    (ast::FunctionDefinitionView, Seq<TokenView>),
                    ParseErrorView,
                >((p@.function_definition, final(self).rest())),
                Err(e) => sp_function(old(self).rest()) == Err::<
                    (ast::FunctionDefinitionView, Seq<TokenView>),
                    ParseErrorView,
                >(e@),
            },
    {
        let function_definition = match self.parse_function_definition() {
            Ok(f) => f,
            Err(e) => {
                return Err(e);
            },
        };
        Ok(ast::Program { function_definition })
    }

    fn parse_function_definition(&mut self) -> (r: Result<ast::FunctionDefinition, ParseError>)
        requires
            old(self).wf(),
        ensures
            final(self).wf(),
            final(self).tokens == old(self).tokens,
            match r {
                Ok(f) => sp_function(old(self).rest()) == Ok::<
                    (ast::FunctionDefinitionView, Seq<TokenView>),
                    ParseErrorView,
                >((f@, final(self).rest())),
                Err(e) => sp_function(old(self).rest()) == Err::<
                    (ast::FunctionDefinitionView, Seq<TokenView>),
                    ParseErrorView,
                >(e@),
            },
    {
        self.bump_if_equal(&Token::Int)?;
        let t = match self.bump() {
            Some(t) => t,
            None => {
                return Err(ParseError::UnexpectedEOF);
            },
        };
        let name = match t {
            Token::Identifier(name) => name,
            t => {
                return Err(ParseError::UnexpectedToken(t));
            },
        };
        self.bump_if_equal(&Token::OpenParenthesis)?;
        self.bump_if_equal(&Token::Void)?;
        self.bump_if_equal(&Token::CloseParenthesis)?;
        self.bump_if_equal(&Token::OpenBrace)?;
        let body = self.parse_statement()?;
        self.bump_if_equal(&Token::CloseBrace)?;
        Ok(ast::FunctionDefinition { name, body })
    }

    fn parse_statement(&mut self) -> (r: Result<ast::Statement, ParseError>)
        requires
            old(self).wf(),
        ensures
            final(self).wf(),
            final(self).tokens == old(self).tokens,
            match r {
                Ok(s) => sp_statement(old(self).rest()) == Ok::<
                    (ast::Statement, Seq<TokenView>),
                    ParseErrorView,
                >((s, final(self).rest())),
                Err(e) => sp_statement(old(self).rest()) == Err::<
                    (ast::Statement, Seq<TokenView>),
                    ParseErrorView,
                >(e@),
            },
    {
        self.bump_if_equal(&Token::Return)?;
        let expression = self.parse_expression(0)?;
        self.bump_if_equal(&Token::Semicolon)?;
        Ok(ast::Statement::Return(expression))
    }

    /// Parses one expression by precedence climbing from `min_precedence`.
    fn parse_expression(&mut self, min_precedence: u32) -> (r: Result<ast::Expression, ParseError>)
        requires
            old(self).wf(),
        ensures
            final(self).wf(),
            final(self).tokens == old(self).tokens,
            final(self).position >= old(self).position,
            match r {
                Ok(e) => sp_expr(
                    old(self).rest(),
                    min_precedence as int,
                    parse_fuel(old(self).rest().len()),
                ) == ParsedExpr::Found(e, final(self).rest()) && final(self).position > old(self).position,
                Err(err) => sp_expr(
                    old(self).rest(),
                    min_precedence as int,
                    parse_fuel(old(self).rest().len()),
                ) == ParsedExpr::Fail(err@),
            },
        decreases self.tokens@.len() - self.position, 2int,
    {
        let ghost orig = self.rest();
        let ghost f = parse_fuel(orig.len());
        proof {
            lemma_canonical_factor(orig, (f - 1) as nat);
        }
        let left = match self.parse_factor() {
            Ok(e) => e,
            Err(e) => {
                return Err(e);
            },
        };
        let ghost rest0 = self.rest();
        proof {
            lemma_parser_facts(orig, min_precedence as int, left, parse_fuel(orig.len()));
            lemma_canonical_climb(left, rest0, min_precedence as int, (f - 1) as nat);
        }
        self.parse_climb(left, min_precedence)
    }

    /// Folds binary operators of precedence at least `min_precedence`
    /// onto `left`, left-associatively.
    fn parse_climb(&mut self, left: ast::Expression, min_precedence: u32) -> (r: Result<
        ast::Expression,
        ParseError,
    >)
        requires
            old(self).wf(),
        ensures
            final(self).wf(),
            final(self).tokens == old(self).tokens,
            final(self).position >= old(self).position,
            match r {
                Ok(e) => sp_climb(
                    left,
                    old(self).rest(),
                    min_precedence as int,
                    parse_fuel(old(self).rest().len()),
                ) == ParsedExpr::Found(e, final(self).rest()),
                Err(err) => sp_climb(
                    left,
                    old(self).rest(),
                    min_precedence as int,
                    parse_fuel(old(self).rest().len()),
                ) == ParsedExpr::Fail(err@),
            },
        decreases self.tokens@.len() - self.position, 1int,
    {
        let ghost orig = self.rest();
        let ghost f = parse_fuel(orig.len());
        proof {
            if self.position < self.tokens@.len() {
                assert(crate::lexer::tokens_view(self.tokens@)[self.position as int]
                    == self.tokens@[self.position as int]@);
                assert(orig[0] == crate::lexer::tokens_view(self.tokens@)[self.position as int]);
            }
        }
        let done = if self.position == self.tokens.len() {
            true
        } else {
            let next = &self.tokens[self.position];
            if !is_binary_operator(next) {
                true
            } else {
                precedence(next) < min_precedence
            }
        };
        if done {
            return Ok(left);
        }
        let next_prec = {
            let next = &self.tokens[self.position];
            precedence(next)
        };
        let binary_operator = match self.parse_binary_operation() {
            Ok(op) => op,
            Err(e) => {
                proof {
                    assert(false);
                }
                return Err(e);
            },
        };
        proof {
            assert(self.rest() =~= orig.skip(1));
            lemma_canonical_expr(orig.skip(1), next_prec + 1, (f - 1) as nat);
        }
        let right = match self.parse_expression(next_prec + 1) {
            Ok(e) => e,
            Err(e) => {
                return Err(e);
            },
        };
        let ghost rest1 = self.rest();
        proof {
            lemma_parser_facts(
                orig.skip(1),
                next_prec + 1,
                right,
                parse_fuel(orig.skip(1).len()),
            );
        }
        let bigger = ast::Expression::Binary(binary_operator, Box::new(left), Box::new(right));
        proof {
            lemma_canonical_climb(bigger, rest1, min_precedence as int, (f - 1) as nat);
        }
        self.parse_climb(bigger, min_precedence)
    }

    /// Parses one factor: a constant, a prefix operator applied to a
    /// factor, or a parenthesized expression.
    fn parse_factor(&mut self) -> (r: Result<ast::Expression, ParseError>)
        requires
            old(self).wf(),
        ensures
            final(self).wf(),
            final(self).tokens == old(self).tokens,
            final(self).position >= old(self).position,
            match r {
                Ok(e) => sp_factor(old(self).rest(), parse_fuel(old(self).rest().len()))
                    == ParsedExpr::Found(e, final(self).rest()) && final(self).position > old(self).position,
                Err(err) => sp_factor(old(self).rest(), parse_fuel(old(self).rest().len()))
                    == ParsedExpr::Fail(err@),
            },
        decreases self.tokens@.len() - self.position, 0int,
    {
        let ghost orig = self.rest();
        let ghost f = parse_fuel(orig.len());
        let t = match self.bump() {
            Some(t) => t,
            None => {
                return Err(ParseError::UnexpectedEOF);
            },
        };
        match t {
            Token::Constant(n) => Ok(ast::Expression::Constant(n)),
            Token::Minus => {
                proof {
                    lemma_canonical_factor(orig.skip(1), (f - 1) as nat);
                }
                self.parse_unary_operation(Token::Minus)
            },
            Token::Tilde => {
                proof {
                    lemma_canonical_factor(orig.skip(1), (f - 1) as nat);
                }
                self.parse_unary_operation(Token::Tilde)
            },
            Token::OpenParenthesis => {
                proof {
                    lemma_canonical_expr(orig.skip(1), 0, (f - 1) as nat);
                }
                let exp = match self.parse_expression(0) {
                    Ok(e) => e,
                    Err(e) => {
                        return Err(e);
                    },
                };
                self.bump_if_equal(&Token::CloseParenthesis)?;
                Ok(exp)
            },
            t => Err(ParseError::UnexpectedToken(t)),
        }
    }

    /// Parses the factor operand of a prefix operator whose token has
    /// already been consumed.
    fn parse_unary_operation(&mut self, token: Token) -> (r: Result<ast::Expression, ParseError>)
        requires
            old(self).wf(),
            token@ is Minus || token@ is Tilde,
        ensures
            final(self).wf(),
            final(self).tokens == old(self).tokens,
            final(self).position >= old(self).position,
            ({
                let op = if token@ is Minus {
                    ast::UnaryOperation::Negate
                } else {
                    ast::UnaryOperation::Complement
                };
                let inner = sp_factor(old(self).rest(), parse_fuel(old(self).rest().len()));
                match r {
                    Ok(e) => inner is Found && e == ast::Expression::Unary(
                        op,
                        Box::new(inner->Found_0),
                    ) && final(self).rest() == inner->Found_1,
                    Err(err) => inner == ParsedExpr::Fail(err@),
                }
            }),
        decreases self.tokens@.len() - self.position, 1int,
    {
        let op = match token {
            Token::Minus => ast::UnaryOperation::Negate,
            _ => ast::UnaryOperation::Complement,
        };
        let exp = match self.parse_factor() {
            Ok(e) => e,
            Err(e) => {
                return Err(e);
            },
        };
        Ok(ast::Expression::Unary(op, Box::new(exp)))
    }

    /// Consumes a binary operator token.
    fn parse_binary_operation(&mut self) -> (r: Result<ast::BinaryOperation, ParseError>)
        requires
            old(self).wf(),
        ensures
            final(self).wf(),
            final(self).tokens == old(self).tokens,
            match r {
                Ok(op) => old(self).rest().len() > 0 && spec_is_binary_operator(
                    old(self).rest()[0],
                ) && op == spec_binary_operation(old(self).rest()[0]) && final(self).position == old(self).position + 1,
                Err(e) => (old(self).rest().len() == 0 && e@ is UnexpectedEOF) || (old(self).rest().len() > 0 && !spec_is_binary_operator(old(self).rest()[0])),
            },
    {
        let token = match self.bump() {
            Some(t) => t,
            None => {
                return Err(ParseError::UnexpectedEOF);
            },
        };
        match token {
            Token::Plus => Ok(ast::BinaryOperation::Add),
            Token::Minus => Ok(ast::BinaryOperation::Subtract),
            Token::Star => Ok(ast::BinaryOperation::Multiply),
            Token::Slash => Ok(ast::BinaryOperation::Divide),
            Token::Percent => Ok(ast::BinaryOperation::Remainder),
            t => Err(ParseError::UnexpectedToken(t)),
        }
    }

    /// Checks whether the token stream is exhausted, without consuming.
    fn is_empty(&self) -> (r: bool)
        requires
            self.wf(),
        ensures
            r == (self.rest().len() == 0),
    {
        self.position == self.tokens.len()
    }

    /// Takes the next token, if any.
    fn bump(&mut self) -> (r: Option<Token>)
        requires
            old(self).wf(),
        ensures
            final(self).wf(),
            final(self).tokens == old(self).tokens,
            match r {
                Some(t) => old(self).rest().len() > 0 && t@ == old(self).rest()[0] && final(self).position == old(self).position + 1 && final(self).rest() == old(self).rest().skip(1),
                None => old(self).rest().len() == 0 && final(self).position == old(self).position,
            },
    {
        if self.position < self.tokens.len() {
            let t = self.tokens[self.position].clone();
            proof {
                assert(crate::lexer::tokens_view(self.tokens@)[self.position as int]
                    == self.tokens@[self.position as int]@);
                assert(old(self).rest()[0] == crate::lexer::tokens_view(self.tokens@)[self.position as int]);
            }
            self.position = self.position + 1;
            proof {
                assert(self.rest() =~= old(self).rest().skip(1));
            }
            Some(t)
        } else {
            None
        }
    }

    /// Fails unless the next token equals `expected_token`; consumes
    /// nothing.
    fn expect_token(&self, expected_token: &Token) -> (r: Result<(), ParseError>)
        requires
            self.wf(),
        ensures
            match r {
                Ok(_) => self.rest().len() > 0 && self.rest()[0] == expected_token@,
                Err(e) => sp_expect(self.rest(), expected_token@) == Err::<
                    Seq<TokenView>,
                    ParseErrorView,
                >(e@),
            },
    {
        if self.position == self.tokens.len() {
            return Err(ParseError::UnexpectedEOF);
        }
        let p = &self.tokens[self.position];
        proof {
            assert(crate::lexer::tokens_view(self.tokens@)[self.position as int]
                == self.tokens@[self.position as int]@);
            assert(self.rest()[0] == crate::lexer::tokens_view(self.tokens@)[self.position as int]);
        }
        if !token_eq(p, expected_token) {
            return Err(ParseError::UnexpectedToken(p.clone()));
        }
        Ok(())
    }

    /// Consumes the next token if it equals `expected_token`.
    fn bump_if_equal(&mut self, expected_token: &Token) -> (r: Result<Token, ParseError>)
        requires
            old(self).wf(),
        ensures
            final(self).wf(),
            final(self).tokens == old(self).tokens,
            match r {
                Ok(t) => sp_expect(old(self).rest(), expected_token@) == Ok::<
                    Seq<TokenView>,
                    ParseErrorView,
                >(final(self).rest()) && final(self).position == old(self).position + 1,
                Err(e) => sp_expect(old(self).rest(), expected_token@) == Err::<
                    Seq<TokenView>,
                    ParseErrorView,
                >(e@) && final(self).position == old(self).position,
            },
    {
        match self.expect_token(expected_token) {
            Ok(_) => {},
            Err(e) => {
                return Err(e);
            },
        }
        match self.bump() {
            Some(t) => Ok(t),
            None => {
                proof {
                    assert(false);
                }
                Err(ParseError::UnexpectedEOF)
            },
        }
    }
}

} // verus!
