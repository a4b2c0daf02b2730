use vstd::prelude::*;

use crate::ast::{exprs_view, stmts_view, BinaryOp, Expr, Literal, SpecExpr, SpecLiteral, SpecStmt, Stmt, UnaryOp};
use crate::lexer::{lex_step, lemma_lex_progress, LexError, Lexer, SpecLexStep, SpecToken, Token};

verus! {

// The parser is specified by a definitional model: a family of spec
// functions over the parser's abstract state (the one token of lookahead
// and the characters the lexer has not yet consumed). Each executable
// method's contract says it returns exactly what the model returns and
// leaves the parser in exactly the model's state.

/// A fatal parse error. The payload is the offending token.
#[derive(Debug, PartialEq)]
pub enum ParseError {
    /// The lexer failed while the parser pulled a token.
    Lex(LexError),
    /// A required token (first field) was not the one found (second field).
    Expected(Token, Token),
    /// `let` was not followed by a variable name.
    ExpectedName(Token),
    /// `fn` was not followed by a function name.
    ExpectedFnName(Token),
    /// A parameter list held something other than a name.
    ExpectedParamName(Token),
    /// No expression can start with this token.
    UnexpectedToken(Token),
    /// The left side of an assignment was not a bare variable.
    InvalidAssignTarget,
    /// An expression inside a block was followed by neither `;` nor `}`.
    ExpectedSemiOrBrace(Token),
    /// A top-level expression was not terminated.
    ExpectedSemi(Token),
}

/// Mathematical model of a parse error.
pub enum SpecParseError {
    Lex(LexError),
    Expected(SpecToken, SpecToken),
    ExpectedName(SpecToken),
    ExpectedFnName(SpecToken),
    ExpectedParamName(SpecToken),
    UnexpectedToken(SpecToken),
    InvalidAssignTarget,
    ExpectedSemiOrBrace(SpecToken),
    ExpectedSemi(SpecToken),
    /// An outcome no input produces: it cuts recursions whose states the
    /// grammar cannot reach, so that the model is visibly finite. The
    /// executable parser's contracts show it is never returned.
    Diverged,
}

pub open spec fn parse_error_view(e: ParseError) -> SpecParseError {
    match e {
        ParseError::Lex(l) => SpecParseError::Lex(l),
        ParseError::Expected(w, g) => SpecParseError::Expected(w@, g@),
        ParseError::ExpectedName(t) => SpecParseError::ExpectedName(t@),
        ParseError::ExpectedFnName(t) => SpecParseError::ExpectedFnName(t@),
        ParseError::ExpectedParamName(t) => SpecParseError::ExpectedParamName(t@),
        ParseError::UnexpectedToken(t) => SpecParseError::UnexpectedToken(t@),
        ParseError::InvalidAssignTarget => SpecParseError::InvalidAssignTarget,
        ParseError::ExpectedSemiOrBrace(t) => SpecParseError::ExpectedSemiOrBrace(t@),
        ParseError::ExpectedSemi(t) => SpecParseError::ExpectedSemi(t@),
    }
}

impl View for ParseError {
    type V = SpecParseError;

    open spec fn view(&self) -> SpecParseError {
        parse_error_view(*self)
    }
}

/// The parser's abstract state: the token of lookahead and the input the
/// lexer has not yet consumed.
pub struct SpecPState {
    pub cur: SpecToken,
    pub rest: Seq<char>,
}

/// How much input is pending: the unconsumed characters, plus one for a
/// lookahead token that is not yet `Eof`. Every token the parser takes
/// makes this measure smaller, which bounds the model's recursion.
pub open spec fn pending(st: SpecPState) -> int {
    st.rest.len() + if st.cur == SpecToken::Eof {
        0int
    } else {
        1int
    }
}

/// The outcome of one model step: a value and the state after it, or an
/// error.
pub enum SpecStep<T> {
    Parsed(T, SpecPState),
    Fail(SpecParseError),
}

/// Pulling the next non-comment token into the lookahead.
pub open spec fn spec_advance(rest: Seq<char>) -> SpecStep<()>
    decreases rest.len(),
{
    match lex_step(rest) {
        SpecLexStep::Fail(e) => SpecStep::Fail(SpecParseError::Lex(e)),
        SpecLexStep::Tok(t, rest2) => {
            if t == SpecToken::Comment {
                if rest2.len() < rest.len() {
                    spec_advance(rest2)
                } else {
                    SpecStep::Fail(SpecParseError::Diverged)
                }
            } else {
                SpecStep::Parsed((), SpecPState { cur: t, rest: rest2 })
            }
        },
    }
}

/// Advancing leaves at most the unconsumed characters pending.
pub proof fn lemma_advance_pending(rest: Seq<char>)
    ensures
        spec_advance(rest) matches SpecStep::Parsed(u, st) ==> pending(st) <= rest.len(),
    decreases rest.len(),
{
    lemma_lex_progress(rest);
    match lex_step(rest) {
        SpecLexStep::Fail(_) => {},
        SpecLexStep::Tok(t, rest2) => {
            if t == SpecToken::Comment && rest2.len() < rest.len() {
                lemma_advance_pending(rest2);
            }
        },
    }
}

/// Consuming the lookahead: an error when it is not `want`.
pub open spec fn spec_expect(want: SpecToken, st: SpecPState) -> SpecStep<()> {
    if st.cur == want {
        spec_advance(st.rest)
    } else {
        SpecStep::Fail(SpecParseError::Expected(want, st.cur))
    }
}

/// The binding strength of a binary operator; zero for any other token.
pub open spec fn spec_precedence(t: SpecToken) -> u8 {
    match t {
        SpecToken::Star => 20,
        SpecToken::Slash => 20,
        SpecToken::Plus => 10,
        SpecToken::Minus => 10,
        SpecToken::EqEq => 5,
        SpecToken::Lt => 5,
        SpecToken::Gt => 5,
        SpecToken::And => 3,
        SpecToken::Or => 1,
        _ => 0,
    }
}

/// The binary operator a token denotes, if any.
pub open spec fn spec_binop(t: SpecToken) -> Option<BinaryOp> {
    match t {
        SpecToken::Plus => Some(BinaryOp::Add),
        SpecToken::Minus => Some(BinaryOp::Sub),
        SpecToken::Star => Some(BinaryOp::Mul),
        SpecToken::Slash => Some(BinaryOp::Div),
        SpecToken::EqEq => Some(BinaryOp::Eq),
        SpecToken::Lt => Some(BinaryOp::Lt),
        SpecToken::Gt => Some(BinaryOp::Gt),
        SpecToken::And => Some(BinaryOp::And),
        SpecToken::Or => Some(BinaryOp::Or),
        _ => None,
    }
}

/// Whether a token is one of the assignment operators.
pub open spec fn is_assign_op(t: SpecToken) -> bool {
    t == SpecToken::Eq || t == SpecToken::PlusEq || t == SpecToken::MinusEq || t
        == SpecToken::StarEq || t == SpecToken::SlashEq
}

/// The arithmetic operator a compound assignment desugars to.
pub open spec fn compound_op(t: SpecToken) -> Option<BinaryOp> {
    match t {
        SpecToken::PlusEq => Some(BinaryOp::Add),
        SpecToken::MinusEq => Some(BinaryOp::Sub),
        SpecToken::StarEq => Some(BinaryOp::Mul),
        SpecToken::SlashEq => Some(BinaryOp::Div),
        _ => None,
    }
}

// In the model functions below, every recursive call either stands at the
// same state under a smaller final `decreases` rank, or at a state the
// guard `pending(st2) < pending(st)` has checked. The guards hold of every
// run (tokens consume input), so their `Diverged` arms are never taken;
// they make the recursion visibly finite.

/// A primary expression: a literal, a variable, a call, a parenthesized
/// expression, a block or an `if`.
pub open spec fn spec_parse_primary(st: SpecPState) -> SpecStep<SpecExpr>
    decreases pending(st), 2int,
{
    match st.cur {
        SpecToken::Int(v) => match spec_advance(st.rest) {
            SpecStep::Parsed(u, st1) => SpecStep::Parsed(
                SpecExpr::Literal(SpecLiteral::Int(v)),
                st1,
            ),
            SpecStep::Fail(e) => SpecStep::Fail(e),
        },
        SpecToken::Float(b) => match spec_advance(st.rest) {
            SpecStep::Parsed(u, st1) => SpecStep::Parsed(
                SpecExpr::Literal(SpecLiteral::Float(b)),
                st1,
            ),
            SpecStep::Fail(e) => SpecStep::Fail(e),
        },
        SpecToken::Str(s) => match spec_advance(st.rest) {
            SpecStep::Parsed(u, st1) => SpecStep::Parsed(
                SpecExpr::Literal(SpecLiteral::Str(s)),
                st1,
            ),
            SpecStep::Fail(e) => SpecStep::Fail(e),
        },
        SpecToken::True => match spec_advance(st.rest) {
            SpecStep::Parsed(u, st1) => SpecStep::Parsed(
                SpecExpr::Literal(SpecLiteral::Bool(true)),
                st1,
            ),
            SpecStep::Fail(e) => SpecStep::Fail(e),
        },
        SpecToken::False => match spec_advance(st.rest) {
            SpecStep::Parsed(u, st1) => SpecStep::Parsed(
                SpecExpr::Literal(SpecLiteral::Bool(false)),
                st1,
            ),
            SpecStep::Fail(e) => SpecStep::Fail(e),
        },
        SpecToken::Identifier(name) => match spec_advance(st.rest) {
            SpecStep::Parsed(u, st1) => {
                if st1.cur == SpecToken::LParen {
                    match spec_advance(st1.rest) {
                        SpecStep::Parsed(u2, st2) => {
                            if st2.cur == SpecToken::RParen {
                                match spec_advance(st2.rest) {
                                    SpecStep::Parsed(u3, st3) => SpecStep::Parsed(
                                        SpecExpr::Call(name, Seq::empty()),
                                        st3,
                                    ),
                                    SpecStep::Fail(e) => SpecStep::Fail(e),
                                }
                            } else if pending(st2) < pending(st) {
                                match spec_parse_call_args(st2) {
                                    SpecStep::Parsed(args, st3) => match spec_expect(
                                        SpecToken::RParen,
                                        st3,
                                    ) {
                                        SpecStep::Parsed(u3, st4) => SpecStep::Parsed(
                                            SpecExpr::Call(name, args),
                                            st4,
                                        ),
                                        SpecStep::Fail(e) => SpecStep::Fail(e),
                                    },
                                    SpecStep::Fail(e) => SpecStep::Fail(e),
                                }
                            } else {
                                SpecStep::Fail(SpecParseError::Diverged)
                            }
                        },
                        SpecStep::Fail(e) => SpecStep::Fail(e),
                    }
                } else {
                    SpecStep::Parsed(SpecExpr::Variable(name), st1)
                }
            },
            SpecStep::Fail(e) => SpecStep::Fail(e),
        },
        SpecToken::LParen => match spec_advance(st.rest) {
            SpecStep::Parsed(u, st1) => {
                if pending(st1) < pending(st) {
                    match spec_parse_expr(0, st1) {
                        SpecStep::Parsed(e, st2) => match spec_expect(SpecToken::RParen, st2) {
                            SpecStep::Parsed(u2, st3) => SpecStep::Parsed(e, st3),
                            SpecStep::Fail(er) => SpecStep::Fail(er),
                        },
                        SpecStep::Fail(er) => SpecStep::Fail(er),
                    }
                } else {
                    SpecStep::Fail(SpecParseError::Diverged)
                }
            },
            SpecStep::Fail(e) => SpecStep::Fail(e),
        },
        SpecToken::LBrace => spec_parse_block(st),
        SpecToken::If => spec_parse_if(st),
        _ => SpecStep::Fail(SpecParseError::UnexpectedToken(st.cur)),
    }
}

/// The comma-separated expressions of a call's argument list.
pub open spec fn spec_parse_call_args(st: SpecPState) -> SpecStep<Seq<SpecExpr>>
    decreases pending(st), 6int,
{
    match spec_parse_expr(0, st) {
        SpecStep::Parsed(e, st1) => {
            if st1.cur == SpecToken::Comma {
                match spec_advance(st1.rest) {
                    SpecStep::Parsed(u, st2) => {
                        if pending(st2) < pending(st) {
                            match spec_parse_call_args(st2) {
                                SpecStep::Parsed(rest_args, st3) => SpecStep::Parsed(
                                    seq![e] + rest_args,
                                    st3,
                                ),
                                SpecStep::Fail(er) => SpecStep::Fail(er),
                            }
                        } else {
                            SpecStep::Fail(SpecParseError::Diverged)
                        }
                    },
                    SpecStep::Fail(er) => SpecStep::Fail(er),
                }
            } else {
                SpecStep::Parsed(seq![e], st1)
            }
        },
        SpecStep::Fail(er) => SpecStep::Fail(er),
    }
}

/// A unary expression: `!` and `-` apply to a following unary expression.
pub open spec fn spec_parse_unary(st: SpecPState) -> SpecStep<SpecExpr>
    decreases pending(st), 3int,
{
    if st.cur == SpecToken::Bang || st.cur == SpecToken::Minus {
        let op = if st.cur == SpecToken::Bang {
            UnaryOp::Not
        } else {
            UnaryOp::Neg
        };
        match spec_advance(st.rest) {
            SpecStep::Parsed(u, st1) => {
                if pending(st1) < pending(st) {
                    match spec_parse_unary(st1) {
                        SpecStep::Parsed(e, st2) => SpecStep::Parsed(
                            SpecExpr::Unary(op, Box::new(e)),
                            st2,
                        ),
                        SpecStep::Fail(er) => SpecStep::Fail(er),
                    }
                } else {
                    SpecStep::Fail(SpecParseError::Diverged)
                }
            },
            SpecStep::Fail(er) => SpecStep::Fail(er),
        }
    } else {
        spec_parse_primary(st)
    }
}

/// The precedence climb: while the lookahead is an operator binding
/// tighter than `min`, take it and parse its right operand. The right
/// operand absorbs following operators of the same precedence, so chains
/// like `a - b - c` group to the right: `a - (b - c)`. This grouping is a
/// deliberate quirk of the language.
pub open spec fn spec_parse_climb(lhs: SpecExpr, min: u8, st: SpecPState) -> SpecStep<SpecExpr>
    decreases pending(st), 4int,
{
    let prec = spec_precedence(st.cur);
    if prec > min {
        match spec_binop(st.cur) {
            Some(op) => match spec_advance(st.rest) {
                SpecStep::Parsed(u, st1) => {
                    if pending(st1) < pending(st) {
                        match spec_parse_expr((prec - 1) as u8, st1) {
                            SpecStep::Parsed(rhs, st2) => {
                                if pending(st2) < pending(st) {
                                    spec_parse_climb(
                                        SpecExpr::Binary(Box::new(lhs), op, Box::new(rhs)),
                                        min,
                                        st2,
                                    )
                                } else {
                                    SpecStep::Fail(SpecParseError::Diverged)
                                }
                            },
                            SpecStep::Fail(er) => SpecStep::Fail(er),
                        }
                    } else {
                        SpecStep::Fail(SpecParseError::Diverged)
                    }
                },
                SpecStep::Fail(er) => SpecStep::Fail(er),
            },
            None => SpecStep::Parsed(lhs, st),
        }
    } else {
        SpecStep::Parsed(lhs, st)
    }
}

/// A full expression: a unary expression, then the precedence climb.
pub open spec fn spec_parse_expr(min: u8, st: SpecPState) -> SpecStep<SpecExpr>
    decreases pending(st), 5int,
{
    match spec_parse_unary(st) {
        SpecStep::Parsed(lhs, st1) => {
            if pending(st1) < pending(st) {
                spec_parse_climb(lhs, min, st1)
            } else {
                SpecStep::Fail(SpecParseError::Diverged)
            }
        },
        SpecStep::Fail(er) => SpecStep::Fail(er),
    }
}

/// An `if` expression: condition, then-block, optional `else` block or
/// chained `if`.
pub open spec fn spec_parse_if(st: SpecPState) -> SpecStep<SpecExpr>
    decreases pending(st), 1int,
{
    if st.cur != SpecToken::If {
        SpecStep::Fail(SpecParseError::Expected(SpecToken::If, st.cur))
    } else {
        match spec_advance(st.rest) {
            SpecStep::Parsed(u, st1) => {
                if pending(st1) < pending(st) {
                    match spec_parse_expr(0, st1) {
                        SpecStep::Parsed(cond, st2) => {
                            if pending(st2) < pending(st) {
                                match spec_parse_block(st2) {
                                    SpecStep::Parsed(then_b, st3) => {
                                        if st3.cur == SpecToken::Else {
                                            match spec_advance(st3.rest) {
                                                SpecStep::Parsed(u2, st4) => {
                                                    if pending(st4) < pending(st) {
                                                        if st4.cur == SpecToken::If {
                                                            match spec_parse_if(st4) {
                                                                SpecStep::Parsed(els, st5) => SpecStep::Parsed(
                                                                    SpecExpr::If(
                                                                        Box::new(cond),
                                                                        Box::new(then_b),
                                                                        Some(Box::new(els)),
                                                                    ),
                                                                    st5,
                                                                ),
                                                                SpecStep::Fail(er) => SpecStep::Fail(er),
                                                            }
                                                        } else {
                                                            match spec_parse_block(st4) {
                                                                SpecStep::Parsed(els, st5) => SpecStep::Parsed(
                                                                    SpecExpr::If(
                                                                        Box::new(cond),
                                                                        Box::new(then_b),
                                                                        Some(Box::new(els)),
                                                                    ),
                                                                    st5,
                                                                ),
                                                                SpecStep::Fail(er) => SpecStep::Fail(er),
                                                            }
                                                        }
                                                    } else {
                                                        SpecStep::Fail(SpecParseError::Diverged)
                                                    }
                                                },
                                                SpecStep::Fail(er) => SpecStep::Fail(er),
                                            }
                                        } else {
                                            SpecStep::Parsed(
                                                SpecExpr::If(
                                                    Box::new(cond),
                                                    Box::new(then_b),
                                                    None,
                                                ),
                                                st3,
                                            )
                                        }
                                    },
                                    SpecStep::Fail(er) => SpecStep::Fail(er),
                                }
                            } else {
                                SpecStep::Fail(SpecParseError::Diverged)
                            }
                        },
                        SpecStep::Fail(er) => SpecStep::Fail(er),
                    }
                } else {
                    SpecStep::Fail(SpecParseError::Diverged)
                }
            },
            SpecStep::Fail(er) => SpecStep::Fail(er),
        }
    }
}

/// The tail of an assignment statement, after its target has been parsed:
/// the operator, the right-hand side, the `;`. Compound operators desugar
/// to an assignment of a binary expression on the old value.
pub open spec fn spec_parse_assign_tail(name: Seq<char>, st: SpecPState) -> SpecStep<SpecStmt>
    decreases pending(st), 1int,
{
    if st.cur == SpecToken::Eq {
        match spec_advance(st.rest) {
            SpecStep::Parsed(u, st1) => {
                if pending(st1) < pending(st) {
                    match spec_parse_expr(0, st1) {
                        SpecStep::Parsed(rhs, st2) => match spec_expect(SpecToken::SemiColon, st2) {
                            SpecStep::Parsed(u2, st3) => SpecStep::Parsed(SpecStmt::Assign(name, rhs), st3),
                            SpecStep::Fail(er) => SpecStep::Fail(er),
                        },
                        SpecStep::Fail(er) => SpecStep::Fail(er),
                    }
                } else {
                    SpecStep::Fail(SpecParseError::Diverged)
                }
            },
            SpecStep::Fail(er) => SpecStep::Fail(er),
        }
    } else {
        match compound_op(st.cur) {
            Some(op) => match spec_advance(st.rest) {
                SpecStep::Parsed(u, st1) => {
                    if pending(st1) < pending(st) {
                        match spec_parse_expr(0, st1) {
                            SpecStep::Parsed(rhs, st2) => match spec_expect(
                                SpecToken::SemiColon,
                                st2,
                            ) {
                                SpecStep::Parsed(u2, st3) => SpecStep::Parsed(
                                    SpecStmt::Assign(
                                        name,
                                        SpecExpr::Binary(
                                            Box::new(SpecExpr::Variable(name)),
                                            op,
                                            Box::new(rhs),
                                        ),
                                    ),
                                    st3,
                                ),
                                SpecStep::Fail(er) => SpecStep::Fail(er),
                            },
                            SpecStep::Fail(er) => SpecStep::Fail(er),
                        }
                    } else {
                        SpecStep::Fail(SpecParseError::Diverged)
                    }
                },
                SpecStep::Fail(er) => SpecStep::Fail(er),
            },
            None => SpecStep::Fail(SpecParseError::UnexpectedToken(st.cur)),
        }
    }
}

/// A `let` statement: `let name = expression ;`.
pub open spec fn spec_parse_let(st: SpecPState) -> SpecStep<SpecStmt>
    decreases pending(st), 1int,
{
    if st.cur != SpecToken::Let {
        SpecStep::Fail(SpecParseError::Expected(SpecToken::Let, st.cur))
    } else {
        match spec_advance(st.rest) {
            SpecStep::Parsed(u, st1) => match st1.cur {
                SpecToken::Identifier(name) => match spec_advance(st1.rest) {
                    SpecStep::Parsed(u2, st2) => match spec_expect(SpecToken::Eq, st2) {
                        SpecStep::Parsed(u3, st3) => {
                            if pending(st3) < pending(st) {
                                match spec_parse_expr(0, st3) {
                                    SpecStep::Parsed(v, st4) => match spec_expect(
                                        SpecToken::SemiColon,
                                        st4,
                                    ) {
                                        SpecStep::Parsed(u4, st5) => SpecStep::Parsed(
                                            SpecStmt::Let(name, v),
                                            st5,
                                        ),
                                        SpecStep::Fail(er) => SpecStep::Fail(er),
                                    },
                                    SpecStep::Fail(er) => SpecStep::Fail(er),
                                }
                            } else {
                                SpecStep::Fail(SpecParseError::Diverged)
                            }
                        },
                        SpecStep::Fail(er) => SpecStep::Fail(er),
                    },
                    SpecStep::Fail(er) => SpecStep::Fail(er),
                },
                _ => SpecStep::Fail(SpecParseError::ExpectedName(st1.cur)),
            },
            SpecStep::Fail(er) => SpecStep::Fail(er),
        }
    }
}

/// A function's parameter names: `name (, name)*`.
pub open spec fn spec_parse_params(st: SpecPState) -> SpecStep<Seq<Seq<char>>>
    decreases pending(st), 1int,
{
    match st.cur {
        SpecToken::Identifier(p) => match spec_advance(st.rest) {
            SpecStep::Parsed(u, st1) => {
                if st1.cur == SpecToken::Comma {
                    match spec_advance(st1.rest) {
                        SpecStep::Parsed(u2, st2) => {
                            if pending(st2) < pending(st) {
                                match spec_parse_params(st2) {
                                    SpecStep::Parsed(rest_ps, st3) => SpecStep::Parsed(
                                        seq![p] + rest_ps,
                                        st3,
                                    ),
                                    SpecStep::Fail(er) => SpecStep::Fail(er),
                                }
                            } else {
                                SpecStep::Fail(SpecParseError::Diverged)
                            }
                        },
                        SpecStep::Fail(er) => SpecStep::Fail(er),
                    }
                } else {
                    SpecStep::Parsed(seq![p], st1)
                }
            },
            SpecStep::Fail(er) => SpecStep::Fail(er),
        },
        _ => SpecStep::Fail(SpecParseError::ExpectedParamName(st.cur)),
    }
}

/// A function statement: `fn name ( params? ) block`.
pub open spec fn spec_parse_fn(st: SpecPState) -> SpecStep<SpecStmt>
    decreases pending(st), 2int,
{
    if st.cur != SpecToken::Fn {
        SpecStep::Fail(SpecParseError::Expected(SpecToken::Fn, st.cur))
    } else {
        match spec_advance(st.rest) {
            SpecStep::Parsed(u, st1) => match st1.cur {
                SpecToken::Identifier(name) => match spec_advance(st1.rest) {
                    SpecStep::Parsed(u2, st2) => match spec_expect(SpecToken::LParen, st2) {
                        SpecStep::Parsed(u3, st3) => {
                            let after_params: SpecStep<Seq<Seq<char>>> = if st3.cur
                                == SpecToken::RParen {
                                SpecStep::Parsed(Seq::empty(), st3)
                            } else if pending(st3) < pending(st) {
                                spec_parse_params(st3)
                            } else {
                                SpecStep::Fail(SpecParseError::Diverged)
                            };
                            match after_params {
                                SpecStep::Parsed(params, st4) => match spec_expect(
                                    SpecToken::RParen,
                                    st4,
                                ) {
                                    SpecStep::Parsed(u4, st5) => {
                                        if pending(st5) < pending(st) {
                                            match spec_parse_block(st5) {
                                                SpecStep::Parsed(body, st6) => SpecStep::Parsed(
                                                    SpecStmt::Fn(name, params, body),
                                                    st6,
                                                ),
                                                SpecStep::Fail(er) => SpecStep::Fail(er),
                                            }
                                        } else {
                                            SpecStep::Fail(SpecParseError::Diverged)
                                        }
                                    },
                                    SpecStep::Fail(er) => SpecStep::Fail(er),
                                },
                                SpecStep::Fail(er) => SpecStep::Fail(er),
                            }
                        },
                        SpecStep::Fail(er) => SpecStep::Fail(er),
                    },
                    SpecStep::Fail(er) => SpecStep::Fail(er),
                },
                _ => SpecStep::Fail(SpecParseError::ExpectedFnName(st1.cur)),
            },
            SpecStep::Fail(er) => SpecStep::Fail(er),
        }
    }
}

/// A `while` statement: `while condition block`.
pub open spec fn spec_parse_while(st: SpecPState) -> SpecStep<SpecStmt>
    decreases pending(st), 1int,
{
    if st.cur != SpecToken::While {
        SpecStep::Fail(SpecParseError::Expected(SpecToken::While, st.cur))
    } else {
        match spec_advance(st.rest) {
            SpecStep::Parsed(u, st1) => {
                if pending(st1) < pending(st) {
                    match spec_parse_expr(0, st1) {
                        SpecStep::Parsed(cond, st2) => {
                            if pending(st2) < pending(st) {
                                match spec_parse_block(st2) {
                                    SpecStep::Parsed(body, st3) => SpecStep::Parsed(
                                        SpecStmt::While(cond, body),
                                        st3,
                                    ),
                                    SpecStep::Fail(er) => SpecStep::Fail(er),
                                }
                            } else {
                                SpecStep::Fail(SpecParseError::Diverged)
                            }
                        },
                        SpecStep::Fail(er) => SpecStep::Fail(er),
                    }
                } else {
                    SpecStep::Fail(SpecParseError::Diverged)
                }
            },
            SpecStep::Fail(er) => SpecStep::Fail(er),
        }
    }
}

/// The items of a block: statements, then an optional tail expression
/// whose value the block takes.
pub open spec fn spec_parse_block_items(st: SpecPState) -> SpecStep<
    (Seq<SpecStmt>, Option<SpecExpr>),
>
    decreases pending(st), 8int,
{
    if st.cur == SpecToken::RBrace || st.cur == SpecToken::Eof {
        SpecStep::Parsed((Seq::empty(), None), st)
    } else if st.cur == SpecToken::Let || st.cur == SpecToken::Fn || st.cur == SpecToken::While {
        let item: SpecStep<SpecStmt> = if st.cur == SpecToken::Let {
            spec_parse_let(st)
        } else if st.cur == SpecToken::Fn {
            spec_parse_fn(st)
        } else {
            spec_parse_while(st)
        };
        match item {
            SpecStep::Parsed(s1, st1) => {
                if pending(st1) < pending(st) {
                    match spec_parse_block_items(st1) {
                        SpecStep::Parsed(items, st2) => SpecStep::Parsed(
                            (seq![s1] + items.0, items.1),
                            st2,
                        ),
                        SpecStep::Fail(er) => SpecStep::Fail(er),
                    }
                } else {
                    SpecStep::Fail(SpecParseError::Diverged)
                }
            },
            SpecStep::Fail(er) => SpecStep::Fail(er),
        }
    } else {
        match spec_parse_expr(0, st) {
            SpecStep::Parsed(e, st1) => {
                if is_assign_op(st1.cur) {
                    match e {
                        SpecExpr::Variable(name) => {
                            if pending(st1) < pending(st) {
                                match spec_parse_assign_tail(name, st1) {
                                    SpecStep::Parsed(s1, st2) => {
                                        if pending(st2) < pending(st) {
                                            match spec_parse_block_items(st2) {
                                                SpecStep::Parsed(items, st3) => SpecStep::Parsed(
                                                    (seq![s1] + items.0, items.1),
                                                    st3,
                                                ),
                                                SpecStep::Fail(er) => SpecStep::Fail(er),
                                            }
                                        } else {
                                            SpecStep::Fail(SpecParseError::Diverged)
                                        }
                                    },
                                    SpecStep::Fail(er) => SpecStep::Fail(er),
                                }
                            } else {
                                SpecStep::Fail(SpecParseError::Diverged)
                            }
                        },
                        _ => SpecStep::Fail(SpecParseError::InvalidAssignTarget),
                    }
                } else if st1.cur == SpecToken::SemiColon {
                    match spec_advance(st1.rest) {
                        SpecStep::Parsed(u, st2) => {
                            if pending(st2) < pending(st) {
                                match spec_parse_block_items(st2) {
                                    SpecStep::Parsed(items, st3) => SpecStep::Parsed(
                                        (seq![SpecStmt::Expression(e)] + items.0, items.1),
                                        st3,
                                    ),
                                    SpecStep::Fail(er) => SpecStep::Fail(er),
                                }
                            } else {
                                SpecStep::Fail(SpecParseError::Diverged)
                            }
                        },
                        SpecStep::Fail(er) => SpecStep::Fail(er),
                    }
                } else if st1.cur == SpecToken::RBrace {
                    SpecStep::Parsed((Seq::empty(), Some(e)), st1)
                } else {
                    SpecStep::Fail(SpecParseError::ExpectedSemiOrBrace(st1.cur))
                }
            },
            SpecStep::Fail(er) => SpecStep::Fail(er),
        }
    }
}

/// A block: `{ items }`, an expression whose value is its tail expression.
pub open spec fn spec_parse_block(st: SpecPState) -> SpecStep<SpecExpr>
    decreases pending(st), 1int,
{
    if st.cur != SpecToken::LBrace {
        SpecStep::Fail(SpecParseError::Expected(SpecToken::LBrace, st.cur))
    } else {
        match spec_advance(st.rest) {
            SpecStep::Parsed(u, st1) => {
                if pending(st1) < pending(st) {
                    match spec_parse_block_items(st1) {
                        SpecStep::Parsed(items, st2) => match spec_expect(SpecToken::RBrace, st2) {
                            SpecStep::Parsed(u2, st3) => SpecStep::Parsed(
                                SpecExpr::Block(
                                    items.0,
                                    match items.1 {
                                        Some(e) => Some(Box::new(e)),
                                        None => None,
                                    },
                                ),
                                st3,
                            ),
                            SpecStep::Fail(er) => SpecStep::Fail(er),
                        },
                        SpecStep::Fail(er) => SpecStep::Fail(er),
                    }
                } else {
                    SpecStep::Fail(SpecParseError::Diverged)
                }
            },
            SpecStep::Fail(er) => SpecStep::Fail(er),
        }
    }
}

/// An expression statement at the top level: an assignment, an expression
/// terminated by `;`, a block-like expression standing alone, or the
/// program's final expression, whose value the program returns.
pub open spec fn spec_parse_expr_stmt(st: SpecPState) -> SpecStep<SpecStmt>
    decreases pending(st), 7int,
{
    match spec_parse_expr(0, st) {
        SpecStep::Parsed(e, st1) => {
            if is_assign_op(st1.cur) {
                match e {
                    SpecExpr::Variable(name) => {
                        if pending(st1) < pending(st) {
                            spec_parse_assign_tail(name, st1)
                        } else {
                            SpecStep::Fail(SpecParseError::Diverged)
                        }
                    },
                    _ => SpecStep::Fail(SpecParseError::InvalidAssignTarget),
                }
            } else {
                let block_like = e matches SpecExpr::If(..) || e matches SpecExpr::Block(..);
                if st1.cur == SpecToken::SemiColon {
                    match spec_advance(st1.rest) {
                        SpecStep::Parsed(u, st2) => SpecStep::Parsed(SpecStmt::Expression(e), st2),
                        SpecStep::Fail(er) => SpecStep::Fail(er),
                    }
                } else if block_like {
                    SpecStep::Parsed(SpecStmt::Expression(e), st1)
                } else if st1.cur == SpecToken::Eof {
                    SpecStep::Parsed(SpecStmt::ImplicitReturn(e), st1)
                } else {
                    SpecStep::Fail(SpecParseError::ExpectedSemi(st1.cur))
                }
            }
        },
        SpecStep::Fail(er) => SpecStep::Fail(er),
    }
}

/// One top-level statement.
pub open spec fn spec_parse_stmt(st: SpecPState) -> SpecStep<SpecStmt>
    decreases pending(st), 9int,
{
    if st.cur == SpecToken::Let {
        spec_parse_let(st)
    } else if st.cur == SpecToken::Fn {
        spec_parse_fn(st)
    } else if st.cur == SpecToken::While {
        spec_parse_while(st)
    } else {
        spec_parse_expr_stmt(st)
    }
}

/// A parse of a whole program that succeeds consumes every token: the
/// parser stops only when its lookahead is `Eof`, so nothing but trailing
/// whitespace of the source is left unread.
pub proof fn lemma_parse_program_consumes_all(st: SpecPState)
    ensures
        spec_parse_program(st) matches SpecStep::Parsed(prog, st1) ==> st1.cur == SpecToken::Eof,
    decreases pending(st), 11int,
{
    if st.cur != SpecToken::Eof {
        match spec_parse_stmt(st) {
            SpecStep::Parsed(s1, st1) => {
                if pending(st1) < pending(st) {
                    lemma_parse_program_consumes_all(st1);
                }
            },
            SpecStep::Fail(_) => {},
        }
    }
}

/// Tokens that carry no payload; their equality is a variant test.
pub open spec fn is_fieldless(t: SpecToken) -> bool {
    !(t matches SpecToken::Int(..) || t matches SpecToken::Float(..) || t matches SpecToken::Str(
        ..,
    ) || t matches SpecToken::Identifier(..))
}

/// Whether `a` equals the fieldless token `b`.
fn token_eq_simple(a: &Token, b: &Token) -> (r: bool)
    requires
        is_fieldless(b@),
    ensures
        r == (a@ == b@),
{
    match (a, b) {
        (Token::Let, Token::Let) => true,
        (Token::Fn, Token::Fn) => true,
        (Token::If, Token::If) => true,
        (Token::Else, Token::Else) => true,
        (Token::True, Token::True) => true,
        (Token::False, Token::False) => true,
        (Token::While, Token::While) => true,
        (Token::Plus, Token::Plus) => true,
        (Token::Minus, Token::Minus) => true,
        (Token::Star, Token::Star) => true,
        (Token::Slash, Token::Slash) => true,
        (Token::Eq, Token::Eq) => true,
        (Token::EqEq, Token::EqEq) => true,
        (Token::Lt, Token::Lt) => true,
        (Token::Gt, Token::Gt) => true,
        (Token::Bang, Token::Bang) => true,
        (Token::PlusEq, Token::PlusEq) => true,
        (Token::MinusEq, Token::MinusEq) => true,
        (Token::StarEq, Token::StarEq) => true,
        (Token::SlashEq, Token::SlashEq) => true,
        (Token::And, Token::And) => true,
        (Token::Or, Token::Or) => true,
        (Token::LParen, Token::LParen) => true,
        (Token::RParen, Token::RParen) => true,
        (Token::LBrace, Token::LBrace) => true,
        (Token::RBrace, Token::RBrace) => true,
        (Token::SemiColon, Token::SemiColon) => true,
        (Token::Comma, Token::Comma) => true,
        (Token::Comment, Token::Comment) => true,
        (Token::Eof, Token::Eof) => true,
        _ => false,
    }
}

/// Whether `t` is one of the assignment operators.
fn token_is_assign_op(t: &Token) -> (r: bool)
    ensures
        r == is_assign_op(t@),
{
    match t {
        Token::Eq | Token::PlusEq | Token::MinusEq | Token::StarEq | Token::SlashEq => true,
        _ => false,
    }
}

/// Whether an expression is block-like: an `if` or a block, which may
/// stand as a statement with no terminating `;`.
fn expr_is_block_like(e: &Expr) -> (r: bool)
    ensures
        r == (e@ matches SpecExpr::If(..) || e@ matches SpecExpr::Block(..)),
{
    match e {
        Expr::If(..) | Expr::Block(..) => true,
        _ => false,
    }
}

/// The whole program: statements until `Eof`.
pub open spec fn spec_parse_program(st: SpecPState) -> SpecStep<Seq<SpecStmt>>
    decreases pending(st), 10int,
{
    if st.cur == SpecToken::Eof {
        SpecStep::Parsed(Seq::empty(), st)
    } else {
        match spec_parse_stmt(st) {
            SpecStep::Parsed(s1, st1) => {
                if pending(st1) < pending(st) {
                    match spec_parse_program(st1) {
                        SpecStep::Parsed(rest_ss, st2) => SpecStep::Parsed(seq![s1] + rest_ss, st2),
                        SpecStep::Fail(er) => SpecStep::Fail(er),
                    }
                } else {
                    SpecStep::Fail(SpecParseError::Diverged)
                }
            },
            SpecStep::Fail(er) => SpecStep::Fail(er),
        }
    }
}


/// The parser: a lexer and one token of lookahead. [`Parser::advance`]
/// pulls tokens and silently drops comments, so no method after
/// construction ever sees a `Comment`.
pub struct Parser {
    lexer: Lexer,
    current_token: Token,
}

impl Parser {
    /// The held lexer's cursor is in bounds.
    pub closed spec fn wf(&self) -> bool {
        self.lexer.wf()
    }

    /// The parser's abstract state: the lookahead and the unconsumed input.
    pub closed spec fn st(&self) -> SpecPState {
        SpecPState { cur: self.current_token@, rest: self.lexer.remaining() }
    }

    /// Builds a parser around a lexer and pulls the first token.
    pub fn new(lexer: Lexer) -> (r: Result<Parser, LexError>)
        requires
            lexer.wf(),
        ensures
            match spec_advance(lexer.remaining()) {
                SpecStep::Parsed(u, st1) => r matches Ok(p) && p.wf() && p.st() == st1,
                SpecStep::Fail(er) => r matches Err(le) && er == SpecParseError::Lex(le),
            },
    {
        let mut p = Parser { lexer, current_token: Token::Eof };
        match p.advance() {
            Ok(u) => Ok(p),
            Err(e) => Err(e),
        }
    }

    /// Pulls the next non-comment token into the lookahead.
    #[verifier::loop_isolation(false)]
    fn advance(&mut self) -> (r: Result<(), LexError>)
        requires
            old(self).wf(),
        ensures
            final(self).wf(),
            match spec_advance(old(self).st().rest) {
                SpecStep::Parsed(u, st1) => r is Ok && final(self).st() == st1 && pending(st1)
                    <= old(self).st().rest.len(),
                SpecStep::Fail(er) => r matches Err(le) && er == SpecParseError::Lex(le),
            },
    {
        proof {
            lemma_advance_pending(self.st().rest);
        }
        loop
            invariant
                self.wf(),
                spec_advance(old(self).st().rest) == spec_advance(self.st().rest),
                pending(SpecPState { cur: self.current_token@, rest: self.lexer.remaining() })
                    >= 0,
            decreases self.st().rest.len(),
        {
            let ghost rest0 = self.st().rest;
            proof {
                lemma_lex_progress(rest0);
            }
            match self.lexer.next_token() {
                Err(e) => {
                    return Err(e);
                },
                Ok(tok) => {
                    if token_eq_simple(&tok, &Token::Comment) {
                        proof {
                            assert(self.st().rest.len() < rest0.len());
                        }
                    } else {
                        self.current_token = tok;
                        return Ok(());
                    }
                },
            }
        }
    }

    /// Demands that the lookahead is `expected` and consumes it.
    fn expect(&mut self, expected: Token) -> (r: Result<(), ParseError>)
        requires
            old(self).wf(),
            is_fieldless(expected@),
            expected@ != SpecToken::Eof,
        ensures
            final(self).wf(),
            match spec_expect(expected@, old(self).st()) {
                SpecStep::Parsed(u, st1) => r is Ok && final(self).st() == st1 && pending(st1)
                    < pending(old(self).st()),
                SpecStep::Fail(er) => r matches Err(pe) && pe@ == er,
            },
    {
        if token_eq_simple(&self.current_token, &expected) {
            match self.advance() {
                Ok(u) => Ok(()),
                Err(e) => Err(ParseError::Lex(e)),
            }
        } else {
            let got = self.current_token.clone();
            Err(ParseError::Expected(expected, got))
        }
    }

    /// The binding strength of the lookahead as a binary operator.
    fn get_precedence(&self) -> (r: u8)
        ensures
            r == spec_precedence(self.st().cur),
    {
        match self.current_token {
            Token::Star | Token::Slash => 20,
            Token::Plus | Token::Minus => 10,
            Token::EqEq | Token::Lt | Token::Gt => 5,
            Token::And => 3,
            Token::Or => 1,
            _ => 0,
        }
    }

    /// The binary operator the lookahead denotes, if any.
    fn get_binary_op(&self) -> (r: Option<BinaryOp>)
        ensures
            r == spec_binop(self.st().cur),
    {
        match self.current_token {
            Token::Plus => Some(BinaryOp::Add),
            Token::Minus => Some(BinaryOp::Sub),
            Token::Star => Some(BinaryOp::Mul),
            Token::Slash => Some(BinaryOp::Div),
            Token::EqEq => Some(BinaryOp::Eq),
            Token::Lt => Some(BinaryOp::Lt),
            Token::Gt => Some(BinaryOp::Gt),
            Token::And => Some(BinaryOp::And),
            Token::Or => Some(BinaryOp::Or),
            _ => None,
        }
    }

    /// Parses a primary expression.
    #[verifier::rlimit(80)]
    fn parse_primary(&mut self) -> (r: Result<Expr, ParseError>)
        requires
            old(self).wf(),
        ensures
            final(self).wf(),
            match spec_parse_primary(old(self).st()) {
                SpecStep::Parsed(em, st1) => r matches Ok(e) && e@ == em && final(self).st()
                    == st1 && pending(st1) < pending(old(self).st()),
                SpecStep::Fail(er) => r matches Err(pe) && pe@ == er,
            },
        decreases pending(old(self).st()), 2int,
    {
        let ghost st0 = self.st();
        match &self.current_token {
            Token::Int(v) => {
                let val: i64 = *v;
                match self.advance() {
                    Ok(u) => Ok(Expr::Literal(Literal::Int(val))),
                    Err(e) => Err(ParseError::Lex(e)),
                }
            },
            Token::Float(b) => {
                let bits: u64 = *b;
                match self.advance() {
                    Ok(u) => Ok(Expr::Literal(Literal::Float(bits))),
                    Err(e) => Err(ParseError::Lex(e)),
                }
            },
            Token::Str(s) => {
                let text = s.clone();
                match self.advance() {
                    Ok(u) => Ok(Expr::Literal(Literal::Str(text))),
                    Err(e) => Err(ParseError::Lex(e)),
                }
            },
            Token::True => {
                match self.advance() {
                    Ok(u) => Ok(Expr::Literal(Literal::Bool(true))),
                    Err(e) => Err(ParseError::Lex(e)),
                }
            },
            Token::False => {
                match self.advance() {
                    Ok(u) => Ok(Expr::Literal(Literal::Bool(false))),
                    Err(e) => Err(ParseError::Lex(e)),
                }
            },
            Token::Identifier(n) => {
                let name = n.clone();
                match self.advance() {
                    Ok(u) => {
                        if token_eq_simple(&self.current_token, &Token::LParen) {
                            match self.advance() {
                                Ok(u2) => {
                                    if token_eq_simple(&self.current_token, &Token::RParen) {
                                        match self.advance() {
                                            Ok(u3) => {
                                                let args: Vec<Expr> = Vec::new();
                                                proof {
                                                    assert(exprs_view(args@) =~= Seq::<
                                                        SpecExpr,
                                                    >::empty());
                                                }
                                                Ok(Expr::Call(name, args))
                                            },
                                            Err(e) => Err(ParseError::Lex(e)),
                                        }
                                    } else {
                                        match self.parse_call_args() {
                                            Ok(args) => {
                                                match self.expect(Token::RParen) {
                                                    Ok(u3) => Ok(Expr::Call(name, args)),
                                                    Err(e) => Err(e),
                                                }
                                            },
                                            Err(e) => Err(e),
                                        }
                                    }
                                },
                                Err(e) => Err(ParseError::Lex(e)),
                            }
                        } else {
                            Ok(Expr::Variable(name))
                        }
                    },
                    Err(e) => Err(ParseError::Lex(e)),
                }
            },
            Token::LParen => {
                match self.advance() {
                    Ok(u) => {
                        match self.parse_expression(0) {
                            Ok(e) => {
                                match self.expect(Token::RParen) {
                                    Ok(u2) => Ok(e),
                                    Err(er) => Err(er),
                                }
                            },
                            Err(er) => Err(er),
                        }
                    },
                    Err(e) => Err(ParseError::Lex(e)),
                }
            },
            Token::LBrace => self.parse_block(),
            Token::If => self.parse_if_expression(),
            _ => {
                let got = self.current_token.clone();
                Err(ParseError::UnexpectedToken(got))
            },
        }
    }

    /// Parses the comma-separated arguments of a call.
    fn parse_call_args(&mut self) -> (r: Result<Vec<Expr>, ParseError>)
        requires
            old(self).wf(),
        ensures
            final(self).wf(),
            match spec_parse_call_args(old(self).st()) {
                SpecStep::Parsed(am, st1) => r matches Ok(args) && exprs_view(args@) == am
                    && final(self).st() == st1 && pending(st1) < pending(old(self).st()),
                SpecStep::Fail(er) => r matches Err(pe) && pe@ == er,
            },
        decreases pending(old(self).st()), 6int,
    {
        let ghost st0 = self.st();
        match self.parse_expression(0) {
            Ok(e) => {
                if token_eq_simple(&self.current_token, &Token::Comma) {
                    match self.advance() {
                        Ok(u) => {
                            match self.parse_call_args() {
                                Ok(mut rest_args) => {
                                    rest_args.insert(0, e);
                                    proof {
                                        broadcast use crate::ast::lemma_exprs_view_len, crate::ast::lemma_exprs_view_index;

                                        let am = spec_parse_call_args(
                                            st0,
                                        )->Parsed_0;
                                        assert(exprs_view(rest_args@) =~= am);
                                    }
                                    Ok(rest_args)
                                },
                                Err(er) => Err(er),
                            }
                        },
                        Err(er) => Err(ParseError::Lex(er)),
                    }
                } else {
                    let mut args: Vec<Expr> = Vec::new();
                    args.push(e);
                    proof {
                        broadcast use crate::ast::lemma_exprs_view_len, crate::ast::lemma_exprs_view_index;

                        let am = spec_parse_call_args(st0)->Parsed_0;
                        assert(exprs_view(args@) =~= am);
                    }
                    Ok(args)
                }
            },
            Err(er) => Err(er),
        }
    }

    /// Parses a unary expression.
    fn parse_unary(&mut self) -> (r: Result<Expr, ParseError>)
        requires
            old(self).wf(),
        ensures
            final(self).wf(),
            match spec_parse_unary(old(self).st()) {
                SpecStep::Parsed(em, st1) => r matches Ok(e) && e@ == em && final(self).st()
                    == st1 && pending(st1) < pending(old(self).st()),
                SpecStep::Fail(er) => r matches Err(pe) && pe@ == er,
            },
        decreases pending(old(self).st()), 3int,
    {
        if token_eq_simple(&self.current_token, &Token::Bang) || token_eq_simple(&self.current_token, &Token::Minus)
        {
            let op = if token_eq_simple(&self.current_token, &Token::Bang) {
                UnaryOp::Not
            } else {
                UnaryOp::Neg
            };
            match self.advance() {
                Ok(u) => {
                    match self.parse_unary() {
                        Ok(e) => Ok(Expr::Unary(op, Box::new(e))),
                        Err(er) => Err(er),
                    }
                },
                Err(e) => Err(ParseError::Lex(e)),
            }
        } else {
            self.parse_primary()
        }
    }

    /// The precedence climb over `lhs`; see [`spec_parse_climb`] for the
    /// right-grouping of same-precedence chains.
    fn parse_climb(&mut self, lhs: Expr, min_precedence: u8) -> (r: Result<Expr, ParseError>)
        requires
            old(self).wf(),
        ensures
            final(self).wf(),
            match spec_parse_climb(lhs@, min_precedence, old(self).st()) {
                SpecStep::Parsed(em, st1) => r matches Ok(e) && e@ == em && final(self).st()
                    == st1 && pending(st1) <= pending(old(self).st()),
                SpecStep::Fail(er) => r matches Err(pe) && pe@ == er,
            },
        decreases pending(old(self).st()), 4int,
    {
        let prec = self.get_precedence();
        if prec > min_precedence {
            match self.get_binary_op() {
                Some(op) => {
                    match self.advance() {
                        Ok(u) => {
                            match self.parse_expression(prec - 1) {
                                Ok(rhs) => {
                                    let new_lhs = Expr::Binary(Box::new(lhs), op, Box::new(rhs));
                                    self.parse_climb(new_lhs, min_precedence)
                                },
                                Err(er) => Err(er),
                            }
                        },
                        Err(e) => Err(ParseError::Lex(e)),
                    }
                },
                None => Ok(lhs),
            }
        } else {
            Ok(lhs)
        }
    }

    /// Parses an expression: a unary expression, then every following
    /// binary operator binding tighter than `min_precedence`.
    pub fn parse_expression(&mut self, min_precedence: u8) -> (r: Result<Expr, ParseError>)
        requires
            old(self).wf(),
        ensures
            final(self).wf(),
            match spec_parse_expr(min_precedence, old(self).st()) {
                SpecStep::Parsed(em, st1) => r matches Ok(e) && e@ == em && final(self).st()
                    == st1 && pending(st1) < pending(old(self).st()),
                SpecStep::Fail(er) => r matches Err(pe) && pe@ == er,
            },
        decreases pending(old(self).st()), 5int,
    {
        match self.parse_unary() {
            Ok(lhs) => self.parse_climb(lhs, min_precedence),
            Err(er) => Err(er),
        }
    }

    /// Parses an `if` expression.
    fn parse_if_expression(&mut self) -> (r: Result<Expr, ParseError>)
        requires
            old(self).wf(),
        ensures
            final(self).wf(),
            match spec_parse_if(old(self).st()) {
                SpecStep::Parsed(em, st1) => r matches Ok(e) && e@ == em && final(self).st()
                    == st1 && pending(st1) < pending(old(self).st()),
                SpecStep::Fail(er) => r matches Err(pe) && pe@ == er,
            },
        decreases pending(old(self).st()), 1int,
    {
        if !token_eq_simple(&self.current_token, &Token::If) {
            let got = self.current_token.clone();
            return Err(ParseError::Expected(Token::If, got));
        }
        match self.advance() {
            Ok(u) => {
                match self.parse_expression(0) {
                    Ok(cond) => {
                        match self.parse_block() {
                            Ok(then_b) => {
                                if token_eq_simple(&self.current_token, &Token::Else) {
                                    match self.advance() {
                                        Ok(u2) => {
                                            if token_eq_simple(&self.current_token, &Token::If) {
                                                match self.parse_if_expression() {
                                                    Ok(els) => Ok(
                                                        Expr::If(
                                                            Box::new(cond),
                                                            Box::new(then_b),
                                                            Some(Box::new(els)),
                                                        ),
                                                    ),
                                                    Err(er) => Err(er),
                                                }
                                            } else {
                                                match self.parse_block() {
                                                    Ok(els) => Ok(
                                                        Expr::If(
                                                            Box::new(cond),
                                                            Box::new(then_b),
                                                            Some(Box::new(els)),
                                                        ),
                                                    ),
                                                    Err(er) => Err(er),
                                                }
                                            }
                                        },
                                        Err(e) => Err(ParseError::Lex(e)),
                                    }
                                } else {
                                    Ok(Expr::If(Box::new(cond), Box::new(then_b), None))
                                }
                            },
                            Err(er) => Err(er),
                        }
                    },
                    Err(er) => Err(er),
                }
            },
            Err(e) => Err(ParseError::Lex(e)),
        }
    }

    /// Parses the operator, right side and `;` of an assignment whose
    /// target `name` was already parsed.
    fn parse_assign_tail(&mut self, name: String) -> (r: Result<Stmt, ParseError>)
        requires
            old(self).wf(),
        ensures
            final(self).wf(),
            match spec_parse_assign_tail(name@, old(self).st()) {
                SpecStep::Parsed(sm, st1) => r matches Ok(s) && s@ == sm && final(self).st()
                    == st1 && pending(st1) < pending(old(self).st()),
                SpecStep::Fail(er) => r matches Err(pe) && pe@ == er,
            },
        decreases pending(old(self).st()), 1int,
    {
        if token_eq_simple(&self.current_token, &Token::Eq) {
            match self.advance() {
                Ok(u) => {
                    match self.parse_expression(0) {
                        Ok(rhs) => {
                            match self.expect(Token::SemiColon) {
                                Ok(u2) => Ok(Stmt::Assign(name, rhs)),
                                Err(er) => Err(er),
                            }
                        },
                        Err(er) => Err(er),
                    }
                },
                Err(e) => Err(ParseError::Lex(e)),
            }
        } else {
            let op_opt = match self.current_token {
                Token::PlusEq => Some(BinaryOp::Add),
                Token::MinusEq => Some(BinaryOp::Sub),
                Token::StarEq => Some(BinaryOp::Mul),
                Token::SlashEq => Some(BinaryOp::Div),
                _ => None,
            };
            match op_opt {
                Some(op) => {
                    match self.advance() {
                        Ok(u) => {
                            match self.parse_expression(0) {
                                Ok(rhs) => {
                                    match self.expect(Token::SemiColon) {
                                        Ok(u2) => {
                                            let target = Expr::Variable(name.clone());
                                            Ok(
                                                Stmt::Assign(
                                                    name,
                                                    Expr::Binary(
                                                        Box::new(target),
                                                        op,
                                                        Box::new(rhs),
                                                    ),
                                                ),
                                            )
                                        },
                                        Err(er) => Err(er),
                                    }
                                },
                                Err(er) => Err(er),
                            }
                        },
                        Err(e) => Err(ParseError::Lex(e)),
                    }
                },
                None => {
                    let got = self.current_token.clone();
                    Err(ParseError::UnexpectedToken(got))
                },
            }
        }
    }

    /// Parses a `let` statement.
    fn parse_let_statement(&mut self) -> (r: Result<Stmt, ParseError>)
        requires
            old(self).wf(),
        ensures
            final(self).wf(),
            match spec_parse_let(old(self).st()) {
                SpecStep::Parsed(sm, st1) => r matches Ok(s) && s@ == sm && final(self).st()
                    == st1 && pending(st1) < pending(old(self).st()),
                SpecStep::Fail(er) => r matches Err(pe) && pe@ == er,
            },
        decreases pending(old(self).st()), 1int,
    {
        if !token_eq_simple(&self.current_token, &Token::Let) {
            let got = self.current_token.clone();
            return Err(ParseError::Expected(Token::Let, got));
        }
        match self.advance() {
            Ok(u) => {
                match &self.current_token {
                    Token::Identifier(n) => {
                        let name = n.clone();
                        match self.advance() {
                            Ok(u2) => {
                                match self.expect(Token::Eq) {
                                    Ok(u3) => {
                                        match self.parse_expression(0) {
                                            Ok(v) => {
                                                match self.expect(Token::SemiColon) {
                                                    Ok(u4) => Ok(Stmt::Let(name, v)),
                                                    Err(er) => Err(er),
                                                }
                                            },
                                            Err(er) => Err(er),
                                        }
                                    },
                                    Err(er) => Err(er),
                                }
                            },
                            Err(e) => Err(ParseError::Lex(e)),
                        }
                    },
                    _ => {
                        let got = self.current_token.clone();
                        Err(ParseError::ExpectedName(got))
                    },
                }
            },
            Err(e) => Err(ParseError::Lex(e)),
        }
    }

    /// Parses the parameter names of a function.
    fn parse_params(&mut self) -> (r: Result<Vec<String>, ParseError>)
        requires
            old(self).wf(),
        ensures
            final(self).wf(),
            match spec_parse_params(old(self).st()) {
                SpecStep::Parsed(pm, st1) => r matches Ok(ps) && ps.deep_view() == pm
                    && final(self).st() == st1 && pending(st1) < pending(old(self).st()),
                SpecStep::Fail(er) => r matches Err(pe) && pe@ == er,
            },
        decreases pending(old(self).st()), 1int,
    {
        let ghost st0 = self.st();
        match &self.current_token {
            Token::Identifier(n) => {
                let p = n.clone();
                match self.advance() {
                    Ok(u) => {
                        if token_eq_simple(&self.current_token, &Token::Comma) {
                            match self.advance() {
                                Ok(u2) => {
                                    match self.parse_params() {
                                        Ok(mut rest_ps) => {
                                            rest_ps.insert(0, p);
                                            proof {
                                                let pm = spec_parse_params(st0)->Parsed_0;
                                                assert(rest_ps.deep_view() =~= pm);
                                            }
                                            Ok(rest_ps)
                                        },
                                        Err(er) => Err(er),
                                    }
                                },
                                Err(e) => Err(ParseError::Lex(e)),
                            }
                        } else {
                            let mut ps: Vec<String> = Vec::new();
                            ps.push(p);
                            proof {
                                let pm = spec_parse_params(st0)->Parsed_0;
                                assert(ps.deep_view() =~= pm);
                            }
                            Ok(ps)
                        }
                    },
                    Err(e) => Err(ParseError::Lex(e)),
                }
            },
            _ => {
                let got = self.current_token.clone();
                Err(ParseError::ExpectedParamName(got))
            },
        }
    }

    /// Parses a function statement.
    fn parse_function_statement(&mut self) -> (r: Result<Stmt, ParseError>)
        requires
            old(self).wf(),
        ensures
            final(self).wf(),
            match spec_parse_fn(old(self).st()) {
                SpecStep::Parsed(sm, st1) => r matches Ok(s) && s@ == sm && final(self).st()
                    == st1 && pending(st1) < pending(old(self).st()),
                SpecStep::Fail(er) => r matches Err(pe) && pe@ == er,
            },
        decreases pending(old(self).st()), 2int,
    {
        if !token_eq_simple(&self.current_token, &Token::Fn) {
            let got = self.current_token.clone();
            return Err(ParseError::Expected(Token::Fn, got));
        }
        match self.advance() {
            Ok(u) => {
                match &self.current_token {
                    Token::Identifier(n) => {
                        let name = n.clone();
                        match self.advance() {
                            Ok(u2) => {
                                match self.expect(Token::LParen) {
                                    Ok(u3) => {
                                        let params_r: Result<Vec<String>, ParseError> = if token_eq_simple(
                                            &self.current_token,
                                            &Token::RParen,
                                        ) {
                                            let empty_ps: Vec<String> = Vec::new();
                                            proof {
                                                assert(empty_ps.deep_view() =~= Seq::<
                                                    Seq<char>,
                                                >::empty());
                                            }
                                            Ok(empty_ps)
                                        } else {
                                            self.parse_params()
                                        };
                                        match params_r {
                                            Ok(params) => {
                                                match self.expect(Token::RParen) {
                                                    Ok(u4) => {
                                                        match self.parse_block() {
                                                            Ok(body) => Ok(
                                                                Stmt::Fn(name, params, body),
                                                            ),
                                                            Err(er) => Err(er),
                                                        }
                                                    },
                                                    Err(er) => Err(er),
                                                }
                                            },
                                            Err(er) => Err(er),
                                        }
                                    },
                                    Err(er) => Err(er),
                                }
                            },
                            Err(e) => Err(ParseError::Lex(e)),
                        }
                    },
                    _ => {
                        let got = self.current_token.clone();
                        Err(ParseError::ExpectedFnName(got))
                    },
                }
            },
            Err(e) => Err(ParseError::Lex(e)),
        }
    }

    /// Parses a `while` statement.
    fn parse_while_statement(&mut self) -> (r: Result<Stmt, ParseError>)
        requires
            old(self).wf(),
        ensures
            final(self).wf(),
            match spec_parse_while(old(self).st()) {
                SpecStep::Parsed(sm, st1) => r matches Ok(s) && s@ == sm && final(self).st()
                    == st1 && pending(st1) < pending(old(self).st()),
                SpecStep::Fail(er) => r matches Err(pe) && pe@ == er,
            },
        decreases pending(old(self).st()), 1int,
    {
        if !token_eq_simple(&self.current_token, &Token::While) {
            let got = self.current_token.clone();
            return Err(ParseError::Expected(Token::While, got));
        }
        match self.advance() {
            Ok(u) => {
                match self.parse_expression(0) {
                    Ok(cond) => {
                        match self.parse_block() {
                            Ok(body) => Ok(Stmt::While(cond, body)),
                            Err(er) => Err(er),
                        }
                    },
                    Err(er) => Err(er),
                }
            },
            Err(e) => Err(ParseError::Lex(e)),
        }
    }

    /// Parses the statements and optional tail expression of a block.
    #[verifier::rlimit(80)]
    fn parse_block_items(&mut self) -> (r: Result<(Vec<Stmt>, Option<Expr>), ParseError>)
        requires
            old(self).wf(),
        ensures
            final(self).wf(),
            match spec_parse_block_items(old(self).st()) {
                SpecStep::Parsed(im, st1) => r matches Ok(items) && stmts_view(items.0@) == im.0
                    && (match (items.1, im.1) {
                    (Some(e), Some(em)) => e@ == em,
                    (None, None) => true,
                    _ => false,
                }) && final(self).st() == st1 && pending(st1) <= pending(old(self).st()),
                SpecStep::Fail(er) => r matches Err(pe) && pe@ == er,
            },
        decreases pending(old(self).st()), 8int,
    {
        let ghost st0 = self.st();
        if token_eq_simple(&self.current_token, &Token::RBrace) || token_eq_simple(&self.current_token, &Token::Eof)
        {
            proof {
                assert(stmts_view(Seq::<Stmt>::empty()) =~= Seq::<SpecStmt>::empty());
            }
            return Ok((Vec::new(), None));
        }
        if token_eq_simple(&self.current_token, &Token::Let) || token_eq_simple(&self.current_token, &Token::Fn)
            || token_eq_simple(&self.current_token, &Token::While) {
            let item_r: Result<Stmt, ParseError> = if token_eq_simple(&self.current_token, &Token::Let) {
                self.parse_let_statement()
            } else if token_eq_simple(&self.current_token, &Token::Fn) {
                self.parse_function_statement()
            } else {
                self.parse_while_statement()
            };
            match item_r {
                Ok(s1) => {
                    match self.parse_block_items() {
                        Ok((mut stmts, tail)) => {
                            stmts.insert(0, s1);
                            proof {
                                broadcast use crate::ast::lemma_stmts_view_len, crate::ast::lemma_stmts_view_index;

                                let im = spec_parse_block_items(st0)->Parsed_0;
                                assert(stmts_view(stmts@) =~= im.0);
                            }
                            Ok((stmts, tail))
                        },
                        Err(er) => Err(er),
                    }
                },
                Err(er) => Err(er),
            }
        } else {
            match self.parse_expression(0) {
                Ok(e) => {
                    let is_assign = token_is_assign_op(&self.current_token);
                    if is_assign {
                        match e {
                            Expr::Variable(name) => {
                                match self.parse_assign_tail(name) {
                                    Ok(s1) => {
                                        match self.parse_block_items() {
                                            Ok((mut stmts, tail)) => {
                                                stmts.insert(0, s1);
                                                proof {
                                                    broadcast use crate::ast::lemma_stmts_view_len, crate::ast::lemma_stmts_view_index;

                                                    let im = spec_parse_block_items(
                                                        st0,
                                                    )->Parsed_0;
                                                    assert(stmts_view(stmts@) =~= im.0);
                                                }
                                                Ok((stmts, tail))
                                            },
                                            Err(er) => Err(er),
                                        }
                                    },
                                    Err(er) => Err(er),
                                }
                            },
                            _ => Err(ParseError::InvalidAssignTarget),
                        }
                    } else if token_eq_simple(&self.current_token, &Token::SemiColon) {
                        match self.advance() {
                            Ok(u) => {
                                match self.parse_block_items() {
                                    Ok((mut stmts, tail)) => {
                                        stmts.insert(0, Stmt::Expression(e));
                                        proof {
                                            broadcast use crate::ast::lemma_stmts_view_len, crate::ast::lemma_stmts_view_index;

                                            let im = spec_parse_block_items(st0)->Parsed_0;
                                            assert(stmts_view(stmts@) =~= im.0);
                                        }
                                        Ok((stmts, tail))
                                    },
                                    Err(er) => Err(er),
                                }
                            },
                            Err(er) => Err(ParseError::Lex(er)),
                        }
                    } else if token_eq_simple(&self.current_token, &Token::RBrace) {
                        proof {
                            assert(stmts_view(Seq::<Stmt>::empty()) =~= Seq::<SpecStmt>::empty());
                        }
                        Ok((Vec::new(), Some(e)))
                    } else {
                        let got = self.current_token.clone();
                        Err(ParseError::ExpectedSemiOrBrace(got))
                    }
                },
                Err(er) => Err(er),
            }
        }
    }

    /// Parses a block expression.
    fn parse_block(&mut self) -> (r: Result<Expr, ParseError>)
        requires
            old(self).wf(),
        ensures
            final(self).wf(),
            match spec_parse_block(old(self).st()) {
                SpecStep::Parsed(em, st1) => r matches Ok(e) && e@ == em && final(self).st()
                    == st1 && pending(st1) < pending(old(self).st()),
                SpecStep::Fail(er) => r matches Err(pe) && pe@ == er,
            },
        decreases pending(old(self).st()), 1int,
    {
        if !token_eq_simple(&self.current_token, &Token::LBrace) {
            let got = self.current_token.clone();
            return Err(ParseError::Expected(Token::LBrace, got));
        }
        match self.advance() {
            Ok(u) => {
                match self.parse_block_items() {
                    Ok((stmts, tail)) => {
                        match self.expect(Token::RBrace) {
                            Ok(u2) => Ok(
                                Expr::Block(
                                    stmts,
                                    match tail {
                                        Some(e) => Some(Box::new(e)),
                                        None => None,
                                    },
                                ),
                            ),
                            Err(er) => Err(er),
                        }
                    },
                    Err(er) => Err(er),
                }
            },
            Err(e) => Err(ParseError::Lex(e)),
        }
    }

    /// Parses a top-level expression statement or assignment.
    fn parse_expression_statement(&mut self) -> (r: Result<Stmt, ParseError>)
        requires
            old(self).wf(),
        ensures
            final(self).wf(),
            match spec_parse_expr_stmt(old(self).st()) {
                SpecStep::Parsed(sm, st1) => r matches Ok(s) && s@ == sm && final(self).st()
                    == st1 && pending(st1) < pending(old(self).st()),
                SpecStep::Fail(er) => r matches Err(pe) && pe@ == er,
            },
        decreases pending(old(self).st()), 7int,
    {
        match self.parse_expression(0) {
            Ok(e) => {
                let is_assign = token_is_assign_op(&self.current_token);
                if is_assign {
                    match e {
                        Expr::Variable(name) => self.parse_assign_tail(name),
                        _ => Err(ParseError::InvalidAssignTarget),
                    }
                } else {
                    let block_like = expr_is_block_like(&e);
                    if token_eq_simple(&self.current_token, &Token::SemiColon) {
                        match self.advance() {
                            Ok(u) => Ok(Stmt::Expression(e)),
                            Err(er) => Err(ParseError::Lex(er)),
                        }
                    } else if block_like {
                        Ok(Stmt::Expression(e))
                    } else if token_eq_simple(&self.current_token, &Token::Eof) {
                        Ok(Stmt::ImplicitReturn(e))
                    } else {
                        let got = self.current_token.clone();
                        Err(ParseError::ExpectedSemi(got))
                    }
                }
            },
            Err(er) => Err(er),
        }
    }

    /// Parses one statement.
    pub fn parse_statement(&mut self) -> (r: Result<Stmt, ParseError>)
        requires
            old(self).wf(),
        ensures
            final(self).wf(),
            match spec_parse_stmt(old(self).st()) {
                SpecStep::Parsed(sm, st1) => r matches Ok(s) && s@ == sm && final(self).st()
                    == st1 && pending(st1) < pending(old(self).st()),
                SpecStep::Fail(er) => r matches Err(pe) && pe@ == er,
            },
        decreases pending(old(self).st()), 9int,
    {
        if token_eq_simple(&self.current_token, &Token::Let) {
            self.parse_let_statement()
        } else if token_eq_simple(&self.current_token, &Token::Fn) {
            self.parse_function_statement()
        } else if token_eq_simple(&self.current_token, &Token::While) {
            self.parse_while_statement()
        } else {
            self.parse_expression_statement()
        }
    }

    /// Parses the whole program: statements until `Eof`. On success the
    /// parser stands at `Eof`, every token of the source consumed.
    pub fn parse_program(&mut self) -> (r: Result<Vec<Stmt>, ParseError>)
        requires
            old(self).wf(),
        ensures
            final(self).wf(),
            match spec_parse_program(old(self).st()) {
                SpecStep::Parsed(pm, st1) => r matches Ok(prog) && stmts_view(prog@) == pm
                    && final(self).st() == st1 && final(self).st().cur == SpecToken::Eof
                    && pending(st1) <= pending(old(self).st()),
                SpecStep::Fail(er) => r matches Err(pe) && pe@ == er,
            },
        decreases pending(old(self).st()), 10int,
    {
        let ghost st0 = self.st();
        if token_eq_simple(&self.current_token, &Token::Eof) {
            proof {
                assert(stmts_view(Seq::<Stmt>::empty()) =~= Seq::<SpecStmt>::empty());
            }
            return Ok(Vec::new());
        }
        match self.parse_statement() {
            Ok(s1) => {
                match self.parse_program() {
                    Ok(mut prog) => {
                        prog.insert(0, s1);
                        proof {
                            broadcast use crate::ast::lemma_stmts_view_len, crate::ast::lemma_stmts_view_index;

                            let pm = spec_parse_program(st0)->Parsed_0;
                            assert(stmts_view(prog@) =~= pm);
                        }
                        Ok(prog)
                    },
                    Err(er) => Err(er),
                }
            },
            Err(er) => Err(er),
        }
    }
}

} // verus!
