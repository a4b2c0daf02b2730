use vstd::prelude::*;

verus! {

/// Binary operators of the language.
#[derive(Debug, Clone, Copy, PartialEq, Eq, Structural)]
pub enum BinaryOp {
    Add,
    Sub,
    Mul,
    Div,
    Lt,
    Gt,
    Eq,
    And,
    Or,
}

/// Unary operators of the language.
#[derive(Debug, Clone, Copy, PartialEq, Eq, Structural)]
pub enum UnaryOp {
    Neg,
    Not,
}

/// A literal as it appears in the source. Floating-point literals are kept
/// as the bit pattern of the IEEE 754 double they denote.
#[derive(Debug, PartialEq)]
pub enum Literal {
    Int(i64),
    Float(u64),
    Bool(bool),
    Str(String),
}

/// An expression node. Children are owned; the tree is finite and acyclic.
#[derive(Debug, PartialEq)]
pub enum Expr {
    Literal(Literal),
    Binary(Box<Expr>, BinaryOp, Box<Expr>),
    Unary(UnaryOp, Box<Expr>),
    Variable(String),
    Call(String, Vec<Expr>),
    Block(Vec<Stmt>, Option<Box<Expr>>),
    If(Box<Expr>, Box<Expr>, Option<Box<Expr>>),
}

/// A statement node.
#[derive(Debug, PartialEq)]
pub enum Stmt {
    Let(String, Expr),
    Fn(String, Vec<String>, Expr),
    Assign(String, Expr),
    While(Expr, Expr),
    Expression(Expr),
    ImplicitReturn(Expr),
}

/// Mathematical model of a literal: strings become character sequences.
pub enum SpecLiteral {
    Int(i64),
    Float(u64),
    Bool(bool),
    Str(Seq<char>),
}

/// Mathematical model of an expression.
pub enum SpecExpr {
    Literal(SpecLiteral),
    Binary(Box<SpecExpr>, BinaryOp, Box<SpecExpr>),
    Unary(UnaryOp, Box<SpecExpr>),
    Variable(Seq<char>),
    Call(Seq<char>, Seq<SpecExpr>),
    Block(Seq<SpecStmt>, Option<Box<SpecExpr>>),
    If(Box<SpecExpr>, Box<SpecExpr>, Option<Box<SpecExpr>>),
}

/// Mathematical model of a statement.
pub enum SpecStmt {
    Let(Seq<char>, SpecExpr),
    Fn(Seq<char>, Seq<Seq<char>>, SpecExpr),
    Assign(Seq<char>, SpecExpr),
    While(SpecExpr, SpecExpr),
    Expression(SpecExpr),
    ImplicitReturn(SpecExpr),
}

pub open spec fn lit_view(l: Literal) -> SpecLiteral {
    match l {
        Literal::Int(i) => SpecLiteral::Int(i),
        Literal::Float(b) => SpecLiteral::Float(b),
        Literal::Bool(b) => SpecLiteral::Bool(b),
        Literal::Str(s) => SpecLiteral::Str(s@),
    }
}

pub open spec fn expr_view(e: Expr) -> SpecExpr
    decreases e,
{
    match e {
        Expr::Literal(l) => SpecExpr::Literal(lit_view(l)),
        Expr::Binary(l, op, r) => SpecExpr::Binary(Box::new(expr_view(*l)), op, Box::new(expr_view(*r))),
        Expr::Unary(op, r) => SpecExpr::Unary(op, Box::new(expr_view(*r))),
        Expr::Variable(n) => SpecExpr::Variable(n@),
        Expr::Call(n, args) => SpecExpr::Call(n@, exprs_view(args@)),
        Expr::Block(ss, tail) => SpecExpr::Block(
            stmts_view(ss@),
            match tail {
                Some(t) => Some(Box::new(expr_view(*t))),
                None => None,
            },
        ),
        Expr::If(c, t, e2) => SpecExpr::If(
            Box::new(expr_view(*c)),
            Box::new(expr_view(*t)),
            match e2 {
                Some(x) => Some(Box::new(expr_view(*x))),
                None => None,
            },
        ),
    }
}

pub open spec fn exprs_view(es: Seq<Expr>) -> Seq<SpecExpr>
    decreases es,
{
    if es.len() == 0 {
        Seq::empty()
    } else {
        exprs_view(es.drop_last()).push(expr_view(es.last()))
    }
}

pub open spec fn stmt_view(s: Stmt) -> SpecStmt
    decreases s,
{
    match s {
        Stmt::Let(n, e) => SpecStmt::Let(n@, expr_view(e)),
        Stmt::Fn(n, ps, body) => SpecStmt::Fn(n@, ps.deep_view(), expr_view(body)),
        Stmt::Assign(n, e) => SpecStmt::Assign(n@, expr_view(e)),
        Stmt::While(c, b) => SpecStmt::While(expr_view(c), expr_view(b)),
        Stmt::Expression(e) => SpecStmt::Expression(expr_view(e)),
        Stmt::ImplicitReturn(e) => SpecStmt::ImplicitReturn(expr_view(e)),
    }
}

pub open spec fn stmts_view(ss: Seq<Stmt>) -> Seq<SpecStmt>
    decreases ss,
{
    if ss.len() == 0 {
        Seq::empty()
    } else {
        stmts_view(ss.drop_last()).push(stmt_view(ss.last()))
    }
}

impl View for Literal {
    type V = SpecLiteral;

    open spec fn view(&self) -> SpecLiteral {
        lit_view(*self)
    }
}

impl View for Expr {
    type V = SpecExpr;

    open spec fn view(&self) -> SpecExpr {
        expr_view(*self)
    }
}

impl View for Stmt {
    type V = SpecStmt;

    open spec fn view(&self) -> SpecStmt {
        stmt_view(*self)
    }
}

impl Clone for Literal {
    fn clone(&self) -> (r: Self)
        ensures
            r@ == self@,
    {
        match self {
            Literal::Int(i) => Literal::Int(*i),
            Literal::Float(b) => Literal::Float(*b),
            Literal::Bool(b) => Literal::Bool(*b),
            Literal::Str(s) => Literal::Str(s.clone()),
        }
    }
}

impl Clone for Expr {
    fn clone(&self) -> (r: Self)
        ensures
            r@ == self@,
        decreases self,
    {
        match self {
            Expr::Literal(l) => Expr::Literal(l.clone()),
            Expr::Binary(l, op, r) => Expr::Binary(Box::new((**l).clone()), *op, Box::new((**r).clone())),
            Expr::Unary(op, r) => Expr::Unary(*op, Box::new((**r).clone())),
            Expr::Variable(n) => Expr::Variable(n.clone()),
            Expr::Call(n, args) => Expr::Call(n.clone(), clone_exprs(args)),
            Expr::Block(ss, tail) => Expr::Block(
                clone_stmts(ss),
                match tail {
                    Some(t) => Some(Box::new((**t).clone())),
                    None => None,
                },
            ),
            Expr::If(c, t, e2) => Expr::If(
                Box::new((**c).clone()),
                Box::new((**t).clone()),
                match e2 {
                    Some(x) => Some(Box::new((**x).clone())),
                    None => None,
                },
            ),
        }
    }
}

fn clone_exprs(es: &Vec<Expr>) -> (r: Vec<Expr>)
    ensures
        exprs_view(r@) == exprs_view(es@),
    decreases es,
{
    let mut out: Vec<Expr> = Vec::new();
    let mut i: usize = 0;
    proof {
        assert(es@.take(0int) =~= Seq::<Expr>::empty());
        assert(out@ =~= es@.take(0int));
        lemma_exprs_view_prefix_eq(out@, es@.take(0int));
    }
    while i < es.len()
        invariant
            i <= es.len(),
            out@.len() == i,
            exprs_view(out@) == exprs_view(es@.take(i as int)),
        decreases es@.len() - i,
    {
        let c = es[i].clone();
        let ghost prev = out@;
        out.push(c);
        proof {
            assert(es@.take(i + 1int).drop_last() =~= es@.take(i as int));
            assert(es@.take(i + 1int).last() == es@[i as int]);
            assert(out@.drop_last() =~= prev);
            assert(exprs_view(out@) == exprs_view(prev).push(expr_view(out@.last())));
            assert(exprs_view(out@) == exprs_view(es@.take(i + 1int)));
        }
        i = i + 1;
    }
    proof {
        assert(es@.take(es@.len() as int) =~= es@);
    }
    out
}

proof fn lemma_exprs_view_prefix_eq(a: Seq<Expr>, b: Seq<Expr>)
    requires
        a == b,
    ensures
        exprs_view(a) == exprs_view(b),
{
}

impl Clone for Stmt {
    fn clone(&self) -> (r: Self)
        ensures
            r@ == self@,
        decreases self,
    {
        match self {
            Stmt::Let(n, e) => Stmt::Let(n.clone(), e.clone()),
            Stmt::Fn(n, ps, body) => {
                let ps2 = clone_strings(ps);
                proof {
                    assert(ps2.deep_view() =~= ps.deep_view());
                }
                Stmt::Fn(n.clone(), ps2, body.clone())
            },
            Stmt::Assign(n, e) => Stmt::Assign(n.clone(), e.clone()),
            Stmt::While(c, b) => Stmt::While(c.clone(), b.clone()),
            Stmt::Expression(e) => Stmt::Expression(e.clone()),
            Stmt::ImplicitReturn(e) => Stmt::ImplicitReturn(e.clone()),
        }
    }
}

fn clone_stmts(ss: &Vec<Stmt>) -> (r: Vec<Stmt>)
    ensures
        stmts_view(r@) == stmts_view(ss@),
    decreases ss,
{
    let mut out: Vec<Stmt> = Vec::new();
    let mut i: usize = 0;
    proof {
        assert(out@ =~= ss@.take(0int));
    }
    while i < ss.len()
        invariant
            i <= ss.len(),
            out@.len() == i,
            stmts_view(out@) == stmts_view(ss@.take(i as int)),
        decreases ss@.len() - i,
    {
        let c = ss[i].clone();
        let ghost prev = out@;
        out.push(c);
        proof {
            assert(ss@.take(i + 1int).drop_last() =~= ss@.take(i as int));
            assert(ss@.take(i + 1int).last() == ss@[i as int]);
            assert(out@.drop_last() =~= prev);
            assert(stmts_view(out@) == stmts_view(prev).push(stmt_view(out@.last())));
            assert(stmts_view(out@) == stmts_view(ss@.take(i + 1int)));
        }
        i = i + 1;
    }
    proof {
        assert(ss@.take(ss@.len() as int) =~= ss@);
    }
    out
}

/// Clones a list of names, preserving the character sequences it holds.
pub fn clone_strings(ss: &Vec<String>) -> (r: Vec<String>)
    ensures
        r.deep_view() == ss.deep_view(),
{
    let mut out: Vec<String> = Vec::new();
    let mut i: usize = 0;
    while i < ss.len()
        invariant
            i <= ss.len(),
            out@.len() == i,
            forall|j: int| 0 <= j < i ==> out@[j]@ == ss@[j]@,
        decreases ss@.len() - i,
    {
        out.push(ss[i].clone());
        i = i + 1;
    }
    proof {
        assert(out.deep_view() =~= ss.deep_view());
    }
    out
}

pub broadcast proof fn lemma_exprs_view_len(es: Seq<Expr>)
    ensures
        #[trigger] exprs_view(es).len() == es.len(),
    decreases es,
{
    if es.len() > 0 {
        lemma_exprs_view_len(es.drop_last());
    }
}

pub broadcast proof fn lemma_exprs_view_index(es: Seq<Expr>, i: int)
    requires
        0 <= i < es.len(),
    ensures
        #[trigger] exprs_view(es)[i] == expr_view(es[i]),
    decreases es,
{
    lemma_exprs_view_len(es);
    if i < es.len() - 1 {
        lemma_exprs_view_index(es.drop_last(), i);
    } else {
        assert(es.last() == es[i]);
    }
}

pub broadcast proof fn lemma_stmts_view_len(ss: Seq<Stmt>)
    ensures
        #[trigger] stmts_view(ss).len() == ss.len(),
    decreases ss,
{
    if ss.len() > 0 {
        lemma_stmts_view_len(ss.drop_last());
    }
}

pub broadcast proof fn lemma_stmts_view_index(ss: Seq<Stmt>, i: int)
    requires
        0 <= i < ss.len(),
    ensures
        #[trigger] stmts_view(ss)[i] == stmt_view(ss[i]),
    decreases ss,
{
    lemma_stmts_view_len(ss);
    if i < ss.len() - 1 {
        lemma_stmts_view_index(ss.drop_last(), i);
    } else {
        assert(ss.last() == ss[i]);
    }
}

} // verus!
