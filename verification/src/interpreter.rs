use vstd::prelude::*;

use crate::ast::{
    clone_strings, expr_view, exprs_view, stmt_view, stmts_view, BinaryOp, Expr, Literal,
    SpecExpr, SpecLiteral, SpecStmt, Stmt, UnaryOp,
};
use crate::floats::{
    f64_bits_add, f64_bits_cmp, f64_bits_display, f64_bits_div, f64_bits_mul, f64_bits_neg,
    f64_bits_of_i64, f64_bits_sub, float_add, float_cmp, float_display, float_div, float_mul,
    float_neg, float_of_i64, float_sub, FloatCmp,
};
use crate::text::{chars_to_string, str_to_chars};

verus! {

/// A built-in function of the interpreter. `println` is the only one.
#[derive(Debug, Clone, Copy, PartialEq, Eq, Structural)]
pub enum NativeFn {
    Println,
}

/// A runtime value. Floats are carried as IEEE 754 double bit patterns.
#[derive(Debug, PartialEq)]
pub enum Value {
    Int(i64),
    Float(u64),
    Bool(bool),
    Str(String),
    Unit,
    Function(Vec<String>, Expr),
    NativeFunc(NativeFn),
}

/// Mathematical model of a runtime value.
pub enum SpecValue {
    Int(i64),
    Float(u64),
    Bool(bool),
    Str(Seq<char>),
    Unit,
    Function(Seq<Seq<char>>, SpecExpr),
    NativeFunc(NativeFn),
}

pub open spec fn value_view(v: Value) -> SpecValue {
    match v {
        Value::Int(i) => SpecValue::Int(i),
        Value::Float(b) => SpecValue::Float(b),
        Value::Bool(b) => SpecValue::Bool(b),
        Value::Str(s) => SpecValue::Str(s@),
        Value::Unit => SpecValue::Unit,
        Value::Function(ps, body) => SpecValue::Function(ps.deep_view(), expr_view(body)),
        Value::NativeFunc(f) => SpecValue::NativeFunc(f),
    }
}

impl View for Value {
    type V = SpecValue;

    open spec fn view(&self) -> SpecValue {
        value_view(*self)
    }
}

impl Clone for Value {
    fn clone(&self) -> (r: Self)
        ensures
            r@ == self@,
    {
        match self {
            Value::Int(i) => Value::Int(*i),
            Value::Float(b) => Value::Float(*b),
            Value::Bool(b) => Value::Bool(*b),
            Value::Str(s) => Value::Str(s.clone()),
            Value::Unit => Value::Unit,
            Value::Function(ps, body) => {
                let ps2 = clone_strings(ps);
                Value::Function(ps2, body.clone())
            },
            Value::NativeFunc(f) => Value::NativeFunc(*f),
        }
    }
}

/// A fatal runtime error.
#[derive(Debug, PartialEq)]
pub enum RuntimeError {
    /// A variable was read before any binding defined it.
    UndefinedVariable(String),
    /// A call named something the environment does not hold.
    UndefinedFunction(String),
    /// A unary operator met an operand it is not defined on.
    UnaryTypeMismatch(UnaryOp, Value),
    /// A binary operator met operands it is not defined on.
    TypeMismatch(Value, BinaryOp, Value),
    /// A `while` condition did not evaluate to a boolean.
    NonBoolWhileCondition(Value),
    /// A call's target value is not a function.
    NotCallable(Value),
    /// A call handed a function the wrong number of arguments.
    ArityMismatch(usize, usize),
    /// An assignment named a variable that no binding defines.
    AssignUndefined(String),
    /// An integer division's divisor was zero.
    DivisionByZero,
    /// An integer operation's result does not fit in an `i64`.
    IntegerOverflow,
    /// The evaluation meter ran out; deep recursion and long loops spend it.
    OutOfFuel,
}

/// Mathematical model of a runtime error.
pub enum SpecRuntimeError {
    UndefinedVariable(Seq<char>),
    UndefinedFunction(Seq<char>),
    UnaryTypeMismatch(UnaryOp, SpecValue),
    TypeMismatch(SpecValue, BinaryOp, SpecValue),
    NonBoolWhileCondition(SpecValue),
    NotCallable(SpecValue),
    ArityMismatch(int, int),
    AssignUndefined(Seq<char>),
    DivisionByZero,
    IntegerOverflow,
    OutOfFuel,
}

pub open spec fn runtime_error_view(e: RuntimeError) -> SpecRuntimeError {
    match e {
        RuntimeError::UndefinedVariable(n) => SpecRuntimeError::UndefinedVariable(n@),
        RuntimeError::UndefinedFunction(n) => SpecRuntimeError::UndefinedFunction(n@),
        RuntimeError::UnaryTypeMismatch(op, v) => SpecRuntimeError::UnaryTypeMismatch(
            op,
            value_view(v),
        ),
        RuntimeError::TypeMismatch(l, op, r) => SpecRuntimeError::TypeMismatch(
            value_view(l),
            op,
            value_view(r),
        ),
        RuntimeError::NonBoolWhileCondition(v) => SpecRuntimeError::NonBoolWhileCondition(
            value_view(v),
        ),
        RuntimeError::NotCallable(v) => SpecRuntimeError::NotCallable(value_view(v)),
        RuntimeError::ArityMismatch(w, g) => SpecRuntimeError::ArityMismatch(w as int, g as int),
        RuntimeError::AssignUndefined(n) => SpecRuntimeError::AssignUndefined(n@),
        RuntimeError::DivisionByZero => SpecRuntimeError::DivisionByZero,
        RuntimeError::IntegerOverflow => SpecRuntimeError::IntegerOverflow,
        RuntimeError::OutOfFuel => SpecRuntimeError::OutOfFuel,
    }
}

impl View for RuntimeError {
    type V = SpecRuntimeError;

    open spec fn view(&self) -> SpecRuntimeError {
        runtime_error_view(*self)
    }
}

/// The name the built-in `println` is bound to.
pub open spec fn println_name() -> Seq<char> {
    seq!['p', 'r', 'i', 'n', 't', 'l', 'n']
}

/// The variable environment: a single flat mapping from names to values.
/// Cloning one yields an independent mapping.
pub struct Environment {
    values: Vec<(String, Value)>,
}

/// The mapping an entry list denotes; a later entry for the same name
/// would win, though well-formed environments never hold two.
pub open spec fn env_map(es: Seq<(String, Value)>) -> Map<Seq<char>, SpecValue>
    decreases es.len(),
{
    if es.len() == 0 {
        Map::empty()
    } else {
        env_map(es.drop_last()).insert(es.last().0@, value_view(es.last().1))
    }
}

impl View for Environment {
    type V = Map<Seq<char>, SpecValue>;

    closed spec fn view(&self) -> Map<Seq<char>, SpecValue> {
        env_map(self.values@)
    }
}

/// A name is in the mapping exactly when some entry holds it.
pub proof fn lemma_env_map_key(es: Seq<(String, Value)>, k: Seq<char>)
    ensures
        env_map(es).contains_key(k) <==> exists|i: int| 0 <= i < es.len() && es[i].0@ == k,
    decreases es.len(),
{
    if es.len() > 0 {
        lemma_env_map_key(es.drop_last(), k);
        if es.last().0@ == k {
            assert(es[es.len() - 1].0@ == k);
        } else {
            if env_map(es).contains_key(k) {
                let i = choose|i: int| 0 <= i < es.drop_last().len() && es.drop_last()[i].0@ == k;
                assert(es[i].0@ == k);
            }
            if exists|i: int| 0 <= i < es.len() && es[i].0@ == k {
                let i = choose|i: int| 0 <= i < es.len() && es[i].0@ == k;
                assert(es.drop_last()[i].0@ == k);
            }
        }
    }
}

/// With distinct names, each entry gives its name's value in the mapping.
pub proof fn lemma_env_map_get(es: Seq<(String, Value)>, i: int)
    requires
        0 <= i < es.len(),
        forall|a: int, b: int|
            0 <= a < b < es.len() ==> (#[trigger] es[a]).0@ != (#[trigger] es[b]).0@,
    ensures
        env_map(es).contains_key(es[i].0@),
        env_map(es)[es[i].0@] == value_view(es[i].1),
    decreases es.len(),
{
    lemma_env_map_key(es, es[i].0@);
    if i < es.len() - 1 {
        assert(es.drop_last()[i] == es[i]);
        lemma_env_map_get(es.drop_last(), i);
        assert(es[es.len() - 1].0@ != es[i].0@);
    }
}

/// Updating the entry that holds a name updates its value in the mapping.
pub proof fn lemma_env_map_update(es: Seq<(String, Value)>, i: int, name: String, value: Value)
    requires
        0 <= i < es.len(),
        es[i].0@ == name@,
        forall|a: int, b: int|
            0 <= a < b < es.len() ==> (#[trigger] es[a]).0@ != (#[trigger] es[b]).0@,
    ensures
        env_map(es.update(i, (name, value))) == env_map(es).insert(name@, value_view(value)),
    decreases es.len(),
{
    let es2 = es.update(i, (name, value));
    if i == es.len() - 1 {
        assert(es2.drop_last() =~= es.drop_last());
        assert(es2.last() == (name, value));
        assert(env_map(es2) =~= env_map(es).insert(name@, value_view(value)));
    } else {
        assert(es2.drop_last() =~= es.drop_last().update(i, (name, value)));
        assert(es.drop_last()[i] == es[i]);
        lemma_env_map_update(es.drop_last(), i, name, value);
        assert(es2.last() == es.last());
        assert(es[es.len() - 1].0@ != es[i].0@);
        assert(env_map(es2) =~= env_map(es).insert(name@, value_view(value)));
    }
}

/// Entry lists with pairwise equal names and value views denote one mapping.
pub proof fn lemma_env_map_congruent(a: Seq<(String, Value)>, b: Seq<(String, Value)>)
    requires
        a.len() == b.len(),
        forall|i: int|
            0 <= i < a.len() ==> (#[trigger] a[i]).0@ == (#[trigger] b[i]).0@ && value_view(
                a[i].1,
            ) == value_view(b[i].1),
    ensures
        env_map(a) == env_map(b),
    decreases a.len(),
{
    if a.len() > 0 {
        assert(forall|i: int|
            0 <= i < a.drop_last().len() ==> (#[trigger] a.drop_last()[i]) == a[i]
                && (#[trigger] b.drop_last()[i]) == b[i]);
        lemma_env_map_congruent(a.drop_last(), b.drop_last());
        assert(a[a.len() - 1] == a.last() && b[b.len() - 1] == b.last());
        assert(env_map(a) =~= env_map(b));
    }
}

impl Environment {
    /// No two entries hold the same name.
    pub closed spec fn wf(&self) -> bool {
        forall|a: int, b: int|
            0 <= a < b < self.values@.len() ==> (#[trigger] self.values@[a]).0@
                != (#[trigger] self.values@[b]).0@
    }

    /// A fresh environment, holding only the built-in `println`.
    pub fn new() -> (r: Self)
        ensures
            r.wf(),
            r@ == Map::<Seq<char>, SpecValue>::empty().insert(
                println_name(),
                SpecValue::NativeFunc(NativeFn::Println),
            ),
    {
        let mut name_chars: Vec<char> = Vec::new();
        name_chars.push('p');
        name_chars.push('r');
        name_chars.push('i');
        name_chars.push('n');
        name_chars.push('t');
        name_chars.push('l');
        name_chars.push('n');
        proof {
            assert(name_chars@ =~= println_name());
        }
        let name = chars_to_string(&name_chars);
        let mut values: Vec<(String, Value)> = Vec::new();
        values.push((name, Value::NativeFunc(NativeFn::Println)));
        let env = Environment { values };
        proof {
            assert(env.values@.drop_last() =~= Seq::<(String, Value)>::empty());
            assert(env_map(Seq::<(String, Value)>::empty()) =~= Map::<Seq<char>, SpecValue>::empty());
            assert(env.values@.last().0@ == println_name());
            assert(env@ =~= Map::<Seq<char>, SpecValue>::empty().insert(
                println_name(),
                SpecValue::NativeFunc(NativeFn::Println),
            ));
        }
        env
    }

    /// Binds `name` to `value`, replacing any earlier binding.
    #[verifier::loop_isolation(false)]
    pub fn define(&mut self, name: String, value: Value)
        requires
            old(self).wf(),
        ensures
            final(self).wf(),
            final(self)@ == old(self)@.insert(name@, value_view(value)),
    {
        let n = self.values.len();
        let mut i: usize = 0;
        while i < n
            invariant
                0 <= i <= n,
                self.values@ == old(self).values@,
                forall|j: int| 0 <= j < i ==> (#[trigger] self.values@[j]).0@ != name@,
            decreases n - i,
        {
            if self.values[i].0 == name {
                let ghost es = self.values@;
                proof {
                    lemma_env_map_update(es, i as int, name, value);
                }
                self.values.set(i, (name, value));
                proof {
                    assert(forall|a: int, b: int|
                        0 <= a < b < self.values@.len() ==> (#[trigger] self.values@[a]).0@
                            != (#[trigger] self.values@[b]).0@);
                }
                return ;
            }
            i = i + 1;
        }
        let ghost es = self.values@;
        self.values.push((name, value));
        proof {
            assert(self.values@.drop_last() =~= es);
            assert(self.values@.last() == (name, value));
            assert(final(self)@ == env_map(es).insert(name@, value_view(value)));
        }
    }

    /// The value bound to `name`, if any.
    #[verifier::loop_isolation(false)]
    pub fn get(&self, name: &str) -> (r: Option<Value>)
        requires
            self.wf(),
        ensures
            match r {
                Some(v) => self@.contains_key(name@) && v@ == self@[name@],
                None => !self@.contains_key(name@),
            },
    {
        let name_s: String = name.to_owned();
        let n = self.values.len();
        let mut i: usize = 0;
        while i < n
            invariant
                0 <= i <= n,
                forall|j: int| 0 <= j < i ==> (#[trigger] self.values@[j]).0@ != name@,
            decreases n - i,
        {
            if self.values[i].0 == name_s {
                proof {
                    lemma_env_map_get(self.values@, i as int);
                }
                return Some(self.values[i].1.clone());
            }
            i = i + 1;
        }
        proof {
            lemma_env_map_key(self.values@, name@);
        }
        None
    }
}

// ===== The evaluator's mathematical model =====
//
// Evaluation is metered: each function call and each loop iteration spends
// one unit of fuel, and evaluation reports `OutOfFuel` when the meter runs
// out. The meter stands for the resources the host grants a run; the
// executable evaluator spends it exactly as the model does, so their
// outcomes agree fuel for fuel.

/// The evaluator's whole state: the variable environment and everything
/// printed so far.
pub struct SpecEvalState {
    pub env: Map<Seq<char>, SpecValue>,
    pub out: Seq<char>,
}

/// The outcome of evaluating a piece of the tree.
pub enum SpecEvalResult<T> {
    Val(T, SpecEvalState),
    Fault(SpecRuntimeError),
}

/// The digit character of `d`.
pub open spec fn digit_char(d: int) -> char {
    if d == 0 {
        '0'
    } else if d == 1 {
        '1'
    } else if d == 2 {
        '2'
    } else if d == 3 {
        '3'
    } else if d == 4 {
        '4'
    } else if d == 5 {
        '5'
    } else if d == 6 {
        '6'
    } else if d == 7 {
        '7'
    } else if d == 8 {
        '8'
    } else {
        '9'
    }
}

/// The decimal digits of a non-negative integer.
pub open spec fn dec_chars(n: int) -> Seq<char>
    decreases n,
{
    if n < 10 {
        seq![digit_char(n)]
    } else {
        dec_chars(n / 10).push(digit_char(n % 10))
    }
}

/// The decimal rendering of an integer.
pub open spec fn spec_int_chars(i: int) -> Seq<char> {
    if i < 0 {
        seq!['-'] + dec_chars(-i)
    } else {
        dec_chars(i)
    }
}

/// Parameter names joined with `", "`.
pub open spec fn join_params(ps: Seq<Seq<char>>) -> Seq<char>
    decreases ps.len(),
{
    if ps.len() == 0 {
        Seq::empty()
    } else if ps.len() == 1 {
        ps[0]
    } else {
        ps[0] + seq![',', ' '] + join_params(ps.drop_first())
    }
}

/// How a value prints: its display form.
pub open spec fn spec_display(v: SpecValue) -> Seq<char> {
    match v {
        SpecValue::Int(i) => spec_int_chars(i as int),
        SpecValue::Float(b) => f64_bits_display(b),
        SpecValue::Bool(b) => if b {
            seq!['t', 'r', 'u', 'e']
        } else {
            seq!['f', 'a', 'l', 's', 'e']
        },
        SpecValue::Str(s) => s,
        SpecValue::Unit => seq!['(', ')'],
        SpecValue::Function(ps, body) => seq!['<', 'f', 'n', ' ', '('] + join_params(ps) + seq![
            ')',
            '>',
        ],
        SpecValue::NativeFunc(f) => seq!['<', 'n', 'a', 't', 'i', 'v', 'e', ' ', 'f', 'n', '>'],
    }
}

/// The line `println` adds to the output: each argument's display form
/// followed by one space, then a newline.
pub open spec fn println_line(vs: Seq<SpecValue>) -> Seq<char>
    decreases vs.len(),
{
    if vs.len() == 0 {
        seq!['\n']
    } else {
        spec_display(vs[0]) + seq![' '] + println_line(vs.drop_first())
    }
}

/// What a binary operator yields on two values, or the error it raises.
/// Integer arithmetic must stay within `i64`; integer division truncates
/// and rejects a zero divisor; mixing an integer and a float promotes the
/// integer for the four arithmetic operators; comparisons stay within one
/// numeric type; `+` concatenates strings; `&&` and `||` take booleans
/// (both sides already evaluated: the language does not short-circuit).
pub open spec fn spec_binop_values(l: SpecValue, op: BinaryOp, r: SpecValue) -> Result<
    SpecValue,
    SpecRuntimeError,
> {
    match (l, op, r) {
        (SpecValue::Int(a), BinaryOp::Add, SpecValue::Int(b)) => {
            if i64::MIN <= a + b <= i64::MAX {
                Ok(SpecValue::Int((a + b) as i64))
            } else {
                Err(SpecRuntimeError::IntegerOverflow)
            }
        },
        (SpecValue::Int(a), BinaryOp::Sub, SpecValue::Int(b)) => {
            if i64::MIN <= a - b <= i64::MAX {
                Ok(SpecValue::Int((a - b) as i64))
            } else {
                Err(SpecRuntimeError::IntegerOverflow)
            }
        },
        (SpecValue::Int(a), BinaryOp::Mul, SpecValue::Int(b)) => {
            if i64::MIN <= a * b <= i64::MAX {
                Ok(SpecValue::Int((a * b) as i64))
            } else {
                Err(SpecRuntimeError::IntegerOverflow)
            }
        },
        (SpecValue::Int(a), BinaryOp::Div, SpecValue::Int(b)) => {
            if b == 0 {
                Err(SpecRuntimeError::DivisionByZero)
            } else if a == i64::MIN && b == -1 {
                Err(SpecRuntimeError::IntegerOverflow)
            } else {
                Ok(SpecValue::Int(truncating_div(a as int, b as int) as i64))
            }
        },
        (SpecValue::Int(a), BinaryOp::Lt, SpecValue::Int(b)) => Ok(SpecValue::Bool(a < b)),
        (SpecValue::Int(a), BinaryOp::Gt, SpecValue::Int(b)) => Ok(SpecValue::Bool(a > b)),
        (SpecValue::Int(a), BinaryOp::Eq, SpecValue::Int(b)) => Ok(SpecValue::Bool(a == b)),
        (SpecValue::Int(a), BinaryOp::Add, SpecValue::Float(y)) => Ok(
            SpecValue::Float(f64_bits_add(f64_bits_of_i64(a), y)),
        ),
        (SpecValue::Float(x), BinaryOp::Add, SpecValue::Int(b)) => Ok(
            SpecValue::Float(f64_bits_add(x, f64_bits_of_i64(b))),
        ),
        (SpecValue::Int(a), BinaryOp::Sub, SpecValue::Float(y)) => Ok(
            SpecValue::Float(f64_bits_sub(f64_bits_of_i64(a), y)),
        ),
        (SpecValue::Float(x), BinaryOp::Sub, SpecValue::Int(b)) => Ok(
            SpecValue::Float(f64_bits_sub(x, f64_bits_of_i64(b))),
        ),
        (SpecValue::Int(a), BinaryOp::Mul, SpecValue::Float(y)) => Ok(
            SpecValue::Float(f64_bits_mul(f64_bits_of_i64(a), y)),
        ),
        (SpecValue::Float(x), BinaryOp::Mul, SpecValue::Int(b)) => Ok(
            SpecValue::Float(f64_bits_mul(x, f64_bits_of_i64(b))),
        ),
        (SpecValue::Int(a), BinaryOp::Div, SpecValue::Float(y)) => Ok(
            SpecValue::Float(f64_bits_div(f64_bits_of_i64(a), y)),
        ),
        (SpecValue::Float(x), BinaryOp::Div, SpecValue::Int(b)) => Ok(
            SpecValue::Float(f64_bits_div(x, f64_bits_of_i64(b))),
        ),
        (SpecValue::Float(x), BinaryOp::Add, SpecValue::Float(y)) => Ok(
            SpecValue::Float(f64_bits_add(x, y)),
        ),
        (SpecValue::Float(x), BinaryOp::Sub, SpecValue::Float(y)) => Ok(
            SpecValue::Float(f64_bits_sub(x, y)),
        ),
        (SpecValue::Float(x), BinaryOp::Mul, SpecValue::Float(y)) => Ok(
            SpecValue::Float(f64_bits_mul(x, y)),
        ),
        (SpecValue::Float(x), BinaryOp::Div, SpecValue::Float(y)) => Ok(
            SpecValue::Float(f64_bits_div(x, y)),
        ),
        (SpecValue::Float(x), BinaryOp::Lt, SpecValue::Float(y)) => Ok(
            SpecValue::Bool(f64_bits_cmp(x, y) == FloatCmp::Lt),
        ),
        (SpecValue::Float(x), BinaryOp::Gt, SpecValue::Float(y)) => Ok(
            SpecValue::Bool(f64_bits_cmp(x, y) == FloatCmp::Gt),
        ),
        (SpecValue::Float(x), BinaryOp::Eq, SpecValue::Float(y)) => Ok(
            SpecValue::Bool(f64_bits_cmp(x, y) == FloatCmp::Eq),
        ),
        (SpecValue::Str(a), BinaryOp::Add, SpecValue::Str(b)) => Ok(SpecValue::Str(a + b)),
        (SpecValue::Bool(a), BinaryOp::And, SpecValue::Bool(b)) => Ok(SpecValue::Bool(a && b)),
        (SpecValue::Bool(a), BinaryOp::Or, SpecValue::Bool(b)) => Ok(SpecValue::Bool(a || b)),
        _ => Err(SpecRuntimeError::TypeMismatch(l, op, r)),
    }
}

/// Division truncating toward zero, the host integer division.
pub open spec fn truncating_div(a: int, b: int) -> int {
    let q = abs_int(a) / abs_int(b);
    if (a < 0) != (b < 0) {
        -q
    } else {
        q
    }
}

pub open spec fn abs_int(a: int) -> int {
    if a < 0 {
        -a
    } else {
        a
    }
}

/// What a unary operator yields: `-` negates a number, `!` inverts a
/// boolean.
pub open spec fn spec_unop_value(op: UnaryOp, v: SpecValue) -> Result<
    SpecValue,
    SpecRuntimeError,
> {
    match (op, v) {
        (UnaryOp::Neg, SpecValue::Int(i)) => {
            if i == i64::MIN {
                Err(SpecRuntimeError::IntegerOverflow)
            } else {
                Ok(SpecValue::Int((-i) as i64))
            }
        },
        (UnaryOp::Neg, SpecValue::Float(b)) => Ok(SpecValue::Float(f64_bits_neg(b))),
        (UnaryOp::Not, SpecValue::Bool(b)) => Ok(SpecValue::Bool(!b)),
        _ => Err(SpecRuntimeError::UnaryTypeMismatch(op, v)),
    }
}

/// The names the `let` statements of a block introduce: the block's
/// locals, which its assignment propagation leaves alone.
pub open spec fn let_names(ss: Seq<SpecStmt>) -> Set<Seq<char>>
    decreases ss.len(),
{
    if ss.len() == 0 {
        Set::empty()
    } else {
        let rest = let_names(ss.drop_first());
        match ss[0] {
            SpecStmt::Let(n, e) => rest.insert(n),
            _ => rest,
        }
    }
}

/// A block's assignment propagation: for every name the enclosing scope
/// already held, and which the block did not shadow with a `let`, the
/// block's final value flows out; every other outer binding stays, and no
/// name the block introduced escapes.
pub open spec fn propagate_env(
    parent: Map<Seq<char>, SpecValue>,
    child: Map<Seq<char>, SpecValue>,
    locals: Set<Seq<char>>,
) -> Map<Seq<char>, SpecValue> {
    Map::new(
        |k: Seq<char>| parent.contains_key(k),
        |k: Seq<char>|
            if child.contains_key(k) && !locals.contains(k) {
                child[k]
            } else {
                parent[k]
            },
    )
}

/// Parameter bindings added to the callee's environment, left to right.
pub open spec fn bind_params(
    env: Map<Seq<char>, SpecValue>,
    ps: Seq<Seq<char>>,
    vs: Seq<SpecValue>,
) -> Map<Seq<char>, SpecValue>
    recommends
        ps.len() == vs.len(),
    decreases ps.len(),
{
    if ps.len() == 0 {
        env
    } else {
        bind_params(env, ps.drop_last(), vs.drop_last()).insert(ps.last(), vs.last())
    }
}

/// Evaluating one expression.
pub open spec fn eval_expr_m(fuel: nat, e: SpecExpr, st: SpecEvalState) -> SpecEvalResult<
    SpecValue,
>
    decreases fuel, e,
{
    match e {
        SpecExpr::Literal(l) => SpecEvalResult::Val(
            match l {
                SpecLiteral::Int(i) => SpecValue::Int(i),
                SpecLiteral::Float(b) => SpecValue::Float(b),
                SpecLiteral::Bool(b) => SpecValue::Bool(b),
                SpecLiteral::Str(s) => SpecValue::Str(s),
            },
            st,
        ),
        SpecExpr::Variable(name) => {
            if st.env.contains_key(name) {
                SpecEvalResult::Val(st.env[name], st)
            } else {
                SpecEvalResult::Fault(SpecRuntimeError::UndefinedVariable(name))
            }
        },
        SpecExpr::Unary(op, inner) => match eval_expr_m(fuel, *inner, st) {
            SpecEvalResult::Val(v, st1) => match spec_unop_value(op, v) {
                Ok(v2) => SpecEvalResult::Val(v2, st1),
                Err(er) => SpecEvalResult::Fault(er),
            },
            SpecEvalResult::Fault(er) => SpecEvalResult::Fault(er),
        },
        SpecExpr::Binary(lhs, op, rhs) => match eval_expr_m(fuel, *lhs, st) {
            SpecEvalResult::Val(lv, st1) => match eval_expr_m(fuel, *rhs, st1) {
                SpecEvalResult::Val(rv, st2) => match spec_binop_values(lv, op, rv) {
                    Ok(v) => SpecEvalResult::Val(v, st2),
                    Err(er) => SpecEvalResult::Fault(er),
                },
                SpecEvalResult::Fault(er) => SpecEvalResult::Fault(er),
            },
            SpecEvalResult::Fault(er) => SpecEvalResult::Fault(er),
        },
        SpecExpr::If(cond, then_b, else_b) => match eval_expr_m(fuel, *cond, st) {
            SpecEvalResult::Val(cv, st1) => {
                if cv == SpecValue::Bool(true) {
                    eval_expr_m(fuel, *then_b, st1)
                } else {
                    // any other value falls through to the else branch, a
                    // deliberate quirk of the language
                    match else_b {
                        Some(eb) => eval_expr_m(fuel, *eb, st1),
                        None => SpecEvalResult::Val(SpecValue::Unit, st1),
                    }
                }
            },
            SpecEvalResult::Fault(er) => SpecEvalResult::Fault(er),
        },
        SpecExpr::Block(ss, tail) => {
            // the block's statements run in a clone of the environment
            match eval_stmts_m(fuel, ss, st) {
                SpecEvalResult::Val(u, st1) => {
                    // assignments flow back to the enclosing scope; the
                    // tail expression still runs in the block's own scope
                    let outer = propagate_env(st.env, st1.env, let_names(ss));
                    match tail {
                        Some(t) => match eval_expr_m(
                            fuel,
                            *t,
                            SpecEvalState { env: st1.env, out: st1.out },
                        ) {
                            SpecEvalResult::Val(v, st2) => SpecEvalResult::Val(
                                v,
                                SpecEvalState { env: outer, out: st2.out },
                            ),
                            SpecEvalResult::Fault(er) => SpecEvalResult::Fault(er),
                        },
                        None => SpecEvalResult::Val(
                            SpecValue::Unit,
                            SpecEvalState { env: outer, out: st1.out },
                        ),
                    }
                },
                SpecEvalResult::Fault(er) => SpecEvalResult::Fault(er),
            }
        },
        SpecExpr::Call(name, args) => {
            // the callee is looked up before the arguments run
            if !st.env.contains_key(name) {
                SpecEvalResult::Fault(SpecRuntimeError::UndefinedFunction(name))
            } else {
                let func = st.env[name];
                match eval_args_m(fuel, args, st) {
                    SpecEvalResult::Val(vs, st1) => match func {
                        SpecValue::Function(params, body) => {
                            if params.len() != vs.len() {
                                SpecEvalResult::Fault(
                                    SpecRuntimeError::ArityMismatch(
                                        params.len() as int,
                                        vs.len() as int,
                                    ),
                                )
                            } else if fuel == 0 {
                                SpecEvalResult::Fault(SpecRuntimeError::OutOfFuel)
                            } else {
                                // the callee sees a clone of the caller's
                                // environment: dynamic scoping by clone,
                                // and nothing it binds leaks back
                                let callee_env = bind_params(st1.env, params, vs);
                                match eval_expr_m(
                                    (fuel - 1) as nat,
                                    body,
                                    SpecEvalState { env: callee_env, out: st1.out },
                                ) {
                                    SpecEvalResult::Val(v, st2) => SpecEvalResult::Val(
                                        v,
                                        SpecEvalState { env: st1.env, out: st2.out },
                                    ),
                                    SpecEvalResult::Fault(er) => SpecEvalResult::Fault(er),
                                }
                            }
                        },
                        SpecValue::NativeFunc(NativeFn::Println) => SpecEvalResult::Val(
                            SpecValue::Unit,
                            SpecEvalState { env: st1.env, out: st1.out + println_line(vs) },
                        ),
                        _ => SpecEvalResult::Fault(SpecRuntimeError::NotCallable(func)),
                    },
                    SpecEvalResult::Fault(er) => SpecEvalResult::Fault(er),
                }
            }
        },
    }
}

/// Evaluating a call's arguments, left to right.
pub open spec fn eval_args_m(fuel: nat, es: Seq<SpecExpr>, st: SpecEvalState) -> SpecEvalResult<
    Seq<SpecValue>,
>
    decreases fuel, es,
{
    if es.len() == 0 {
        SpecEvalResult::Val(Seq::empty(), st)
    } else {
        match eval_expr_m(fuel, es[0], st) {
            SpecEvalResult::Val(v, st1) => match eval_args_m(fuel, es.drop_first(), st1) {
                SpecEvalResult::Val(vs, st2) => SpecEvalResult::Val(seq![v] + vs, st2),
                SpecEvalResult::Fault(er) => SpecEvalResult::Fault(er),
            },
            SpecEvalResult::Fault(er) => SpecEvalResult::Fault(er),
        }
    }
}

/// Evaluating the statements of a block, in order.
pub open spec fn eval_stmts_m(fuel: nat, ss: Seq<SpecStmt>, st: SpecEvalState) -> SpecEvalResult<
    (),
>
    decreases fuel, ss,
{
    if ss.len() == 0 {
        SpecEvalResult::Val((), st)
    } else {
        match eval_stmt_m(fuel, ss[0], st) {
            SpecEvalResult::Val(v, st1) => eval_stmts_m(fuel, ss.drop_first(), st1),
            SpecEvalResult::Fault(er) => SpecEvalResult::Fault(er),
        }
    }
}

/// Evaluating one statement. Only `ImplicitReturn` yields a value other
/// than `Unit`.
pub open spec fn eval_stmt_m(fuel: nat, s: SpecStmt, st: SpecEvalState) -> SpecEvalResult<
    SpecValue,
>
    decreases fuel, s,
{
    match s {
        SpecStmt::Let(name, e) => match eval_expr_m(fuel, e, st) {
            SpecEvalResult::Val(v, st1) => SpecEvalResult::Val(
                SpecValue::Unit,
                SpecEvalState { env: st1.env.insert(name, v), out: st1.out },
            ),
            SpecEvalResult::Fault(er) => SpecEvalResult::Fault(er),
        },
        SpecStmt::Fn(name, params, body) => SpecEvalResult::Val(
            SpecValue::Unit,
            SpecEvalState {
                env: st.env.insert(name, SpecValue::Function(params, body)),
                out: st.out,
            },
        ),
        SpecStmt::Assign(name, e) => match eval_expr_m(fuel, e, st) {
            SpecEvalResult::Val(v, st1) => {
                if st1.env.contains_key(name) {
                    SpecEvalResult::Val(
                        SpecValue::Unit,
                        SpecEvalState { env: st1.env.insert(name, v), out: st1.out },
                    )
                } else {
                    SpecEvalResult::Fault(SpecRuntimeError::AssignUndefined(name))
                }
            },
            SpecEvalResult::Fault(er) => SpecEvalResult::Fault(er),
        },
        SpecStmt::Expression(e) => match eval_expr_m(fuel, e, st) {
            SpecEvalResult::Val(v, st1) => SpecEvalResult::Val(SpecValue::Unit, st1),
            SpecEvalResult::Fault(er) => SpecEvalResult::Fault(er),
        },
        SpecStmt::ImplicitReturn(e) => eval_expr_m(fuel, e, st),
        SpecStmt::While(cond, body) => match eval_expr_m(fuel, cond, st) {
            SpecEvalResult::Val(cv, st1) => {
                if cv == SpecValue::Bool(true) {
                    match eval_expr_m(fuel, body, st1) {
                        SpecEvalResult::Val(v, st2) => {
                            if fuel == 0 {
                                SpecEvalResult::Fault(SpecRuntimeError::OutOfFuel)
                            } else {
                                eval_stmt_m((fuel - 1) as nat, SpecStmt::While(cond, body), st2)
                            }
                        },
                        SpecEvalResult::Fault(er) => SpecEvalResult::Fault(er),
                    }
                } else if cv == SpecValue::Bool(false) {
                    SpecEvalResult::Val(SpecValue::Unit, st1)
                } else {
                    SpecEvalResult::Fault(SpecRuntimeError::NonBoolWhileCondition(cv))
                }
            },
            SpecEvalResult::Fault(er) => SpecEvalResult::Fault(er),
        },
    }
}

/// Evaluating a whole program: its statements in order, yielding the last
/// statement's value, or `Unit` for an empty program.
pub open spec fn eval_program_m(fuel: nat, ss: Seq<SpecStmt>, st: SpecEvalState) -> SpecEvalResult<
    SpecValue,
>
    decreases fuel, ss,
{
    if ss.len() == 0 {
        SpecEvalResult::Val(SpecValue::Unit, st)
    } else if ss.len() == 1 {
        eval_stmt_m(fuel, ss[0], st)
    } else {
        match eval_stmt_m(fuel, ss[0], st) {
            SpecEvalResult::Val(v, st1) => eval_program_m(fuel, ss.drop_first(), st1),
            SpecEvalResult::Fault(er) => SpecEvalResult::Fault(er),
        }
    }
}

impl Clone for Environment {
    /// Cloning yields an independent environment with the same bindings.
    #[verifier::loop_isolation(false)]
    fn clone(&self) -> (r: Self)
        ensures
            r@ == self@,
            self.wf() ==> r.wf(),
    {
        let n = self.values.len();
        let mut values: Vec<(String, Value)> = Vec::new();
        let mut i: usize = 0;
        while i < n
            invariant
                0 <= i <= n,
                values@.len() == i,
                forall|j: int|
                    0 <= j < i ==> (#[trigger] values@[j]).0@ == self.values@[j].0@ && value_view(
                        values@[j].1,
                    ) == value_view(self.values@[j].1),
            decreases n - i,
        {
            let name = self.values[i].0.clone();
            let value = self.values[i].1.clone();
            values.push((name, value));
            i = i + 1;
        }
        let r = Environment { values };
        proof {
            lemma_env_map_congruent(r.values@, self.values@);
        }
        r
    }
}

// ===== Laws of the evaluator =====

/// Every statement but `ImplicitReturn` evaluates to `Unit`.
pub proof fn lemma_stmt_value_unit(fuel: nat, s: SpecStmt, st: SpecEvalState)
    requires
        !(s matches SpecStmt::ImplicitReturn(..)),
    ensures
        eval_stmt_m(fuel, s, st) matches SpecEvalResult::Val(v, st1) ==> v == SpecValue::Unit,
    decreases fuel, s,
{
    match s {
        SpecStmt::While(cond, body) => {
            match eval_expr_m(fuel, cond, st) {
                SpecEvalResult::Val(cv, st1) => {
                    if cv == SpecValue::Bool(true) {
                        match eval_expr_m(fuel, body, st1) {
                            SpecEvalResult::Val(v, st2) => {
                                if fuel > 0 {
                                    lemma_stmt_value_unit(
                                        (fuel - 1) as nat,
                                        SpecStmt::While(cond, body),
                                        st2,
                                    );
                                }
                            },
                            SpecEvalResult::Fault(_) => {},
                        }
                    }
                },
                SpecEvalResult::Fault(_) => {},
            }
        },
        _ => {},
    }
}

/// A program that ends with a `Let`, `Fn`, `Assign`, `While` or
/// `Expression` statement yields `Unit`.
pub proof fn lemma_program_final_unit(fuel: nat, ss: Seq<SpecStmt>, st: SpecEvalState)
    requires
        ss.len() > 0,
        !(ss.last() matches SpecStmt::ImplicitReturn(..)),
    ensures
        eval_program_m(fuel, ss, st) matches SpecEvalResult::Val(v, st1) ==> v == SpecValue::Unit,
    decreases ss.len(),
{
    if ss.len() == 1 {
        assert(ss[0] == ss.last());
        lemma_stmt_value_unit(fuel, ss[0], st);
    } else {
        match eval_stmt_m(fuel, ss[0], st) {
            SpecEvalResult::Val(v, st1) => {
                assert(ss.drop_first().last() == ss.last());
                lemma_program_final_unit(fuel, ss.drop_first(), st1);
            },
            SpecEvalResult::Fault(_) => {},
        }
    }
}

/// A program that ends with `ImplicitReturn(e)` yields the value of `e`,
/// evaluated in the state the statements before it produced.
pub proof fn lemma_program_implicit_return(
    fuel: nat,
    ss: Seq<SpecStmt>,
    e: SpecExpr,
    st: SpecEvalState,
)
    ensures
        eval_program_m(fuel, ss.push(SpecStmt::ImplicitReturn(e)), st) == (match eval_stmts_m(
            fuel,
            ss,
            st,
        ) {
            SpecEvalResult::Val(u, st1) => eval_expr_m(fuel, e, st1),
            SpecEvalResult::Fault(er) => SpecEvalResult::Fault(er),
        }),
    decreases ss.len(),
{
    let whole = ss.push(SpecStmt::ImplicitReturn(e));
    if ss.len() == 0 {
        assert(whole.len() == 1);
        assert(whole[0] == SpecStmt::ImplicitReturn(e));
    } else {
        assert(whole[0] == ss[0]);
        assert(whole.len() >= 2);
        match eval_stmt_m(fuel, ss[0], st) {
            SpecEvalResult::Val(v, st1) => {
                assert(whole.drop_first() =~= ss.drop_first().push(SpecStmt::ImplicitReturn(e)));
                lemma_program_implicit_return(fuel, ss.drop_first(), e, st1);
            },
            SpecEvalResult::Fault(_) => {},
        }
    }
}

/// The scoping law of blocks. When a block finishes: the enclosing scope
/// holds exactly the names it held before; a name the block shadowed with
/// a `let` keeps its outer binding, so nothing the block declared is
/// visible outside it; and a name that was visible before and not
/// shadowed carries the block's final value for it — assignments flow
/// out, declarations do not.
pub proof fn lemma_block_scoping(
    fuel: nat,
    ss: Seq<SpecStmt>,
    tail: Option<Box<SpecExpr>>,
    st: SpecEvalState,
)
    ensures
        match eval_expr_m(fuel, SpecExpr::Block(ss, tail), st) {
            SpecEvalResult::Val(v, st2) => {
                &&& st2.env.dom() == st.env.dom()
                &&& forall|k: Seq<char>|
                    st.env.contains_key(k) && let_names(ss).contains(k)
                        ==> #[trigger] st2.env[k] == st.env[k]
                &&& match eval_stmts_m(fuel, ss, st) {
                    SpecEvalResult::Val(u, st1) => forall|k: Seq<char>|
                        st.env.contains_key(k) && !let_names(ss).contains(k)
                            && st1.env.contains_key(k) ==> #[trigger] st2.env[k] == st1.env[k],
                    SpecEvalResult::Fault(_) => true,
                }
            },
            SpecEvalResult::Fault(_) => true,
        },
{
    match eval_expr_m(fuel, SpecExpr::Block(ss, tail), st) {
        SpecEvalResult::Val(v, st2) => {
            match eval_stmts_m(fuel, ss, st) {
                SpecEvalResult::Val(u, st1) => {
                    let outer = propagate_env(st.env, st1.env, let_names(ss));
                    assert(st2.env == outer);
                    assert(outer.dom() =~= st.env.dom());
                },
                SpecEvalResult::Fault(_) => {},
            }
        },
        SpecEvalResult::Fault(_) => {},
    }
}

/// The call law: a function call leaks nothing back into the caller's
/// environment. After the call, the caller's environment is exactly what
/// evaluating the arguments left — whatever the body bound or assigned
/// happened in the callee's own copy and is gone.
pub proof fn lemma_call_no_leak(
    fuel: nat,
    name: Seq<char>,
    args: Seq<SpecExpr>,
    st: SpecEvalState,
)
    ensures
        match eval_expr_m(fuel, SpecExpr::Call(name, args), st) {
            SpecEvalResult::Val(v, st2) => match eval_args_m(fuel, args, st) {
                SpecEvalResult::Val(vs, st1) => st2.env == st1.env,
                SpecEvalResult::Fault(_) => true,
            },
            SpecEvalResult::Fault(_) => true,
        },
{
}

// ===== Rendering values =====

fn digit_to_char(d: u64) -> (r: char)
    requires
        d < 10,
    ensures
        r == digit_char(d as int),
{
    if d == 0 {
        '0'
    } else if d == 1 {
        '1'
    } else if d == 2 {
        '2'
    } else if d == 3 {
        '3'
    } else if d == 4 {
        '4'
    } else if d == 5 {
        '5'
    } else if d == 6 {
        '6'
    } else if d == 7 {
        '7'
    } else if d == 8 {
        '8'
    } else {
        '9'
    }
}

/// Appends the decimal digits of `n`.
fn push_dec(n: u64, out: &mut Vec<char>)
    ensures
        final(out)@ == old(out)@ + dec_chars(n as int),
    decreases n,
{
    if n < 10 {
        out.push(digit_to_char(n));
        proof {
            assert(final(out)@ =~= old(out)@ + dec_chars(n as int));
        }
    } else {
        push_dec(n / 10, out);
        let d = n % 10;
        out.push(digit_to_char(d));
        proof {
            assert(final(out)@ =~= old(out)@ + dec_chars(n as int));
        }
    }
}

/// Appends the decimal rendering of `i`.
fn push_int(i: i64, out: &mut Vec<char>)
    ensures
        final(out)@ == old(out)@ + spec_int_chars(i as int),
{
    if i < 0 {
        out.push('-');
        let mag: u64 = #[verifier::truncate] ((-(i as i128)) as u64);
        proof {
            assert(mag == -(i as int));
        }
        push_dec(mag, out);
        proof {
            assert(final(out)@ =~= old(out)@ + spec_int_chars(i as int));
        }
    } else {
        push_dec(i as u64, out);
    }
}

/// Appends the characters of a string slice.
fn push_str_chars(s: &str, out: &mut Vec<char>)
    ensures
        final(out)@ == old(out)@ + s@,
{
    let mut cs = str_to_chars(s);
    out.append(&mut cs);
}

impl Value {
    /// How this value prints: integers, floats, booleans and strings in
    /// their natural forms, `()` for unit, `<fn (a, b)>` for a function,
    /// `<native fn>` for a built-in.
    #[verifier::loop_isolation(false)]
    pub fn display_string(&self) -> (r: String)
        ensures
            r@ == spec_display(self@),
    {
        let mut buf: Vec<char> = Vec::new();
        self.push_display(&mut buf);
        chars_to_string(&buf)
    }

    /// Appends this value's display form.
    #[verifier::loop_isolation(false)]
    fn push_display(&self, out: &mut Vec<char>)
        ensures
            final(out)@ == old(out)@ + spec_display(self@),
    {
        match self {
            Value::Int(i) => push_int(*i, out),
            Value::Float(b) => {
                let text = float_display(*b);
                push_str_chars(text.as_str(), out);
            },
            Value::Bool(b) => {
                if *b {
                    out.push('t');
                    out.push('r');
                    out.push('u');
                    out.push('e');
                } else {
                    out.push('f');
                    out.push('a');
                    out.push('l');
                    out.push('s');
                    out.push('e');
                }
                proof {
                    assert(final(out)@ =~= old(out)@ + spec_display(self@));
                }
            },
            Value::Str(s) => push_str_chars(s.as_str(), out),
            Value::Unit => {
                out.push('(');
                out.push(')');
                proof {
                    assert(final(out)@ =~= old(out)@ + spec_display(self@));
                }
            },
            Value::Function(ps, body) => {
                out.push('<');
                out.push('f');
                out.push('n');
                out.push(' ');
                out.push('(');
                let ghost before = out@;
                let ghost psm = ps.deep_view();
                let n = ps.len();
                let mut i: usize = 0;
                while i < n
                    invariant
                        0 <= i <= n,
                        out@ == before + join_params(psm.take(i as int)),
                    decreases n - i,
                {
                    if i > 0 {
                        out.push(',');
                        out.push(' ');
                    }
                    push_str_chars(ps[i].as_str(), out);
                    proof {
                        lemma_join_params_take(psm, i as int);
                        assert(out@ =~= before + join_params(psm.take(i + 1int)));
                    }
                    i = i + 1;
                }
                out.push(')');
                out.push('>');
                proof {
                    assert(psm.take(n as int) =~= psm);
                    assert(final(out)@ =~= old(out)@ + spec_display(self@));
                }
            },
            Value::NativeFunc(f) => {
                out.push('<');
                out.push('n');
                out.push('a');
                out.push('t');
                out.push('i');
                out.push('v');
                out.push('e');
                out.push(' ');
                out.push('f');
                out.push('n');
                out.push('>');
                proof {
                    assert(final(out)@ =~= old(out)@ + spec_display(self@));
                }
            },
        }
    }
}

/// One more name extends a joined parameter list with `", "` between.
proof fn lemma_join_params_take(ps: Seq<Seq<char>>, i: int)
    requires
        0 <= i < ps.len(),
    ensures
        join_params(ps.take(i + 1)) == if i == 0 {
            ps[0]
        } else {
            join_params(ps.take(i)) + seq![',', ' '] + ps[i]
        },
    decreases i,
{
    if i == 0 {
        assert(ps.take(1).len() == 1);
        assert(join_params(ps.take(1)) == ps.take(1)[0]);
        assert(ps.take(1)[0] == ps[0]);
    } else {
        assert(ps.take(i + 1).drop_first() =~= ps.drop_first().take(i));
        assert(ps.take(i).drop_first() =~= ps.drop_first().take(i - 1));
        lemma_join_params_take(ps.drop_first(), i - 1);
        if i == 1 {
            assert(join_params(ps.take(2)) == ps.take(2)[0] + seq![',', ' '] + join_params(
                ps.take(2).drop_first(),
            ));
            assert(ps.take(2)[0] == ps[0]);
            assert(ps.drop_first().take(1)[0] == ps[1]);
            assert(join_params(ps.take(1)) == ps[0]);
        } else {
            assert(join_params(ps.take(i + 1)) == ps[0] + seq![',', ' '] + join_params(
                ps.drop_first().take(i),
            ));
            assert(join_params(ps.take(i)) == ps[0] + seq![',', ' '] + join_params(
                ps.drop_first().take(i - 1),
            ));
            assert(ps.drop_first()[i - 1] == ps[i]);
            assert((ps[0] + seq![',', ' '] + (join_params(ps.drop_first().take(i - 1)) + seq![
                ',',
                ' ',
            ] + ps.drop_first()[i - 1])) =~= ((ps[0] + seq![',', ' '] + join_params(
                ps.drop_first().take(i - 1),
            )) + seq![',', ' '] + ps[i]));
        }
    }
}

// ===== Applying operators =====

/// Applies a binary operator to two evaluated operands.
fn apply_binop(l: Value, op: BinaryOp, r: Value) -> (res: Result<Value, RuntimeError>)
    ensures
        match spec_binop_values(l@, op, r@) {
            Ok(vm) => res matches Ok(v) && v@ == vm,
            Err(em) => res matches Err(e) && e@ == em,
        },
{
    match (l, op, r) {
        (Value::Int(a), BinaryOp::Add, Value::Int(b)) => {
            let s: i128 = a as i128 + b as i128;
            if i64::MIN as i128 <= s && s <= i64::MAX as i128 {
                Ok(Value::Int(s as i64))
            } else {
                Err(RuntimeError::IntegerOverflow)
            }
        },
        (Value::Int(a), BinaryOp::Sub, Value::Int(b)) => {
            let s: i128 = a as i128 - b as i128;
            if i64::MIN as i128 <= s && s <= i64::MAX as i128 {
                Ok(Value::Int(s as i64))
            } else {
                Err(RuntimeError::IntegerOverflow)
            }
        },
        (Value::Int(a), BinaryOp::Mul, Value::Int(b)) => {
            proof {
                assert((a as int) * (b as int) <= 0x8000_0000_0000_0000 * 0x8000_0000_0000_0000
                    && (a as int) * (b as int) >= -(0x8000_0000_0000_0000
                    * 0x8000_0000_0000_0000)) by (nonlinear_arith)
                    requires
                        -0x8000_0000_0000_0000 <= a as int <= 0x7fff_ffff_ffff_ffff,
                        -0x8000_0000_0000_0000 <= b as int <= 0x7fff_ffff_ffff_ffff,
                ;
            }
            let s: i128 = a as i128 * b as i128;
            if i64::MIN as i128 <= s && s <= i64::MAX as i128 {
                Ok(Value::Int(s as i64))
            } else {
                Err(RuntimeError::IntegerOverflow)
            }
        },
        (Value::Int(a), BinaryOp::Div, Value::Int(b)) => {
            if b == 0 {
                Err(RuntimeError::DivisionByZero)
            } else if a == i64::MIN && b == -1 {
                Err(RuntimeError::IntegerOverflow)
            } else {
                let mag_a: u64 = if a < 0 {
                    #[verifier::truncate] ((-(a as i128)) as u64)
                } else {
                    #[verifier::truncate] (a as u64)
                };
                let mag_b: u64 = if b < 0 {
                    #[verifier::truncate] ((-(b as i128)) as u64)
                } else {
                    #[verifier::truncate] (b as u64)
                };
                proof {
                    assert(mag_a == abs_int(a as int));
                    assert(mag_b == abs_int(b as int));
                }
                let q: u64 = mag_a / mag_b;
                proof {
                    assert(q <= mag_a) by (nonlinear_arith)
                        requires
                            q == mag_a / mag_b,
                            mag_b >= 1,
                    ;
                }
                if (a < 0) != (b < 0) {
                    let neg: i128 = -(q as i128);
                    proof {
                        assert(neg >= i64::MIN as i128);
                    }
                    Ok(Value::Int(neg as i64))
                } else {
                    proof {
                        if a == i64::MIN {
                            assert(mag_b >= 2);
                            assert(q <= mag_a / 2) by (nonlinear_arith)
                                requires
                                    q == mag_a / mag_b,
                                    mag_b >= 2,
                            ;
                        }
                    }
                    Ok(Value::Int(q as i64))
                }
            }
        },
        (Value::Int(a), BinaryOp::Lt, Value::Int(b)) => Ok(Value::Bool(a < b)),
        (Value::Int(a), BinaryOp::Gt, Value::Int(b)) => Ok(Value::Bool(a > b)),
        (Value::Int(a), BinaryOp::Eq, Value::Int(b)) => Ok(Value::Bool(a == b)),
        (Value::Int(a), BinaryOp::Add, Value::Float(y)) => Ok(
            Value::Float(float_add(float_of_i64(a), y)),
        ),
        (Value::Float(x), BinaryOp::Add, Value::Int(b)) => Ok(
            Value::Float(float_add(x, float_of_i64(b))),
        ),
        (Value::Int(a), BinaryOp::Sub, Value::Float(y)) => Ok(
            Value::Float(float_sub(float_of_i64(a), y)),
        ),
        (Value::Float(x), BinaryOp::Sub, Value::Int(b)) => Ok(
            Value::Float(float_sub(x, float_of_i64(b))),
        ),
        (Value::Int(a), BinaryOp::Mul, Value::Float(y)) => Ok(
            Value::Float(float_mul(float_of_i64(a), y)),
        ),
        (Value::Float(x), BinaryOp::Mul, Value::Int(b)) => Ok(
            Value::Float(float_mul(x, float_of_i64(b))),
        ),
        (Value::Int(a), BinaryOp::Div, Value::Float(y)) => Ok(
            Value::Float(float_div(float_of_i64(a), y)),
        ),
        (Value::Float(x), BinaryOp::Div, Value::Int(b)) => Ok(
            Value::Float(float_div(x, float_of_i64(b))),
        ),
        (Value::Float(x), BinaryOp::Add, Value::Float(y)) => Ok(Value::Float(float_add(x, y))),
        (Value::Float(x), BinaryOp::Sub, Value::Float(y)) => Ok(Value::Float(float_sub(x, y))),
        (Value::Float(x), BinaryOp::Mul, Value::Float(y)) => Ok(Value::Float(float_mul(x, y))),
        (Value::Float(x), BinaryOp::Div, Value::Float(y)) => Ok(Value::Float(float_div(x, y))),
        (Value::Float(x), BinaryOp::Lt, Value::Float(y)) => Ok(
            Value::Bool(matches!(float_cmp(x, y), FloatCmp::Lt)),
        ),
        (Value::Float(x), BinaryOp::Gt, Value::Float(y)) => Ok(
            Value::Bool(matches!(float_cmp(x, y), FloatCmp::Gt)),
        ),
        (Value::Float(x), BinaryOp::Eq, Value::Float(y)) => Ok(
            Value::Bool(matches!(float_cmp(x, y), FloatCmp::Eq)),
        ),
        (Value::Str(a), BinaryOp::Add, Value::Str(b)) => Ok(Value::Str(a.concat(b.as_str()))),
        (Value::Bool(a), BinaryOp::And, Value::Bool(b)) => Ok(Value::Bool(a && b)),
        (Value::Bool(a), BinaryOp::Or, Value::Bool(b)) => Ok(Value::Bool(a || b)),
        (lv, o, rv) => Err(RuntimeError::TypeMismatch(lv, o, rv)),
    }
}

/// The views of a list of values.
pub open spec fn values_view(vs: Seq<Value>) -> Seq<SpecValue>
    decreases vs.len(),
{
    if vs.len() == 0 {
        Seq::empty()
    } else {
        values_view(vs.drop_last()).push(value_view(vs.last()))
    }
}

pub broadcast proof fn lemma_values_view_len(vs: Seq<Value>)
    ensures
        #[trigger] values_view(vs).len() == vs.len(),
    decreases vs.len(),
{
    if vs.len() > 0 {
        lemma_values_view_len(vs.drop_last());
    }
}

pub broadcast proof fn lemma_values_view_index(vs: Seq<Value>, i: int)
    requires
        0 <= i < vs.len(),
    ensures
        #[trigger] values_view(vs)[i] == value_view(vs[i]),
    decreases vs.len(),
{
    lemma_values_view_len(vs);
    if i < vs.len() - 1 {
        lemma_values_view_index(vs.drop_last(), i);
    } else {
        assert(vs.last() == vs[i]);
    }
}

/// The set of names a list of strings holds.
pub open spec fn str_vec_set(names: Seq<String>) -> Set<Seq<char>> {
    Set::new(|k: Seq<char>| exists|j: int| 0 <= j < names.len() && (#[trigger] names[j])@ == k)
}

/// Whether `name` is among `names`.
#[verifier::loop_isolation(false)]
fn names_contain(names: &Vec<String>, name: &String) -> (r: bool)
    ensures
        r == str_vec_set(names@).contains(name@),
{
    let n = names.len();
    let mut i: usize = 0;
    while i < n
        invariant
            0 <= i <= n,
            forall|j: int| 0 <= j < i ==> (#[trigger] names@[j])@ != name@,
        decreases n - i,
    {
        if names[i] == *name {
            proof {
                assert((names@[i as int])@ == name@);
            }
            return true;
        }
        i = i + 1;
    }
    false
}

/// Collects the names the block's `let` statements introduce.
#[verifier::loop_isolation(false)]
fn collect_let_names(stmts: &Vec<Stmt>) -> (r: Vec<String>)
    ensures
        str_vec_set(r@) == let_names(stmts_view(stmts@)),
{
    broadcast use crate::ast::lemma_stmts_view_len, crate::ast::lemma_stmts_view_index;

    let ghost ssm = stmts_view(stmts@);
    let n = stmts.len();
    let mut names: Vec<String> = Vec::new();
    let mut i: usize = 0;
    proof {
        assert(ssm.skip(0) =~= ssm);
        assert(forall|k: Seq<char>| !(#[trigger] str_vec_set(names@).contains(k)));
    }
    while i < n
        invariant
            0 <= i <= n,
            forall|k: Seq<char>|
                #[trigger] let_names(ssm).contains(k) <==> (let_names(
                    ssm.skip(i as int),
                ).contains(k) || str_vec_set(names@).contains(k)),
        decreases n - i,
    {
        proof {
            lemma_let_names_step(ssm, i as int);
        }
        let ghost names0 = names@;
        match &stmts[i] {
            Stmt::Let(nm, e) => {
                names.push(nm.clone());
                proof {
                    assert(forall|j: int|
                        0 <= j < names0.len() ==> (#[trigger] names@[j]) == names0[j]);
                    assert((names@[names0.len() as int])@ == nm@);
                    assert(forall|k: Seq<char>|
                        #[trigger] str_vec_set(names@).contains(k) <==> (str_vec_set(
                            names0,
                        ).contains(k) || nm@ == k)) by {
                        assert forall|k: Seq<char>|
                            str_vec_set(names0).contains(k)
                                || nm@ == k implies #[trigger] str_vec_set(names@).contains(
                            k,
                        ) by {
                            if nm@ == k {
                                assert((names@[names0.len() as int])@ == k);
                            } else {
                                let j = choose|j: int|
                                    0 <= j < names0.len() && (#[trigger] names0[j])@ == k;
                                assert((names@[j])@ == k);
                            }
                        }
                    }
                    assert(stmt_view(stmts@[i as int]) == ssm[i as int]);
                }
            },
            _ => {},
        }
        i = i + 1;
    }
    proof {
        assert(ssm.skip(n as int) =~= Seq::<SpecStmt>::empty());
        assert(str_vec_set(names@) =~= let_names(ssm));
    }
    names
}

/// The block locals of a statement list: its head's contribution, then
/// the rest's.
proof fn lemma_let_names_step(ss: Seq<SpecStmt>, i: int)
    requires
        0 <= i < ss.len(),
    ensures
        forall|k: Seq<char>|
            #[trigger] let_names(ss.skip(i)).contains(k) <==> ((ss[i] matches SpecStmt::Let(n, e)
                && n == k) || let_names(ss.skip(i + 1)).contains(k)),
{
    assert(ss.skip(i).drop_first() =~= ss.skip(i + 1));
    assert(ss.skip(i)[0] == ss[i]);
    assert(ss.skip(i).len() > 0);
}

/// The names held by a prefix of an environment's entries.
pub open spec fn entry_keys(es: Seq<(String, Value)>, i: int) -> Set<Seq<char>> {
    Set::new(|k: Seq<char>| exists|j: int| 0 <= j < i && (#[trigger] es[j]).0@ == k)
}

impl Environment {
    /// A block's assignment propagation: copies back from `child` the
    /// value of every name this environment already holds, unless the
    /// block declared that name as a local.
    #[verifier::loop_isolation(false)]
    fn propagate_from(&mut self, child: &Environment, locals: &Vec<String>)
        requires
            old(self).wf(),
            child.wf(),
        ensures
            final(self).wf(),
            final(self)@ == propagate_env(old(self)@, child@, str_vec_set(locals@)),
    {
        let ghost parent0 = old(self)@;
        let ghost es = child.values@;
        let ghost locs = str_vec_set(locals@);
        let n = child.values.len();
        let mut i: usize = 0;
        proof {
            assert(self@ =~= Map::new(
                |k: Seq<char>| parent0.contains_key(k),
                |k: Seq<char>|
                    if entry_keys(es, 0).contains(k) && child@.contains_key(k) && !locs.contains(
                        k,
                    ) {
                        child@[k]
                    } else {
                        parent0[k]
                    },
            ));
        }
        while i < n
            invariant
                0 <= i <= n,
                self.wf(),
                self@ == Map::new(
                    |k: Seq<char>| parent0.contains_key(k),
                    |k: Seq<char>|
                        if entry_keys(es, i as int).contains(k) && child@.contains_key(k)
                            && !locs.contains(k) {
                            child@[k]
                        } else {
                            parent0[k]
                        },
                ),
            decreases n - i,
        {
            let ghost prev = self@;
            let name = child.values[i].0.clone();
            let value = child.values[i].1.clone();
            proof {
                lemma_env_map_get(es, i as int);
                assert(child@.contains_key(name@));
                assert(child@[name@] == value_view(value));
            }
            let in_parent = match self.get(name.as_str()) {
                Some(v) => true,
                None => false,
            };
            proof {
                assert(self@.contains_key(name@) <==> parent0.contains_key(name@));
            }
            if in_parent && !names_contain(locals, &name) {
                self.define(name, value);
            }
            proof {
                assert(forall|k: Seq<char>|
                    #[trigger] entry_keys(es, i + 1).contains(k) <==> (entry_keys(
                        es,
                        i as int,
                    ).contains(k) || es[i as int].0@ == k));
                assert(self@ =~= Map::new(
                    |k: Seq<char>| parent0.contains_key(k),
                    |k: Seq<char>|
                        if entry_keys(es, i + 1int).contains(k) && child@.contains_key(k)
                            && !locs.contains(k) {
                            child@[k]
                        } else {
                            parent0[k]
                        },
                ));
            }
            i = i + 1;
        }
        proof {
            assert(forall|k: Seq<char>|
                child@.contains_key(k) ==> #[trigger] entry_keys(es, n as int).contains(k)) by {
                assert forall|k: Seq<char>| child@.contains_key(k) implies #[trigger] entry_keys(
                    es,
                    n as int,
                ).contains(k) by {
                    lemma_env_map_key(es, k);
                }
            }
            assert(self@ =~= propagate_env(parent0, child@, locs));
        }
    }
}


/// Runs the statements of a block, in order, against the block's own
/// environment.
#[verifier::loop_isolation(false)]
fn eval_block_stmts(stmts: &Vec<Stmt>, env: &mut Environment, out: &mut Vec<char>, fuel: u64) -> (r:
    Result<(), RuntimeError>)
    requires
        old(env).wf(),
    ensures
        final(env).wf(),
        match eval_stmts_m(
            fuel as nat,
            stmts_view(stmts@),
            SpecEvalState { env: old(env)@, out: old(out)@ },
        ) {
            SpecEvalResult::Val(u, stf) => r is Ok && final(env)@ == stf.env && final(out)@
                == stf.out,
            SpecEvalResult::Fault(em) => r matches Err(e) && e@ == em,
        },
    decreases fuel, stmts, 0int,
{
    broadcast use crate::ast::lemma_stmts_view_len, crate::ast::lemma_stmts_view_index;

    let ghost st0 = SpecEvalState { env: env@, out: out@ };
    let ghost ssm = stmts_view(stmts@);
    let n = stmts.len();
    let mut i: usize = 0;
    proof {
        assert(ssm.skip(0) =~= ssm);
    }
    while i < n
        invariant
            0 <= i <= n,
            env.wf(),
            eval_stmts_m(fuel as nat, ssm, st0) == eval_stmts_m(
                fuel as nat,
                ssm.skip(i as int),
                SpecEvalState { env: env@, out: out@ },
            ),
        decreases n - i,
    {
        proof {
            assert(ssm.skip(i as int).drop_first() =~= ssm.skip(i + 1int));
            assert(ssm.skip(i as int)[0] == ssm[i as int]);
        }
        match eval_statement(&stmts[i], env, out, fuel) {
            Ok(v) => {},
            Err(e) => {
                return Err(e);
            },
        }
        i = i + 1;
    }
    proof {
        assert(ssm.skip(n as int) =~= Seq::<SpecStmt>::empty());
    }
    Ok(())
}

/// Evaluates a call's arguments, left to right, in the caller's
/// environment.
#[verifier::loop_isolation(false)]
fn eval_call_args(args: &Vec<Expr>, env: &mut Environment, out: &mut Vec<char>, fuel: u64) -> (r:
    Result<Vec<Value>, RuntimeError>)
    requires
        old(env).wf(),
    ensures
        final(env).wf(),
        match eval_args_m(
            fuel as nat,
            exprs_view(args@),
            SpecEvalState { env: old(env)@, out: old(out)@ },
        ) {
            SpecEvalResult::Val(vsm, stf) => r matches Ok(vs) && values_view(vs@) == vsm
                && final(env)@ == stf.env && final(out)@ == stf.out,
            SpecEvalResult::Fault(em) => r matches Err(e) && e@ == em,
        },
    decreases fuel, args, 0int,
{
    broadcast use
        crate::ast::lemma_exprs_view_len,
        crate::ast::lemma_exprs_view_index,
        lemma_values_view_len,
        lemma_values_view_index,
    ;

    let ghost st0 = SpecEvalState { env: env@, out: out@ };
    let ghost argm = exprs_view(args@);
    let n = args.len();
    let mut arg_values: Vec<Value> = Vec::new();
    let mut i: usize = 0;
    proof {
        assert(argm.skip(0) =~= argm);
        assert(values_view(arg_values@) =~= Seq::<SpecValue>::empty());
    }
    while i < n
        invariant
            0 <= i <= n,
            env.wf(),
            arg_values@.len() == i,
            eval_args_m(fuel as nat, argm, st0) == (match eval_args_m(
                fuel as nat,
                argm.skip(i as int),
                SpecEvalState { env: env@, out: out@ },
            ) {
                SpecEvalResult::Val(vs, stf) => SpecEvalResult::Val(
                    values_view(arg_values@) + vs,
                    stf,
                ),
                SpecEvalResult::Fault(e) => SpecEvalResult::Fault(e),
            }),
        decreases n - i,
    {
        proof {
            assert(argm.skip(i as int).drop_first() =~= argm.skip(i + 1int));
            assert(argm.skip(i as int)[0] == argm[i as int]);
        }
        let ghost vals0 = arg_values@;
        match eval_expression(&args[i], env, out, fuel) {
            Ok(v) => {
                arg_values.push(v);
                proof {
                    assert(arg_values@.drop_last() =~= vals0);
                    assert(forall|vs: Seq<SpecValue>|
                        #[trigger] (values_view(arg_values@) + vs) =~= values_view(vals0) + (seq![
                            value_view(arg_values@.last()),
                        ] + vs));
                }
            },
            Err(e) => {
                return Err(e);
            },
        }
        i = i + 1;
    }
    proof {
        assert(argm.skip(n as int) =~= Seq::<SpecExpr>::empty());
        assert(values_view(arg_values@) + Seq::<SpecValue>::empty() =~= values_view(arg_values@));
    }
    Ok(arg_values)
}

/// Binds a function's parameters to its argument values, left to right.
#[verifier::loop_isolation(false)]
fn bind_arguments(func_env: &mut Environment, params: &Vec<String>, vals: &Vec<Value>)
    requires
        old(func_env).wf(),
        params@.len() == vals@.len(),
    ensures
        final(func_env).wf(),
        final(func_env)@ == bind_params(old(func_env)@, params.deep_view(), values_view(vals@)),
{
    broadcast use lemma_values_view_len, lemma_values_view_index;

    let ghost base = func_env@;
    let ghost psm = params.deep_view();
    let ghost vsm = values_view(vals@);
    let np = params.len();
    let mut j: usize = 0;
    proof {
        assert(psm.take(0) =~= Seq::<Seq<char>>::empty());
        assert(vsm.take(0) =~= Seq::<SpecValue>::empty());
    }
    while j < np
        invariant
            0 <= j <= np,
            func_env.wf(),
            func_env@ == bind_params(base, psm.take(j as int), vsm.take(j as int)),
        decreases np - j,
    {
        proof {
            assert(psm.take(j + 1int).drop_last() =~= psm.take(j as int));
            assert(vsm.take(j + 1int).drop_last() =~= vsm.take(j as int));
            assert(psm.take(j + 1int).last() == psm[j as int]);
            assert(vsm.take(j + 1int).last() == vsm[j as int]);
        }
        let pname = params[j].clone();
        let pval = vals[j].clone();
        func_env.define(pname, pval);
        j = j + 1;
    }
    proof {
        assert(psm.take(np as int) =~= psm);
        assert(vsm.take(np as int) =~= vsm);
    }
}

/// The line `println` prints for these arguments.
#[verifier::loop_isolation(false)]
fn render_println_line(vals: &Vec<Value>) -> (r: Vec<char>)
    ensures
        r@ == println_line(values_view(vals@)),
{
    broadcast use lemma_values_view_len, lemma_values_view_index;

    let mut line: Vec<char> = Vec::new();
    let ghost vsm = values_view(vals@);
    let nv = vals.len();
    let mut j: usize = 0;
    proof {
        assert(vsm.skip(0) =~= vsm);
    }
    while j < nv
        invariant
            0 <= j <= nv,
            println_line(vsm) == line@ + println_line(vsm.skip(j as int)),
        decreases nv - j,
    {
        proof {
            assert(vsm.skip(j as int).drop_first() =~= vsm.skip(j + 1int));
            assert(vsm.skip(j as int)[0] == vsm[j as int]);
        }
        vals[j].push_display(&mut line);
        line.push(' ');
        proof {
            assert(line@ + println_line(vsm.skip(j + 1int)) =~= println_line(vsm));
        }
        j = j + 1;
    }
    line.push('\n');
    proof {
        assert(vsm.skip(nv as int) =~= Seq::<SpecValue>::empty());
        assert(line@ =~= println_line(vsm));
    }
    line
}

/// Evaluates one expression against the environment, appending anything
/// printed to `out`. The relation between input and outcome is exactly
/// [`eval_expr_m`] at the same fuel.
#[verifier::loop_isolation(false)]
#[verifier::rlimit(80)]
pub fn eval_expression(expr: &Expr, env: &mut Environment, out: &mut Vec<char>, fuel: u64) -> (r:
    Result<Value, RuntimeError>)
    requires
        old(env).wf(),
    ensures
        final(env).wf(),
        match eval_expr_m(
            fuel as nat,
            expr_view(*expr),
            SpecEvalState { env: old(env)@, out: old(out)@ },
        ) {
            SpecEvalResult::Val(vm, stf) => r matches Ok(v) && v@ == vm && final(env)@ == stf.env
                && final(out)@ == stf.out,
            SpecEvalResult::Fault(em) => r matches Err(e) && e@ == em,
        },
    decreases fuel, expr,
{
    broadcast use
        crate::ast::lemma_stmts_view_len,
        crate::ast::lemma_stmts_view_index,
        crate::ast::lemma_exprs_view_len,
        crate::ast::lemma_exprs_view_index,
        lemma_values_view_len,
        lemma_values_view_index,
    ;

    let ghost st0 = SpecEvalState { env: env@, out: out@ };
    match expr {
        Expr::Literal(l) => match l {
            Literal::Int(i) => Ok(Value::Int(*i)),
            Literal::Float(b) => Ok(Value::Float(*b)),
            Literal::Bool(b) => Ok(Value::Bool(*b)),
            Literal::Str(s) => Ok(Value::Str(s.clone())),
        },
        Expr::Variable(name) => match env.get(name.as_str()) {
            Some(v) => Ok(v),
            None => Err(RuntimeError::UndefinedVariable(name.clone())),
        },
        Expr::Unary(op, inner) => {
            match eval_expression(inner, env, out, fuel) {
                Ok(v) => apply_unop(*op, v),
                Err(e) => Err(e),
            }
        },
        Expr::Binary(lhs, op, rhs) => {
            match eval_expression(lhs, env, out, fuel) {
                Ok(lv) => {
                    match eval_expression(rhs, env, out, fuel) {
                        Ok(rv) => apply_binop(lv, *op, rv),
                        Err(e) => Err(e),
                    }
                },
                Err(e) => Err(e),
            }
        },
        Expr::If(cond, then_b, else_b) => {
            match eval_expression(cond, env, out, fuel) {
                Ok(cv) => {
                    let is_true = match &cv {
                        Value::Bool(b) => *b,
                        _ => false,
                    };
                    if is_true {
                        eval_expression(then_b, env, out, fuel)
                    } else {
                        match else_b {
                            Some(eb) => eval_expression(eb, env, out, fuel),
                            None => Ok(Value::Unit),
                        }
                    }
                },
                Err(e) => Err(e),
            }
        },
        Expr::Block(stmts, tail) => {
            let mut child = env.clone();
            match eval_block_stmts(stmts, &mut child, out, fuel) {
                Ok(u) => {},
                Err(e) => {
                    return Err(e);
                },
            }
            let locals = collect_let_names(stmts);
            env.propagate_from(&child, &locals);
            match tail {
                Some(t) => {
                    match eval_expression(t, &mut child, out, fuel) {
                        Ok(v) => Ok(v),
                        Err(e) => Err(e),
                    }
                },
                None => Ok(Value::Unit),
            }
        },
        Expr::Call(name, args) => {
            let func_val = match env.get(name.as_str()) {
                Some(v) => v,
                None => {
                    return Err(RuntimeError::UndefinedFunction(name.clone()));
                },
            };
            let arg_values = match eval_call_args(args, env, out, fuel) {
                Ok(vs) => vs,
                Err(e) => {
                    return Err(e);
                },
            };
            match func_val {
                Value::Function(params, body) => {
                    if params.len() != arg_values.len() {
                        return Err(RuntimeError::ArityMismatch(params.len(), arg_values.len()));
                    }
                    if fuel == 0 {
                        return Err(RuntimeError::OutOfFuel);
                    }
                    let mut func_env = env.clone();
                    bind_arguments(&mut func_env, &params, &arg_values);
                    match eval_expression(&body, &mut func_env, out, fuel - 1) {
                        Ok(v) => Ok(v),
                        Err(e) => Err(e),
                    }
                },
                Value::NativeFunc(f) => {
                    let mut line = render_println_line(&arg_values);
                    out.append(&mut line);
                    Ok(Value::Unit)
                },
                other => Err(RuntimeError::NotCallable(other)),
            }
        },
    }
}

/// Evaluates one statement. Only `ImplicitReturn` yields a value other
/// than `Unit`. The relation between input and outcome is exactly
/// [`eval_stmt_m`] at the same fuel.
#[verifier::loop_isolation(false)]
pub fn eval_statement(stmt: &Stmt, env: &mut Environment, out: &mut Vec<char>, fuel: u64) -> (r:
    Result<Value, RuntimeError>)
    requires
        old(env).wf(),
    ensures
        final(env).wf(),
        match eval_stmt_m(
            fuel as nat,
            stmt_view(*stmt),
            SpecEvalState { env: old(env)@, out: old(out)@ },
        ) {
            SpecEvalResult::Val(vm, stf) => r matches Ok(v) && v@ == vm && final(env)@ == stf.env
                && final(out)@ == stf.out,
            SpecEvalResult::Fault(em) => r matches Err(e) && e@ == em,
        },
    decreases fuel, stmt,
{
    let ghost st0 = SpecEvalState { env: env@, out: out@ };
    match stmt {
        Stmt::Let(name, e) => {
            match eval_expression(e, env, out, fuel) {
                Ok(v) => {
                    env.define(name.clone(), v);
                    Ok(Value::Unit)
                },
                Err(er) => Err(er),
            }
        },
        Stmt::Fn(name, params, body) => {
            let func = Value::Function(clone_strings(params), body.clone());
            env.define(name.clone(), func);
            Ok(Value::Unit)
        },
        Stmt::Assign(name, e) => {
            match eval_expression(e, env, out, fuel) {
                Ok(v) => {
                    match env.get(name.as_str()) {
                        Some(u) => {
                            env.define(name.clone(), v);
                            Ok(Value::Unit)
                        },
                        None => Err(RuntimeError::AssignUndefined(name.clone())),
                    }
                },
                Err(er) => Err(er),
            }
        },
        Stmt::Expression(e) => {
            match eval_expression(e, env, out, fuel) {
                Ok(v) => Ok(Value::Unit),
                Err(er) => Err(er),
            }
        },
        Stmt::ImplicitReturn(e) => eval_expression(e, env, out, fuel),
        Stmt::While(cond, body) => {
            let mut fuel_left = fuel;
            loop
                invariant
                    env.wf(),
                    fuel_left <= fuel,
                    eval_stmt_m(fuel as nat, stmt_view(*stmt), st0) == eval_stmt_m(
                        fuel_left as nat,
                        stmt_view(*stmt),
                        SpecEvalState { env: env@, out: out@ },
                    ),
                decreases fuel_left,
            {
                let cv = match eval_expression(cond, env, out, fuel_left) {
                    Ok(v) => v,
                    Err(er) => {
                        return Err(er);
                    },
                };
                match cv {
                    Value::Bool(true) => {
                        match eval_expression(body, env, out, fuel_left) {
                            Ok(v) => {},
                            Err(er) => {
                                return Err(er);
                            },
                        }
                        if fuel_left == 0 {
                            return Err(RuntimeError::OutOfFuel);
                        }
                        fuel_left = fuel_left - 1;
                    },
                    Value::Bool(false) => {
                        return Ok(Value::Unit);
                    },
                    other => {
                        return Err(RuntimeError::NonBoolWhileCondition(other));
                    },
                }
            }
        },
    }
}

/// Evaluates a whole program in order, yielding the last statement's
/// value, `Unit` when the program is empty. The relation between input
/// and outcome is exactly [`eval_program_m`] at the same fuel.
#[verifier::loop_isolation(false)]
pub fn eval_program(stmts: &Vec<Stmt>, env: &mut Environment, out: &mut Vec<char>, fuel: u64) -> (r:
    Result<Value, RuntimeError>)
    requires
        old(env).wf(),
    ensures
        final(env).wf(),
        match eval_program_m(
            fuel as nat,
            stmts_view(stmts@),
            SpecEvalState { env: old(env)@, out: old(out)@ },
        ) {
            SpecEvalResult::Val(vm, stf) => r matches Ok(v) && v@ == vm && final(env)@ == stf.env
                && final(out)@ == stf.out,
            SpecEvalResult::Fault(em) => r matches Err(e) && e@ == em,
        },
{
    broadcast use crate::ast::lemma_stmts_view_len, crate::ast::lemma_stmts_view_index;

    let ghost st0 = SpecEvalState { env: env@, out: out@ };
    let ghost ssm = stmts_view(stmts@);
    let n = stmts.len();
    let mut last_value = Value::Unit;
    let mut i: usize = 0;
    proof {
        assert(ssm.skip(0) =~= ssm);
    }
    while i < n
        invariant
            0 <= i <= n,
            env.wf(),
            i < n ==> eval_program_m(fuel as nat, ssm, st0) == eval_program_m(
                fuel as nat,
                ssm.skip(i as int),
                SpecEvalState { env: env@, out: out@ },
            ),
            i == n ==> eval_program_m(fuel as nat, ssm, st0) == SpecEvalResult::Val(
                last_value@,
                SpecEvalState { env: env@, out: out@ },
            ),
        decreases n - i,
    {
        proof {
            assert(ssm.skip(i as int).drop_first() =~= ssm.skip(i + 1int));
            assert(ssm.skip(i as int)[0] == ssm[i as int]);
        }
        match eval_statement(&stmts[i], env, out, fuel) {
            Ok(v) => {
                last_value = v;
            },
            Err(e) => {
                return Err(e);
            },
        }
        i = i + 1;
    }
    Ok(last_value)
}

/// Applies a unary operator to an evaluated operand.
fn apply_unop(op: UnaryOp, v: Value) -> (res: Result<Value, RuntimeError>)
    ensures
        match spec_unop_value(op, v@) {
            Ok(vm) => res matches Ok(r) && r@ == vm,
            Err(em) => res matches Err(e) && e@ == em,
        },
{
    match (op, v) {
        (UnaryOp::Neg, Value::Int(i)) => {
            if i == i64::MIN {
                Err(RuntimeError::IntegerOverflow)
            } else {
                Ok(Value::Int(-i))
            }
        },
        (UnaryOp::Neg, Value::Float(b)) => Ok(Value::Float(float_neg(b))),
        (UnaryOp::Not, Value::Bool(b)) => Ok(Value::Bool(!b)),
        (o, val) => Err(RuntimeError::UnaryTypeMismatch(o, val)),
    }
}

} // verus!
