//! The tree-walking evaluator.
use vstd::prelude::*;
use crate::ast::{Expr, ExprV, Lit, LitV, Stmt, StmtV};
use crate::env::Env;
use crate::token::TokenKind;
use crate::value::{truthy, value_text, Fault, RuntimeError, Value, ValueV};

verus! {

/// Model of a run: variables, stack (bottom first) and the lines printed.
pub struct State {
    pub vars: Map<Seq<char>, ValueV>,
    pub stack: Seq<ValueV>,
    pub output: Seq<Seq<char>>,
}

/// The state a run starts in: nothing bound, nothing stacked, nothing printed.
pub open spec fn initial_state() -> State {
    State { vars: Map::empty(), stack: Seq::empty(), output: Seq::empty() }
}

/// The name that stands for the top of the stack and cannot be assigned.
pub open spec fn is_reserved(n: Seq<char>) -> bool {
    n == "pop"@
}

pub open spec fn lit_value(l: LitV) -> ValueV {
    match l {
        LitV::Int(n) => ValueV::Int(n),
        LitV::Str(s) => ValueV::Str(s),
        LitV::Bool(b) => ValueV::Bool(b),
    }
}

pub open spec fn abs(x: int) -> int {
    if x < 0 {
        -x
    } else {
        x
    }
}

/// Integer division rounded toward zero.
pub open spec fn trunc_div(x: int, y: int) -> int {
    let q = abs(x) / abs(y);
    if (x < 0) == (y < 0) {
        q
    } else {
        -q
    }
}

pub open spec fn int_result(n: int) -> Result<ValueV, Fault> {
    if i64::MIN <= n <= i64::MAX {
        Ok(ValueV::Int(n as i64))
    } else {
        Err(Fault::Overflow)
    }
}

/// Operators that take two integers.
pub open spec fn is_numeric_op(op: TokenKind) -> bool {
    op == TokenKind::Plus || op == TokenKind::Minus || op == TokenKind::Multiply || op
        == TokenKind::Divide || op == TokenKind::Equals || op == TokenKind::NotEq || op
        == TokenKind::Less || op == TokenKind::LessEq || op == TokenKind::Greater || op
        == TokenKind::GreaterEq
}

/// Arithmetic and comparison on two operands.
pub open spec fn apply_binary(op: TokenKind, a: ValueV, b: ValueV) -> Result<ValueV, Fault> {
    if !is_numeric_op(op) {
        Err(Fault::BadOperator)
    } else {
        match (a, b) {
            (ValueV::Int(x), ValueV::Int(y)) => {
                let x = x as int;
                let y = y as int;
                if op == TokenKind::Plus {
                    int_result(x + y)
                } else if op == TokenKind::Minus {
                    int_result(x - y)
                } else if op == TokenKind::Multiply {
                    int_result(x * y)
                } else if op == TokenKind::Divide {
                    if y == 0 {
                        Err(Fault::DivisionByZero)
                    } else {
                        int_result(trunc_div(x, y))
                    }
                } else if op == TokenKind::Equals {
                    Ok(ValueV::Bool(x == y))
                } else if op == TokenKind::NotEq {
                    Ok(ValueV::Bool(x != y))
                } else if op == TokenKind::Less {
                    Ok(ValueV::Bool(x < y))
                } else if op == TokenKind::LessEq {
                    Ok(ValueV::Bool(x <= y))
                } else if op == TokenKind::Greater {
                    Ok(ValueV::Bool(x > y))
                } else {
                    Ok(ValueV::Bool(x >= y))
                }
            },
            _ => Err(Fault::ExpectedNumber),
        }
    }
}

/// Negation of an integer, or the inverted truthiness of any value.
pub open spec fn apply_unary(op: TokenKind, a: ValueV) -> Result<ValueV, Fault> {
    if op == TokenKind::Minus {
        match a {
            ValueV::Int(x) => int_result(-(x as int)),
            _ => Err(Fault::ExpectedNumber),
        }
    } else if op == TokenKind::Not {
        Ok(ValueV::Bool(!truthy(a)))
    } else {
        Err(Fault::BadOperator)
    }
}

/// Evaluates `e` in `st`: the state after it (reading `pop` takes the top
/// off the stack) and its value. Operands are evaluated left to right.
pub open spec fn eval(st: State, e: ExprV) -> (State, Result<ValueV, Fault>)
    decreases e, 0int,
{
    match e {
        ExprV::Literal(l) => (st, Ok(lit_value(l))),
        ExprV::Ident(n) => if is_reserved(n) {
            if st.stack.len() == 0 {
                (st, Err(Fault::EmptyStack))
            } else {
                (
                    State { vars: st.vars, stack: st.stack.drop_last(), output: st.output },
                    Ok(st.stack.last()),
                )
            }
        } else if st.vars.contains_key(n) {
            (st, Ok(st.vars[n]))
        } else {
            (st, Err(Fault::Undefined(n)))
        },
        ExprV::BinaryOp(op, l, r) => {
            let (s1, lv) = eval(st, *l);
            match lv {
                Err(f) => (s1, Err(f)),
                Ok(a) => eval_infix(s1, op, a, *r),
            }
        },
        ExprV::UnaryOp(op, x) => {
            let (s1, v) = eval(st, *x);
            match v {
                Err(f) => (s1, Err(f)),
                Ok(a) => (s1, apply_unary(op, a)),
            }
        },
    }
}

/// Finishes a binary operation whose left operand has value `a`, with the
/// right operand `r` still to evaluate. The right operand of `and` is
/// skipped when `a` is false, that of `or` when `a` is true.
pub open spec fn eval_infix(st: State, op: TokenKind, a: ValueV, r: ExprV) -> (
    State,
    Result<ValueV, Fault>,
)
    decreases r, 1int,
{
    if op == TokenKind::And && !truthy(a) {
        (st, Ok(ValueV::Bool(false)))
    } else if op == TokenKind::Or && truthy(a) {
        (st, Ok(ValueV::Bool(true)))
    } else {
        let (s2, rv) = eval(st, r);
        match rv {
            Err(f) => (s2, Err(f)),
            Ok(b) => (
                s2,
                if op == TokenKind::And || op == TokenKind::Or {
                    Ok(ValueV::Bool(truthy(b)))
                } else {
                    apply_binary(op, a, b)
                },
            ),
        }
    }
}

/// Runs one statement in `st`.
pub open spec fn exec_stmt(st: State, s: StmtV) -> (State, Result<(), Fault>) {
    match s {
        StmtV::Assign(n, e) => if is_reserved(n) {
            (st, Err(Fault::ReservedIdentifier))
        } else {
            let (s1, v) = eval(st, e);
            match v {
                Ok(x) => (
                    State { vars: s1.vars.insert(n, x), stack: s1.stack, output: s1.output },
                    Ok(()),
                ),
                Err(f) => (s1, Err(f)),
            }
        },
        StmtV::Push(e) => {
            let (s1, v) = eval(st, e);
            match v {
                Ok(x) => (State { vars: s1.vars, stack: s1.stack.push(x), output: s1.output }, Ok(())),
                Err(f) => (s1, Err(f)),
            }
        },
        StmtV::Check(e) => {
            let (s1, v) = eval(st, e);
            match v {
                Ok(x) => (
                    State {
                        vars: s1.vars,
                        stack: s1.stack.push(ValueV::Bool(truthy(x))),
                        output: s1.output,
                    },
                    Ok(()),
                ),
                Err(f) => (s1, Err(f)),
            }
        },
        StmtV::Pop => if st.stack.len() == 0 {
            (st, Err(Fault::EmptyStack))
        } else {
            (State { vars: st.vars, stack: st.stack.drop_last(), output: st.output }, Ok(()))
        },
        StmtV::Print(e) => {
            let (s1, v) = eval(st, e);
            match v {
                Ok(x) => (
                    State { vars: s1.vars, stack: s1.stack, output: s1.output.push(value_text(x)) },
                    Ok(()),
                ),
                Err(f) => (s1, Err(f)),
            }
        },
    }
}

/// Runs statements in order, stopping at the first error.
pub open spec fn run_stmts(st: State, sts: Seq<StmtV>) -> (State, Result<(), Fault>)
    decreases sts.len(),
{
    if sts.len() == 0 {
        (st, Ok(()))
    } else {
        let (s1, r) = exec_stmt(st, sts[0]);
        match r {
            Ok(()) => run_stmts(s1, sts.subrange(1, sts.len() as int)),
            Err(f) => (s1, Err(f)),
        }
    }
}

pub open spec fn plain(v: ValueV) -> bool {
    !(v is Comment)
}

pub open spec fn value_result<T: View>(r: Result<T, RuntimeError>) -> Result<T::V, Fault> {
    match r {
        Ok(v) => Ok(v@),
        Err(e) => Err(e@),
    }
}

pub open spec fn unit_result(r: Result<(), RuntimeError>) -> Result<(), Fault> {
    match r {
        Ok(()) => Ok(()),
        Err(e) => Err(e@),
    }
}

/// An interpreter: the environment of one run and the lines it printed.
pub struct Interpreter {
    env: Env,
    output: Vec<String>,
}

impl Interpreter {
    /// The model of the run so far.
    pub closed spec fn state(&self) -> State {
        State {
            vars: self.env.vars(),
            stack: self.env.stack(),
            output: self.output@.map_values(|s: String| s@),
        }
    }

    pub closed spec fn wf(&self) -> bool {
        &&& self.env.wf()
        &&& forall|k: Seq<char>| #[trigger]
            self.env.vars().contains_key(k) ==> plain(self.env.vars()[k])
        &&& forall|i: int| 0 <= i < self.env.stack().len() ==> plain(#[trigger] self.env.stack()[i])
    }

    pub fn new() -> (r: Self)
        ensures
            r.wf(),
            r.state() == initial_state(),
    {
        let r = Interpreter { env: Env::new(), output: Vec::new() };
        assert(r.state().output =~= Seq::<Seq<char>>::empty());
        r
    }

    /// The lines printed so far, in order.
    pub fn output(&self) -> (r: &Vec<String>)
        ensures
            r@.map_values(|s: String| s@) == self.state().output,
    {
        &self.output
    }

    fn visit_literal(lit: &Lit) -> (r: Value)
        ensures
            r@ == lit_value(lit@),
    {
        match lit {
            Lit::Int(x) => Value::Int(*x),
            Lit::Str(x) => Value::Str(x.clone()),
            Lit::Bool(x) => Value::Bool(*x),
        }
    }

    /// Whether `name` is the reserved name `pop`.
    fn is_pop(name: &String) -> (r: bool)
        ensures
            r == is_reserved(name@),
    {
        let s = name.as_str();
        proof {
            reveal_strlit("pop");
        }
        if s.unicode_len() != 3 {
            return false;
        }
        let r = s.get_char(0) == 'p' && s.get_char(1) == 'o' && s.get_char(2) == 'p';
        if r {
            assert(s@ =~= "pop"@);
        } else {
            assert(s@ != "pop"@) by {
                if s@ == "pop"@ {
                    assert(s@[0] == 'p' && s@[1] == 'o' && s@[2] == 'p');
                }
            }
        }
        r
    }

    /// Looks up a name; `pop` takes the top of the stack instead.
    fn visit_ident(&mut self, name: &String) -> (r: Result<Value, RuntimeError>)
        requires
            old(self).wf(),
        ensures
            final(self).wf(),
            (final(self).state(), value_result(r)) == eval(
                old(self).state(),
                ExprV::Ident(name@),
            ),
            r matches Ok(v) ==> plain(v@),
    {
        if Self::is_pop(name) {
            let r = self.env.pop();
            proof {
                if old(self).env.stack().len() > 0 {
                    assert(self.env.stack() =~= old(self).env.stack().drop_last());
                    let last = old(self).env.stack().len() - 1;
                    assert(plain(old(self).env.stack()[last]));
                }
            }
            r
        } else {
            self.env.get(name)
        }
    }

    /// Arithmetic and comparison on two evaluated operands.
    fn eval_infix_integer(op: &TokenKind, lhs: &Value, rhs: &Value) -> (r: Result<
        Value,
        RuntimeError,
    >)
        ensures
            value_result(r) == apply_binary(*op, lhs@, rhs@),
            r matches Ok(v) ==> plain(v@),
    {
        match op {
            TokenKind::Plus | TokenKind::Minus | TokenKind::Multiply | TokenKind::Divide
            | TokenKind::Equals | TokenKind::NotEq | TokenKind::Less | TokenKind::LessEq
            | TokenKind::Greater | TokenKind::GreaterEq => {},
            _ => {
                return Err(RuntimeError::BadOperator);
            },
        }
        let x = match lhs.to_int() {
            Ok(x) => x,
            Err(e) => {
                return Err(e);
            },
        };
        let y = match rhs.to_int() {
            Ok(y) => y,
            Err(e) => {
                return Err(e);
            },
        };
        let r = match op {
            TokenKind::Plus => x.checked_add(y),
            TokenKind::Minus => x.checked_sub(y),
            TokenKind::Multiply => x.checked_mul(y),
            TokenKind::Divide => {
                if y == 0 {
                    return Err(RuntimeError::DivisionByZero);
                }
                x.checked_div(y)
            },
            TokenKind::Equals => {
                return Ok(Value::Bool(x == y));
            },
            TokenKind::NotEq => {
                return Ok(Value::Bool(x != y));
            },
            TokenKind::Less => {
                return Ok(Value::Bool(x < y));
            },
            TokenKind::LessEq => {
                return Ok(Value::Bool(x <= y));
            },
            TokenKind::Greater => {
                return Ok(Value::Bool(x > y));
            },
            _ => {
                return Ok(Value::Bool(x >= y));
            },
        };
        match r {
            Some(v) => Ok(Value::Int(v)),
            None => Err(RuntimeError::Overflow),
        }
    }

    /// A prefix operator on an evaluated operand.
    fn eval_prefix_op(op: &TokenKind, rhs: &Value) -> (r: Result<Value, RuntimeError>)
        requires
            plain(rhs@),
        ensures
            value_result(r) == apply_unary(*op, rhs@),
            r matches Ok(v) ==> plain(v@),
    {
        match op {
            TokenKind::Minus => {
                let x = match rhs.to_int() {
                    Ok(x) => x,
                    Err(e) => {
                        return Err(e);
                    },
                };
                if x == i64::MIN {
                    Err(RuntimeError::Overflow)
                } else {
                    Ok(Value::Int(-x))
                }
            },
            TokenKind::Not => Ok(Value::Bool(!rhs.truthiness())),
            _ => Err(RuntimeError::BadOperator),
        }
    }

    /// Evaluates an expression.
    pub fn visit_expr(&mut self, expr: &Expr) -> (r: Result<Value, RuntimeError>)
        requires
            old(self).wf(),
        ensures
            final(self).wf(),
            (final(self).state(), value_result(r)) == eval(old(self).state(), expr@),
            r matches Ok(v) ==> plain(v@),
        decreases expr, 0int,
    {
        match expr {
            Expr::Literal(lit) => Ok(Self::visit_literal(lit)),
            Expr::Ident(name) => self.visit_ident(name),
            Expr::BinaryOp(op, lhs, rhs) => {
                match self.visit_expr(lhs) {
                    Ok(a) => self.eval_infix_expression(op, a, rhs),
                    Err(e) => Err(e),
                }
            },
            Expr::UnaryOp(op, operand) => {
                match self.visit_expr(operand) {
                    Ok(a) => Self::eval_prefix_op(op, &a),
                    Err(e) => Err(e),
                }
            },
        }
    }

    /// Finishes a binary operation whose left operand is `lhs`: `and` and
    /// `or` short-circuit, the other operators evaluate `rhs` and compute.
    fn eval_infix_expression(&mut self, op: &TokenKind, lhs: Value, rhs: &Expr) -> (r: Result<
        Value,
        RuntimeError,
    >)
        requires
            old(self).wf(),
            plain(lhs@),
        ensures
            final(self).wf(),
            (final(self).state(), value_result(r)) == eval_infix(
                old(self).state(),
                *op,
                lhs@,
                rhs@,
            ),
            r matches Ok(v) ==> plain(v@),
        decreases rhs, 2int,
    {
        if *op == TokenKind::And || *op == TokenKind::Or {
            self.eval_infix_short_circuiting(op, lhs, rhs)
        } else {
            match self.visit_expr(rhs) {
                Ok(b) => Self::eval_infix_integer(op, &lhs, &b),
                Err(e) => Err(e),
            }
        }
    }

    /// `and` and `or`: the right operand is evaluated only when the left
    /// does not decide the result.
    fn eval_infix_short_circuiting(&mut self, op: &TokenKind, lhs: Value, rhs: &Expr) -> (r:
        Result<Value, RuntimeError>)
        requires
            old(self).wf(),
            plain(lhs@),
            *op == TokenKind::And || *op == TokenKind::Or,
        ensures
            final(self).wf(),
            (final(self).state(), value_result(r)) == eval_infix(
                old(self).state(),
                *op,
                lhs@,
                rhs@,
            ),
            r matches Ok(v) ==> plain(v@),
        decreases rhs, 1int,
    {
        let t = lhs.truthiness();
        if *op == TokenKind::And && !t {
            return Ok(Value::Bool(false));
        }
        if *op == TokenKind::Or && t {
            return Ok(Value::Bool(true));
        }
        match self.visit_expr(rhs) {
            Ok(b) => Ok(Value::Bool(b.truthiness())),
            Err(e) => Err(e),
        }
    }

    /// `set name expr`; `pop` cannot be assigned.
    fn visit_set(&mut self, name: &String, expr: &Expr) -> (r: Result<(), RuntimeError>)
        requires
            old(self).wf(),
        ensures
            final(self).wf(),
            (final(self).state(), unit_result(r)) == exec_stmt(
                old(self).state(),
                StmtV::Assign(name@, expr@),
            ),
    {
        if Self::is_pop(name) {
            return Err(RuntimeError::ReservedIdentifier);
        }
        let value = match self.visit_expr(expr) {
            Ok(v) => v,
            Err(e) => {
                return Err(e);
            },
        };
        let ghost before = self.state();
        self.env.set(name.clone(), value);
        assert(self.state().vars == before.vars.insert(name@, value@));
        Ok(())
    }

    /// `push expr`.
    fn visit_push(&mut self, expr: &Expr) -> (r: Result<(), RuntimeError>)
        requires
            old(self).wf(),
        ensures
            final(self).wf(),
            (final(self).state(), unit_result(r)) == exec_stmt(
                old(self).state(),
                StmtV::Push(expr@),
            ),
    {
        let value = match self.visit_expr(expr) {
            Ok(v) => v,
            Err(e) => {
                return Err(e);
            },
        };
        let ghost before = self.env.stack();
        self.env.push(value);
        assert(forall|i: int| 0 <= i < before.len() ==> self.env.stack()[i] == before[i]);
        Ok(())
    }

    /// `check expr`: pushes the truthiness of the value.
    fn visit_check(&mut self, expr: &Expr) -> (r: Result<(), RuntimeError>)
        requires
            old(self).wf(),
        ensures
            final(self).wf(),
            (final(self).state(), unit_result(r)) == exec_stmt(
                old(self).state(),
                StmtV::Check(expr@),
            ),
    {
        let value = match self.visit_expr(expr) {
            Ok(v) => v,
            Err(e) => {
                return Err(e);
            },
        };
        let b = value.truthiness();
        let ghost before = self.env.stack();
        self.env.push(Value::Bool(b));
        assert(forall|i: int| 0 <= i < before.len() ==> self.env.stack()[i] == before[i]);
        Ok(())
    }

    /// `pop`: drops the top of the stack.
    fn visit_pop(&mut self) -> (r: Result<(), RuntimeError>)
        requires
            old(self).wf(),
        ensures
            final(self).wf(),
            (final(self).state(), unit_result(r)) == exec_stmt(old(self).state(), StmtV::Pop),
    {
        let ghost before = self.env.stack();
        match self.env.pop() {
            Ok(_) => {
                assert(forall|i: int|
                    0 <= i < self.env.stack().len() ==> self.env.stack()[i] == before[i]);
                Ok(())
            },
            Err(e) => Err(e),
        }
    }

    /// `print expr`: records the textual form of the value as a line of
    /// output.
    fn visit_print(&mut self, expr: &Expr) -> (r: Result<(), RuntimeError>)
        requires
            old(self).wf(),
        ensures
            final(self).wf(),
            (final(self).state(), unit_result(r)) == exec_stmt(
                old(self).state(),
                StmtV::Print(expr@),
            ),
    {
        let value = match self.visit_expr(expr) {
            Ok(v) => v,
            Err(e) => {
                return Err(e);
            },
        };
        let ghost before = self.output@.map_values(|s: String| s@);
        let text = value.to_text();
        self.output.push(text);
        assert(self.output@.map_values(|s: String| s@) =~= before.push(value_text(value@)));
        Ok(())
    }

    /// Runs one statement.
    pub fn visit_stmt(&mut self, stmt: &Stmt) -> (r: Result<(), RuntimeError>)
        requires
            old(self).wf(),
        ensures
            final(self).wf(),
            (final(self).state(), unit_result(r)) == exec_stmt(old(self).state(), stmt@),
    {
        match stmt {
            Stmt::Assign(name, expr) => self.visit_set(name, expr),
            Stmt::Push(expr) => self.visit_push(expr),
            Stmt::Check(expr) => self.visit_check(expr),
            Stmt::Pop => self.visit_pop(),
            Stmt::Print(expr) => self.visit_print(expr),
        }
    }

    /// Runs statements in order, stopping at the first error.
    pub fn run(&mut self, stmts: &[Stmt]) -> (r: Result<(), RuntimeError>)
        requires
            old(self).wf(),
        ensures
            final(self).wf(),
            (final(self).state(), unit_result(r)) == run_stmts(
                old(self).state(),
                stmts@.map_values(|st: Stmt| st@),
            ),
    {
        let ghost all = stmts@.map_values(|st: Stmt| st@);
        let mut i: usize = 0;
        assert(all.subrange(0, all.len() as int) =~= all);
        while i < stmts.len()
            invariant
                self.wf(),
                0 <= i <= stmts@.len(),
                all == stmts@.map_values(|st: Stmt| st@),
                run_stmts(old(self).state(), all) == run_stmts(
                    self.state(),
                    all.subrange(i as int, all.len() as int),
                ),
            decreases stmts@.len() - i,
        {
            let ghost rest = all.subrange(i as int, all.len() as int);
            assert(rest.subrange(1, rest.len() as int) =~= all.subrange(i + 1, all.len() as int));
            match self.visit_stmt(&stmts[i]) {
                Ok(()) => {},
                Err(e) => {
                    return Err(e);
                },
            }
            i = i + 1;
        }
        Ok(())
    }
}

} // verus!
