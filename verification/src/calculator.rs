//! Evaluation of calculator programs ([`Root`]) with integer arithmetic and
//! the variables `a` to `z`.
use vstd::prelude::*;
use crate::numeric::{fits_i64, trunc_div};
use crate::syntree::{Expr, Root, Stmt};

verus! {

/// Whether `c` names one of the variables `a` to `z`.
pub open spec fn is_var_name(c: char) -> bool {
    'a' <= c && c <= 'z'
}

/// The slot of the variable `c` in the variable table.
pub open spec fn slot_of(c: char) -> int {
    c as int - 'a' as int
}

/// The mathematical value of `e` when the variables hold `vars`.
pub open spec fn value_of(e: Expr, vars: Seq<i64>) -> int
    decreases e,
{
    match e {
        Expr::Int(n) => n as int,
        Expr::Var(c) => vars[slot_of(c)] as int,
        Expr::Add(l, r) => value_of(*l, vars) + value_of(*r, vars),
        Expr::Sub(l, r) => value_of(*l, vars) - value_of(*r, vars),
        Expr::Mul(l, r) => value_of(*l, vars) * value_of(*r, vars),
        Expr::Div(l, r) => trunc_div(value_of(*l, vars), value_of(*r, vars)),
    }
}

/// The number of nodes of `e`.
pub open spec fn expr_size(e: Expr) -> nat
    decreases e,
{
    match e {
        Expr::Int(_) | Expr::Var(_) => 1,
        Expr::Add(l, r) | Expr::Sub(l, r) | Expr::Mul(l, r) | Expr::Div(l, r) => expr_size(*l)
            + expr_size(*r) + 1,
    }
}

/// Whether `e` evaluates without fault: every variable is one of `a` to `z`,
/// no divisor is zero and every intermediate value fits in an `i64`.
pub open spec fn evaluable(e: Expr, vars: Seq<i64>) -> bool
    decreases e,
{
    match e {
        Expr::Int(_) => true,
        Expr::Var(c) => is_var_name(c),
        Expr::Add(l, r) | Expr::Sub(l, r) | Expr::Mul(l, r) => evaluable(*l, vars) && evaluable(
            *r,
            vars,
        ) && fits_i64(value_of(e, vars)),
        Expr::Div(l, r) => evaluable(*l, vars) && evaluable(*r, vars) && value_of(*r, vars) != 0
            && fits_i64(value_of(e, vars)),
    }
}

/// The variables and the result after running `s` from `vars` and `result`.
pub open spec fn run_stmt(vars: Seq<i64>, result: i64, s: Stmt) -> (Seq<i64>, i64) {
    match s {
        Stmt::Expr(e) => (vars, value_of(e, vars) as i64),
        Stmt::Assign(c, e) => (vars.update(slot_of(c), value_of(e, vars) as i64), value_of(e, vars) as i64),
    }
}

/// Whether `s` runs without fault from `vars`.
pub open spec fn stmt_runs(vars: Seq<i64>, s: Stmt) -> bool {
    match s {
        Stmt::Expr(e) => evaluable(e, vars),
        Stmt::Assign(c, e) => is_var_name(c) && evaluable(e, vars),
    }
}

/// The variables and the result after running the statements `ss` in order.
pub open spec fn run_stmts(vars: Seq<i64>, result: i64, ss: Seq<Stmt>) -> (Seq<i64>, i64)
    decreases ss.len(),
{
    if ss.len() == 0 {
        (vars, result)
    } else {
        let (v, r) = run_stmts(vars, result, ss.drop_last());
        run_stmt(v, r, ss.last())
    }
}

/// Whether the statements `ss` run in order without fault.
pub open spec fn stmts_run(vars: Seq<i64>, result: i64, ss: Seq<Stmt>) -> bool
    decreases ss.len(),
{
    if ss.len() == 0 {
        true
    } else {
        stmts_run(vars, result, ss.drop_last()) && stmt_runs(
            run_stmts(vars, result, ss.drop_last()).0,
            ss.last(),
        )
    }
}

/// The arithmetic operators of the calculator.
enum ArithOp {
    Add,
    Sub,
    Mul,
    Div,
}

/// `Calculator` evaluates calculator programs.
///
/// Variables that were never assigned read as 0.
pub struct Calculator {
    /// Values of the variables 'a' to 'z'; unassigned variables read as 0.
    vars: [i64; 26],
    /// Operand stack holding intermediate results during evaluation.
    stack: Vec<i64>,
    /// Value of the most recently evaluated statement.
    result: i64,
}

impl Default for Calculator {
    fn default() -> (c: Calculator)
        ensures
            c.vars() == Seq::new(26, |i: int| 0i64),
            c.stack() == Seq::<i64>::empty(),
            c.result() == 0,
    {
        Calculator { vars: [0i64; 26], stack: Vec::new(), result: 0 }
    }
}

impl Calculator {
    /// The values of the variables `a` to `z`, in that order.
    pub closed spec fn vars(&self) -> Seq<i64> {
        self.vars@
    }

    /// The operand stack.
    pub closed spec fn stack(&self) -> Seq<i64> {
        self.stack@
    }

    /// The value of the most recently evaluated statement.
    pub closed spec fn result(&self) -> i64 {
        self.result
    }

    /// There are always 26 variables.
    pub proof fn lemma_vars_len(&self)
        ensures
            self.vars().len() == 26,
    {
    }

    /// Evaluates the entire parse tree starting from a [`Root`] and returns the
    /// result of the last statement evaluated (or the previous result if there is
    /// no statement).
    pub fn calc(&mut self, t: &Root) -> (res: i64)
        requires
            stmts_run(old(self).vars(), old(self).result(), t.stmt_list@),
        ensures
            (final(self).vars(), final(self).result()) == run_stmts(
                old(self).vars(),
                old(self).result(),
                t.stmt_list@,
            ),
            res == final(self).result(),
            final(self).stack() == old(self).stack(),
    {
        self.visit_root(t);
        self.result
    }

    /// Evaluates the statements of `t` in order.
    fn visit_root(&mut self, t: &Root)
        requires
            stmts_run(old(self).vars@, old(self).result, t.stmt_list@),
        ensures
            (final(self).vars@, final(self).result) == run_stmts(
                old(self).vars@,
                old(self).result,
                t.stmt_list@,
            ),
            final(self).stack@ == old(self).stack@,
    {
        let n = t.stmt_list.len();
        let mut i: usize = 0;
        while i < n
            invariant
                n == t.stmt_list@.len(),
                i <= n,
                stmts_run(old(self).vars@, old(self).result, t.stmt_list@),
                (self.vars@, self.result) == run_stmts(
                    old(self).vars@,
                    old(self).result,
                    t.stmt_list@.take(i as int),
                ),
                self.stack@ == old(self).stack@,
            decreases n - i,
        {
            proof {
                assert(t.stmt_list@.take(i + 1).drop_last() == t.stmt_list@.take(i as int));
                lemma_stmts_run_prefix(
                    old(self).vars@,
                    old(self).result,
                    t.stmt_list@,
                    i as int + 1,
                );
            }
            self.visit_stmt(&t.stmt_list[i]);
            i += 1;
        }
        proof {
            assert(t.stmt_list@.take(n as int) == t.stmt_list@);
        }
    }

    /// Maps a variable name to its slot in `vars`.
    fn slot(name: char) -> (res: usize)
        requires
            is_var_name(name),
        ensures
            res == slot_of(name),
            res < 26,
    {
        (name as u32 - 'a' as u32) as usize
    }

    /// Evaluates a statement.
    fn visit_stmt(&mut self, s: &Stmt)
        requires
            stmt_runs(old(self).vars@, *s),
        ensures
            (final(self).vars@, final(self).result) == run_stmt(old(self).vars@, old(self).result, *s),
            final(self).stack@ == old(self).stack@,
    {
        match s {
            Stmt::Expr(e) => {
                self.visit_expr(e);
                self.result = self.pop();
            },
            Stmt::Assign(name, e) => {
                self.visit_expr(e);
                self.result = self.pop();
                let slot = Self::slot(*name);
                self.vars[slot] = self.result;
            },
        }
    }

    /// Evaluates an expression, pushing its value on the operand stack.
    fn visit_expr(&mut self, e: &Expr)
        requires
            evaluable(*e, old(self).vars@),
        ensures
            final(self).stack@ == old(self).stack@.push(value_of(*e, old(self).vars@) as i64),
            final(self).vars@ == old(self).vars@,
            final(self).result == old(self).result,
        decreases expr_size(*e), 1nat,
    {
        match e {
            Expr::Int(n) => self.stack.push(*n),
            Expr::Var(name) => {
                let v = self.vars[Self::slot(*name)];
                self.stack.push(v);
            },
            Expr::Add(lhs, rhs) => self.binary(lhs, rhs, ArithOp::Add),
            Expr::Sub(lhs, rhs) => self.binary(lhs, rhs, ArithOp::Sub),
            Expr::Mul(lhs, rhs) => self.binary(lhs, rhs, ArithOp::Mul),
            Expr::Div(lhs, rhs) => self.binary(lhs, rhs, ArithOp::Div),
        }
    }

    /// Evaluates a binary operation on the results of both operands.
    fn binary(&mut self, lhs: &Expr, rhs: &Expr, op: ArithOp)
        requires
            evaluable(*lhs, old(self).vars@),
            evaluable(*rhs, old(self).vars@),
            ({
                let l = value_of(*lhs, old(self).vars@);
                let r = value_of(*rhs, old(self).vars@);
                match op {
                    ArithOp::Add => fits_i64(l + r),
                    ArithOp::Sub => fits_i64(l - r),
                    ArithOp::Mul => fits_i64(l * r),
                    ArithOp::Div => r != 0 && fits_i64(trunc_div(l, r)),
                }
            }),
        ensures
            final(self).stack@ == old(self).stack@.push(
                ({
                    let l = value_of(*lhs, old(self).vars@);
                    let r = value_of(*rhs, old(self).vars@);
                    match op {
                        ArithOp::Add => l + r,
                        ArithOp::Sub => l - r,
                        ArithOp::Mul => l * r,
                        ArithOp::Div => trunc_div(l, r),
                    }
                }) as i64,
            ),
            final(self).vars@ == old(self).vars@,
            final(self).result == old(self).result,
        decreases expr_size(*lhs) + expr_size(*rhs) + 1, 0nat,
    {
        self.visit_expr(lhs);
        self.visit_expr(rhs);
        let r = self.pop();
        let l = self.pop();
        let v = match op {
            ArithOp::Add => l + r,
            ArithOp::Sub => l - r,
            ArithOp::Mul => l * r,
            ArithOp::Div => l.checked_div(r).unwrap(),
        };
        self.stack.push(v);
    }

    /// Pops the top of the operand stack.
    fn pop(&mut self) -> (res: i64)
        requires
            old(self).stack@.len() > 0,
        ensures
            res == old(self).stack@.last(),
            final(self).stack@ == old(self).stack@.drop_last(),
            final(self).vars@ == old(self).vars@,
            final(self).result == old(self).result,
    {
        self.stack.pop().unwrap()
    }
}

/// Reading a variable right after assigning it gives the assigned value, and
/// the assignment leaves every other variable unchanged.
pub proof fn law_read_after_assign(vars: Seq<i64>, result: i64, name: char, e: Expr, other: char)
    requires
        vars.len() == 26,
        is_var_name(name),
        is_var_name(other),
        other != name,
        evaluable(e, vars),
    ensures
        ({
            let prog = seq![Stmt::Assign(name, e), Stmt::Expr(Expr::Var(name))];
            &&& stmts_run(vars, result, prog)
            &&& run_stmts(vars, result, prog).1 == value_of(e, vars)
        }),
        value_of(Expr::Var(other), run_stmt(vars, result, Stmt::Assign(name, e)).0) == value_of(
            Expr::Var(other),
            vars,
        ),
{
    let prog = seq![Stmt::Assign(name, e), Stmt::Expr(Expr::Var(name))];
    assert(prog.drop_last() == seq![Stmt::Assign(name, e)]);
    assert(prog.drop_last().drop_last() == Seq::<Stmt>::empty());
    lemma_value_fits(e, vars);
    let v = value_of(e, vars) as i64;
    let (vars1, r1) = run_stmts(vars, result, prog.drop_last());
    assert(run_stmts(vars, result, prog.drop_last().drop_last()) == (vars, result));
    assert(vars1 == vars.update(slot_of(name), v));
    assert(vars1[slot_of(name)] == v);
    assert(prog.drop_last().last() == Stmt::Assign(name, e));
    assert(stmts_run(vars, result, prog.drop_last().drop_last()));
    assert(stmt_runs(vars, Stmt::Assign(name, e)));
    assert(stmts_run(vars, result, prog.drop_last()));
    assert(prog.last() == Stmt::Expr(Expr::Var(name)));
}

/// The value of an evaluable expression fits in an `i64`.
pub proof fn lemma_value_fits(e: Expr, vars: Seq<i64>)
    requires
        evaluable(e, vars),
    ensures
        fits_i64(value_of(e, vars)),
{
}

/// A new calculator reads every variable as 0, and the value of a program of
/// statements is the value of its last statement.
pub proof fn law_last_statement(vars: Seq<i64>, result: i64, ss: Seq<Stmt>, c: char)
    requires
        ss.len() > 0,
        is_var_name(c),
    ensures
        value_of(Expr::Var(c), Seq::new(26, |i: int| 0i64)) == 0,
        run_stmts(vars, result, ss).1 == run_stmt(
            run_stmts(vars, result, ss.drop_last()).0,
            run_stmts(vars, result, ss.drop_last()).1,
            ss.last(),
        ).1,
        ss.last() matches Stmt::Expr(e) ==> run_stmts(vars, result, ss).1 == value_of(
            e,
            run_stmts(vars, result, ss.drop_last()).0,
        ) as i64,
{
}

/// A prefix of a faultless statement list is faultless.
proof fn lemma_stmts_run_prefix(vars: Seq<i64>, result: i64, ss: Seq<Stmt>, k: int)
    requires
        stmts_run(vars, result, ss),
        0 < k <= ss.len(),
    ensures
        stmts_run(vars, result, ss.take(k)),
        stmt_runs(run_stmts(vars, result, ss.take(k - 1)).0, ss[k - 1]),
    decreases ss.len(),
{
    if k == ss.len() {
        assert(ss.take(k) == ss);
        assert(ss.take(k - 1) == ss.drop_last());
    } else {
        assert(ss.drop_last().take(k) == ss.take(k));
        assert(ss.drop_last().take(k - 1) == ss.take(k - 1));
        lemma_stmts_run_prefix(vars, result, ss.drop_last(), k);
    }
}

/// The calculator's operators compute what they denote: an addition,
/// subtraction or multiplication has the sum, difference or product of its
/// operands' values, and a division the quotient rounded towards zero (the
/// remainder is zero or has the dividend's sign, and is smaller than the
/// divisor in magnitude).
pub proof fn law_operator_values(l: Expr, r: Expr, vars: Seq<i64>)
    ensures
        value_of(Expr::Add(Box::new(l), Box::new(r)), vars) == value_of(l, vars) + value_of(r, vars),
        value_of(Expr::Sub(Box::new(l), Box::new(r)), vars) == value_of(l, vars) - value_of(r, vars),
        value_of(Expr::Mul(Box::new(l), Box::new(r)), vars) == value_of(l, vars) * value_of(r, vars),
        value_of(r, vars) != 0 ==> ({
            let a = value_of(l, vars);
            let b = value_of(r, vars);
            let rem = a - value_of(Expr::Div(Box::new(l), Box::new(r)), vars) * b;
            &&& rem == 0 || (rem < 0) == (a < 0)
            &&& (if rem < 0 { -rem } else { rem }) < (if b < 0 { -b } else { b })
        }),
{
    let a = value_of(l, vars);
    let b = value_of(r, vars);
    if b != 0 {
        let x = if a < 0 { -a } else { a };
        let y = if b < 0 { -b } else { b };
        let q0 = x / y;
        let r0 = x % y;
        assert(x == y * q0 + r0 && 0 <= r0 < y) by (nonlinear_arith)
            requires
                y > 0,
                x >= 0,
                q0 == x / y,
                r0 == x % y,
        ;
        let q = trunc_div(a, b);
        assert(value_of(Expr::Div(Box::new(l), Box::new(r)), vars) == q);
        if (a < 0) != (b < 0) {
            assert(q == -q0);
            if a < 0 {
                assert(a - q * b == -r0) by (nonlinear_arith)
                    requires a == -x, b == y, q == -q0, x == y * q0 + r0;
            } else {
                assert(a - q * b == r0) by (nonlinear_arith)
                    requires a == x, b == -y, q == -q0, x == y * q0 + r0;
            }
        } else {
            assert(q == q0);
            if a < 0 {
                assert(a - q * b == -r0) by (nonlinear_arith)
                    requires a == -x, b == -y, q == q0, x == y * q0 + r0;
            } else {
                assert(a - q * b == r0) by (nonlinear_arith)
                    requires a == x, b == y, q == q0, x == y * q0 + r0;
            }
        }
    }
}

} // verus!
