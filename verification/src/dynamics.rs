//! The dynamic semantics of C1: what running an analyzed program prints, or
//! the message of the error that stops it.
//!
//! The rules are stated over the views of the AST ([`crate::ast`]), of the
//! information of the analysis ([`SpecDef`]) and of the virtual machine
//! ([`VmView`]), for a model `m` of floating point arithmetic
//! ([`FloatModel`]). Every function takes a budget of evaluation steps
//! (`fuel`): each nested evaluation and each loop iteration takes one, and a
//! run that needs more stops with [`msg_step_limit`].
use vstd::prelude::*;
use crate::ast::{
    BinOp, DataType, SpecAssign, SpecCall, SpecExpr, SpecForInit, SpecItem, SpecLiteral,
    SpecResIdent, SpecStmt, SpecVarDef, spec_quoted, spec_type_name,
};
use crate::runtime::{
    FloatModel, Slot, SpecValue, VmView, bool_order, int_order, lex_order, order_holds,
    spec_int_arith, msg_neg_overflow, value_type,
};
use crate::semantics::spec_least_upper_bound;
use crate::symtab::SpecDef;
use crate::text::spec_signed_decimal;

verus! {

/// What a run reads of the program: its items and its definitions.
pub struct Ctx {
    pub items: Seq<SpecItem>,
    pub defs: Seq<SpecDef>,
}

/// The state of a run: the variables and the output so far.
pub struct State<F> {
    pub vm: VmView<F>,
    pub out: Seq<char>,
}

/// The outcome of an evaluation: the next state and a result, or the message
/// of the error that stopped the run.
pub type Outcome<F, T> = Result<(State<F>, T), Seq<char>>;

// ---------------------------------------------------------------------------
// Messages.

/// The message for reading a variable that holds no value.
pub open spec fn msg_uninit(name: Seq<char>) -> Seq<char> {
    "attempted to read uninitialized variable "@ + spec_quoted(name)
}

/// The message for reaching the end of a function that must return a value.
pub open spec fn msg_no_return(name: Seq<char>, t: DataType) -> Seq<char> {
    "function "@ + spec_quoted(name) + " with return type `"@ + spec_type_name(t)
        + "` did not return a value"@
}

/// The message for a run that needs more evaluation steps than its budget.
pub open spec fn msg_step_limit() -> Seq<char> {
    "evaluation step limit exceeded"@
}

/// The message for a program that does not fit the information of its
/// analysis; an analyzed program never gives it
/// ([`crate::soundness::law_analyzed_program_never_invalid`]).
pub open spec fn msg_invalid() -> Seq<char> {
    "program does not match its analysis"@
}

// ---------------------------------------------------------------------------
// Values.

/// The value of a literal.
pub open spec fn literal_value<F>(m: FloatModel<F>, l: SpecLiteral) -> SpecValue<F> {
    match l {
        SpecLiteral::Bool(b) => SpecValue::Bool(b),
        SpecLiteral::Int(n) => SpecValue::Int(n),
        SpecLiteral::Float(t) => SpecValue::Float((m.literal)(t)),
        SpecLiteral::String(s) => SpecValue::Str(s),
    }
}

/// A value converted to type `t`: an integer becomes a float where a float
/// is expected; every other value stays as it is.
pub open spec fn cast<F>(m: FloatModel<F>, v: SpecValue<F>, t: DataType) -> SpecValue<F> {
    match v {
        SpecValue::Int(n) => if t == DataType::Float {
            SpecValue::Float((m.from_int)(n))
        } else {
            v
        },
        _ => v,
    }
}

/// Whether two values of the same type are equal.
pub open spec fn values_equal<F>(m: FloatModel<F>, a: SpecValue<F>, b: SpecValue<F>) -> bool {
    match (a, b) {
        (SpecValue::Bool(x), SpecValue::Bool(y)) => x == y,
        (SpecValue::Int(x), SpecValue::Int(y)) => x == y,
        (SpecValue::Float(x), SpecValue::Float(y)) => (m.equal)(x, y),
        (SpecValue::Str(x), SpecValue::Str(y)) => x == y,
        _ => false,
    }
}

/// Whether an ordering operator holds of two values of the same type.
pub open spec fn values_ordered<F>(m: FloatModel<F>, op: BinOp, a: SpecValue<F>, b: SpecValue<F>) -> Result<
    bool,
    Seq<char>,
> {
    match (a, b) {
        (SpecValue::Bool(x), SpecValue::Bool(y)) => Ok(order_holds(op, bool_order(x, y))),
        (SpecValue::Int(x), SpecValue::Int(y)) => Ok(order_holds(op, int_order(x as int, y as int))),
        (SpecValue::Float(x), SpecValue::Float(y)) => Ok((m.order)(op, x, y)),
        (SpecValue::Str(x), SpecValue::Str(y)) => Ok(order_holds(op, lex_order(x, y))),
        _ => Err(msg_invalid()),
    }
}

/// The result of a binary operator other than `&&` and `||` on two values:
/// both are converted to their least upper bound first.
pub open spec fn apply_bin_op<F>(m: FloatModel<F>, op: BinOp, l: SpecValue<F>, r: SpecValue<F>) -> Result<
    SpecValue<F>,
    Seq<char>,
> {
    match spec_least_upper_bound(value_type(l), value_type(r)) {
        None => Err(msg_invalid()),
        Some(t) => {
            let a = cast(m, l, t);
            let b = cast(m, r, t);
            match op {
                BinOp::Add | BinOp::Sub | BinOp::Mul | BinOp::Div => match (a, b) {
                    (SpecValue::Int(x), SpecValue::Int(y)) => match spec_int_arith(op, x, y) {
                        Ok(v) => Ok(SpecValue::Int(v)),
                        Err(msg) => Err(msg),
                    },
                    (SpecValue::Float(x), SpecValue::Float(y)) => Ok(SpecValue::Float((m.arith)(op, x, y))),
                    _ => Err(msg_invalid()),
                },
                BinOp::Eq => Ok(SpecValue::Bool(values_equal(m, a, b))),
                BinOp::Neq => Ok(SpecValue::Bool(!values_equal(m, a, b))),
                BinOp::Lt | BinOp::Gt | BinOp::Leq | BinOp::Geq => match values_ordered(m, op, a, b) {
                    Ok(x) => Ok(SpecValue::Bool(x)),
                    Err(msg) => Err(msg),
                },
                BinOp::LogAnd | BinOp::LogOr => Err(msg_invalid()),
            }
        },
    }
}

/// The negation of a value.
pub open spec fn negate_value<F>(m: FloatModel<F>, v: SpecValue<F>) -> Result<SpecValue<F>, Seq<char>> {
    match v {
        SpecValue::Int(n) => if n == i64::MIN {
            Err(msg_neg_overflow())
        } else {
            Ok(SpecValue::Int(-n as i64))
        },
        SpecValue::Float(x) => Ok(SpecValue::Float((m.negate)(x))),
        _ => Err(msg_invalid()),
    }
}

/// The text that `print` writes for a value.
pub open spec fn render<F>(m: FloatModel<F>, v: SpecValue<F>) -> Seq<char> {
    match v {
        SpecValue::Bool(b) => if b {
            "true"@
        } else {
            "false"@
        },
        SpecValue::Int(n) => spec_signed_decimal(n as int),
        SpecValue::Float(x) => (m.render)(x),
        SpecValue::Str(s) => s,
    }
}

// ---------------------------------------------------------------------------
// Variables.

/// The slot and the type of the variable that an identifier resolves to.
pub open spec fn var_slot(c: Ctx, res: Option<usize>) -> Option<(Slot, DataType)> {
    match res {
        Some(id) => if id < c.defs.len() {
            match c.defs[id as int] {
                SpecDef::GlobalVar { data_type, offset } => Some((Slot::Global(offset), data_type)),
                SpecDef::LocalVar { data_type, offset } => Some((Slot::Local(offset), data_type)),
                SpecDef::Func { .. } => None,
            }
        } else {
            None
        },
        None => None,
    }
}

/// Reads a variable.
pub open spec fn load_var<F>(c: Ctx, r: SpecResIdent, s: State<F>) -> Outcome<F, SpecValue<F>> {
    match var_slot(c, r.res) {
        Some((slot, _)) => if s.vm.has(slot) {
            match s.vm.get(slot) {
                Some(v) => Ok((s, v)),
                None => Err(msg_uninit(r.name)),
            }
        } else {
            Err(msg_invalid())
        },
        None => Err(msg_invalid()),
    }
}

/// Stores a value, converted to the variable's type, into a variable; the
/// result is the stored value.
pub open spec fn store_var<F>(m: FloatModel<F>, c: Ctx, res: Option<usize>, v: SpecValue<F>, s: State<F>) -> Outcome<
    F,
    SpecValue<F>,
> {
    match var_slot(c, res) {
        Some((slot, t)) => if s.vm.has(slot) {
            let w = cast(m, v, t);
            Ok((State { vm: s.vm.set(slot, Some(w)), ..s }, w))
        } else {
            Err(msg_invalid())
        },
        None => Err(msg_invalid()),
    }
}

/// Makes a variable uninitialized.
pub open spec fn reset_var<F>(c: Ctx, res: Option<usize>, s: State<F>) -> Result<State<F>, Seq<char>> {
    match var_slot(c, res) {
        Some((slot, _)) => if s.vm.has(slot) {
            Ok(State { vm: s.vm.set(slot, None), ..s })
        } else {
            Err(msg_invalid())
        },
        None => Err(msg_invalid()),
    }
}

/// Stores the arguments of a call, from the `k`-th on, into the parameters.
pub open spec fn bind_params<F>(
    m: FloatModel<F>,
    c: Ctx,
    params: Seq<usize>,
    args: Seq<SpecValue<F>>,
    k: nat,
    s: State<F>,
) -> Result<State<F>, Seq<char>>
    decreases params.len() - k,
{
    if k >= params.len() || k >= args.len() {
        Ok(s)
    } else {
        match store_var(m, c, Some(params[k as int]), args[k as int], s) {
            Ok((s1, _)) => bind_params(m, c, params, args, k + 1, s1),
            Err(msg) => Err(msg),
        }
    }
}

/// The truth value of a condition.
pub open spec fn as_bool<F>(o: Outcome<F, SpecValue<F>>) -> Outcome<F, bool> {
    match o {
        Ok((s, SpecValue::Bool(b))) => Ok((s, b)),
        Ok(_) => Err(msg_invalid()),
        Err(msg) => Err(msg),
    }
}

/// Whether a `return` is leaving the current function.
pub open spec fn returning<F>(s: State<F>) -> bool {
    s.vm.ret is Some
}

// ---------------------------------------------------------------------------
// Expressions.

/// Evaluates an expression.
pub open spec fn eval_expr<F>(m: FloatModel<F>, c: Ctx, fuel: nat, e: SpecExpr, s: State<F>) -> Outcome<
    F,
    SpecValue<F>,
>
    decreases fuel, 0nat,
{
    if fuel == 0 {
        Err(msg_step_limit())
    } else {
        let f = (fuel - 1) as nat;
        match e {
            SpecExpr::Literal(l) => Ok((s, literal_value(m, l))),
            SpecExpr::Var(r) => load_var(c, r, s),
            SpecExpr::Assign(a) => eval_assign(m, c, f, a, s),
            SpecExpr::UnaryMinus(inner) => match eval_expr(m, c, f, *inner, s) {
                Ok((s1, v)) => match negate_value(m, v) {
                    Ok(w) => Ok((s1, w)),
                    Err(msg) => Err(msg),
                },
                Err(msg) => Err(msg),
            },
            SpecExpr::BinaryOp(op, l, r) => match eval_expr(m, c, f, *l, s) {
                Err(msg) => Err(msg),
                Ok((s1, lv)) => if op == BinOp::LogAnd || op == BinOp::LogOr {
                    // the right operand is evaluated only if it decides the result
                    match lv {
                        SpecValue::Bool(b) => if b == (op == BinOp::LogOr) {
                            Ok((s1, SpecValue::Bool(b)))
                        } else {
                            match eval_expr(m, c, f, *r, s1) {
                                Ok((s2, SpecValue::Bool(rb))) => Ok((s2, SpecValue::Bool(rb))),
                                Ok(_) => Err(msg_invalid()),
                                Err(msg) => Err(msg),
                            }
                        },
                        _ => Err(msg_invalid()),
                    }
                } else {
                    match eval_expr(m, c, f, *r, s1) {
                        Ok((s2, rv)) => match apply_bin_op(m, op, lv, rv) {
                            Ok(v) => Ok((s2, v)),
                            Err(msg) => Err(msg),
                        },
                        Err(msg) => Err(msg),
                    }
                },
            },
            SpecExpr::Call(call) => match eval_call(m, c, f, call, s) {
                Ok((s1, Some(v))) => Ok((s1, v)),
                Ok((_, None)) => Err(msg_invalid()),
                Err(msg) => Err(msg),
            },
        }
    }
}

/// Evaluates an assignment: the result is the stored value.
pub open spec fn eval_assign<F>(m: FloatModel<F>, c: Ctx, fuel: nat, a: SpecAssign, s: State<F>) -> Outcome<
    F,
    SpecValue<F>,
>
    decreases fuel, 1nat,
{
    match eval_expr(m, c, fuel, *a.rhs, s) {
        Ok((s1, v)) => store_var(m, c, a.lhs.res, v, s1),
        Err(msg) => Err(msg),
    }
}

/// Evaluates the arguments of a call from the `i`-th on, left to right,
/// appending their values to `vals`.
pub open spec fn eval_args<F>(
    m: FloatModel<F>,
    c: Ctx,
    fuel: nat,
    args: Seq<SpecExpr>,
    i: nat,
    s: State<F>,
    vals: Seq<SpecValue<F>>,
) -> Outcome<F, Seq<SpecValue<F>>>
    decreases fuel, args.len() - i,
{
    if i >= args.len() {
        Ok((s, vals))
    } else {
        match eval_expr(m, c, fuel, args[i as int], s) {
            Ok((s1, v)) => eval_args(m, c, fuel, args, i + 1, s1, vals.push(v)),
            Err(msg) => Err(msg),
        }
    }
}

/// Calls a function: the result is its return value, converted to its
/// return type, or `None` for a `void` function.
pub open spec fn eval_call<F>(m: FloatModel<F>, c: Ctx, fuel: nat, call: SpecCall, s: State<F>) -> Outcome<
    F,
    Option<SpecValue<F>>,
>
    decreases fuel, 0nat,
{
    if fuel == 0 {
        Err(msg_step_limit())
    } else {
        let f = (fuel - 1) as nat;
        match call.callee.res {
            Some(id) => if id < c.defs.len() {
                match c.defs[id as int] {
                    SpecDef::Func { return_type, params, item, locals } => if item < c.items.len()
                        && params.len() <= locals.len() {
                        match c.items[item as int] {
                            SpecItem::Func(fd) => match eval_args(m, c, f, call.args, 0, s, Seq::empty()) {
                                Err(msg) => Err(msg),
                                Ok((s1, vals)) => {
                                    let s2 = State { vm: s1.vm.push_frame(locals.len()), ..s1 };
                                    match bind_params(m, c, locals.take(params.len() as int), vals, 0, s2) {
                                        Err(msg) => Err(msg),
                                        Ok(s3) => match exec_stmts(m, c, f, fd.body, 0, s3) {
                                            Err(msg) => Err(msg),
                                            Ok(s4) => {
                                                let s5 = State { vm: s4.vm.with_ret(None).pop_frame(), ..s4 };
                                                match s4.vm.returned() {
                                                    Some(v) => Ok((s5, Some(cast(m, v, return_type)))),
                                                    None => if return_type == DataType::Void {
                                                        Ok((s5, None))
                                                    } else {
                                                        Err(msg_no_return(fd.name, return_type))
                                                    },
                                                }
                                            },
                                        },
                                    }
                                },
                            },
                            SpecItem::GlobalVar(_) => Err(msg_invalid()),
                        }
                    } else {
                        Err(msg_invalid())
                    },
                    _ => Err(msg_invalid()),
                }
            } else {
                Err(msg_invalid())
            },
            None => Err(msg_invalid()),
        }
    }
}

// ---------------------------------------------------------------------------
// Statements.

/// Runs a variable definition: the variable gets the value of its
/// initializer, or becomes uninitialized if it has none.
pub open spec fn exec_var_def<F>(m: FloatModel<F>, c: Ctx, fuel: nat, d: SpecVarDef, s: State<F>) -> Result<
    State<F>,
    Seq<char>,
>
    decreases fuel, 1nat,
{
    match d.init {
        Some(e) => match eval_expr(m, c, fuel, e, s) {
            Ok((s1, v)) => match store_var(m, c, d.ident.res, v, s1) {
                Ok((s2, _)) => Ok(s2),
                Err(msg) => Err(msg),
            },
            Err(msg) => Err(msg),
        },
        None => reset_var(c, d.ident.res, s),
    }
}

/// Evaluates the expressions of a `print` statement from the `i`-th on,
/// writing each value right after evaluating it.
pub open spec fn print_values<F>(m: FloatModel<F>, c: Ctx, fuel: nat, es: Seq<SpecExpr>, i: nat, s: State<F>) -> Result<
    State<F>,
    Seq<char>,
>
    decreases fuel, es.len() - i,
{
    if i >= es.len() {
        Ok(s)
    } else {
        match eval_expr(m, c, fuel, es[i as int], s) {
            Ok((s1, v)) => print_values(m, c, fuel, es, i + 1, State { out: s1.out + render(m, v), ..s1 }),
            Err(msg) => Err(msg),
        }
    }
}

/// Runs a statement.
pub open spec fn exec_stmt<F>(m: FloatModel<F>, c: Ctx, fuel: nat, st: SpecStmt, s: State<F>) -> Result<
    State<F>,
    Seq<char>,
>
    decreases fuel, 0nat,
{
    if fuel == 0 {
        Err(msg_step_limit())
    } else {
        let f = (fuel - 1) as nat;
        match st {
            SpecStmt::Empty => Ok(s),
            SpecStmt::If(cond, if_true, if_false) => match as_bool(eval_expr(m, c, f, cond, s)) {
                Ok((s1, true)) => exec_stmt(m, c, f, *if_true, s1),
                Ok((s1, false)) => match if_false {
                    Some(b) => exec_stmt(m, c, f, *b, s1),
                    None => Ok(s1),
                },
                Err(msg) => Err(msg),
            },
            SpecStmt::For(init, cond, update, body) => match init {
                SpecForInit::VarDef(d) => match exec_var_def(m, c, f, d, s) {
                    Ok(s1) => run_for(m, c, f, cond, update, *body, s1),
                    Err(msg) => Err(msg),
                },
                SpecForInit::Assign(a) => match eval_assign(m, c, f, a, s) {
                    Ok((s1, _)) => run_for(m, c, f, cond, update, *body, s1),
                    Err(msg) => Err(msg),
                },
            },
            SpecStmt::While(cond, body) => run_while(m, c, f, cond, *body, s),
            SpecStmt::DoWhile(cond, body) => run_do_while(m, c, f, cond, *body, s),
            SpecStmt::Return(e) => match e {
                Some(x) => match eval_expr(m, c, f, x, s) {
                    Ok((s1, v)) => Ok(State { vm: s1.vm.with_ret(Some(Some(v))), ..s1 }),
                    Err(msg) => Err(msg),
                },
                None => Ok(State { vm: s.vm.with_ret(Some(None)), ..s }),
            },
            SpecStmt::Print(es) => match print_values(m, c, f, es, 0, s) {
                Ok(s1) => Ok(State { out: s1.out + "\n"@, ..s1 }),
                Err(msg) => Err(msg),
            },
            SpecStmt::VarDef(d) => exec_var_def(m, c, f, d, s),
            SpecStmt::Assign(a) => match eval_assign(m, c, f, a, s) {
                Ok((s1, _)) => Ok(s1),
                Err(msg) => Err(msg),
            },
            SpecStmt::Call(call) => match eval_call(m, c, f, call, s) {
                Ok((s1, _)) => Ok(s1),
                Err(msg) => Err(msg),
            },
            SpecStmt::Block(ss) => exec_stmts(m, c, f, ss, 0, s),
        }
    }
}

/// Runs statements from the `i`-th on, until one of them returns.
pub open spec fn exec_stmts<F>(m: FloatModel<F>, c: Ctx, fuel: nat, ss: Seq<SpecStmt>, i: nat, s: State<F>) -> Result<
    State<F>,
    Seq<char>,
>
    decreases fuel, ss.len() - i,
{
    if i >= ss.len() {
        Ok(s)
    } else {
        match exec_stmt(m, c, fuel, ss[i as int], s) {
            Ok(s1) => if returning(s1) {
                Ok(s1)
            } else {
                exec_stmts(m, c, fuel, ss, i + 1, s1)
            },
            Err(msg) => Err(msg),
        }
    }
}

/// Runs a `while` loop.
pub open spec fn run_while<F>(m: FloatModel<F>, c: Ctx, fuel: nat, cond: SpecExpr, body: SpecStmt, s: State<F>) -> Result<
    State<F>,
    Seq<char>,
>
    decreases fuel, 0nat,
{
    if fuel == 0 {
        Err(msg_step_limit())
    } else {
        let f = (fuel - 1) as nat;
        match as_bool(eval_expr(m, c, f, cond, s)) {
            Ok((s1, true)) => match exec_stmt(m, c, f, body, s1) {
                Ok(s2) => if returning(s2) {
                    Ok(s2)
                } else {
                    run_while(m, c, f, cond, body, s2)
                },
                Err(msg) => Err(msg),
            },
            Ok((s1, false)) => Ok(s1),
            Err(msg) => Err(msg),
        }
    }
}

/// Runs a `do`-`while` loop.
pub open spec fn run_do_while<F>(m: FloatModel<F>, c: Ctx, fuel: nat, cond: SpecExpr, body: SpecStmt, s: State<F>) -> Result<
    State<F>,
    Seq<char>,
>
    decreases fuel, 0nat,
{
    if fuel == 0 {
        Err(msg_step_limit())
    } else {
        let f = (fuel - 1) as nat;
        match exec_stmt(m, c, f, body, s) {
            Ok(s1) => if returning(s1) {
                Ok(s1)
            } else {
                match as_bool(eval_expr(m, c, f, cond, s1)) {
                    Ok((s2, true)) => run_do_while(m, c, f, cond, body, s2),
                    Ok((s2, false)) => Ok(s2),
                    Err(msg) => Err(msg),
                }
            },
            Err(msg) => Err(msg),
        }
    }
}

/// Runs the loop of a `for` statement, after its initializer.
pub open spec fn run_for<F>(
    m: FloatModel<F>,
    c: Ctx,
    fuel: nat,
    cond: SpecExpr,
    update: SpecAssign,
    body: SpecStmt,
    s: State<F>,
) -> Result<State<F>, Seq<char>>
    decreases fuel, 0nat,
{
    if fuel == 0 {
        Err(msg_step_limit())
    } else {
        let f = (fuel - 1) as nat;
        match as_bool(eval_expr(m, c, f, cond, s)) {
            Ok((s1, true)) => match exec_stmt(m, c, f, body, s1) {
                Ok(s2) => if returning(s2) {
                    Ok(s2)
                } else {
                    match eval_assign(m, c, f, update, s2) {
                        Ok((s3, _)) => run_for(m, c, f, cond, update, body, s3),
                        Err(msg) => Err(msg),
                    }
                },
                Err(msg) => Err(msg),
            },
            Ok((s1, false)) => Ok(s1),
            Err(msg) => Err(msg),
        }
    }
}

// ---------------------------------------------------------------------------
// Programs.

/// Initializes the global variables from the `i`-th on, in definition order.
pub open spec fn init_globals<F>(m: FloatModel<F>, c: Ctx, fuel: nat, globals: Seq<usize>, i: nat, s: State<F>) -> Result<
    State<F>,
    Seq<char>,
>
    decreases globals.len() - i,
{
    if i >= globals.len() {
        Ok(s)
    } else if globals[i as int] < c.items.len() {
        match c.items[globals[i as int] as int] {
            SpecItem::GlobalVar(d) => match exec_var_def(m, c, fuel, d, s) {
                Ok(s1) => init_globals(m, c, fuel, globals, i + 1, s1),
                Err(msg) => Err(msg),
            },
            SpecItem::Func(_) => Err(msg_invalid()),
        }
    } else {
        Err(msg_invalid())
    }
}

/// The call of `main` that starts a program.
pub open spec fn main_call(main: usize) -> SpecCall {
    SpecCall { callee: SpecResIdent { name: "main"@, res: Some(main) }, args: Seq::empty() }
}

/// Runs a program: initializes the global variables in definition order,
/// then calls `main`. The result is the output, or the message of the error
/// that stopped the run.
pub open spec fn run_program<F>(m: FloatModel<F>, c: Ctx, fuel: nat, globals: Seq<usize>, main: Option<usize>) -> Result<
    Seq<char>,
    Seq<char>,
> {
    let s0 = State { vm: VmView::initial(globals.len()), out: Seq::empty() };
    match init_globals(m, c, fuel, globals, 0, s0) {
        Ok(s1) => match main {
            Some(id) => match eval_call(m, c, fuel, main_call(id), s1) {
                Ok((s2, _)) => Ok(s2.out),
                Err(msg) => Err(msg),
            },
            None => Err(msg_invalid()),
        },
        Err(msg) => Err(msg),
    }
}

// ---------------------------------------------------------------------------
// Laws.

/// Whether a run went from `s` to `s2` without leaving the current function:
/// as many frames as before, the frames of the callers (all but the
/// innermost) unchanged, and the output only extended.
pub open spec fn keeps_callers<F>(s: State<F>, s2: State<F>) -> bool {
    &&& s2.vm.frames.len() == s.vm.frames.len()
    &&& forall|i: int| 0 <= i < s.vm.frames.len() - 1 ==> #[trigger] s2.vm.frames[i] == s.vm.frames[i]
    &&& s.out.len() <= s2.out.len()
    &&& s2.out.take(s.out.len() as int) == s.out
}

proof fn lemma_keeps_refl<F>(s: State<F>, s2: State<F>)
    requires
        s2.vm.frames == s.vm.frames,
        s2.out == s.out,
    ensures
        keeps_callers(s, s2),
{
    assert(s2.out.take(s.out.len() as int) =~= s.out);
}

proof fn lemma_keeps_trans<F>(s1: State<F>, s2: State<F>, s3: State<F>)
    requires
        keeps_callers(s1, s2),
        keeps_callers(s2, s3),
    ensures
        keeps_callers(s1, s3),
{
    assert forall|i: int| 0 <= i < s1.vm.frames.len() - 1 implies #[trigger] s3.vm.frames[i] == s1.vm.frames[i] by {
        assert(s3.vm.frames[i] == s2.vm.frames[i]);
    }
    assert(s3.out.take(s1.out.len() as int) =~= s3.out.take(s2.out.len() as int).take(s1.out.len() as int));
}

/// Appending to the output keeps the callers' frames.
proof fn lemma_keeps_print<F>(s: State<F>, text: Seq<char>)
    ensures
        keeps_callers(s, State { out: s.out + text, ..s }),
{
    assert((s.out + text).take(s.out.len() as int) =~= s.out);
}

proof fn lemma_store_keeps<F>(m: FloatModel<F>, c: Ctx, res: Option<usize>, v: SpecValue<F>, s: State<F>)
    ensures
        store_var(m, c, res, v, s) matches Ok((s2, _)) ==> keeps_callers(s, s2),
{
    if let Ok((s2, _)) = store_var(m, c, res, v, s) {
        assert(s2.out.take(s.out.len() as int) =~= s.out);
    }
}

proof fn lemma_reset_keeps<F>(c: Ctx, res: Option<usize>, s: State<F>)
    ensures
        reset_var(c, res, s) matches Ok(s2) ==> keeps_callers(s, s2),
{
    if let Ok(s2) = reset_var(c, res, s) {
        assert(s2.out.take(s.out.len() as int) =~= s.out);
    }
}

proof fn lemma_bind_keeps<F>(m: FloatModel<F>, c: Ctx, params: Seq<usize>, args: Seq<SpecValue<F>>, k: nat, s: State<F>)
    ensures
        bind_params(m, c, params, args, k, s) matches Ok(s2) ==> keeps_callers(s, s2),
    decreases params.len() - k,
{
    if k >= params.len() || k >= args.len() {
        lemma_keeps_refl(s, s);
    } else {
        lemma_store_keeps(m, c, Some(params[k as int]), args[k as int], s);
        if let Ok((s1, _)) = store_var(m, c, Some(params[k as int]), args[k as int], s) {
            lemma_bind_keeps(m, c, params, args, k + 1, s1);
            if let Ok(s2) = bind_params(m, c, params, args, k + 1, s1) {
                lemma_keeps_trans(s, s1, s2);
            }
        }
    }
}

proof fn lemma_expr_keeps<F>(m: FloatModel<F>, c: Ctx, fuel: nat, e: SpecExpr, s: State<F>)
    ensures
        eval_expr(m, c, fuel, e, s) matches Ok((s2, _)) ==> keeps_callers(s, s2),
    decreases fuel, 0nat,
{
    if fuel > 0 {
        let f = (fuel - 1) as nat;
        match e {
            SpecExpr::Literal(_) | SpecExpr::Var(_) => lemma_keeps_refl(s, s),
            SpecExpr::Assign(a) => lemma_assign_keeps(m, c, f, a, s),
            SpecExpr::UnaryMinus(inner) => lemma_expr_keeps(m, c, f, *inner, s),
            SpecExpr::BinaryOp(op, l, r) => {
                lemma_expr_keeps(m, c, f, *l, s);
                if let Ok((s1, _)) = eval_expr(m, c, f, *l, s) {
                    lemma_expr_keeps(m, c, f, *r, s1);
                    if let Ok((s2, _)) = eval_expr(m, c, f, *r, s1) {
                        lemma_keeps_trans(s, s1, s2);
                    }
                }
            },
            SpecExpr::Call(call) => lemma_call_keeps(m, c, f, call, s),
        }
    }
}

proof fn lemma_assign_keeps<F>(m: FloatModel<F>, c: Ctx, fuel: nat, a: SpecAssign, s: State<F>)
    ensures
        eval_assign(m, c, fuel, a, s) matches Ok((s2, _)) ==> keeps_callers(s, s2),
    decreases fuel, 1nat,
{
    lemma_expr_keeps(m, c, fuel, *a.rhs, s);
    if let Ok((s1, v)) = eval_expr(m, c, fuel, *a.rhs, s) {
        lemma_store_keeps(m, c, a.lhs.res, v, s1);
        if let Ok((s2, _)) = store_var(m, c, a.lhs.res, v, s1) {
            lemma_keeps_trans(s, s1, s2);
        }
    }
}

proof fn lemma_args_keeps<F>(
    m: FloatModel<F>,
    c: Ctx,
    fuel: nat,
    args: Seq<SpecExpr>,
    i: nat,
    s: State<F>,
    vals: Seq<SpecValue<F>>,
)
    ensures
        eval_args(m, c, fuel, args, i, s, vals) matches Ok((s2, _)) ==> keeps_callers(s, s2),
    decreases fuel, args.len() - i,
{
    if i >= args.len() {
        lemma_keeps_refl(s, s);
    } else {
        lemma_expr_keeps(m, c, fuel, args[i as int], s);
        if let Ok((s1, v)) = eval_expr(m, c, fuel, args[i as int], s) {
            lemma_args_keeps(m, c, fuel, args, i + 1, s1, vals.push(v));
            if let Ok((s2, _)) = eval_args(m, c, fuel, args, i + 1, s1, vals.push(v)) {
                lemma_keeps_trans(s, s1, s2);
            }
        }
    }
}

proof fn lemma_call_keeps<F>(m: FloatModel<F>, c: Ctx, fuel: nat, call: SpecCall, s: State<F>)
    ensures
        eval_call(m, c, fuel, call, s) matches Ok((s2, _)) ==> ({
            &&& keeps_callers(s, s2)
            &&& fuel > 0
            &&& eval_args(m, c, (fuel - 1) as nat, call.args, 0, s, Seq::empty()) matches Ok((s1, _))
            &&& s2.vm.frames == s1.vm.frames
        }),
    decreases fuel, 0nat,
{
    if fuel > 0 {
        let f = (fuel - 1) as nat;
        if let Some(id) = call.callee.res {
            if id < c.defs.len() {
                if let SpecDef::Func { return_type, params, item, locals } = c.defs[id as int] {
                    if item < c.items.len() && params.len() <= locals.len() {
                        if let SpecItem::Func(fd) = c.items[item as int] {
                            lemma_args_keeps(m, c, f, call.args, 0, s, Seq::empty());
                            if let Ok((s1, vals)) = eval_args(m, c, f, call.args, 0, s, Seq::empty()) {
                                let s2 = State { vm: s1.vm.push_frame(locals.len()), ..s1 };
                                let ps = locals.take(params.len() as int);
                                lemma_bind_keeps(m, c, ps, vals, 0, s2);
                                if let Ok(s3) = bind_params(m, c, ps, vals, 0, s2) {
                                    lemma_stmts_keeps(m, c, f, fd.body, 0, s3);
                                    if let Ok(s4) = exec_stmts(m, c, f, fd.body, 0, s3) {
                                        lemma_keeps_trans(s2, s3, s4);
                                        let s5 = State { vm: s4.vm.with_ret(None).pop_frame(), ..s4 };
                                        assert(s5.vm.frames =~= s1.vm.frames) by {
                                            assert forall|i: int| 0 <= i < s1.vm.frames.len() implies s5.vm.frames[i]
                                                == s1.vm.frames[i] by {
                                                assert(s4.vm.frames[i] == s2.vm.frames[i]);
                                            }
                                        }
                                        assert(s5.out.take(s1.out.len() as int) =~= s4.out.take(s2.out.len() as int));
                                        lemma_keeps_trans(s, s1, s5);
                                    }
                                }
                            }
                        }
                    }
                }
            }
        }
    }
}

proof fn lemma_var_def_keeps<F>(m: FloatModel<F>, c: Ctx, fuel: nat, d: SpecVarDef, s: State<F>)
    ensures
        exec_var_def(m, c, fuel, d, s) matches Ok(s2) ==> keeps_callers(s, s2),
    decreases fuel, 1nat,
{
    match d.init {
        Some(e) => {
            lemma_expr_keeps(m, c, fuel, e, s);
            if let Ok((s1, v)) = eval_expr(m, c, fuel, e, s) {
                lemma_store_keeps(m, c, d.ident.res, v, s1);
                if let Ok((s2, _)) = store_var(m, c, d.ident.res, v, s1) {
                    lemma_keeps_trans(s, s1, s2);
                }
            }
        },
        None => lemma_reset_keeps(c, d.ident.res, s),
    }
}

proof fn lemma_print_keeps<F>(m: FloatModel<F>, c: Ctx, fuel: nat, es: Seq<SpecExpr>, i: nat, s: State<F>)
    ensures
        print_values(m, c, fuel, es, i, s) matches Ok(s2) ==> keeps_callers(s, s2),
    decreases fuel, es.len() - i,
{
    if i >= es.len() {
        lemma_keeps_refl(s, s);
    } else {
        lemma_expr_keeps(m, c, fuel, es[i as int], s);
        if let Ok((s1, v)) = eval_expr(m, c, fuel, es[i as int], s) {
            let s2 = State { out: s1.out + render(m, v), ..s1 };
            lemma_keeps_print(s1, render(m, v));
            lemma_keeps_trans(s, s1, s2);
            lemma_print_keeps(m, c, fuel, es, i + 1, s2);
            if let Ok(s3) = print_values(m, c, fuel, es, i + 1, s2) {
                lemma_keeps_trans(s, s2, s3);
            }
        }
    }
}

proof fn lemma_stmt_keeps<F>(m: FloatModel<F>, c: Ctx, fuel: nat, st: SpecStmt, s: State<F>)
    ensures
        exec_stmt(m, c, fuel, st, s) matches Ok(s2) ==> keeps_callers(s, s2),
    decreases fuel, 0nat,
{
    if fuel > 0 {
        let f = (fuel - 1) as nat;
        match st {
            SpecStmt::Empty => lemma_keeps_refl(s, s),
            SpecStmt::If(cond, if_true, if_false) => {
                lemma_expr_keeps(m, c, f, cond, s);
                if let Ok((s1, _)) = eval_expr(m, c, f, cond, s) {
                    lemma_stmt_keeps(m, c, f, *if_true, s1);
                    if let Ok(s2) = exec_stmt(m, c, f, *if_true, s1) {
                        lemma_keeps_trans(s, s1, s2);
                    }
                    match if_false {
                        Some(b) => {
                            lemma_stmt_keeps(m, c, f, *b, s1);
                            if let Ok(s2) = exec_stmt(m, c, f, *b, s1) {
                                lemma_keeps_trans(s, s1, s2);
                            }
                        },
                        None => {},
                    }
                }
            },
            SpecStmt::For(init, cond, update, body) => {
                match init {
                    SpecForInit::VarDef(d) => {
                        lemma_var_def_keeps(m, c, f, d, s);
                        if let Ok(s1) = exec_var_def(m, c, f, d, s) {
                            lemma_for_keeps(m, c, f, cond, update, *body, s1);
                            if let Ok(s2) = run_for(m, c, f, cond, update, *body, s1) {
                                lemma_keeps_trans(s, s1, s2);
                            }
                        }
                    },
                    SpecForInit::Assign(a) => {
                        lemma_assign_keeps(m, c, f, a, s);
                        if let Ok((s1, _)) = eval_assign(m, c, f, a, s) {
                            lemma_for_keeps(m, c, f, cond, update, *body, s1);
                            if let Ok(s2) = run_for(m, c, f, cond, update, *body, s1) {
                                lemma_keeps_trans(s, s1, s2);
                            }
                        }
                    },
                }
            },
            SpecStmt::While(cond, body) => lemma_while_keeps(m, c, f, cond, *body, s),
            SpecStmt::DoWhile(cond, body) => lemma_do_while_keeps(m, c, f, cond, *body, s),
            SpecStmt::Return(e) => match e {
                Some(x) => {
                    lemma_expr_keeps(m, c, f, x, s);
                    if let Ok((s1, v)) = eval_expr(m, c, f, x, s) {
                        lemma_keeps_refl(s1, State { vm: s1.vm.with_ret(Some(Some(v))), ..s1 });
                        lemma_keeps_trans(s, s1, State { vm: s1.vm.with_ret(Some(Some(v))), ..s1 });
                    }
                },
                None => lemma_keeps_refl(s, State { vm: s.vm.with_ret(Some(None)), ..s }),
            },
            SpecStmt::Print(es) => {
                lemma_print_keeps(m, c, f, es, 0, s);
                if let Ok(s1) = print_values(m, c, f, es, 0, s) {
                    lemma_keeps_print(s1, "\n"@);
                    lemma_keeps_trans(s, s1, State { out: s1.out + "\n"@, ..s1 });
                }
            },
            SpecStmt::VarDef(d) => lemma_var_def_keeps(m, c, f, d, s),
            SpecStmt::Assign(a) => lemma_assign_keeps(m, c, f, a, s),
            SpecStmt::Call(call) => lemma_call_keeps(m, c, f, call, s),
            SpecStmt::Block(ss) => lemma_stmts_keeps(m, c, f, ss, 0, s),
        }
    }
}

proof fn lemma_stmts_keeps<F>(m: FloatModel<F>, c: Ctx, fuel: nat, ss: Seq<SpecStmt>, i: nat, s: State<F>)
    ensures
        exec_stmts(m, c, fuel, ss, i, s) matches Ok(s2) ==> keeps_callers(s, s2),
    decreases fuel, ss.len() - i,
{
    if i >= ss.len() {
        lemma_keeps_refl(s, s);
    } else {
        lemma_stmt_keeps(m, c, fuel, ss[i as int], s);
        if let Ok(s1) = exec_stmt(m, c, fuel, ss[i as int], s) {
            if !returning(s1) {
                lemma_stmts_keeps(m, c, fuel, ss, i + 1, s1);
                if let Ok(s2) = exec_stmts(m, c, fuel, ss, i + 1, s1) {
                    lemma_keeps_trans(s, s1, s2);
                }
            }
        }
    }
}

proof fn lemma_while_keeps<F>(m: FloatModel<F>, c: Ctx, fuel: nat, cond: SpecExpr, body: SpecStmt, s: State<F>)
    ensures
        run_while(m, c, fuel, cond, body, s) matches Ok(s2) ==> keeps_callers(s, s2),
    decreases fuel, 0nat,
{
    if fuel > 0 {
        let f = (fuel - 1) as nat;
        lemma_expr_keeps(m, c, f, cond, s);
        if let Ok((s1, _)) = eval_expr(m, c, f, cond, s) {
            lemma_stmt_keeps(m, c, f, body, s1);
            if let Ok(s2) = exec_stmt(m, c, f, body, s1) {
                lemma_keeps_trans(s, s1, s2);
                lemma_while_keeps(m, c, f, cond, body, s2);
                if let Ok(s3) = run_while(m, c, f, cond, body, s2) {
                    lemma_keeps_trans(s, s2, s3);
                }
            }
        }
    }
}

proof fn lemma_do_while_keeps<F>(m: FloatModel<F>, c: Ctx, fuel: nat, cond: SpecExpr, body: SpecStmt, s: State<F>)
    ensures
        run_do_while(m, c, fuel, cond, body, s) matches Ok(s2) ==> keeps_callers(s, s2),
    decreases fuel, 0nat,
{
    if fuel > 0 {
        let f = (fuel - 1) as nat;
        lemma_stmt_keeps(m, c, f, body, s);
        if let Ok(s1) = exec_stmt(m, c, f, body, s) {
            lemma_expr_keeps(m, c, f, cond, s1);
            if let Ok((s2, _)) = eval_expr(m, c, f, cond, s1) {
                lemma_keeps_trans(s, s1, s2);
                lemma_do_while_keeps(m, c, f, cond, body, s2);
                if let Ok(s3) = run_do_while(m, c, f, cond, body, s2) {
                    lemma_keeps_trans(s, s2, s3);
                }
            }
        }
    }
}

proof fn lemma_for_keeps<F>(
    m: FloatModel<F>,
    c: Ctx,
    fuel: nat,
    cond: SpecExpr,
    update: SpecAssign,
    body: SpecStmt,
    s: State<F>,
)
    ensures
        run_for(m, c, fuel, cond, update, body, s) matches Ok(s2) ==> keeps_callers(s, s2),
    decreases fuel, 0nat,
{
    if fuel > 0 {
        let f = (fuel - 1) as nat;
        lemma_expr_keeps(m, c, f, cond, s);
        if let Ok((s1, _)) = eval_expr(m, c, f, cond, s) {
            lemma_stmt_keeps(m, c, f, body, s1);
            if let Ok(s2) = exec_stmt(m, c, f, body, s1) {
                lemma_keeps_trans(s, s1, s2);
                lemma_assign_keeps(m, c, f, update, s2);
                if let Ok((s3, _)) = eval_assign(m, c, f, update, s2) {
                    lemma_keeps_trans(s, s2, s3);
                    lemma_for_keeps(m, c, f, cond, update, body, s3);
                    if let Ok(s4) = run_for(m, c, f, cond, update, body, s3) {
                        lemma_keeps_trans(s, s3, s4);
                    }
                }
            }
        }
    }
}

/// Every call runs on a frame of its own: when it returns, the frames are
/// exactly as the evaluation of its arguments left them, so a function never
/// changes the local variables of its caller, and the output only grows.
pub proof fn law_call_keeps_caller_frames<F>(m: FloatModel<F>, c: Ctx, fuel: nat, call: SpecCall, s: State<F>)
    ensures
        eval_call(m, c, fuel, call, s) matches Ok((s2, _)) ==> ({
            &&& fuel > 0
            &&& eval_args(m, c, (fuel - 1) as nat, call.args, 0, s, Seq::empty()) matches Ok((s1, _))
            &&& s2.vm.frames == s1.vm.frames
            &&& keeps_callers(s, s2)
        }),
{
    lemma_call_keeps(m, c, fuel, call, s);
}

/// Running a statement leaves the number of frames and the frames of all
/// callers as they were, and only appends to the output.
pub proof fn law_stmt_keeps_callers<F>(m: FloatModel<F>, c: Ctx, fuel: nat, st: SpecStmt, s: State<F>)
    ensures
        exec_stmt(m, c, fuel, st, s) matches Ok(s2) ==> keeps_callers(s, s2),
{
    lemma_stmt_keeps(m, c, fuel, st, s);
}

/// `&&` and `||` evaluate their right operand only if the left one does not
/// decide the result: when it does, the result is the left operand's value,
/// whatever the right operand is.
pub proof fn law_short_circuit<F>(m: FloatModel<F>, c: Ctx, fuel: nat, op: BinOp, l: SpecExpr, r: SpecExpr, s: State<F>)
    requires
        fuel > 0,
        op == BinOp::LogAnd || op == BinOp::LogOr,
    ensures
        match eval_expr(m, c, (fuel - 1) as nat, l, s) {
            Ok((s1, SpecValue::Bool(b))) => b == (op == BinOp::LogOr) ==> eval_expr(
                m,
                c,
                fuel,
                SpecExpr::BinaryOp(op, Box::new(l), Box::new(r)),
                s,
            ) == Ok::<(State<F>, SpecValue<F>), Seq<char>>((s1, SpecValue::Bool(b))),
            _ => true,
        },
{
}

/// A `for` loop runs in this order: evaluate the condition and stop if it
/// is false; otherwise run the body, stop at once if it returns (the
/// condition and the update are not evaluated again), else run the update
/// and go on with the next round.
pub proof fn law_for_loop_order<F>(
    m: FloatModel<F>,
    c: Ctx,
    fuel: nat,
    cond: SpecExpr,
    update: SpecAssign,
    body: SpecStmt,
    s: State<F>,
)
    requires
        fuel > 0,
    ensures
        run_for(m, c, fuel, cond, update, body, s) == match as_bool(eval_expr(m, c, (fuel - 1) as nat, cond, s)) {
            Ok((s1, true)) => match exec_stmt(m, c, (fuel - 1) as nat, body, s1) {
                Ok(s2) => if returning(s2) {
                    Ok(s2)
                } else {
                    match eval_assign(m, c, (fuel - 1) as nat, update, s2) {
                        Ok((s3, _)) => run_for(m, c, (fuel - 1) as nat, cond, update, body, s3),
                        Err(msg) => Err(msg),
                    }
                },
                Err(msg) => Err(msg),
            },
            Ok((s1, false)) => Ok(s1),
            Err(msg) => Err(msg),
        },
{
}

/// On two integers the operators compute what they denote: `+`, `-` and
/// `*` the exact sum, difference and product (when it fits), and the
/// comparisons the order of the integers.
pub proof fn law_int_operators<F>(m: FloatModel<F>, a: i64, b: i64)
    ensures
        i64::MIN <= a as int + b as int <= i64::MAX ==> apply_bin_op(m, BinOp::Add, SpecValue::Int(a), SpecValue::Int(b))
            == Ok::<SpecValue<F>, Seq<char>>(SpecValue::Int((a as int + b as int) as i64)),
        i64::MIN <= a as int - b as int <= i64::MAX ==> apply_bin_op(m, BinOp::Sub, SpecValue::Int(a), SpecValue::Int(b))
            == Ok::<SpecValue<F>, Seq<char>>(SpecValue::Int((a as int - b as int) as i64)),
        i64::MIN <= a as int * b as int <= i64::MAX ==> apply_bin_op(m, BinOp::Mul, SpecValue::Int(a), SpecValue::Int(b))
            == Ok::<SpecValue<F>, Seq<char>>(SpecValue::Int((a as int * b as int) as i64)),
        apply_bin_op(m, BinOp::Eq, SpecValue::Int(a), SpecValue::Int(b)) == Ok::<SpecValue<F>, Seq<char>>(SpecValue::Bool(a == b)),
        apply_bin_op(m, BinOp::Neq, SpecValue::Int(a), SpecValue::Int(b)) == Ok::<SpecValue<F>, Seq<char>>(SpecValue::Bool(a != b)),
        apply_bin_op(m, BinOp::Lt, SpecValue::Int(a), SpecValue::Int(b)) == Ok::<SpecValue<F>, Seq<char>>(SpecValue::Bool(a < b)),
        apply_bin_op(m, BinOp::Gt, SpecValue::Int(a), SpecValue::Int(b)) == Ok::<SpecValue<F>, Seq<char>>(SpecValue::Bool(a > b)),
        apply_bin_op(m, BinOp::Leq, SpecValue::Int(a), SpecValue::Int(b)) == Ok::<SpecValue<F>, Seq<char>>(SpecValue::Bool(a <= b)),
        apply_bin_op(m, BinOp::Geq, SpecValue::Int(a), SpecValue::Int(b)) == Ok::<SpecValue<F>, Seq<char>>(SpecValue::Bool(a >= b)),
{
    crate::runtime::law_int_arith_exact(a, b);
}

/// Unary minus negates an integer exactly; only the smallest integer,
/// whose negation does not fit, gives an overflow.
pub proof fn law_int_negation<F>(m: FloatModel<F>, n: i64)
    ensures
        negate_value(m, SpecValue::<F>::Int(n)) == if n == i64::MIN {
            Err::<SpecValue<F>, Seq<char>>(msg_neg_overflow())
        } else {
            Ok(SpecValue::Int((-(n as int)) as i64))
        },
        negate_value(m, SpecValue::<F>::Int(n)) matches Ok(SpecValue::Int(k)) ==> k + n == 0,
{
}

/// `&&` and `||` compute the conjunction and disjunction of their operands'
/// truth values; the right operand's effects happen only when the left one
/// does not decide the result.
pub proof fn law_logical_operators<F>(
    m: FloatModel<F>,
    c: Ctx,
    fuel: nat,
    l: SpecExpr,
    r: SpecExpr,
    s: State<F>,
    x: bool,
    y: bool,
    s1: State<F>,
    s2: State<F>,
)
    requires
        fuel > 0,
        eval_expr(m, c, (fuel - 1) as nat, l, s) == Ok::<(State<F>, SpecValue<F>), Seq<char>>((s1, SpecValue::Bool(x))),
        eval_expr(m, c, (fuel - 1) as nat, r, s1) == Ok::<(State<F>, SpecValue<F>), Seq<char>>((s2, SpecValue::Bool(y))),
    ensures
        eval_expr(m, c, fuel, SpecExpr::BinaryOp(BinOp::LogAnd, Box::new(l), Box::new(r)), s) == Ok::<
            (State<F>, SpecValue<F>),
            Seq<char>,
        >((if x { s2 } else { s1 }, SpecValue::Bool(x && y))),
        eval_expr(m, c, fuel, SpecExpr::BinaryOp(BinOp::LogOr, Box::new(l), Box::new(r)), s) == Ok::<
            (State<F>, SpecValue<F>),
            Seq<char>,
        >((if x { s1 } else { s2 }, SpecValue::Bool(x || y))),
{
}

} // verus!
