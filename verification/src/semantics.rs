//! The static semantics of C1: which programs the analysis accepts, what it
//! resolves each identifier to, and which message it gives for the first
//! violated rule.
//!
//! The rules are stated over the views of the AST ([`crate::ast`]) and of the
//! symbol table ([`SymtabView`]). Each `check_*` function returns the tree
//! with the identifiers it resolved so far and either the outcome or the
//! message of the first error; analysis stops at the first error.
use vstd::prelude::*;
use crate::ast::{
    BinOp, DataType, SpecAssign, SpecCall, SpecExpr, SpecForInit, SpecFuncDef, SpecItem,
    SpecResIdent, SpecStmt, SpecVarDef, spec_literal_type, spec_op_symbol, spec_quoted, spec_type_name,
};
use crate::symtab::{SpecDef, SymtabView, param_types_of};
use crate::text::spec_decimal;

verus! {

// ---------------------------------------------------------------------------
// Types.

/// Whether a value of type `from` can be used where type `to` is expected:
/// the types are equal, or `from` is `int` and `to` is `float`.
pub open spec fn spec_is_compatible(from: DataType, to: DataType) -> bool {
    from == to || (from == DataType::Int && to == DataType::Float)
}

/// The smallest type that both types are compatible with, if any.
pub open spec fn spec_least_upper_bound(a: DataType, b: DataType) -> Option<DataType> {
    if spec_is_compatible(a, b) {
        Some(b)
    } else if spec_is_compatible(b, a) {
        Some(a)
    } else {
        None
    }
}

/// The type of a variable definition, or `None` for a function.
pub open spec fn var_type(d: SpecDef) -> Option<DataType> {
    match d {
        SpecDef::GlobalVar { data_type, .. } | SpecDef::LocalVar { data_type, .. } => Some(data_type),
        SpecDef::Func { .. } => None,
    }
}

/// The return type of the current function.
pub open spec fn current_return_type(st: SymtabView) -> DataType {
    match st.current {
        Some(c) => match st.defs[c as int] {
            SpecDef::Func { return_type, .. } => return_type,
            _ => DataType::Void,
        },
        None => DataType::Void,
    }
}

// ---------------------------------------------------------------------------
// Messages.

pub open spec fn msg_resolve(name: Seq<char>) -> Seq<char> {
    "cannot resolve "@ + spec_quoted(name) + " in this scope"@
}

pub open spec fn msg_duplicate(name: Seq<char>) -> Seq<char> {
    "duplicate definition of "@ + spec_quoted(name) + " in the same scope"@
}

pub open spec fn msg_load_function(name: Seq<char>) -> Seq<char> {
    "cannot load function "@ + spec_quoted(name) + " as a value"@
}

pub open spec fn msg_unary_minus(t: DataType) -> Seq<char> {
    "cannot apply unary minus to type `"@ + spec_type_name(t) + "`"@
}

pub open spec fn msg_incompatible(l: DataType, op: BinOp, r: DataType) -> Seq<char> {
    "cannot apply binary operator to incompatible types: `"@ + spec_type_name(l) + " "@
        + spec_op_symbol(op) + " "@ + spec_type_name(r) + "`"@
}

pub open spec fn msg_operator(kind: Seq<char>, op: BinOp, t: DataType) -> Seq<char> {
    "cannot use "@ + kind + " operator `"@ + spec_op_symbol(op) + "` with values of type `"@
        + spec_type_name(t) + "`"@
}

pub open spec fn msg_assign_function(name: Seq<char>) -> Seq<char> {
    "cannot assign to function "@ + spec_quoted(name)
}

pub open spec fn msg_assign_type(rhs: DataType, name: Seq<char>, lhs: DataType) -> Seq<char> {
    "cannot assign value of type `"@ + spec_type_name(rhs) + "` to variable "@ + spec_quoted(name)
        + " of type `"@ + spec_type_name(lhs) + "`"@
}

pub open spec fn msg_call_variable(name: Seq<char>) -> Seq<char> {
    "cannot call variable "@ + spec_quoted(name)
}

pub open spec fn msg_arg_count(name: Seq<char>, expected: nat, found: nat) -> Seq<char> {
    "incorrect number of arguments in call to "@ + spec_quoted(name) + ", expected "@ + spec_decimal(
        expected,
    ) + ", found "@ + spec_decimal(found)
}

pub open spec fn msg_arg_type(index: nat, name: Seq<char>, param: DataType, arg: DataType) -> Seq<
    char,
> {
    "incorrect type for argument "@ + spec_decimal(index) + " in call to "@ + spec_quoted(name)
        + ", expected `"@ + spec_type_name(param) + "`, found `"@ + spec_type_name(arg) + "`"@
}

pub open spec fn msg_cond(kind: Seq<char>, t: DataType) -> Seq<char> {
    "condition of "@ + kind + " must have type `bool`, found `"@ + spec_type_name(t) + "`"@
}

pub open spec fn msg_void_var(kind: Seq<char>, name: Seq<char>) -> Seq<char> {
    "cannot define "@ + kind + " "@ + spec_quoted(name) + " with type `void`"@
}

pub open spec fn msg_init(name: Seq<char>, var: DataType, init: DataType) -> Seq<char> {
    "cannot initialize variable "@ + spec_quoted(name) + " of type `"@ + spec_type_name(var)
        + "` with value of type `"@ + spec_type_name(init) + "`"@
}

pub open spec fn msg_void_param(name: Seq<char>) -> Seq<char> {
    "cannot define function parameter "@ + spec_quoted(name) + " with type `void`"@
}

pub open spec fn msg_return_value_in_void() -> Seq<char> {
    "cannot `return` with value in function returning `void`"@
}

pub open spec fn msg_return_type(value: DataType, ret: DataType) -> Seq<char> {
    "cannot return value of type `"@ + spec_type_name(value) + "` from function returning `"@
        + spec_type_name(ret) + "`"@
}

pub open spec fn msg_return_missing(ret: DataType) -> Seq<char> {
    "cannot `return;` without value in function returning `"@ + spec_type_name(ret) + "`"@
}

pub open spec fn msg_print_void() -> Seq<char> {
    "cannot `print` value of type `void`"@
}

pub open spec fn msg_no_main() -> Seq<char> {
    "cannot find main function"@
}

pub open spec fn msg_main_not_func() -> Seq<char> {
    "main is not a function"@
}

pub open spec fn msg_main_return(t: DataType) -> Seq<char> {
    "the return type of main must be `void`, but it is `"@ + spec_type_name(t) + "`"@
}

pub open spec fn msg_main_params() -> Seq<char> {
    "the main function must not have parameters"@
}

// ---------------------------------------------------------------------------
// Expressions.

/// The identifier `r` resolved to `id`.
pub open spec fn resolved(r: SpecResIdent, id: usize) -> SpecResIdent {
    SpecResIdent { name: r.name, res: Some(id) }
}

/// The type of `lhs op rhs` for operands of types `l` and `r`.
pub open spec fn bin_op_type(op: BinOp, l: DataType, r: DataType) -> Result<DataType, Seq<char>> {
    match spec_least_upper_bound(l, r) {
        None => Err(msg_incompatible(l, op, r)),
        Some(c) => match op {
            BinOp::Add | BinOp::Sub | BinOp::Mul | BinOp::Div => if c.spec_is_numeric() {
                Ok(c)
            } else {
                Err(msg_operator("arithmetic"@, op, c))
            },
            BinOp::LogAnd | BinOp::LogOr => if c == DataType::Bool {
                Ok(DataType::Bool)
            } else {
                Err(msg_operator("logical"@, op, c))
            },
            _ => if c != DataType::Void {
                Ok(DataType::Bool)
            } else {
                Err(msg_operator("comparison"@, op, c))
            },
        },
    }
}

/// The index of the first argument whose type is not compatible with its
/// parameter.
pub open spec fn first_mismatch(args: Seq<DataType>, params: Seq<DataType>) -> Option<nat>
    decreases args.len(),
{
    if args.len() == 0 {
        None
    } else {
        match first_mismatch(args.drop_last(), params) {
            Some(i) => Some(i),
            None => if spec_is_compatible(args.last(), params[args.len() - 1]) {
                None
            } else {
                Some((args.len() - 1) as nat)
            },
        }
    }
}

/// The type of a call of the function `name` with parameter types `params`
/// and return type `ret` on arguments of types `args`.
pub open spec fn call_type(name: Seq<char>, params: Seq<DataType>, ret: DataType, args: Seq<DataType>) -> Result<
    DataType,
    Seq<char>,
> {
    if args.len() != params.len() {
        Err(msg_arg_count(name, params.len(), args.len()))
    } else {
        match first_mismatch(args, params) {
            Some(i) => Err(msg_arg_type(i, name, params[i as int], args[i as int])),
            None => Ok(ret),
        }
    }
}

/// Checks an expression: its resolved tree and its type.
pub open spec fn check_expr(st: SymtabView, e: SpecExpr) -> (SpecExpr, Result<DataType, Seq<char>>)
    decreases e,
{
    match e {
        SpecExpr::Literal(l) => (e, Ok(spec_literal_type(l))),
        SpecExpr::Var(r) => match st.resolve(r.name) {
            None => (e, Err(msg_resolve(r.name))),
            Some(id) => (
                SpecExpr::Var(resolved(r, id)),
                match var_type(st.defs[id as int]) {
                    Some(t) => Ok(t),
                    None => Err(msg_load_function(r.name)),
                },
            ),
        },
        SpecExpr::UnaryMinus(inner) => {
            let (i2, r) = check_expr(st, *inner);
            (
                SpecExpr::UnaryMinus(Box::new(i2)),
                match r {
                    Ok(t) => if t.spec_is_numeric() {
                        Ok(t)
                    } else {
                        Err(msg_unary_minus(t))
                    },
                    Err(m) => Err(m),
                },
            )
        },
        SpecExpr::BinaryOp(op, l, r) => {
            let (l2, rl) = check_expr(st, *l);
            match rl {
                Err(m) => (SpecExpr::BinaryOp(op, Box::new(l2), r), Err(m)),
                Ok(lt) => {
                    let (r2, rr) = check_expr(st, *r);
                    (
                        SpecExpr::BinaryOp(op, Box::new(l2), Box::new(r2)),
                        match rr {
                            Err(m) => Err(m),
                            Ok(rt) => bin_op_type(op, lt, rt),
                        },
                    )
                },
            }
        },
        SpecExpr::Assign(a) => {
            let (a2, r) = check_assign(st, a);
            (SpecExpr::Assign(a2), r)
        },
        SpecExpr::Call(c) => {
            let (c2, r) = check_call(st, c);
            (SpecExpr::Call(c2), r)
        },
    }
}

/// Checks an assignment: its resolved tree and its type, the type of the variable.
pub open spec fn check_assign(st: SymtabView, a: SpecAssign) -> (SpecAssign, Result<DataType, Seq<char>>)
    decreases a,
{
    let (rhs2, rr) = check_expr(st, *a.rhs);
    match rr {
        Err(m) => (SpecAssign { lhs: a.lhs, rhs: Box::new(rhs2) }, Err(m)),
        Ok(rt) => match st.resolve(a.lhs.name) {
            None => (SpecAssign { lhs: a.lhs, rhs: Box::new(rhs2) }, Err(msg_resolve(a.lhs.name))),
            Some(id) => (
                SpecAssign { lhs: resolved(a.lhs, id), rhs: Box::new(rhs2) },
                match var_type(st.defs[id as int]) {
                    None => Err(msg_assign_function(a.lhs.name)),
                    Some(lt) => if spec_is_compatible(rt, lt) {
                        Ok(lt)
                    } else {
                        Err(msg_assign_type(rt, a.lhs.name, lt))
                    },
                },
            ),
        },
    }
}

/// Checks a call: its resolved tree and its type, the return type of the function.
pub open spec fn check_call(st: SymtabView, c: SpecCall) -> (SpecCall, Result<DataType, Seq<char>>)
    decreases c,
{
    let (args2, ra) = check_exprs(st, c.args);
    match ra {
        Err(m) => (SpecCall { callee: c.callee, args: args2 }, Err(m)),
        Ok(ts) => match st.resolve(c.callee.name) {
            None => (SpecCall { callee: c.callee, args: args2 }, Err(msg_resolve(c.callee.name))),
            Some(id) => (
                SpecCall { callee: resolved(c.callee, id), args: args2 },
                match st.defs[id as int] {
                    SpecDef::Func { return_type, params, .. } => call_type(
                        c.callee.name,
                        params,
                        return_type,
                        ts,
                    ),
                    _ => Err(msg_call_variable(c.callee.name)),
                },
            ),
        },
    }
}

/// Checks expressions from left to right, stopping at the first error.
pub open spec fn check_exprs(st: SymtabView, es: Seq<SpecExpr>) -> (Seq<SpecExpr>, Result<
    Seq<DataType>,
    Seq<char>,
>)
    decreases es,
{
    if es.len() == 0 {
        (es, Ok(Seq::empty()))
    } else {
        let (init2, r) = check_exprs(st, es.drop_last());
        match r {
            Err(m) => (init2.push(es.last()), Err(m)),
            Ok(ts) => {
                let (e2, re) = check_expr(st, es.last());
                (
                    init2.push(e2),
                    match re {
                        Err(m) => Err(m),
                        Ok(t) => Ok(ts.push(t)),
                    },
                )
            },
        }
    }
}

// ---------------------------------------------------------------------------
// Statements.

/// Checks the condition of a control flow statement described by `kind`.
pub open spec fn check_cond(st: SymtabView, e: SpecExpr, kind: Seq<char>) -> (SpecExpr, Result<
    (),
    Seq<char>,
>) {
    let (e2, r) = check_expr(st, e);
    (
        e2,
        match r {
            Err(m) => Err(m),
            Ok(t) => if t == DataType::Bool {
                Ok(())
            } else {
                Err(msg_cond(kind, t))
            },
        },
    )
}

/// Checks the type and the initializer of a variable definition; `kind`
/// describes the variable in messages.
pub open spec fn check_var_init(st: SymtabView, d: SpecVarDef, kind: Seq<char>) -> (SpecVarDef, Result<
    (),
    Seq<char>,
>) {
    if d.data_type == DataType::Void {
        (d, Err(msg_void_var(kind, d.ident.name)))
    } else {
        match d.init {
            None => (d, Ok(())),
            Some(init) => {
                let (i2, r) = check_expr(st, init);
                (
                    SpecVarDef { init: Some(i2), ..d },
                    match r {
                        Err(m) => Err(m),
                        Ok(t) => if spec_is_compatible(t, d.data_type) {
                            Ok(())
                        } else {
                            Err(msg_init(d.ident.name, d.data_type, t))
                        },
                    },
                )
            },
        }
    }
}

/// Checks a local variable definition and defines the variable after its
/// initializer, so the initializer cannot refer to it.
pub open spec fn check_local_var_def(st: SymtabView, d: SpecVarDef) -> (SpecVarDef, Result<
    SymtabView,
    Seq<char>,
>) {
    let (d2, r) = check_var_init(st, d, "local variable"@);
    match r {
        Err(m) => (d2, Err(m)),
        Ok(_) => match st.define_local(d.ident.name, d.data_type) {
            None => (d2, Err(msg_duplicate(d.ident.name))),
            Some(st2) => (SpecVarDef { ident: resolved(d2.ident, st.defs.len() as usize), ..d2 }, Ok(st2)),
        },
    }
}

/// Checks a `return` statement against the return type of the current function.
pub open spec fn check_return(st: SymtabView, e: Option<SpecExpr>) -> (Option<SpecExpr>, Result<
    (),
    Seq<char>,
>) {
    let ret = current_return_type(st);
    match e {
        Some(x) => {
            let (x2, r) = check_expr(st, x);
            (
                Some(x2),
                match r {
                    Err(m) => Err(m),
                    Ok(t) => if ret == DataType::Void {
                        Err(msg_return_value_in_void())
                    } else if !spec_is_compatible(t, ret) {
                        Err(msg_return_type(t, ret))
                    } else {
                        Ok(())
                    },
                },
            )
        },
        None => (None, if ret != DataType::Void { Err(msg_return_missing(ret)) } else { Ok(()) }),
    }
}

/// Checks the expressions of a `print` statement from left to right; none
/// may have type `void`.
pub open spec fn check_print(st: SymtabView, es: Seq<SpecExpr>) -> (Seq<SpecExpr>, Result<
    (),
    Seq<char>,
>)
    decreases es.len(),
{
    if es.len() == 0 {
        (es, Ok(()))
    } else {
        let (init2, r) = check_print(st, es.drop_last());
        match r {
            Err(m) => (init2.push(es.last()), Err(m)),
            Ok(_) => {
                let (e2, re) = check_expr(st, es.last());
                (
                    init2.push(e2),
                    match re {
                        Err(m) => Err(m),
                        Ok(t) => if t == DataType::Void {
                            Err(msg_print_void())
                        } else {
                            Ok(())
                        },
                    },
                )
            },
        }
    }
}

/// Checks the initializer of a `for` statement.
pub open spec fn check_for_init(st: SymtabView, init: SpecForInit) -> (SpecForInit, Result<
    SymtabView,
    Seq<char>,
>) {
    match init {
        SpecForInit::VarDef(d) => {
            let (d2, r) = check_local_var_def(st, d);
            (SpecForInit::VarDef(d2), r)
        },
        SpecForInit::Assign(a) => {
            let (a2, r) = check_assign(st, a);
            (
                SpecForInit::Assign(a2),
                match r {
                    Err(m) => Err(m),
                    Ok(_) => Ok(st),
                },
            )
        },
    }
}

/// Checks a statement: its resolved tree and the symbol table after it.
pub open spec fn check_stmt(st: SymtabView, s: SpecStmt) -> (SpecStmt, Result<SymtabView, Seq<char>>)
    decreases s,
{
    match s {
        SpecStmt::Empty => (s, Ok(st)),
        SpecStmt::If(c, t, f) => {
            let (c2, rc) = check_cond(st, c, "if"@);
            match rc {
                Err(m) => (SpecStmt::If(c2, t, f), Err(m)),
                Ok(_) => {
                    let (t2, rt) = check_stmt(st, *t);
                    match rt {
                        Err(m) => (SpecStmt::If(c2, Box::new(t2), f), Err(m)),
                        Ok(st1) => match f {
                            None => (SpecStmt::If(c2, Box::new(t2), None), Ok(st1)),
                            Some(fb) => {
                                let (f2, rf) = check_stmt(st1, *fb);
                                (SpecStmt::If(c2, Box::new(t2), Some(Box::new(f2))), rf)
                            },
                        },
                    }
                },
            }
        },
        SpecStmt::For(init, cond, upd, body) => {
            let (init2, ri) = check_for_init(st.enter(), init);
            match ri {
                Err(m) => (SpecStmt::For(init2, cond, upd, body), Err(m)),
                Ok(st1) => {
                    let (c2, rc) = check_cond(st1, cond, "for loop"@);
                    match rc {
                        Err(m) => (SpecStmt::For(init2, c2, upd, body), Err(m)),
                        Ok(_) => {
                            let (u2, ru) = check_assign(st1, upd);
                            match ru {
                                Err(m) => (SpecStmt::For(init2, c2, u2, body), Err(m)),
                                Ok(_) => {
                                    let (b2, rb) = check_stmt(st1, *body);
                                    (
                                        SpecStmt::For(init2, c2, u2, Box::new(b2)),
                                        match rb {
                                            Err(m) => Err(m),
                                            Ok(st2) => Ok(st2.leave()),
                                        },
                                    )
                                },
                            }
                        },
                    }
                },
            }
        },
        SpecStmt::While(c, b) => {
            let (c2, rc) = check_cond(st, c, "while loop"@);
            match rc {
                Err(m) => (SpecStmt::While(c2, b), Err(m)),
                Ok(_) => {
                    let (b2, rb) = check_stmt(st, *b);
                    (SpecStmt::While(c2, Box::new(b2)), rb)
                },
            }
        },
        SpecStmt::DoWhile(c, b) => {
            let (c2, rc) = check_cond(st, c, "do-while loop"@);
            match rc {
                Err(m) => (SpecStmt::DoWhile(c2, b), Err(m)),
                Ok(_) => {
                    let (b2, rb) = check_stmt(st, *b);
                    (SpecStmt::DoWhile(c2, Box::new(b2)), rb)
                },
            }
        },
        SpecStmt::Return(e) => {
            let (e2, r) = check_return(st, e);
            (
                SpecStmt::Return(e2),
                match r {
                    Err(m) => Err(m),
                    Ok(_) => Ok(st),
                },
            )
        },
        SpecStmt::Print(es) => {
            let (es2, r) = check_print(st, es);
            (
                SpecStmt::Print(es2),
                match r {
                    Err(m) => Err(m),
                    Ok(_) => Ok(st),
                },
            )
        },
        SpecStmt::VarDef(d) => {
            let (d2, r) = check_local_var_def(st, d);
            (SpecStmt::VarDef(d2), r)
        },
        SpecStmt::Assign(a) => {
            let (a2, r) = check_assign(st, a);
            (
                SpecStmt::Assign(a2),
                match r {
                    Err(m) => Err(m),
                    Ok(_) => Ok(st),
                },
            )
        },
        SpecStmt::Call(c) => {
            let (c2, r) = check_call(st, c);
            (
                SpecStmt::Call(c2),
                match r {
                    Err(m) => Err(m),
                    Ok(_) => Ok(st),
                },
            )
        },
        SpecStmt::Block(ss) => {
            let (ss2, r) = check_stmts(st.enter(), ss);
            (
                SpecStmt::Block(ss2),
                match r {
                    Err(m) => Err(m),
                    Ok(st2) => Ok(st2.leave()),
                },
            )
        },
    }
}

/// Checks statements in order, stopping at the first error.
pub open spec fn check_stmts(st: SymtabView, ss: Seq<SpecStmt>) -> (Seq<SpecStmt>, Result<
    SymtabView,
    Seq<char>,
>)
    decreases ss,
{
    if ss.len() == 0 {
        (ss, Ok(st))
    } else {
        let (init2, r) = check_stmts(st, ss.drop_last());
        match r {
            Err(m) => (init2.push(ss.last()), Err(m)),
            Ok(st1) => {
                let (s2, rs) = check_stmt(st1, ss.last());
                (init2.push(s2), rs)
            },
        }
    }
}

// ---------------------------------------------------------------------------
// Items and programs.

/// Checks one parameter of the current function and defines it as its next
/// local variable.
pub open spec fn check_param(st: SymtabView, p: (DataType, Seq<char>)) -> Result<SymtabView, Seq<char>> {
    let (t, name) = p;
    if t == DataType::Void {
        Err(msg_void_param(name))
    } else {
        match st.define_local(name, t) {
            None => Err(msg_duplicate(name)),
            Some(st2) => Ok(st2),
        }
    }
}

/// Checks the parameters of the current function in order and defines them
/// as its first local variables.
pub open spec fn check_params(st: SymtabView, ps: Seq<(DataType, Seq<char>)>) -> Result<
    SymtabView,
    Seq<char>,
>
    decreases ps.len(),
{
    if ps.len() == 0 {
        Ok(st)
    } else {
        match check_params(st, ps.drop_last()) {
            Err(m) => Err(m),
            Ok(st1) => check_param(st1, ps.last()),
        }
    }
}

/// Checks a function definition. Its parameters and body share one scope.
pub open spec fn check_func_def(st: SymtabView, f: SpecFuncDef) -> (SpecFuncDef, Result<
    SymtabView,
    Seq<char>,
>) {
    match st.resolve(f.name) {
        None => (f, Err(msg_resolve(f.name))),
        Some(id) => match check_params(st.with_current(id).enter(), f.params) {
            Err(m) => (f, Err(m)),
            Ok(st1) => {
                let (body2, rb) = check_stmts(st1, f.body);
                (
                    SpecFuncDef { body: body2, ..f },
                    match rb {
                        Err(m) => Err(m),
                        Ok(st2) => Ok(st2.leave()),
                    },
                )
            },
        },
    }
}

/// Checks a global variable definition, the item with index `item`, and
/// defines the variable after its initializer.
pub open spec fn check_global_var_def(st: SymtabView, d: SpecVarDef, item: usize) -> (SpecVarDef, Result<
    SymtabView,
    Seq<char>,
>) {
    let (d2, r) = check_var_init(st, d, "global variable"@);
    match r {
        Err(m) => (d2, Err(m)),
        Ok(_) => match st.define_global(d.ident.name, d.data_type, item) {
            None => (d2, Err(msg_duplicate(d.ident.name))),
            Some(st2) => (SpecVarDef { ident: resolved(d2.ident, st.defs.len() as usize), ..d2 }, Ok(st2)),
        },
    }
}

/// Checks the items in order, the item at index `i` having item id `i`.
pub open spec fn check_items(st: SymtabView, items: Seq<SpecItem>) -> (Seq<SpecItem>, Result<
    SymtabView,
    Seq<char>,
>)
    decreases items.len(),
{
    if items.len() == 0 {
        (items, Ok(st))
    } else {
        let (init2, r) = check_items(st, items.drop_last());
        match r {
            Err(m) => (init2.push(items.last()), Err(m)),
            Ok(st1) => match items.last() {
                SpecItem::GlobalVar(d) => {
                    let (d2, rd) = check_global_var_def(st1, d, (items.len() - 1) as usize);
                    (init2.push(SpecItem::GlobalVar(d2)), rd)
                },
                SpecItem::Func(f) => {
                    let (f2, rf) = check_func_def(st1, f);
                    (init2.push(SpecItem::Func(f2)), rf)
                },
            },
        }
    }
}

/// Defines all functions of the items, so that they can be called before
/// their definition.
pub open spec fn define_funcs(st: SymtabView, items: Seq<SpecItem>) -> Result<SymtabView, Seq<char>>
    decreases items.len(),
{
    if items.len() == 0 {
        Ok(st)
    } else {
        match define_funcs(st, items.drop_last()) {
            Err(m) => Err(m),
            Ok(st1) => match items.last() {
                SpecItem::Func(f) => match st1.define_func(
                    f.name,
                    f.return_type,
                    param_types_of(f.params),
                    (items.len() - 1) as usize,
                ) {
                    None => Err(msg_duplicate(f.name)),
                    Some(st2) => Ok(st2),
                },
                SpecItem::GlobalVar(_) => Ok(st1),
            },
        }
    }
}

/// Checks that `main` is a function without parameters returning `void`,
/// and returns its definition.
pub open spec fn check_main(st: SymtabView) -> Result<usize, Seq<char>> {
    match st.resolve("main"@) {
        None => Err(msg_no_main()),
        Some(id) => match st.defs[id as int] {
            SpecDef::Func { return_type, params, .. } => if return_type != DataType::Void {
                Err(msg_main_return(return_type))
            } else if params.len() != 0 {
                Err(msg_main_params())
            } else {
                Ok(id)
            },
            _ => Err(msg_main_not_func()),
        },
    }
}

/// The analysis of a program: the resolved items, and either the final
/// symbol table and the definition of `main`, or the first error.
pub open spec fn analysis_of(items: Seq<SpecItem>) -> (Seq<SpecItem>, Result<
    (SymtabView, usize),
    Seq<char>,
>) {
    match define_funcs(SymtabView::initial(), items) {
        Err(m) => (items, Err(m)),
        Ok(st1) => {
            let (items2, r) = check_items(st1, items);
            (
                items2,
                match r {
                    Err(m) => Err(m),
                    Ok(st2) => match check_main(st2) {
                        Err(m) => Err(m),
                        Ok(main) => Ok((st2, main)),
                    },
                },
            )
        },
    }
}

// ---------------------------------------------------------------------------
// Laws.

/// Compatibility of types is a partial order: every type is compatible with
/// itself, compatibility chains, and two types compatible with each other
/// are equal.
pub proof fn law_compatible_partial_order(a: DataType, b: DataType, c: DataType)
    ensures
        spec_is_compatible(a, a),
        spec_is_compatible(a, b) && spec_is_compatible(b, c) ==> spec_is_compatible(a, c),
        spec_is_compatible(a, b) && spec_is_compatible(b, a) ==> a == b,
{
}

/// The least upper bound of two types is a type that both are compatible
/// with and that is compatible with every such type (`d`); there is none
/// exactly when no type is compatible with both. The order of the two types
/// does not matter.
pub proof fn law_least_upper_bound(a: DataType, b: DataType, d: DataType)
    ensures
        spec_least_upper_bound(a, b) == spec_least_upper_bound(b, a),
        spec_least_upper_bound(a, b) == Some(d) <==> (d == a || d == b) && spec_is_compatible(a, d)
            && spec_is_compatible(b, d),
        match spec_least_upper_bound(a, b) {
            Some(c) => spec_is_compatible(a, c) && spec_is_compatible(b, c) && (spec_is_compatible(a, d)
                && spec_is_compatible(b, d) ==> spec_is_compatible(c, d)),
            None => !(spec_is_compatible(a, d) && spec_is_compatible(b, d)),
        },
{
}

/// A program that the analysis accepts has a function `main` without
/// parameters that returns `void`, and the name `main` resolves to it. The
/// definition recorded as `main` is the one of the program's function item
/// named `main` (as long as the items and the definitions can be counted by
/// a `usize`).
pub proof fn law_accepted_program_has_main(items: Seq<SpecItem>)
    ensures
        analysis_of(items).1 matches Ok((st, main)) ==> ({
            &&& st.resolve("main"@) == Some(main)
            &&& st.defs[main as int] matches SpecDef::Func { return_type, params, .. }
            &&& st.defs[main as int]->Func_return_type == DataType::Void
            &&& st.defs[main as int]->Func_params.len() == 0
        }),
        analysis_of(items) matches (items2, Ok((st, main))) ==> (items.len() <= usize::MAX && st.defs.len()
            <= usize::MAX ==> (st.defs[main as int] matches SpecDef::Func { item, .. } && item < items2.len() && (
        items2[item as int] matches SpecItem::Func(f) && f.name == "main"@ && f.return_type == DataType::Void
            && f.params.len() == 0))),
{
    if items.len() <= usize::MAX {
        crate::typecheck::lemma_main_item(items);
    }
}

/// The `main` check: it gives the definition `d` exactly when the name
/// `main` denotes `d`, a function returning `void` without parameters;
/// `main` denoting a variable, and a `void` function `main` with parameters,
/// give their own messages.
pub proof fn law_main_check(st: SymtabView, d: usize)
    ensures
        check_main(st) == Ok::<usize, Seq<char>>(d) <==> (st.resolve("main"@) == Some(d) && (st.defs[d as int] matches SpecDef::Func {
            return_type,
            params,
            ..
        } && return_type == DataType::Void && params.len() == 0)),
        st.resolve("main"@) == Some(d) && !(st.defs[d as int] is Func) ==> check_main(st) == Err::<usize, Seq<char>>(
            msg_main_not_func(),
        ),
        st.resolve("main"@) == Some(d) && (st.defs[d as int] matches SpecDef::Func { return_type, params, .. }
            && return_type == DataType::Void && params.len() != 0) ==> check_main(st) == Err::<usize, Seq<char>>(
            msg_main_params(),
        ),
{
}

/// The type of a binary operator: operands without a common type are
/// refused with the message naming both types; otherwise arithmetic
/// operators need numbers and give their common type, logical operators
/// need `bool`, and comparisons need anything but `void` and give `bool`.
pub proof fn law_binary_operator_type(op: BinOp, l: DataType, r: DataType, t: DataType)
    ensures
        bin_op_type(op, l, r) == Ok::<DataType, Seq<char>>(t) <==> (spec_least_upper_bound(l, r) matches Some(c) && (
        if op == BinOp::Add || op == BinOp::Sub || op == BinOp::Mul || op == BinOp::Div {
            c.spec_is_numeric() && t == c
        } else if op == BinOp::LogAnd || op == BinOp::LogOr {
            c == DataType::Bool && t == DataType::Bool
        } else {
            c != DataType::Void && t == DataType::Bool
        })),
        spec_least_upper_bound(l, r) is None ==> bin_op_type(op, l, r) == Err::<DataType, Seq<char>>(
            msg_incompatible(l, op, r),
        ),
{
}

proof fn lemma_first_mismatch_none(args: Seq<DataType>, params: Seq<DataType>)
    ensures
        first_mismatch(args, params) is None <==> forall|i: int| 0 <= i < args.len() ==> spec_is_compatible(
            #[trigger] args[i],
            params[i],
        ),
    decreases args.len(),
{
    if args.len() > 0 {
        lemma_first_mismatch_none(args.drop_last(), params);
        if first_mismatch(args, params) is None {
            assert forall|i: int| 0 <= i < args.len() implies spec_is_compatible(#[trigger] args[i], params[i]) by {
                if i < args.len() - 1 {
                    assert(args.drop_last()[i] == args[i]);
                }
            }
        } else if forall|i: int| 0 <= i < args.len() ==> spec_is_compatible(#[trigger] args[i], params[i]) {
            assert forall|i: int| 0 <= i < args.drop_last().len() implies spec_is_compatible(
                #[trigger] args.drop_last()[i],
                params[i],
            ) by {
                assert(args.drop_last()[i] == args[i]);
            }
            assert(spec_is_compatible(args[args.len() - 1], params[args.len() - 1]));
        }
    }
}

/// The type of a call: with as many arguments as parameters, each
/// compatible with its parameter, it is the return type; a wrong number of
/// arguments is refused before any argument type is looked at.
pub proof fn law_call_type(name: Seq<char>, params: Seq<DataType>, ret: DataType, args: Seq<DataType>)
    ensures
        call_type(name, params, ret, args) is Ok <==> args.len() == params.len() && forall|i: int|
            0 <= i < args.len() ==> spec_is_compatible(#[trigger] args[i], params[i]),
        call_type(name, params, ret, args) matches Ok(t) ==> t == ret,
        args.len() != params.len() ==> call_type(name, params, ret, args) == Err::<DataType, Seq<char>>(
            msg_arg_count(name, params.len(), args.len()),
        ),
{
    lemma_first_mismatch_none(args, params);
}

/// A `return` is accepted exactly when it has no value in a `void`
/// function, or a value of a type compatible with the return type of any
/// other function.
pub proof fn law_return_check(st: SymtabView, e: Option<SpecExpr>)
    ensures
        check_return(st, e).1 is Ok <==> match e {
            None => current_return_type(st) == DataType::Void,
            Some(x) => check_expr(st, x).1 matches Ok(t) && current_return_type(st) != DataType::Void
                && spec_is_compatible(t, current_return_type(st)),
        },
        e matches Some(x) && check_expr(st, x).1 is Ok && current_return_type(st) == DataType::Void ==> check_return(
            st,
            e,
        ).1 == Err::<(), Seq<char>>(msg_return_value_in_void()),
        e is None && current_return_type(st) != DataType::Void ==> check_return(st, e).1 == Err::<(), Seq<char>>(
            msg_return_missing(current_return_type(st)),
        ),
{
}

/// The type of an assignment is the type of its variable, whatever the
/// (compatible) type of the value; assigning to a function is refused.
pub proof fn law_assignment_type(st: SymtabView, a: SpecAssign)
    ensures
        check_assign(st, a).1 matches Ok(t) ==> (st.resolve(a.lhs.name) matches Some(id) && (var_type(st.defs[id as int])
            == Some(t) && (check_expr(st, *a.rhs).1 matches Ok(rt) && spec_is_compatible(rt, t)))),
        check_expr(st, *a.rhs).1 is Ok && (st.resolve(a.lhs.name) matches Some(id) && st.defs[id as int] is Func)
            ==> check_assign(st, a).1 == Err::<DataType, Seq<char>>(msg_assign_function(a.lhs.name)),
{
}

/// A `print` statement is accepted exactly when each of its expressions is
/// well-typed and none has type `void`.
pub proof fn law_print_check(st: SymtabView, es: Seq<SpecExpr>)
    ensures
        check_print(st, es).1 is Ok <==> forall|i: int|
            0 <= i < es.len() ==> (check_expr(st, #[trigger] es[i]).1 matches Ok(t) && t != DataType::Void),
    decreases es.len(),
{
    if es.len() > 0 {
        law_print_check(st, es.drop_last());
        if check_print(st, es).1 is Ok {
            assert forall|i: int| 0 <= i < es.len() implies (check_expr(st, #[trigger] es[i]).1 matches Ok(t) && t
                != DataType::Void) by {
                if i < es.len() - 1 {
                    assert(es.drop_last()[i] == es[i]);
                }
            }
        } else if forall|i: int| 0 <= i < es.len() ==> (check_expr(st, #[trigger] es[i]).1 matches Ok(t) && t
            != DataType::Void) {
            assert forall|i: int| 0 <= i < es.drop_last().len() implies (check_expr(st, #[trigger] es.drop_last()[i]).1 matches Ok(t)
                && t != DataType::Void) by {
                assert(es.drop_last()[i] == es[i]);
            }
            assert(check_expr(st, es[es.len() - 1]).1 is Ok);
        }
    }
}

/// A variable definition, global or local, is accepted exactly when its
/// type is not `void` and its initializer, if any, has the declared type or
/// is an `int` for a `float` variable; what kind of variable it is only
/// changes the message.
pub proof fn law_initializer_conversions(st: SymtabView, d: SpecVarDef, kind: Seq<char>)
    ensures
        check_var_init(st, d, kind).1 is Ok <==> d.data_type != DataType::Void && match d.init {
            None => true,
            Some(e) => check_expr(st, e).1 matches Ok(t) && (t == d.data_type || (t == DataType::Int && d.data_type
                == DataType::Float)),
        },
        check_var_init(st, d, kind).0.ident == d.ident,
        check_var_init(st, d, kind).0.data_type == d.data_type,
{
}

/// A global or local variable definition is accepted exactly when its type
/// is not `void`, its initializer (if any) has the declared type or is an
/// `int` for a `float` variable, and its name is not yet defined in the
/// innermost scope.
pub proof fn law_variable_definitions(st: SymtabView, d: SpecVarDef, item: usize)
    ensures
        check_global_var_def(st, d, item).1 is Ok <==> d.data_type != DataType::Void && match d.init {
            None => true,
            Some(e) => check_expr(st, e).1 matches Ok(t) && (t == d.data_type || (t == DataType::Int && d.data_type
                == DataType::Float)),
        } && !st.defined_in_scope(d.ident.name),
        check_local_var_def(st, d).1 is Ok <==> d.data_type != DataType::Void && match d.init {
            None => true,
            Some(e) => check_expr(st, e).1 matches Ok(t) && (t == d.data_type || (t == DataType::Int && d.data_type
                == DataType::Float)),
        } && !st.defined_in_scope(d.ident.name),
{
}

} // verus!
