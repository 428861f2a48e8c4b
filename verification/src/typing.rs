//! The typing discipline of a resolved program: every identifier refers to a
//! definition of the right kind, every operator gets operands of types it
//! accepts, and every value goes where its type fits.
//!
//! The rules are stated over the resolved tree and the final definitions of
//! the analysis ([`SpecDef`]); `func` is the function whose body is read, or
//! `None` for the initializers of global variables.
use vstd::prelude::*;
use crate::ast::{
    DataType, SpecAssign, SpecCall, SpecExpr, SpecForInit, SpecItem, SpecStmt, SpecVarDef,
    spec_literal_type,
};
use crate::semantics::{bin_op_type, call_type, spec_is_compatible};
use crate::symtab::SpecDef;

verus! {

// ---------------------------------------------------------------------------
// Expressions.

/// The type of the variable that an identifier refers to: a global variable,
/// or a local variable of `func`; never `void`.
pub open spec fn var_ref_type(defs: Seq<SpecDef>, func: Option<usize>, res: Option<usize>) -> Option<DataType> {
    match res {
        Some(id) => if id < defs.len() {
            match defs[id as int] {
                SpecDef::GlobalVar { data_type, .. } => if data_type != DataType::Void {
                    Some(data_type)
                } else {
                    None
                },
                SpecDef::LocalVar { data_type, offset } => match func {
                    Some(f) => if data_type != DataType::Void && f < defs.len() && (defs[f as int] matches SpecDef::Func { locals, .. } && offset < locals.len() && locals[offset as int] == id) {
                        Some(data_type)
                    } else {
                        None
                    },
                    None => None,
                },
                SpecDef::Func { .. } => None,
            }
        } else {
            None
        },
        None => None,
    }
}

/// The type of an expression, if it is well-typed.
pub open spec fn expr_type(defs: Seq<SpecDef>, func: Option<usize>, e: SpecExpr) -> Option<DataType>
    decreases e,
{
    match e {
        SpecExpr::Literal(l) => Some(spec_literal_type(l)),
        SpecExpr::Var(r) => var_ref_type(defs, func, r.res),
        SpecExpr::UnaryMinus(inner) => match expr_type(defs, func, *inner) {
            Some(t) => if t.spec_is_numeric() {
                Some(t)
            } else {
                None
            },
            None => None,
        },
        SpecExpr::BinaryOp(op, l, r) => match expr_type(defs, func, *l) {
            Some(lt) => match expr_type(defs, func, *r) {
                Some(rt) => match bin_op_type(op, lt, rt) {
                    Ok(t) => Some(t),
                    Err(_) => None,
                },
                None => None,
            },
            None => None,
        },
        SpecExpr::Assign(a) => assign_type(defs, func, a),
        SpecExpr::Call(c) => call_ret_type(defs, func, c),
    }
}

/// The type of an assignment: the type of its variable.
pub open spec fn assign_type(defs: Seq<SpecDef>, func: Option<usize>, a: SpecAssign) -> Option<DataType>
    decreases a,
{
    match expr_type(defs, func, *a.rhs) {
        Some(rt) => match var_ref_type(defs, func, a.lhs.res) {
            Some(lt) => if spec_is_compatible(rt, lt) {
                Some(lt)
            } else {
                None
            },
            None => None,
        },
        None => None,
    }
}

/// The type of a call: the return type of its function.
pub open spec fn call_ret_type(defs: Seq<SpecDef>, func: Option<usize>, c: SpecCall) -> Option<DataType>
    decreases c,
{
    match exprs_types(defs, func, c.args) {
        Some(ts) => match c.callee.res {
            Some(id) => if id < defs.len() {
                match defs[id as int] {
                    SpecDef::Func { return_type, params, .. } => if call_type(
                        c.callee.name,
                        params,
                        return_type,
                        ts,
                    ) is Ok {
                        Some(return_type)
                    } else {
                        None
                    },
                    _ => None,
                }
            } else {
                None
            },
            None => None,
        },
        None => None,
    }
}

/// The types of some expressions, if all are well-typed.
pub open spec fn exprs_types(defs: Seq<SpecDef>, func: Option<usize>, es: Seq<SpecExpr>) -> Option<Seq<DataType>>
    decreases es,
{
    if es.len() == 0 {
        Some(Seq::empty())
    } else {
        match exprs_types(defs, func, es.drop_last()) {
            Some(ts) => match expr_type(defs, func, es.last()) {
                Some(t) => Some(ts.push(t)),
                None => None,
            },
            None => None,
        }
    }
}

// ---------------------------------------------------------------------------
// Statements.

/// Whether a variable definition is well-typed: it defines a variable, and
/// its initializer fits the variable's type.
pub open spec fn var_def_typed(defs: Seq<SpecDef>, func: Option<usize>, d: SpecVarDef) -> bool {
    match var_ref_type(defs, func, d.ident.res) {
        Some(t) => match d.init {
            Some(e) => expr_type(defs, func, e) matches Some(it) && spec_is_compatible(it, t),
            None => true,
        },
        None => false,
    }
}

/// The return type of a function.
pub open spec fn return_type_of(defs: Seq<SpecDef>, func: usize) -> DataType {
    match defs[func as int] {
        SpecDef::Func { return_type, .. } => return_type,
        _ => DataType::Void,
    }
}

/// Whether the initializer of a `for` statement is well-typed.
pub open spec fn for_init_typed(defs: Seq<SpecDef>, func: Option<usize>, init: SpecForInit) -> bool {
    match init {
        SpecForInit::VarDef(d) => var_def_typed(defs, func, d),
        SpecForInit::Assign(a) => assign_type(defs, func, a) is Some,
    }
}

/// Whether the expressions of a `print` statement are well-typed and none
/// has type `void`.
pub open spec fn print_typed(defs: Seq<SpecDef>, func: Option<usize>, es: Seq<SpecExpr>) -> bool
    decreases es.len(),
{
    if es.len() == 0 {
        true
    } else {
        print_typed(defs, func, es.drop_last()) && (expr_type(defs, func, es.last()) matches Some(t)
            && t != DataType::Void)
    }
}

/// Whether a statement in the body of `func` is well-typed.
pub open spec fn stmt_typed(defs: Seq<SpecDef>, func: usize, s: SpecStmt) -> bool
    decreases s,
{
    let f = Some(func);
    match s {
        SpecStmt::Empty => true,
        SpecStmt::If(c, t, e) => expr_type(defs, f, c) == Some(DataType::Bool) && stmt_typed(defs, func, *t)
            && match e {
            Some(b) => stmt_typed(defs, func, *b),
            None => true,
        },
        SpecStmt::For(init, c, u, b) => for_init_typed(defs, f, init) && expr_type(defs, f, c) == Some(
            DataType::Bool,
        ) && assign_type(defs, f, u) is Some && stmt_typed(defs, func, *b),
        SpecStmt::While(c, b) | SpecStmt::DoWhile(c, b) => expr_type(defs, f, c) == Some(DataType::Bool)
            && stmt_typed(defs, func, *b),
        SpecStmt::Return(e) => match e {
            Some(x) => expr_type(defs, f, x) matches Some(t) && return_type_of(defs, func) != DataType::Void
                && spec_is_compatible(t, return_type_of(defs, func)),
            None => true,
        },
        SpecStmt::Print(es) => print_typed(defs, f, es),
        SpecStmt::VarDef(d) => var_def_typed(defs, f, d),
        SpecStmt::Assign(a) => assign_type(defs, f, a) is Some,
        SpecStmt::Call(c) => call_ret_type(defs, f, c) is Some,
        SpecStmt::Block(ss) => stmts_typed(defs, func, ss),
    }
}

/// Whether statements in the body of `func` are well-typed.
pub open spec fn stmts_typed(defs: Seq<SpecDef>, func: usize, ss: Seq<SpecStmt>) -> bool
    decreases ss,
{
    if ss.len() == 0 {
        true
    } else {
        stmts_typed(defs, func, ss.drop_last()) && stmt_typed(defs, func, ss.last())
    }
}

// ---------------------------------------------------------------------------
// Programs.

/// Whether the definition `id`, if it is a function, fits its item: the
/// item is that function, its body is well-typed, and its local variables
/// are numbered in order, none `void`, its parameters first.
pub open spec fn func_def_typed(items: Seq<SpecItem>, defs: Seq<SpecDef>, id: usize) -> bool {
    match defs[id as int] {
        SpecDef::Func { params, item, locals, .. } => {
            &&& item < items.len()
            &&& items[item as int] matches SpecItem::Func(fd) && stmts_typed(defs, id, fd.body)
            &&& params.len() <= locals.len()
            &&& forall|k: int|
                0 <= k < locals.len() ==> {
                    &&& #[trigger] locals[k] < defs.len()
                    &&& defs[locals[k] as int] matches SpecDef::LocalVar { data_type, offset }
                    &&& offset == k
                    &&& data_type != DataType::Void
                    &&& k < params.len() ==> data_type == params[k]
                }
        },
        _ => true,
    }
}

/// Whether the definitions fit the items: every function does, and no two
/// global variables share a slot.
pub open spec fn defs_typed(items: Seq<SpecItem>, defs: Seq<SpecDef>) -> bool {
    &&& forall|id: usize| id < defs.len() ==> #[trigger] func_def_typed(items, defs, id)
    &&& forall|i: int, j: int|
        0 <= i < defs.len() && 0 <= j < defs.len() && #[trigger] defs[i] is GlobalVar && #[trigger] defs[j] is GlobalVar
            && defs[i]->GlobalVar_offset == defs[j]->GlobalVar_offset ==> i == j
}

/// Whether a program is well-typed: its definitions fit its items, the
/// global variables lie among the `globals` in order, each initialized by a
/// well-typed definition, and `main` is a function without parameters.
pub open spec fn program_typed(items: Seq<SpecItem>, defs: Seq<SpecDef>, globals: Seq<usize>, main: usize) -> bool {
    &&& defs_typed(items, defs)
    &&& forall|id: int| 0 <= id < defs.len() && (#[trigger] defs[id]) is GlobalVar ==> defs[id]->GlobalVar_offset < globals.len()
    &&& forall|i: int|
        0 <= i < globals.len() ==> #[trigger] globals[i] < items.len() && (items[globals[i] as int] matches SpecItem::GlobalVar(d)
            && var_def_typed(defs, None, d))
    &&& main < defs.len()
    &&& defs[main as int] matches SpecDef::Func { params, .. } && params.len() == 0
}

// ---------------------------------------------------------------------------
// More definitions keep a tree well-typed.

/// Whether a definition `y` extends `x`: a variable stays as it was; a
/// function keeps its signature and its item and may gain local variables.
pub open spec fn def_grows(x: SpecDef, y: SpecDef) -> bool {
    match x {
        SpecDef::Func { return_type, params, item, locals } => y matches SpecDef::Func {
            return_type: r2,
            params: p2,
            item: i2,
            locals: l2,
        } && r2 == return_type && p2 == params && i2 == item && locals.len() <= l2.len() && forall|k: int|
            0 <= k < locals.len() ==> #[trigger] l2[k] == locals[k],
        _ => y == x,
    }
}

/// Whether the definitions `b` extend `a`, one by one.
pub open spec fn grows(a: Seq<SpecDef>, b: Seq<SpecDef>) -> bool {
    &&& a.len() <= b.len()
    &&& forall|i: int| 0 <= i < a.len() ==> #[trigger] def_grows(a[i], b[i])
}

pub proof fn lemma_grows_refl(a: Seq<SpecDef>)
    ensures
        grows(a, a),
{
    assert forall|i: int| 0 <= i < a.len() implies #[trigger] def_grows(a[i], a[i]) by {
        if let SpecDef::Func { .. } = a[i] {}
    }
}

pub proof fn lemma_grows_trans(a: Seq<SpecDef>, b: Seq<SpecDef>, c: Seq<SpecDef>)
    requires
        grows(a, b),
        grows(b, c),
    ensures
        grows(a, c),
{
    assert forall|i: int| 0 <= i < a.len() implies #[trigger] def_grows(a[i], c[i]) by {
        assert(def_grows(a[i], b[i]));
        assert(def_grows(b[i], c[i]));
        if let SpecDef::Func { locals, .. } = a[i] {
            let l2 = b[i]->locals;
            let l3 = c[i]->locals;
            assert forall|k: int| 0 <= k < locals.len() implies #[trigger] l3[k] == locals[k] by {
                assert(l2[k] == locals[k]);
            }
        }
    }
}

proof fn lemma_var_ref_grows(a: Seq<SpecDef>, b: Seq<SpecDef>, func: Option<usize>, res: Option<usize>)
    requires
        grows(a, b),
        var_ref_type(a, func, res) is Some,
    ensures
        var_ref_type(b, func, res) == var_ref_type(a, func, res),
{
    let id = res->Some_0;
    assert(def_grows(a[id as int], b[id as int]));
    if let SpecDef::LocalVar { offset, .. } = a[id as int] {
        let f = func->Some_0;
        assert(def_grows(a[f as int], b[f as int]));
        let l2 = b[f as int]->locals;
        assert(l2[offset as int] == a[f as int]->locals[offset as int]);
    }
}

pub proof fn lemma_expr_grows(a: Seq<SpecDef>, b: Seq<SpecDef>, func: Option<usize>, e: SpecExpr)
    requires
        grows(a, b),
        expr_type(a, func, e) is Some,
    ensures
        expr_type(b, func, e) == expr_type(a, func, e),
    decreases e,
{
    match e {
        SpecExpr::Literal(_) => {},
        SpecExpr::Var(r) => lemma_var_ref_grows(a, b, func, r.res),
        SpecExpr::UnaryMinus(inner) => lemma_expr_grows(a, b, func, *inner),
        SpecExpr::BinaryOp(_, l, r) => {
            lemma_expr_grows(a, b, func, *l);
            lemma_expr_grows(a, b, func, *r);
        },
        SpecExpr::Assign(x) => lemma_assign_grows(a, b, func, x),
        SpecExpr::Call(c) => lemma_call_grows(a, b, func, c),
    }
}

pub proof fn lemma_assign_grows(a: Seq<SpecDef>, b: Seq<SpecDef>, func: Option<usize>, x: SpecAssign)
    requires
        grows(a, b),
        assign_type(a, func, x) is Some,
    ensures
        assign_type(b, func, x) == assign_type(a, func, x),
    decreases x,
{
    lemma_expr_grows(a, b, func, *x.rhs);
    lemma_var_ref_grows(a, b, func, x.lhs.res);
}

pub proof fn lemma_call_grows(a: Seq<SpecDef>, b: Seq<SpecDef>, func: Option<usize>, c: SpecCall)
    requires
        grows(a, b),
        call_ret_type(a, func, c) is Some,
    ensures
        call_ret_type(b, func, c) == call_ret_type(a, func, c),
    decreases c,
{
    lemma_exprs_grows(a, b, func, c.args);
    let id = c.callee.res->Some_0;
    assert(def_grows(a[id as int], b[id as int]));
}

pub proof fn lemma_exprs_grows(a: Seq<SpecDef>, b: Seq<SpecDef>, func: Option<usize>, es: Seq<SpecExpr>)
    requires
        grows(a, b),
        exprs_types(a, func, es) is Some,
    ensures
        exprs_types(b, func, es) == exprs_types(a, func, es),
    decreases es,
{
    if es.len() > 0 {
        lemma_exprs_grows(a, b, func, es.drop_last());
        lemma_expr_grows(a, b, func, es.last());
    }
}

pub proof fn lemma_var_def_grows(a: Seq<SpecDef>, b: Seq<SpecDef>, func: Option<usize>, d: SpecVarDef)
    requires
        grows(a, b),
        var_def_typed(a, func, d),
    ensures
        var_def_typed(b, func, d),
{
    lemma_var_ref_grows(a, b, func, d.ident.res);
    if let Some(e) = d.init {
        lemma_expr_grows(a, b, func, e);
    }
}

proof fn lemma_print_grows(a: Seq<SpecDef>, b: Seq<SpecDef>, func: Option<usize>, es: Seq<SpecExpr>)
    requires
        grows(a, b),
        print_typed(a, func, es),
    ensures
        print_typed(b, func, es),
    decreases es.len(),
{
    if es.len() > 0 {
        lemma_print_grows(a, b, func, es.drop_last());
        lemma_expr_grows(a, b, func, es.last());
    }
}

pub proof fn lemma_stmt_grows(a: Seq<SpecDef>, b: Seq<SpecDef>, func: usize, s: SpecStmt)
    requires
        grows(a, b),
        func < a.len(),
        stmt_typed(a, func, s),
    ensures
        stmt_typed(b, func, s),
    decreases s,
{
    let f = Some(func);
    assert(def_grows(a[func as int], b[func as int]));
    match s {
        SpecStmt::Empty => {},
        SpecStmt::If(c, t, e) => {
            lemma_expr_grows(a, b, f, c);
            lemma_stmt_grows(a, b, func, *t);
            if let Some(x) = e {
                lemma_stmt_grows(a, b, func, *x);
            }
        },
        SpecStmt::For(init, c, u, body) => {
            match init {
                SpecForInit::VarDef(d) => lemma_var_def_grows(a, b, f, d),
                SpecForInit::Assign(x) => lemma_assign_grows(a, b, f, x),
            }
            lemma_expr_grows(a, b, f, c);
            lemma_assign_grows(a, b, f, u);
            lemma_stmt_grows(a, b, func, *body);
        },
        SpecStmt::While(c, body) | SpecStmt::DoWhile(c, body) => {
            lemma_expr_grows(a, b, f, c);
            lemma_stmt_grows(a, b, func, *body);
        },
        SpecStmt::Return(e) => {
            if let Some(x) = e {
                lemma_expr_grows(a, b, f, x);
            }
        },
        SpecStmt::Print(es) => lemma_print_grows(a, b, f, es),
        SpecStmt::VarDef(d) => lemma_var_def_grows(a, b, f, d),
        SpecStmt::Assign(x) => lemma_assign_grows(a, b, f, x),
        SpecStmt::Call(c) => lemma_call_grows(a, b, f, c),
        SpecStmt::Block(ss) => lemma_stmts_grows(a, b, func, ss),
    }
}

pub proof fn lemma_stmts_grows(a: Seq<SpecDef>, b: Seq<SpecDef>, func: usize, ss: Seq<SpecStmt>)
    requires
        grows(a, b),
        func < a.len(),
        stmts_typed(a, func, ss),
    ensures
        stmts_typed(b, func, ss),
    decreases ss,
{
    if ss.len() > 0 {
        lemma_stmts_grows(a, b, func, ss.drop_last());
        lemma_stmt_grows(a, b, func, ss.last());
    }
}

} // verus!
