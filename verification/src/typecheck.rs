//! The analysis enforces the typing discipline: every program that it
//! accepts is well-typed ([`crate::typing::program_typed`]) in the tree it
//! resolved and the definitions it made.
//!
//! While a function body is analyzed, the scopes hold the function's local
//! variables above a global scope of functions and global variables; every
//! local variable sits in the slot that its offset names.
use vstd::prelude::*;
use crate::analysis::{
    lemma_check_items_len, lemma_define_funcs_resolve, lemma_resolve_in_defs, lemma_resolve_in_scopes,
    lemma_single_scope_defined,
};
use crate::ast::{
    DataType, SpecAssign, SpecCall, SpecExpr, SpecForInit, SpecFuncDef, SpecItem, SpecStmt, SpecVarDef,
};
use crate::resolution::{
    lemma_check_func_def, lemma_check_global_var_def, lemma_check_items, lemma_check_local_var_def,
    lemma_check_params, lemma_check_stmt, lemma_check_stmts,
};
use crate::semantics::{
    check_assign, check_call, check_cond, check_expr, check_exprs, check_local_var_def, check_param,
    check_params, check_print, check_stmt, check_stmts, check_var_init, check_for_init,
    check_func_def, check_global_var_def, check_items, check_main, current_return_type, define_funcs,
    var_type, analysis_of,
};
use crate::symtab::{SpecDef, SymtabView, law_define_then_resolve, lemma_define_steps, lemma_enter_wf, param_types_of};
use crate::typing::{
    assign_type, call_ret_type, def_grows, expr_type, exprs_types, grows, lemma_assign_grows,
    lemma_expr_grows, lemma_grows_refl, lemma_grows_trans, lemma_stmt_grows, lemma_stmts_grows,
    lemma_var_def_grows, print_typed, return_type_of, stmt_typed, stmts_typed, var_def_typed, var_ref_type,
    func_def_typed, defs_typed, program_typed,
};

verus! {

// ---------------------------------------------------------------------------
// The scopes while a body is analyzed.

/// Whether `id` is a local variable of the function `f`, in the slot that
/// its offset names.
pub open spec fn local_of(defs: Seq<SpecDef>, f: usize, id: usize) -> bool {
    &&& id < defs.len()
    &&& f < defs.len()
    &&& defs[id as int] matches SpecDef::LocalVar { offset, .. }
    &&& defs[f as int] matches SpecDef::Func { locals, .. }
    &&& offset < locals.len()
    &&& locals[offset as int] == id
}

/// Whether no variable has type `void`.
pub open spec fn vars_not_void(defs: Seq<SpecDef>) -> bool {
    forall|i: int|
        0 <= i < defs.len() ==> match #[trigger] defs[i] {
            SpecDef::GlobalVar { data_type, .. } => data_type != DataType::Void,
            SpecDef::LocalVar { data_type, .. } => data_type != DataType::Void,
            SpecDef::Func { .. } => true,
        }
}

/// Whether the local variables of `f` are local variables numbered in order.
pub open spec fn locals_ok(defs: Seq<SpecDef>, f: usize) -> bool {
    &&& f < defs.len()
    &&& defs[f as int] is Func
    &&& defs[f as int]->locals.len() <= defs.len()
    &&& forall|k: int|
        0 <= k < defs[f as int]->locals.len() ==> #[trigger] defs[f as int]->locals[k] < defs.len() && (
        defs[defs[f as int]->locals[k] as int] matches SpecDef::LocalVar { offset, .. } && offset == k)
}

/// The invariant of the scopes while the body of `func` is analyzed (or a
/// global variable, `None`): the global scope holds no local variable, and
/// every other scope holds local variables of `func`.
pub open spec fn scopes_ok(st: SymtabView, func: Option<usize>) -> bool {
    &&& st.wf()
    &&& vars_not_void(st.defs)
    &&& forall|j: int|
        0 <= j < st.scopes[0].len() ==> !(st.defs[(#[trigger] st.scopes[0][j]).1 as int] is LocalVar)
    &&& match func {
        None => st.scopes.len() == 1,
        Some(f) => {
            &&& st.current == Some(f)
            &&& st.scopes.len() >= 2
            &&& locals_ok(st.defs, f)
            &&& forall|i: int, j: int|
                1 <= i < st.scopes.len() && 0 <= j < st.scopes[i].len() ==> local_of(
                    st.defs,
                    f,
                    (#[trigger] st.scopes[i][j]).1,
                )
        },
    }
}

/// A name that denotes a variable here refers to it as the typing discipline
/// reads it.
proof fn lemma_resolve_var(st: SymtabView, func: Option<usize>, name: Seq<char>)
    requires
        scopes_ok(st, func),
        st.resolve(name) is Some,
        var_type(st.defs[st.resolve(name)->Some_0 as int]) is Some,
    ensures
        var_ref_type(st.defs, func, st.resolve(name)) == var_type(st.defs[st.resolve(name)->Some_0 as int]),
{
    let id = st.resolve(name)->Some_0;
    lemma_resolve_in_scopes(st.scopes, name);
    let (i, j) = choose|i: int, j: int|
        0 <= i < st.scopes.len() && 0 <= j < st.scopes[i].len() && #[trigger] st.scopes[i][j] == (name, id);
    assert(st.scopes[i][j].1 < st.defs.len());
    assert(match st.defs[id as int] {
        SpecDef::GlobalVar { data_type, .. } => data_type != DataType::Void,
        SpecDef::LocalVar { data_type, .. } => data_type != DataType::Void,
        SpecDef::Func { .. } => true,
    });
    if st.defs[id as int] is LocalVar {
        if i == 0 {
            assert(!(st.defs[st.scopes[0][j].1 as int] is LocalVar));
        } else {
            assert(local_of(st.defs, func->Some_0, st.scopes[i][j].1));
        }
    }
}

// ---------------------------------------------------------------------------
// Expressions.

proof fn lemma_check_expr_typed(st: SymtabView, func: Option<usize>, e: SpecExpr)
    requires
        scopes_ok(st, func),
    ensures
        check_expr(st, e).1 matches Ok(t) ==> expr_type(st.defs, func, check_expr(st, e).0) == Some(t),
    decreases e,
{
    match e {
        SpecExpr::Literal(_) => {},
        SpecExpr::Var(r) => {
            if let Some(id) = st.resolve(r.name) {
                if var_type(st.defs[id as int]) is Some {
                    lemma_resolve_var(st, func, r.name);
                }
            }
        },
        SpecExpr::UnaryMinus(inner) => lemma_check_expr_typed(st, func, *inner),
        SpecExpr::BinaryOp(_, l, r) => {
            lemma_check_expr_typed(st, func, *l);
            lemma_check_expr_typed(st, func, *r);
        },
        SpecExpr::Assign(a) => lemma_check_assign_typed(st, func, a),
        SpecExpr::Call(c) => lemma_check_call_typed(st, func, c),
    }
}

proof fn lemma_check_assign_typed(st: SymtabView, func: Option<usize>, a: SpecAssign)
    requires
        scopes_ok(st, func),
    ensures
        check_assign(st, a).1 matches Ok(t) ==> assign_type(st.defs, func, check_assign(st, a).0) == Some(t),
    decreases a,
{
    lemma_check_expr_typed(st, func, *a.rhs);
    if let Some(id) = st.resolve(a.lhs.name) {
        if var_type(st.defs[id as int]) is Some {
            lemma_resolve_var(st, func, a.lhs.name);
        }
    }
}

proof fn lemma_check_call_typed(st: SymtabView, func: Option<usize>, c: SpecCall)
    requires
        scopes_ok(st, func),
    ensures
        check_call(st, c).1 matches Ok(t) ==> call_ret_type(st.defs, func, check_call(st, c).0) == Some(t),
    decreases c,
{
    lemma_check_exprs_typed(st, func, c.args);
    lemma_resolve_in_defs(st, c.callee.name);
}

proof fn lemma_check_exprs_typed(st: SymtabView, func: Option<usize>, es: Seq<SpecExpr>)
    requires
        scopes_ok(st, func),
    ensures
        check_exprs(st, es).1 matches Ok(ts) ==> exprs_types(st.defs, func, check_exprs(st, es).0) == Some(ts),
    decreases es,
{
    if es.len() > 0 {
        lemma_check_exprs_typed(st, func, es.drop_last());
        lemma_check_expr_typed(st, func, es.last());
        let (init2, r) = check_exprs(st, es.drop_last());
        if r is Ok {
            let (e2, _) = check_expr(st, es.last());
            assert(init2.push(e2).drop_last() =~= init2);
        }
    }
}

// ---------------------------------------------------------------------------
// Steps inside a body.

/// A step of the analysis inside the body of `f`: the scopes stay valid, the
/// outer scopes and the global variables stay as they were, every other
/// definition stays as it was, `f` may gain local variables, and every new
/// definition is a local variable.
pub open spec fn body_step(a: SymtabView, b: SymtabView, f: usize) -> bool {
    &&& f < a.defs.len()
    &&& scopes_ok(b, Some(f))
    &&& b.scopes.len() == a.scopes.len()
    &&& b.scopes.drop_last() == a.scopes.drop_last()
    &&& b.globals == a.globals
    &&& grows(a.defs, b.defs)
    &&& forall|i: int| 0 <= i < a.defs.len() && i != f ==> #[trigger] b.defs[i] == a.defs[i]
    &&& forall|i: int| a.defs.len() <= i < b.defs.len() ==> #[trigger] b.defs[i] is LocalVar
}

proof fn lemma_body_refl(a: SymtabView, f: usize)
    requires
        scopes_ok(a, Some(f)),
    ensures
        body_step(a, a, f),
{
    lemma_grows_refl(a.defs);
}

proof fn lemma_body_trans(a: SymtabView, b: SymtabView, c: SymtabView, f: usize)
    requires
        body_step(a, b, f),
        body_step(b, c, f),
    ensures
        body_step(a, c, f),
{
    lemma_grows_trans(a.defs, b.defs, c.defs);
    assert forall|i: int| a.defs.len() <= i < c.defs.len() implies #[trigger] c.defs[i] is LocalVar by {
        if i < b.defs.len() {
            assert(b.defs[i] is LocalVar);
            assert(c.defs[i] == b.defs[i]);
        }
    }
}

proof fn lemma_enter(st: SymtabView, f: usize)
    requires
        scopes_ok(st, Some(f)),
    ensures
        scopes_ok(st.enter(), Some(f)),
        st.enter().scopes.drop_last() == st.scopes,
{
    lemma_enter_wf(st);
    let en = st.enter();
    assert(en.scopes.drop_last() =~= st.scopes);
    assert forall|i: int, j: int| 1 <= i < en.scopes.len() && 0 <= j < en.scopes[i].len() implies local_of(
        en.defs,
        f,
        (#[trigger] en.scopes[i][j]).1,
    ) by {
        assert(en.scopes[i] == st.scopes[i]);
    }
    assert(en.scopes[0] == st.scopes[0]);
}

proof fn lemma_leave(st: SymtabView, b: SymtabView, f: usize)
    requires
        scopes_ok(st, Some(f)),
        body_step(st.enter(), b, f),
    ensures
        body_step(st, b.leave(), f),
        b.leave().scopes == st.scopes,
{
    lemma_enter(st, f);
    let l = b.leave();
    assert(l.scopes == st.scopes);
    assert(l.scopes =~= b.scopes.drop_last());
    assert forall|i: int, j: int| 1 <= i < l.scopes.len() && 0 <= j < l.scopes[i].len() implies local_of(
        l.defs,
        f,
        (#[trigger] l.scopes[i][j]).1,
    ) by {
        assert(l.scopes[i] == b.scopes[i]);
    }
    assert(l.scopes[0] == b.scopes[0]);
}

/// Defining a local variable of `f` in the innermost scope.
proof fn lemma_define_local(st: SymtabView, f: usize, name: Seq<char>, t: DataType)
    requires
        scopes_ok(st, Some(f)),
        t != DataType::Void,
        st.define_local(name, t) is Some,
        st.defs.len() < usize::MAX,
    ensures
        ({
            let st2 = st.define_local(name, t)->Some_0;
            let id = st.defs.len() as usize;
            &&& body_step(st, st2, f)
            &&& st2.defs.len() == st.defs.len() + 1
            &&& id == st.defs.len()
            &&& st2.defs[id as int] == SpecDef::LocalVar { data_type: t, offset: st.defs[f as int]->locals.len() as usize }
            &&& st2.defs[f as int]->locals == st.defs[f as int]->locals.push(id)
            &&& var_ref_type(st2.defs, Some(f), Some(id)) == Some(t)
        }),
{
    let st2 = st.define_local(name, t)->Some_0;
    let id = st.defs.len() as usize;
    let locals = st.defs[f as int]->locals;
    let off = locals.len() as usize;
    let d = SpecDef::LocalVar { data_type: t, offset: off };
    let t1 = st.with_def(name, d);
    lemma_define_steps(st, name, t, Seq::empty(), 0);
    assert(st.steps_to(st2));
    if let SpecDef::Func { return_type, params, item, .. } = st.defs[f as int] {
        let fd2 = SpecDef::Func { return_type, params, item, locals: locals.push(id) };
        assert(st2.defs == t1.defs.update(f as int, fd2));
        assert(st2.defs[id as int] == d);
        assert(st2.defs[f as int] == fd2);
        assert forall|i: int| 0 <= i < st.defs.len() && i != f implies #[trigger] st2.defs[i] == st.defs[i] by {}
        // the innermost scope gains the new variable; the others stay
        assert(st2.scopes == st.scopes.update(st.scopes.len() - 1, st.scopes.last().push((name, id))));
        assert(st2.scopes.drop_last() =~= st.scopes.drop_last());
        assert(st2.scopes[0] == st.scopes[0]);
        assert forall|i: int| 0 <= i < st.defs.len() implies #[trigger] def_grows(st.defs[i], st2.defs[i]) by {
            if i == f {
                assert forall|k: int| 0 <= k < locals.len() implies #[trigger] locals.push(id)[k] == locals[k] by {}
            } else {
                if let SpecDef::Func { .. } = st.defs[i] {}
            }
        }
        assert(vars_not_void(st2.defs)) by {
            assert forall|i: int| 0 <= i < st2.defs.len() implies match #[trigger] st2.defs[i] {
                SpecDef::GlobalVar { data_type, .. } => data_type != DataType::Void,
                SpecDef::LocalVar { data_type, .. } => data_type != DataType::Void,
                SpecDef::Func { .. } => true,
            } by {
                if i < st.defs.len() && i != f {
                    assert(st2.defs[i] == st.defs[i]);
                }
            }
        }
        assert(locals_ok(st2.defs, f)) by {
            let l2 = locals.push(id);
            assert forall|k: int| 0 <= k < l2.len() implies #[trigger] st2.defs[f as int]->locals[k] < st2.defs.len() && (
            st2.defs[st2.defs[f as int]->locals[k] as int] matches SpecDef::LocalVar { offset, .. } && offset == k) by {
                if k < locals.len() {
                    assert(l2[k] == locals[k]);
                    assert(st.defs[f as int]->locals[k] < st.defs.len());
                    assert(locals[k] != f) by {
                        assert(st.defs[locals[k] as int] is LocalVar);
                    }
                    assert(st2.defs[locals[k] as int] == st.defs[locals[k] as int]);
                }
            }
        }
        assert forall|j: int| 0 <= j < st2.scopes[0].len() implies !(st2.defs[(#[trigger] st2.scopes[0][j]).1 as int] is LocalVar) by {
            assert(st2.scopes[0][j] == st.scopes[0][j]);
            let x = st.scopes[0][j].1;
            assert(x < st.defs.len());
            if x != f {
                assert(st2.defs[x as int] == st.defs[x as int]);
            }
        }
        assert forall|i: int, j: int| 1 <= i < st2.scopes.len() && 0 <= j < st2.scopes[i].len() implies local_of(
            st2.defs,
            f,
            (#[trigger] st2.scopes[i][j]).1,
        ) by {
            if i == st.scopes.len() - 1 && j == st.scopes.last().len() {
                assert(st2.scopes[i][j] == (name, id));
                assert(st2.defs[f as int]->locals[off as int] == id);
            } else {
                assert(st2.scopes[i][j] == st.scopes[i][j]);
                let x = st.scopes[i][j].1;
                assert(local_of(st.defs, f, x));
                let o = st.defs[x as int]->LocalVar_offset;
                assert(x != f);
                assert(st2.defs[x as int] == st.defs[x as int]);
                assert(locals.push(id)[o as int] == locals[o as int]);
            }
        }
    }
}

// ---------------------------------------------------------------------------
// Statements.

proof fn lemma_check_print_typed(st: SymtabView, func: Option<usize>, es: Seq<SpecExpr>)
    requires
        scopes_ok(st, func),
    ensures
        check_print(st, es).1 is Ok ==> print_typed(st.defs, func, check_print(st, es).0),
    decreases es.len(),
{
    if es.len() > 0 {
        lemma_check_print_typed(st, func, es.drop_last());
        lemma_check_expr_typed(st, func, es.last());
        let (init2, r) = check_print(st, es.drop_last());
        if r is Ok {
            let (e2, _) = check_expr(st, es.last());
            assert(init2.push(e2).drop_last() =~= init2);
        }
    }
}

proof fn lemma_check_local_var_def_typed(st: SymtabView, f: usize, d: SpecVarDef)
    requires
        scopes_ok(st, Some(f)),
    ensures
        check_local_var_def(st, d) matches (d2, Ok(st2)) ==> (st2.defs.len() <= usize::MAX ==> body_step(st, st2, f)
            && var_def_typed(st2.defs, Some(f), d2)),
{
    let (d1, r) = check_var_init(st, d, "local variable"@);
    if let Some(init) = d.init {
        lemma_check_expr_typed(st, Some(f), init);
    }
    if r is Ok {
        if let Some(st2) = st.define_local(d.ident.name, d.data_type) {
            if st2.defs.len() <= usize::MAX {
                lemma_define_local(st, f, d.ident.name, d.data_type);
                if let Some(i2) = d1.init {
                    lemma_expr_grows(st.defs, st2.defs, Some(f), i2);
                }
            }
        }
    }
}

proof fn lemma_check_stmt_typed(st: SymtabView, f: usize, s: SpecStmt)
    requires
        scopes_ok(st, Some(f)),
    ensures
        check_stmt(st, s) matches (s2, Ok(st2)) ==> (st2.defs.len() <= usize::MAX ==> body_step(st, st2, f)
            && stmt_typed(st2.defs, f, s2)),
    decreases s, 1nat,
{
    let fs = Some(f);
    lemma_body_refl(st, f);
    match s {
        SpecStmt::Empty => {},
        SpecStmt::If(..) => lemma_check_if_typed(st, f, s),
        SpecStmt::For(..) => lemma_check_for_typed(st, f, s),
        SpecStmt::While(c, b) | SpecStmt::DoWhile(c, b) => {
            lemma_check_expr_typed(st, fs, c);
            lemma_check_stmt_typed(st, f, *b);
            if let (b2, Ok(st2)) = check_stmt(st, *b) {
                if st2.defs.len() <= usize::MAX {
                    let c2 = check_expr(st, c).0;
                    if check_expr(st, c).1 is Ok {
                        lemma_expr_grows(st.defs, st2.defs, fs, c2);
                    }
                }
            }
        },
        SpecStmt::Return(e) => {
            if let Some(x) = e {
                lemma_check_expr_typed(st, fs, x);
            }
            assert(current_return_type(st) == return_type_of(st.defs, f));
        },
        SpecStmt::Print(es) => lemma_check_print_typed(st, fs, es),
        SpecStmt::VarDef(d) => lemma_check_local_var_def_typed(st, f, d),
        SpecStmt::Assign(a) => lemma_check_assign_typed(st, fs, a),
        SpecStmt::Call(c) => lemma_check_call_typed(st, fs, c),
        SpecStmt::Block(ss) => {
            lemma_enter(st, f);
            lemma_check_stmts_typed(st.enter(), f, ss);
            if let (ss2, Ok(st2)) = check_stmts(st.enter(), ss) {
                if st2.defs.len() <= usize::MAX {
                    lemma_leave(st, st2, f);
                }
            }
        },
    }
}

proof fn lemma_check_if_typed(st: SymtabView, f: usize, s: SpecStmt)
    requires
        scopes_ok(st, Some(f)),
        s is If,
    ensures
        check_stmt(st, s) matches (s2, Ok(st2)) ==> (st2.defs.len() <= usize::MAX ==> body_step(st, st2, f)
            && stmt_typed(st2.defs, f, s2)),
    decreases s, 0nat,
{
    let fs = Some(f);
    if let SpecStmt::If(c, t, e) = s {
        lemma_check_expr_typed(st, fs, c);
        let (c2, rc) = check_cond(st, c, "if"@);
        if rc is Ok {
            lemma_check_stmt_typed(st, f, *t);
            lemma_check_stmt(st, *t);
            if let (t2, Ok(st1)) = check_stmt(st, *t) {
                match e {
                    None => {
                        if st1.defs.len() <= usize::MAX {
                            lemma_expr_grows(st.defs, st1.defs, fs, c2);
                        }
                    },
                    Some(fb) => {
                        lemma_check_stmt(st1, *fb);
                        if let (f2, Ok(st2)) = check_stmt(st1, *fb) {
                            if st2.defs.len() <= usize::MAX {
                                lemma_check_stmt_typed(st1, f, *fb);
                                lemma_body_trans(st, st1, st2, f);
                                lemma_expr_grows(st.defs, st2.defs, fs, c2);
                                lemma_stmt_grows(st1.defs, st2.defs, f, t2);
                            }
                        }
                    },
                }
            }
        }
    }
}

proof fn lemma_check_for_typed(st: SymtabView, f: usize, s: SpecStmt)
    requires
        scopes_ok(st, Some(f)),
        s is For,
    ensures
        check_stmt(st, s) matches (s2, Ok(st2)) ==> (st2.defs.len() <= usize::MAX ==> body_step(st, st2, f)
            && stmt_typed(st2.defs, f, s2)),
    decreases s, 0nat,
{
    let fs = Some(f);
    if let SpecStmt::For(init, c, u, b) = s {
        let en = st.enter();
        lemma_enter(st, f);
        let (init2, ri) = check_for_init(en, init);
        match init {
            SpecForInit::VarDef(d) => {
                lemma_check_local_var_def_typed(en, f, d);
                lemma_check_local_var_def(en, d);
            },
            SpecForInit::Assign(a) => {
                lemma_check_assign_typed(en, fs, a);
                lemma_body_refl(en, f);
            },
        }
        if let Ok(st1) = ri {
            let (c2, rc) = check_cond(st1, c, "for loop"@);
            if rc is Ok {
                let (u2, ru) = check_assign(st1, u);
                if ru is Ok {
                    lemma_check_stmt(st1, *b);
                    if let (b2, Ok(st2)) = check_stmt(st1, *b) {
                        if st2.defs.len() <= usize::MAX {
                            assert(body_step(en, st1, f));
                            lemma_check_expr_typed(st1, fs, c);
                            lemma_check_assign_typed(st1, fs, u);
                            lemma_check_stmt_typed(st1, f, *b);
                            lemma_body_trans(en, st1, st2, f);
                            lemma_leave(st, st2, f);
                            match init2 {
                                SpecForInit::VarDef(d2) => lemma_var_def_grows(st1.defs, st2.defs, fs, d2),
                                SpecForInit::Assign(a2) => lemma_assign_grows(st1.defs, st2.defs, fs, a2),
                            }
                            lemma_expr_grows(st1.defs, st2.defs, fs, c2);
                            lemma_assign_grows(st1.defs, st2.defs, fs, u2);
                        }
                    }
                }
            }
        }
    }
}

proof fn lemma_check_stmts_typed(st: SymtabView, f: usize, ss: Seq<SpecStmt>)
    requires
        scopes_ok(st, Some(f)),
    ensures
        check_stmts(st, ss) matches (ss2, Ok(st2)) ==> (st2.defs.len() <= usize::MAX ==> body_step(st, st2, f)
            && stmts_typed(st2.defs, f, ss2)),
    decreases ss,
{
    lemma_body_refl(st, f);
    if ss.len() > 0 {
        lemma_check_stmts_typed(st, f, ss.drop_last());
        lemma_check_stmts(st, ss.drop_last());
        if let (init2, Ok(st1)) = check_stmts(st, ss.drop_last()) {
            lemma_check_stmt(st1, ss.last());
            if let (s2, Ok(st2)) = check_stmt(st1, ss.last()) {
                if st2.defs.len() <= usize::MAX {
                    lemma_check_stmt_typed(st1, f, ss.last());
                    lemma_body_trans(st, st1, st2, f);
                    lemma_stmts_grows(st1.defs, st2.defs, f, init2);
                    assert(init2.push(s2).drop_last() =~= init2);
                }
            }
        }
    }
}

/// Checking parameters defines them, in order, as the next local variables
/// of `f`, each with its type.
proof fn lemma_check_params_typed(st: SymtabView, f: usize, ps: Seq<(DataType, Seq<char>)>)
    requires
        scopes_ok(st, Some(f)),
    ensures
        check_params(st, ps) matches Ok(st2) ==> st2.defs.len() <= usize::MAX ==> {
            &&& body_step(st, st2, f)
            &&& st2.defs[f as int]->locals.len() == st.defs[f as int]->locals.len() + ps.len()
            &&& forall|k: int|
                0 <= k < ps.len() ==> #[trigger] st2.defs[st2.defs[f as int]->locals[st.defs[f as int]->locals.len()
                    + k] as int] == SpecDef::LocalVar { data_type: ps[k].0, offset: (st.defs[f as int]->locals.len() + k) as usize }
        },
    decreases ps.len(),
{
    lemma_body_refl(st, f);
    if ps.len() > 0 {
        lemma_check_params_typed(st, f, ps.drop_last());
        lemma_check_params(st, ps.drop_last());
        if let Ok(st1) = check_params(st, ps.drop_last()) {
            let (t, name) = ps.last();
            if let Ok(st2) = check_param(st1, ps.last()) {
                if st2.defs.len() <= usize::MAX {
                    lemma_define_local(st1, f, name, t);
                    lemma_body_trans(st, st1, st2, f);
                    let base = st.defs[f as int]->locals.len();
                    let l1 = st1.defs[f as int]->locals;
                    assert forall|k: int| 0 <= k < ps.len() implies #[trigger] st2.defs[st2.defs[f as int]->locals[base + k] as int]
                        == SpecDef::LocalVar { data_type: ps[k].0, offset: (base + k) as usize } by {
                        if k < ps.len() - 1 {
                            assert(ps.drop_last()[k] == ps[k]);
                            let x = l1[base + k];
                            assert(st1.defs[x as int] == SpecDef::LocalVar { data_type: ps[k].0, offset: (base + k) as usize });
                            assert(x < st1.defs.len());
                            assert(x != f);
                            assert(st2.defs[x as int] == st1.defs[x as int]);
                        }
                    }
                }
            }
        }
    }
}

// ---------------------------------------------------------------------------
// Registered functions.

/// The definition that registering the function item `f` at index `k` makes.
pub open spec fn func_def_of(f: SpecFuncDef, k: usize) -> SpecDef {
    SpecDef::Func { return_type: f.return_type, params: param_types_of(f.params), item: k, locals: Seq::empty() }
}

/// Whether `st` holds exactly the functions of `items`, registered in one
/// global scope: each function item's name denotes the definition made for
/// it, and each definition is one made for a function item.
pub open spec fn registered(st: SymtabView, items: Seq<SpecItem>) -> bool {
    &&& st.wf()
    &&& st.defs.len() <= items.len()
    &&& st.scopes.len() == 1
    &&& st.globals.len() == 0
    &&& forall|k: int|
        0 <= k < items.len() ==> (#[trigger] items[k] matches SpecItem::Func(f) ==> (st.resolve(f.name) matches Some(
            id,
        ) && id < st.defs.len() && st.defs[id as int] == func_def_of(f, k as usize)))
    &&& forall|id: usize|
        id < st.defs.len() ==> (#[trigger] st.defs[id as int] matches SpecDef::Func { item, .. } && item < items.len() && (
        items[item as int] matches SpecItem::Func(f) && st.resolve(f.name) == Some(id) && st.defs[id as int]
            == func_def_of(f, item)))
    &&& names_registered(st, items)
}

/// Whether every name that resolves denotes the function item of that name.
#[verifier::opaque]
pub open spec fn names_registered(st: SymtabView, items: Seq<SpecItem>) -> bool {
    forall|name: Seq<char>|
        #[trigger] st.resolve(name) is Some ==> st.resolve(name)->Some_0 < st.defs.len() && items[st.defs[st.resolve(
            name,
        )->Some_0 as int]->item as int]->Func_0.name == name
}

/// Whether every name that denotes a function in `st` denoted it already in
/// the table `st1` of registered functions.
#[verifier::opaque]
pub open spec fn funcs_named(st1: SymtabView, st: SymtabView) -> bool {
    forall|name: Seq<char>|
        #[trigger] st.resolve(name) is Some && st.defs[st.resolve(name)->Some_0 as int] is Func ==> st1.resolve(name)
            == st.resolve(name)
}

proof fn lemma_registered(items: Seq<SpecItem>)
    requires
        items.len() <= usize::MAX,
    ensures
        define_funcs(SymtabView::initial(), items) matches Ok(st) ==> registered(st, items),
    decreases items.len(), 1nat,
{
    lemma_registered_names(items);
    lemma_define_funcs_resolve(items);
    if items.len() > 0 {
        let prefix = items.drop_last();
        lemma_registered(prefix);
        lemma_define_funcs_resolve(prefix);
        if let Ok(st1) = define_funcs(SymtabView::initial(), prefix) {
            let k = (items.len() - 1) as usize;
            match items.last() {
                SpecItem::Func(f) => {
                    let d = func_def_of(f, k);
                    if let Some(st2) = st1.define_func(f.name, f.return_type, param_types_of(f.params), k) {
                        lemma_define_steps(st1, f.name, f.return_type, param_types_of(f.params), k);
                        law_define_then_resolve(st1, f.name, d, f.name);
                        assert(st2 == st1.with_def(f.name, d));
                        lemma_single_scope_defined(st1, f.name);
                        assert(st1.resolve(f.name) is None);
                        assert forall|j: int| 0 <= j < items.len() implies (#[trigger] items[j] matches SpecItem::Func(g) ==> (
                        st2.resolve(g.name) matches Some(id) && id < st2.defs.len() && st2.defs[id as int]
                            == func_def_of(g, j as usize))) by {
                            if j < prefix.len() {
                                assert(items[j] == prefix[j]);
                                if let SpecItem::Func(g) = items[j] {
                                    law_define_then_resolve(st1, f.name, d, g.name);
                                }
                            }
                        }
                        assert forall|id: usize| id < st2.defs.len() implies (#[trigger] st2.defs[id as int] matches SpecDef::Func {
                            item,
                            ..
                        } && item < items.len() && (items[item as int] matches SpecItem::Func(g) && st2.resolve(g.name)
                            == Some(id) && st2.defs[id as int] == func_def_of(g, item))) by {
                            if id < st1.defs.len() {
                                assert(st2.defs[id as int] == st1.defs[id as int]);
                                let item = st1.defs[id as int]->item;
                                assert(prefix[item as int] == items[item as int]);
                                let g = prefix[item as int]->Func_0;
                                law_define_then_resolve(st1, f.name, d, g.name);
                            }
                        }
                    }
                },
                SpecItem::GlobalVar(_) => {
                    assert forall|j: int| 0 <= j < items.len() implies (#[trigger] items[j] matches SpecItem::Func(g) ==> (
                    st1.resolve(g.name) matches Some(id) && id < st1.defs.len() && st1.defs[id as int]
                        == func_def_of(g, j as usize))) by {
                        if j < prefix.len() {
                            assert(items[j] == prefix[j]);
                        }
                    }
                    assert forall|id: usize| id < st1.defs.len() implies (#[trigger] st1.defs[id as int] matches SpecDef::Func {
                        item,
                        ..
                    } && item < items.len() && (items[item as int] matches SpecItem::Func(g) && st1.resolve(g.name)
                        == Some(id) && st1.defs[id as int] == func_def_of(g, item))) by {
                        let item = st1.defs[id as int]->item;
                        assert(prefix[item as int] == items[item as int]);
                    }
                },
            }
        }
    }
}

proof fn lemma_registered_names(items: Seq<SpecItem>)
    requires
        items.len() <= usize::MAX,
    ensures
        define_funcs(SymtabView::initial(), items) matches Ok(st) ==> names_registered(st, items),
    decreases items.len(), 0nat,
{
    reveal(names_registered);
    if items.len() == 0 {
        let st = SymtabView::initial();
        assert forall|name: Seq<char>| #[trigger] st.resolve(name) is None by {
            assert(st.scopes.drop_last().len() == 0);
            assert(crate::symtab::lookup(st.scopes.last(), name) is None);
            assert(crate::symtab::resolve_in(st.scopes.drop_last(), name) is None);
        }
    } else {
        let prefix = items.drop_last();
        lemma_registered_names(prefix);
        lemma_define_funcs_resolve(prefix);
        if let Ok(st1) = define_funcs(SymtabView::initial(), prefix) {
            let k = (items.len() - 1) as usize;
            assert forall|name: Seq<char>| #[trigger] st1.resolve(name) is Some implies st1.resolve(name)->Some_0
                < st1.defs.len() && items[st1.defs[st1.resolve(name)->Some_0 as int]->item as int]->Func_0.name == name by {
                let id = st1.resolve(name)->Some_0;
                lemma_resolve_in_defs(st1, name);
                lemma_registered(prefix);
                assert(st1.defs[id as int] is Func);
                let item = st1.defs[id as int]->item;
                assert(item < prefix.len());
                assert(prefix[item as int] == items[item as int]);
            }
            if let SpecItem::Func(f) = items.last() {
                let d = func_def_of(f, k);
                if let Some(st2) = st1.define_func(f.name, f.return_type, param_types_of(f.params), k) {
                    assert(st2 == st1.with_def(f.name, d));
                    assert forall|name: Seq<char>| #[trigger] st2.resolve(name) is Some implies st2.resolve(name)->Some_0
                        < st2.defs.len() && items[st2.defs[st2.resolve(name)->Some_0 as int]->item as int]->Func_0.name
                        == name by {
                        law_define_then_resolve(st1, f.name, d, name);
                        if name != f.name {
                            let id = st1.resolve(name)->Some_0;
                            assert(st2.defs[id as int] == st1.defs[id as int]);
                        }
                    }
                }
            }
        }
    }
}

/// Defining a global variable keeps the names of the functions.
proof fn lemma_funcs_named_global(st1: SymtabView, st: SymtabView, st2: SymtabView, name: Seq<char>, def: SpecDef)
    requires
        st.wf(),
        st.defs.len() < usize::MAX,
        funcs_named(st1, st),
        def is GlobalVar,
        st2.scopes == st.with_def(name, def).scopes,
        st2.defs == st.with_def(name, def).defs,
    ensures
        funcs_named(st1, st2),
{
    reveal(funcs_named);
    assert forall|n: Seq<char>| #[trigger] st2.resolve(n) is Some && st2.defs[st2.resolve(n)->Some_0 as int] is Func implies st1.resolve(n)
        == st2.resolve(n) by {
        law_define_then_resolve(st, name, def, n);
        assert(st2.resolve(n) == st.with_def(name, def).resolve(n));
        if n != name {
            lemma_resolve_in_defs(st, n);
            let id = st.resolve(n)->Some_0;
            assert(st2.defs[id as int] == st.defs[id as int]);
            assert(st.resolve(n) is Some && st.defs[st.resolve(n)->Some_0 as int] is Func);
        }
    }
}

/// Analysing a function body keeps the names of the functions.
proof fn lemma_funcs_named_body(st1: SymtabView, st: SymtabView, st2: SymtabView, fid: usize)
    requires
        st.wf(),
        funcs_named(st1, st),
        st2.scopes == st.scopes,
        fid < st.defs.len(),
        st.defs[fid as int] is Func,
        forall|i: int| 0 <= i < st.defs.len() && i != fid ==> #[trigger] st2.defs[i] == st.defs[i],
    ensures
        funcs_named(st1, st2),
{
    reveal(funcs_named);
    assert forall|n: Seq<char>| #[trigger] st2.resolve(n) is Some && st2.defs[st2.resolve(n)->Some_0 as int] is Func implies st1.resolve(n)
        == st2.resolve(n) by {
        assert(st2.resolve(n) == st.resolve(n));
        lemma_resolve_in_defs(st, n);
        let id = st.resolve(n)->Some_0;
        if id != fid {
            assert(st2.defs[id as int] == st.defs[id as int]);
        }
        assert(st.resolve(n) is Some && st.defs[st.resolve(n)->Some_0 as int] is Func);
    }
}

// ---------------------------------------------------------------------------
// Items.

/// Whether the global variables fit the items analyzed so far (`done`): each
/// has a slot of its own among `st.globals`, and each entry of `st.globals`
/// is a well-typed global variable item.
pub open spec fn globals_ok(done: Seq<SpecItem>, st: SymtabView) -> bool {
    &&& st.globals.len() <= st.defs.len()
    &&& forall|id: int|
        0 <= id < st.defs.len() && (#[trigger] st.defs[id]) is GlobalVar ==> st.defs[id]->GlobalVar_offset
            < st.globals.len()
    &&& forall|i: int, j: int|
        0 <= i < st.defs.len() && 0 <= j < st.defs.len() && #[trigger] st.defs[i] is GlobalVar && #[trigger] st.defs[j] is GlobalVar
            && st.defs[i]->GlobalVar_offset == st.defs[j]->GlobalVar_offset ==> i == j
    &&& forall|i: int|
        0 <= i < st.globals.len() ==> #[trigger] st.globals[i] < done.len() && (done[st.globals[i] as int] matches SpecItem::GlobalVar(d)
            && var_def_typed(st.defs, None, d))
}

/// The state of the function registered as `d1`, with id `id`, once the
/// items `done` are analyzed: if its item is among them, it fits it;
/// otherwise it has no local variables yet.
pub open spec fn func_state(done: Seq<SpecItem>, defs: Seq<SpecDef>, d1: SpecDef, id: usize) -> bool {
    &&& id < defs.len()
    &&& defs[id as int] matches SpecDef::Func { return_type, params, item, locals }
    &&& d1 matches SpecDef::Func { return_type: r1, params: p1, item: i1, .. }
    &&& return_type == r1 && params == p1 && item == i1
    &&& if item < done.len() {
        func_def_typed(done, defs, id)
    } else {
        locals.len() == 0
    }
}

/// The invariant of the analysis between items, after the items `done`
/// from the table `st1` of registered functions.
pub open spec fn items_ok(st1: SymtabView, done: Seq<SpecItem>, st: SymtabView) -> bool {
    &&& scopes_ok(st, None)
    &&& st.defs.len() >= st1.defs.len()
    &&& forall|name: Seq<char>| #[trigger] st1.resolve(name) is Some ==> st.resolve(name) == st1.resolve(name)
    &&& funcs_named(st1, st)
    &&& forall|i: int| st1.defs.len() <= i < st.defs.len() ==> !((#[trigger] st.defs[i]) is Func)
    &&& forall|id: usize| id < st1.defs.len() ==> #[trigger] func_state(done, st.defs, st1.defs[id as int], id)
    &&& globals_ok(done, st)
}

/// A checked function stays checked while the analysis goes on.
proof fn lemma_func_def_typed_step(done: Seq<SpecItem>, done2: Seq<SpecItem>, a: Seq<SpecDef>, b: Seq<SpecDef>, id: usize)
    requires
        func_def_typed(done, a, id),
        id < a.len(),
        a[id as int] is Func,
        grows(a, b),
        b[id as int] == a[id as int],
        done.len() <= done2.len(),
        forall|k: int| 0 <= k < done.len() ==> #[trigger] done2[k] == done[k],
    ensures
        func_def_typed(done2, b, id),
{
    if let SpecDef::Func { params, item, locals, .. } = a[id as int] {
        assert(done2[item as int] == done[item as int]);
        lemma_stmts_grows(a, b, id, done[item as int]->Func_0.body);
        assert forall|k: int| 0 <= k < locals.len() implies {
            &&& #[trigger] locals[k] < b.len()
            &&& b[locals[k] as int] matches SpecDef::LocalVar { data_type, offset }
            &&& offset == k
            &&& data_type != DataType::Void
            &&& k < params.len() ==> data_type == params[k]
        } by {
            assert(locals[k] < a.len());
            assert(def_grows(a[locals[k] as int], b[locals[k] as int]));
        }
    }
}

proof fn lemma_check_global_var_def_typed(st1: SymtabView, all: Seq<SpecItem>, done: Seq<SpecItem>, st: SymtabView, d: SpecVarDef)
    requires
        registered(st1, all),
        items_ok(st1, done, st),
        done.len() < all.len(),
        all[done.len() as int] == SpecItem::GlobalVar(d),
        all.len() <= usize::MAX,
    ensures
        check_global_var_def(st, d, done.len() as usize) matches (d2, Ok(st2)) ==> (st2.defs.len() <= usize::MAX
            ==> items_ok(st1, done.push(SpecItem::GlobalVar(d2)), st2)),
{
    let k = done.len() as usize;
    let (d1, r) = check_var_init(st, d, "global variable"@);
    if let Some(init) = d.init {
        lemma_check_expr_typed(st, None, init);
    }
    lemma_define_steps(st, d.ident.name, d.data_type, Seq::empty(), k);
    if let (d2, Ok(st2)) = check_global_var_def(st, d, k) {
        if st2.defs.len() <= usize::MAX {
            let id = st.defs.len() as usize;
            let def = SpecDef::GlobalVar { data_type: d.data_type, offset: st.globals.len() as usize };
            let done2 = done.push(SpecItem::GlobalVar(d2));
            assert(st2.defs == st.defs.push(def));
            assert(st2.globals == st.globals.push(k));
            assert(grows(st.defs, st2.defs)) by {
                assert forall|i: int| 0 <= i < st.defs.len() implies #[trigger] def_grows(st.defs[i], st2.defs[i]) by {
                    assert(st2.defs[i] == st.defs[i]);
                    if let SpecDef::Func { .. } = st.defs[i] {}
                }
            }
            assert(var_ref_type(st2.defs, None, Some(id)) == Some(d.data_type));
            if let Some(i2) = d1.init {
                lemma_expr_grows(st.defs, st2.defs, None, i2);
            }
            assert(var_def_typed(st2.defs, None, d2));
            // the scopes
            assert(st2.scopes[0] == st.scopes[0].push((d.ident.name, id)));
            assert(scopes_ok(st2, None)) by {
                assert forall|i: int| 0 <= i < st2.defs.len() implies match #[trigger] st2.defs[i] {
                    SpecDef::GlobalVar { data_type, .. } => data_type != DataType::Void,
                    SpecDef::LocalVar { data_type, .. } => data_type != DataType::Void,
                    SpecDef::Func { .. } => true,
                } by {
                    if i < st.defs.len() {
                        assert(st2.defs[i] == st.defs[i]);
                    }
                }
                assert forall|j: int| 0 <= j < st2.scopes[0].len() implies !(st2.defs[(#[trigger] st2.scopes[0][j]).1 as int] is LocalVar) by {
                    if j < st.scopes[0].len() {
                        assert(st2.scopes[0][j] == st.scopes[0][j]);
                        assert(st.scopes[0][j].1 < st.defs.len());
                    }
                }
            }
            assert forall|name: Seq<char>| #[trigger] st1.resolve(name) is Some implies st2.resolve(name) == st1.resolve(name) by {
                assert(st.resolve(name) is Some);
                lemma_single_scope_defined(st, name);
                law_define_then_resolve(st, d.ident.name, def, name);
            }
            lemma_funcs_named_global(st1, st, st2, d.ident.name, def);
            assert forall|id2: usize| id2 < st1.defs.len() implies #[trigger] func_state(done2, st2.defs, st1.defs[id2 as int], id2) by {
                assert(func_state(done, st.defs, st1.defs[id2 as int], id2));
                assert(st2.defs[id2 as int] == st.defs[id2 as int]);
                let item = st.defs[id2 as int]->item;
                assert(st1.defs[id2 as int] matches SpecDef::Func { .. });
                if item < done.len() {
                    assert forall|j: int| 0 <= j < done.len() implies #[trigger] done2[j] == done[j] by {}
                    lemma_func_def_typed_step(done, done2, st.defs, st2.defs, id2);
                } else {
                    assert(all[item as int] is Func);
                    assert(item != k);
                }
            }
            assert(globals_ok(done2, st2)) by {
                assert forall|i: int|
                    0 <= i < st2.globals.len() implies #[trigger] st2.globals[i] < done2.len() && (done2[st2.globals[i] as int] matches SpecItem::GlobalVar(x)
                        && var_def_typed(st2.defs, None, x)) by {
                    if i < st.globals.len() {
                        assert(st2.globals[i] == st.globals[i]);
                        let g = st.globals[i];
                        assert(done2[g as int] == done[g as int]);
                        lemma_var_def_grows(st.defs, st2.defs, None, done[g as int]->GlobalVar_0);
                    }
                }
                assert forall|i: int, j: int|
                    0 <= i < st2.defs.len() && 0 <= j < st2.defs.len() && #[trigger] st2.defs[i] is GlobalVar && #[trigger] st2.defs[j] is GlobalVar
                        && st2.defs[i]->GlobalVar_offset == st2.defs[j]->GlobalVar_offset implies i == j by {
                    if i < st.defs.len() {
                        assert(st2.defs[i] == st.defs[i]);
                        assert(st.defs[i] is GlobalVar);
                    }
                    if j < st.defs.len() {
                        assert(st2.defs[j] == st.defs[j]);
                        assert(st.defs[j] is GlobalVar);
                    }
                }
                assert forall|i: int| 0 <= i < st2.defs.len() && (#[trigger] st2.defs[i]) is GlobalVar implies st2.defs[i]->GlobalVar_offset
                    < st2.globals.len() by {
                    if i < st.defs.len() {
                        assert(st2.defs[i] == st.defs[i]);
                        assert(st.defs[i] is GlobalVar);
                    }
                }
            }
        }
    }
}

proof fn lemma_check_func_def_typed(st1: SymtabView, all: Seq<SpecItem>, done: Seq<SpecItem>, st: SymtabView, f: SpecFuncDef)
    requires
        registered(st1, all),
        items_ok(st1, done, st),
        done.len() < all.len(),
        all[done.len() as int] == SpecItem::Func(f),
        all.len() <= usize::MAX,
    ensures
        check_func_def(st, f) matches (f2, Ok(st2)) ==> (st2.defs.len() <= usize::MAX ==> items_ok(
            st1,
            done.push(SpecItem::Func(f2)),
            st2,
        )),
{
    let k = done.len() as usize;
    assert(all[k as int] matches SpecItem::Func(g) && g == f);
    let id = st1.resolve(f.name)->Some_0;
    assert(st1.defs[id as int] == func_def_of(f, k));
    assert(st.resolve(f.name) == Some(id));
    assert(func_state(done, st.defs, st1.defs[id as int], id));
    let a0 = st.with_current(id);
    let en = a0.enter();
    lemma_enter_wf(a0);
    assert(scopes_ok(en, Some(id))) by {
        assert(en.scopes[0] == st.scopes[0]);
        assert(en.scopes[1].len() == 0);
    }
    lemma_check_params_typed(en, id, f.params);
    lemma_check_params(en, f.params);
    if let Ok(stb) = check_params(en, f.params) {
        lemma_check_stmts(stb, f.body);
        let (body2, rb) = check_stmts(stb, f.body);
        if let Ok(stc) = rb {
            let st2 = stc.leave();
            if st2.defs.len() <= usize::MAX {
                lemma_check_stmts_typed(stb, id, f.body);
                lemma_body_trans(en, stb, stc, id);
                let f2 = SpecFuncDef { body: body2, ..f };
                let done2 = done.push(SpecItem::Func(f2));
                assert(check_func_def(st, f) == (f2, Ok::<SymtabView, Seq<char>>(st2)));
                // the scopes are those before the function
                assert(st2.scopes == stc.scopes.drop_last());
                assert(st2.scopes =~= st.scopes);
                assert(scopes_ok(st2, None)) by {
                    assert(st2.scopes[0] == stc.scopes[0]);
                }
                assert(grows(st.defs, st2.defs));
                assert forall|name: Seq<char>| #[trigger] st1.resolve(name) is Some implies st2.resolve(name) == st1.resolve(name) by {}
                assert forall|i: int| 0 <= i < st.defs.len() && i != id implies #[trigger] st2.defs[i] == st.defs[i] by {
                    assert(stc.defs[i] == en.defs[i]);
                }
                lemma_funcs_named_body(st1, st, st2, id);
                assert forall|i: int| st1.defs.len() <= i < st2.defs.len() implies !((#[trigger] st2.defs[i]) is Func) by {
                    if i < st.defs.len() {
                        assert(!(st.defs[i] is Func));
                        assert(i != id);
                        assert(st2.defs[i] == st.defs[i]);
                    }
                }
                assert forall|j: int| 0 <= j < done.len() implies #[trigger] done2[j] == done[j] by {}
                // the function itself
                assert(func_def_typed(done2, st2.defs, id)) by {
                    let lb = stb.defs[id as int]->locals;
                    let lc = st2.defs[id as int]->locals;
                    let params = param_types_of(f.params);
                    assert(def_grows(stb.defs[id as int], st2.defs[id as int]));
                    assert(def_grows(st.defs[id as int], st2.defs[id as int]));
                    assert(st.defs[id as int]->locals.len() == 0);
                    assert(en.defs == st.defs);
                    assert(lb.len() == f.params.len());
                    assert(st2.defs[id as int]->item == k);
                    assert(st2.defs[id as int]->params == params);
                    assert(done2[k as int] == SpecItem::Func(f2));
                    assert(stmts_typed(st2.defs, id, body2));
                    assert(params.len() <= lc.len());
                    assert(locals_ok(st2.defs, id));
                    assert(vars_not_void(st2.defs));
                    assert forall|j: int| 0 <= j < lc.len() implies {
                        &&& #[trigger] lc[j] < st2.defs.len()
                        &&& st2.defs[lc[j] as int] matches SpecDef::LocalVar { data_type, offset }
                        &&& offset == j
                        &&& data_type != DataType::Void
                        &&& j < params.len() ==> data_type == params[j]
                    } by {
                        assert(st2.defs[id as int]->locals[j] == lc[j]);
                        assert(match st2.defs[lc[j] as int] {
                            SpecDef::GlobalVar { data_type, .. } => data_type != DataType::Void,
                            SpecDef::LocalVar { data_type, .. } => data_type != DataType::Void,
                            SpecDef::Func { .. } => true,
                        });
                        if j < params.len() {
                            assert(lc[j] == lb[j]);
                            assert(stb.defs[lb[0 + j] as int] == SpecDef::LocalVar { data_type: f.params[j].0, offset: (0 + j) as usize });
                            assert(lb[j] < stb.defs.len());
                            assert(lb[j] != id);
                            assert(st2.defs[lb[j] as int] == stb.defs[lb[j] as int]);
                        }
                    }
                }
                assert(func_state(done2, st2.defs, st1.defs[id as int], id)) by {
                    assert(def_grows(st.defs[id as int], st2.defs[id as int]));
                    assert(st2.defs[id as int]->item == k);
                }
                assert forall|id2: usize| id2 < st1.defs.len() implies #[trigger] func_state(done2, st2.defs, st1.defs[id2 as int], id2) by {
                    assert(func_state(done, st.defs, st1.defs[id2 as int], id2));
                    if id2 != id {
                        assert(st2.defs[id2 as int] == st.defs[id2 as int]);
                        let item = st.defs[id2 as int]->item;
                        if item < done.len() {
                            lemma_func_def_typed_step(done, done2, st.defs, st2.defs, id2);
                        } else {
                            assert(item != k) by {
                                assert(st1.resolve(all[item as int]->Func_0.name) == Some(id2));
                            }
                        }
                    }
                }
                assert(globals_ok(done2, st2)) by {
                    assert forall|i: int| 0 <= i < st2.defs.len() && #[trigger] st2.defs[i] is GlobalVar implies i < st.defs.len()
                        && st2.defs[i] == st.defs[i] by {
                        if i < st.defs.len() && i != id {
                            assert(st2.defs[i] == st.defs[i]);
                        }
                    }
                    assert forall|i: int|
                        0 <= i < st2.globals.len() implies #[trigger] st2.globals[i] < done2.len() && (done2[st2.globals[i] as int] matches SpecItem::GlobalVar(x)
                            && var_def_typed(st2.defs, None, x)) by {
                        let g = st.globals[i];
                        assert(done2[g as int] == done[g as int]);
                        lemma_var_def_grows(st.defs, st2.defs, None, done[g as int]->GlobalVar_0);
                    }
                    assert forall|i: int, j: int|
                        0 <= i < st2.defs.len() && 0 <= j < st2.defs.len() && #[trigger] st2.defs[i] is GlobalVar && #[trigger] st2.defs[j] is GlobalVar
                            && st2.defs[i]->GlobalVar_offset == st2.defs[j]->GlobalVar_offset implies i == j by {
                        assert(st.defs[i] is GlobalVar);
                        assert(st.defs[j] is GlobalVar);
                    }
                    assert forall|i: int| 0 <= i < st2.defs.len() && (#[trigger] st2.defs[i]) is GlobalVar implies st2.defs[i]->GlobalVar_offset
                        < st2.globals.len() by {
                        assert(st.defs[i] is GlobalVar);
                    }
                }
            }
        }
    }
}

proof fn lemma_check_items_typed(st1: SymtabView, all: Seq<SpecItem>, items: Seq<SpecItem>)
    requires
        registered(st1, all),
        all.len() <= usize::MAX,
        items.len() <= all.len(),
        forall|k: int| 0 <= k < items.len() ==> #[trigger] items[k] == all[k],
    ensures
        check_items(st1, items) matches (done, Ok(st)) ==> (st.defs.len() <= usize::MAX ==> items_ok(st1, done, st)
            && done.len() == items.len()),
    decreases items.len(),
{
    lemma_check_items_len(st1, items);
    lemma_define_funcs_facts(st1, all);
    if items.len() == 0 {
        assert(items_ok(st1, Seq::empty(), st1)) by {
            reveal(funcs_named);
            assert forall|id: usize| id < st1.defs.len() implies #[trigger] func_state(
                Seq::empty(),
                st1.defs,
                st1.defs[id as int],
                id,
            ) by {
                assert(st1.defs[id as int] is Func);
            }
            assert forall|j: int| 0 <= j < st1.scopes[0].len() implies !(st1.defs[(#[trigger] st1.scopes[0][j]).1 as int] is LocalVar) by {
                assert(st1.scopes[0][j].1 < st1.defs.len());
                assert(st1.defs[st1.scopes[0][j].1 as int] is Func);
            }
            assert forall|i: int| 0 <= i < st1.defs.len() implies match #[trigger] st1.defs[i] {
                SpecDef::GlobalVar { data_type, .. } => data_type != DataType::Void,
                SpecDef::LocalVar { data_type, .. } => data_type != DataType::Void,
                SpecDef::Func { .. } => true,
            } by {
                assert(st1.defs[i] is Func);
            }
            assert forall|i: int| 0 <= i < st1.defs.len() && (#[trigger] st1.defs[i]) is GlobalVar implies st1.defs[i]->GlobalVar_offset
                < st1.globals.len() by {
                assert(st1.defs[i] is Func);
            }
            assert forall|i: int, j: int|
                0 <= i < st1.defs.len() && 0 <= j < st1.defs.len() && #[trigger] st1.defs[i] is GlobalVar && #[trigger] st1.defs[j] is GlobalVar
                    && st1.defs[i]->GlobalVar_offset == st1.defs[j]->GlobalVar_offset implies i == j by {
                assert(st1.defs[i] is Func);
            }
        }
    } else {
        let prefix = items.drop_last();
        let k = prefix.len();
        assert forall|j: int| 0 <= j < prefix.len() implies #[trigger] prefix[j] == all[j] by {
            assert(prefix[j] == items[j]);
        }
        lemma_check_items_typed(st1, all, prefix);
        lemma_check_items_len(st1, prefix);
        assert forall|j: int| 0 <= j < prefix.len() && (#[trigger] prefix[j]) is Func implies crate::analysis::func_resolves(
            st1,
            prefix[j]->Func_0.name,
        ) by {
            assert(prefix[j] == all[j]);
        }
        lemma_check_items(st1, prefix);
        assert(items.last() == all[k as int]);
        if let (init2, Ok(stp)) = check_items(st1, prefix) {
            match items.last() {
                SpecItem::GlobalVar(d) => {
                    lemma_check_global_var_def(stp, d, k as usize);
                    if let (d2, Ok(st2)) = check_global_var_def(stp, d, k as usize) {
                        if st2.defs.len() <= usize::MAX {
                            lemma_check_global_var_def_typed(st1, all, init2, stp, d);
                        }
                    }
                },
                SpecItem::Func(f) => {
                    let id = st1.resolve(f.name)->Some_0;
                    assert(stp.resolve(f.name) == Some(id));
                    assert(stp.defs[id as int] is Func);
                    lemma_check_func_def(stp, f);
                    if let (f2, Ok(st2)) = check_func_def(stp, f) {
                        if st2.defs.len() <= usize::MAX {
                            lemma_check_func_def_typed(st1, all, init2, stp, f);
                        }
                    }
                },
            }
        }
    }
}

/// What registering the functions gives, read for all items.
proof fn lemma_define_funcs_facts(st1: SymtabView, all: Seq<SpecItem>)
    requires
        registered(st1, all),
        all.len() <= usize::MAX,
    ensures
        forall|i: int| 0 <= i < st1.defs.len() ==> (#[trigger] st1.defs[i]) is Func,
        forall|k: int| 0 <= k < all.len() && (#[trigger] all[k]) is Func ==> crate::analysis::func_resolves(st1, all[k]->Func_0.name),
{
    assert forall|i: int| 0 <= i < st1.defs.len() implies (#[trigger] st1.defs[i]) is Func by {
        let id = i as usize;
        assert(id as int == i);
        assert(st1.defs[id as int] is Func);
    }
    assert forall|k: int| 0 <= k < all.len() && (#[trigger] all[k]) is Func implies crate::analysis::func_resolves(
        st1,
        all[k]->Func_0.name,
    ) by {
        assert(all[k] matches SpecItem::Func(f));
    }
}

/// Every program that the analysis accepts is well-typed, in the tree it
/// resolved and with the definitions it made (as long as there are no more
/// definitions than a `usize` counts).
pub proof fn law_analysis_establishes_typing(items: Seq<SpecItem>)
    requires
        items.len() <= usize::MAX,
    ensures
        analysis_of(items) matches (items2, Ok((st, main))) ==> (st.defs.len() <= usize::MAX ==> program_typed(
            items2,
            st.defs,
            st.globals,
            main,
        )),
{
    lemma_registered(items);
    if let Ok(st1) = define_funcs(SymtabView::initial(), items) {
        lemma_check_items_typed(st1, items, items);
        lemma_define_funcs_facts(st1, items);
        if let (items2, Ok(st)) = check_items(st1, items) {
            if let Ok(main) = check_main(st) {
                if st.defs.len() <= usize::MAX {
                    lemma_resolve_in_defs(st, "main"@);
                    assert forall|id: usize| id < st.defs.len() implies #[trigger] func_def_typed(items2, st.defs, id) by {
                        if id < st1.defs.len() {
                            assert(func_state(items2, st.defs, st1.defs[id as int], id));
                            assert(st1.defs[id as int]->item < items.len());
                        } else {
                            assert(!(st.defs[id as int] is Func));
                        }
                    }
                    assert(defs_typed(items2, st.defs));
                }
            }
        }
    }
}

/// The definition that the analysis records as `main` is the one made for
/// the program's function item named `main`.
pub(crate) proof fn lemma_main_item(items: Seq<SpecItem>)
    requires
        items.len() <= usize::MAX,
    ensures
        analysis_of(items) matches (items2, Ok((st, main))) ==> (st.defs.len() <= usize::MAX ==> (
        st.defs[main as int] matches SpecDef::Func { item, .. } && item < items2.len() && (items2[item as int] matches SpecItem::Func(f)
            && f.name == "main"@ && f.return_type == DataType::Void && f.params.len() == 0))),
{
    lemma_registered(items);
    crate::resolution::law_analysis_only_resolves(items);
    if let Ok(st1) = define_funcs(SymtabView::initial(), items) {
        lemma_check_items_typed(st1, items, items);
        lemma_define_funcs_facts(st1, items);
        if let (items2, Ok(st)) = check_items(st1, items) {
            if let Ok(main) = check_main(st) {
                if st.defs.len() <= usize::MAX {
                    reveal(funcs_named);
                    reveal(names_registered);
                    lemma_resolve_in_defs(st, "main"@);
                    assert(st.resolve("main"@) == Some(main));
                    assert(st.defs[main as int] is Func);
                    assert(st1.resolve("main"@) == Some(main));
                    assert(main < st1.defs.len());
                    assert(func_state(items2, st.defs, st1.defs[main as int], main));
                    let item = st1.defs[main as int]->item;
                    assert(st1.defs[main as int] matches SpecDef::Func { .. });
                    assert(items[item as int] matches SpecItem::Func(f) && st1.defs[main as int] == func_def_of(f, item));
                    let f = items[item as int]->Func_0;
                    assert(f.name == "main"@);
                    assert(crate::resolution::erase_items(items2)[item as int] == crate::resolution::erase_items(items)[item as int]);
                    assert(items2[item as int] matches SpecItem::Func(f2) && f2.name == f.name);
                }
            }
        }
    }
}

} // verus!
