//! Name resolution: the analysis changes a program only by resolving its
//! identifiers, and after a successful analysis every identifier of the
//! program refers to one of the program's definitions. A statement that
//! defines nothing in the current scope leaves every name resolving as
//! before.
use vstd::prelude::*;
use crate::ast::{
    SpecAssign, SpecCall, SpecExpr, SpecForInit, SpecItem, SpecResIdent, SpecStmt, SpecVarDef,
};
use crate::analysis::{
    func_resolves, funcs_resolve, lemma_define_funcs_resolve, lemma_resolve_in_defs,
    lemma_single_scope_defined,
};
use crate::semantics::{
    analysis_of, check_assign, check_call, check_cond, check_expr, check_exprs, check_for_init,
    check_func_def, check_global_var_def, check_items, check_local_var_def, check_param,
    check_params, check_print, check_stmt, check_stmts, check_var_init,
    define_funcs,
};
use crate::symtab::{
    SpecDef, SymtabView, law_define_then_resolve, lemma_define_steps, lemma_enter_wf,
    lemma_steps_enter_leave, lemma_steps_refl, lemma_steps_trans,
};

verus! {

// ---------------------------------------------------------------------------
// Resolved trees.

/// Whether an identifier refers to one of the first `n` definitions.
pub open spec fn ident_resolved(r: SpecResIdent, n: nat) -> bool {
    r.res matches Some(id) && id < n
}

/// Whether every identifier of an expression refers to one of the first `n`
/// definitions.
pub open spec fn expr_resolved(e: SpecExpr, n: nat) -> bool
    decreases e,
{
    match e {
        SpecExpr::Literal(_) => true,
        SpecExpr::Var(r) => ident_resolved(r, n),
        SpecExpr::UnaryMinus(inner) => expr_resolved(*inner, n),
        SpecExpr::BinaryOp(_, l, r) => expr_resolved(*l, n) && expr_resolved(*r, n),
        SpecExpr::Assign(a) => assign_resolved(a, n),
        SpecExpr::Call(c) => call_resolved(c, n),
    }
}

/// Whether every identifier of an assignment is resolved.
pub open spec fn assign_resolved(a: SpecAssign, n: nat) -> bool
    decreases a,
{
    ident_resolved(a.lhs, n) && expr_resolved(*a.rhs, n)
}

/// Whether every identifier of a call is resolved.
pub open spec fn call_resolved(c: SpecCall, n: nat) -> bool
    decreases c,
{
    ident_resolved(c.callee, n) && exprs_resolved(c.args, n)
}

/// Whether every identifier of some expressions is resolved.
pub open spec fn exprs_resolved(es: Seq<SpecExpr>, n: nat) -> bool
    decreases es,
{
    if es.len() == 0 {
        true
    } else {
        exprs_resolved(es.drop_last(), n) && expr_resolved(es.last(), n)
    }
}

/// Whether every identifier of a variable definition is resolved.
pub open spec fn var_def_resolved(d: SpecVarDef, n: nat) -> bool {
    ident_resolved(d.ident, n) && (d.init matches Some(e) ==> expr_resolved(e, n))
}

/// Whether every identifier of the initializer of a `for` statement is resolved.
pub open spec fn for_init_resolved(init: SpecForInit, n: nat) -> bool {
    match init {
        SpecForInit::VarDef(d) => var_def_resolved(d, n),
        SpecForInit::Assign(a) => assign_resolved(a, n),
    }
}

/// Whether every identifier of a statement is resolved.
pub open spec fn stmt_resolved(s: SpecStmt, n: nat) -> bool
    decreases s,
{
    match s {
        SpecStmt::Empty => true,
        SpecStmt::If(c, t, f) => expr_resolved(c, n) && stmt_resolved(*t, n) && match f {
            Some(b) => stmt_resolved(*b, n),
            None => true,
        },
        SpecStmt::For(init, c, u, b) => for_init_resolved(init, n) && expr_resolved(c, n) && assign_resolved(
            u,
            n,
        ) && stmt_resolved(*b, n),
        SpecStmt::While(c, b) | SpecStmt::DoWhile(c, b) => expr_resolved(c, n) && stmt_resolved(*b, n),
        SpecStmt::Return(e) => match e {
            Some(x) => expr_resolved(x, n),
            None => true,
        },
        SpecStmt::Print(es) => exprs_resolved(es, n),
        SpecStmt::VarDef(d) => var_def_resolved(d, n),
        SpecStmt::Assign(a) => assign_resolved(a, n),
        SpecStmt::Call(c) => call_resolved(c, n),
        SpecStmt::Block(ss) => stmts_resolved(ss, n),
    }
}

/// Whether every identifier of some statements is resolved.
pub open spec fn stmts_resolved(ss: Seq<SpecStmt>, n: nat) -> bool
    decreases ss,
{
    if ss.len() == 0 {
        true
    } else {
        stmts_resolved(ss.drop_last(), n) && stmt_resolved(ss.last(), n)
    }
}

/// Whether every identifier of an item is resolved.
pub open spec fn item_resolved(item: SpecItem, n: nat) -> bool {
    match item {
        SpecItem::GlobalVar(d) => var_def_resolved(d, n),
        SpecItem::Func(f) => stmts_resolved(f.body, n),
    }
}

/// Whether every identifier of a program is resolved.
pub open spec fn items_resolved(items: Seq<SpecItem>, n: nat) -> bool {
    forall|i: int| 0 <= i < items.len() ==> #[trigger] item_resolved(items[i], n)
}

// ---------------------------------------------------------------------------
// More definitions keep trees resolved.

proof fn lemma_expr_mono(e: SpecExpr, n: nat, n2: nat)
    requires
        expr_resolved(e, n),
        n <= n2,
    ensures
        expr_resolved(e, n2),
    decreases e,
{
    match e {
        SpecExpr::UnaryMinus(inner) => lemma_expr_mono(*inner, n, n2),
        SpecExpr::BinaryOp(_, l, r) => {
            lemma_expr_mono(*l, n, n2);
            lemma_expr_mono(*r, n, n2);
        },
        SpecExpr::Assign(a) => lemma_assign_mono(a, n, n2),
        SpecExpr::Call(c) => lemma_call_mono(c, n, n2),
        _ => {},
    }
}

proof fn lemma_assign_mono(a: SpecAssign, n: nat, n2: nat)
    requires
        assign_resolved(a, n),
        n <= n2,
    ensures
        assign_resolved(a, n2),
    decreases a,
{
    lemma_expr_mono(*a.rhs, n, n2);
}

proof fn lemma_call_mono(c: SpecCall, n: nat, n2: nat)
    requires
        call_resolved(c, n),
        n <= n2,
    ensures
        call_resolved(c, n2),
    decreases c,
{
    lemma_exprs_mono(c.args, n, n2);
}

proof fn lemma_exprs_mono(es: Seq<SpecExpr>, n: nat, n2: nat)
    requires
        exprs_resolved(es, n),
        n <= n2,
    ensures
        exprs_resolved(es, n2),
    decreases es,
{
    if es.len() > 0 {
        lemma_exprs_mono(es.drop_last(), n, n2);
        lemma_expr_mono(es.last(), n, n2);
    }
}

proof fn lemma_var_def_mono(d: SpecVarDef, n: nat, n2: nat)
    requires
        var_def_resolved(d, n),
        n <= n2,
    ensures
        var_def_resolved(d, n2),
{
    if let Some(e) = d.init {
        lemma_expr_mono(e, n, n2);
    }
}

proof fn lemma_stmt_mono(s: SpecStmt, n: nat, n2: nat)
    requires
        stmt_resolved(s, n),
        n <= n2,
    ensures
        stmt_resolved(s, n2),
    decreases s,
{
    match s {
        SpecStmt::Empty => {},
        SpecStmt::If(c, t, f) => {
            lemma_expr_mono(c, n, n2);
            lemma_stmt_mono(*t, n, n2);
            if let Some(b) = f {
                lemma_stmt_mono(*b, n, n2);
            }
        },
        SpecStmt::For(init, c, u, b) => {
            match init {
                SpecForInit::VarDef(d) => lemma_var_def_mono(d, n, n2),
                SpecForInit::Assign(a) => lemma_assign_mono(a, n, n2),
            }
            lemma_expr_mono(c, n, n2);
            lemma_assign_mono(u, n, n2);
            lemma_stmt_mono(*b, n, n2);
        },
        SpecStmt::While(c, b) | SpecStmt::DoWhile(c, b) => {
            lemma_expr_mono(c, n, n2);
            lemma_stmt_mono(*b, n, n2);
        },
        SpecStmt::Return(e) => {
            if let Some(x) = e {
                lemma_expr_mono(x, n, n2);
            }
        },
        SpecStmt::Print(es) => lemma_exprs_mono(es, n, n2),
        SpecStmt::VarDef(d) => lemma_var_def_mono(d, n, n2),
        SpecStmt::Assign(a) => lemma_assign_mono(a, n, n2),
        SpecStmt::Call(c) => lemma_call_mono(c, n, n2),
        SpecStmt::Block(ss) => lemma_stmts_mono(ss, n, n2),
    }
}

proof fn lemma_stmts_mono(ss: Seq<SpecStmt>, n: nat, n2: nat)
    requires
        stmts_resolved(ss, n),
        n <= n2,
    ensures
        stmts_resolved(ss, n2),
    decreases ss,
{
    if ss.len() > 0 {
        lemma_stmts_mono(ss.drop_last(), n, n2);
        lemma_stmt_mono(ss.last(), n, n2);
    }
}

// ---------------------------------------------------------------------------
// The checks resolve.

proof fn lemma_check_expr(st: SymtabView, e: SpecExpr)
    requires
        st.wf(),
    ensures
        check_expr(st, e).1 is Ok ==> expr_resolved(check_expr(st, e).0, st.defs.len()),
    decreases e,
{
    match e {
        SpecExpr::Var(r) => lemma_resolve_in_defs(st, r.name),
        SpecExpr::UnaryMinus(inner) => lemma_check_expr(st, *inner),
        SpecExpr::BinaryOp(_, l, r) => {
            lemma_check_expr(st, *l);
            lemma_check_expr(st, *r);
        },
        SpecExpr::Assign(a) => lemma_check_assign(st, a),
        SpecExpr::Call(c) => lemma_check_call(st, c),
        SpecExpr::Literal(_) => {},
    }
}

proof fn lemma_check_assign(st: SymtabView, a: SpecAssign)
    requires
        st.wf(),
    ensures
        check_assign(st, a).1 is Ok ==> assign_resolved(check_assign(st, a).0, st.defs.len()),
    decreases a,
{
    lemma_check_expr(st, *a.rhs);
    lemma_resolve_in_defs(st, a.lhs.name);
}

proof fn lemma_check_call(st: SymtabView, c: SpecCall)
    requires
        st.wf(),
    ensures
        check_call(st, c).1 is Ok ==> call_resolved(check_call(st, c).0, st.defs.len()),
    decreases c,
{
    lemma_check_exprs(st, c.args);
    lemma_resolve_in_defs(st, c.callee.name);
}

proof fn lemma_check_exprs(st: SymtabView, es: Seq<SpecExpr>)
    requires
        st.wf(),
    ensures
        check_exprs(st, es).1 is Ok ==> exprs_resolved(check_exprs(st, es).0, st.defs.len()),
    decreases es,
{
    if es.len() > 0 {
        lemma_check_exprs(st, es.drop_last());
        lemma_check_expr(st, es.last());
        let (init2, r) = check_exprs(st, es.drop_last());
        if r is Ok {
            let (e2, _) = check_expr(st, es.last());
            assert(init2.push(e2).drop_last() =~= init2);
        }
    }
}

proof fn lemma_check_print(st: SymtabView, es: Seq<SpecExpr>)
    requires
        st.wf(),
    ensures
        check_print(st, es).1 is Ok ==> exprs_resolved(check_print(st, es).0, st.defs.len()),
    decreases es.len(),
{
    if es.len() > 0 {
        lemma_check_print(st, es.drop_last());
        lemma_check_expr(st, es.last());
        let (init2, r) = check_print(st, es.drop_last());
        if r is Ok {
            let (e2, _) = check_expr(st, es.last());
            assert(init2.push(e2).drop_last() =~= init2);
        }
    }
}

proof fn lemma_check_var_init(st: SymtabView, d: SpecVarDef, kind: Seq<char>)
    requires
        st.wf(),
    ensures
        check_var_init(st, d, kind).1 is Ok ==> (check_var_init(st, d, kind).0.init matches Some(e)
            ==> expr_resolved(e, st.defs.len())),
        check_var_init(st, d, kind).0.ident == d.ident,
{
    if let Some(init) = d.init {
        lemma_check_expr(st, init);
    }
}

pub(crate) proof fn lemma_check_local_var_def(st: SymtabView, d: SpecVarDef)
    requires
        st.wf(),
        st.current is Some,
    ensures
        check_local_var_def(st, d) matches (d2, Ok(st2)) ==> st.steps_to(st2) && var_def_resolved(d2, st2.defs.len()),
{
    lemma_check_var_init(st, d, "local variable"@);
    lemma_define_steps(st, d.ident.name, d.data_type, Seq::empty(), 0);
    if let (d2, Ok(st2)) = check_local_var_def(st, d) {
        let (d1, _) = check_var_init(st, d, "local variable"@);
        if let Some(e) = d1.init {
            lemma_expr_mono(e, st.defs.len(), st2.defs.len());
        }
    }
}

pub(crate) proof fn lemma_check_stmt(st: SymtabView, s: SpecStmt)
    requires
        st.wf(),
        st.current is Some,
    ensures
        check_stmt(st, s) matches (s2, Ok(st2)) ==> st.steps_to(st2) && stmt_resolved(s2, st2.defs.len()),
    decreases s,
{
    lemma_steps_refl(st);
    match s {
        SpecStmt::Empty => {},
        SpecStmt::If(c, t, f) => {
            lemma_check_expr(st, c);
            lemma_check_stmt(st, *t);
            if let (c2, Ok(_)) = check_cond(st, c, "if"@) {
                if let (t2, Ok(st1)) = check_stmt(st, *t) {
                    lemma_expr_mono(c2, st.defs.len(), st1.defs.len());
                    match f {
                        None => {},
                        Some(fb) => {
                            lemma_check_stmt(st1, *fb);
                            if let (f2, Ok(st3)) = check_stmt(st1, *fb) {
                                lemma_steps_trans(st, st1, st3);
                                lemma_expr_mono(c2, st.defs.len(), st3.defs.len());
                                lemma_stmt_mono(t2, st1.defs.len(), st3.defs.len());
                            }
                        },
                    }
                }
            }
        },
        SpecStmt::For(init, c, u, b) => {
            let en = st.enter();
            lemma_enter_wf(st);
            lemma_steps_refl(en);
            match init {
                SpecForInit::VarDef(d) => lemma_check_local_var_def(en, d),
                SpecForInit::Assign(a) => lemma_check_assign(en, a),
            }
            if let (init2, Ok(st1)) = check_for_init(en, init) {
                assert(en.steps_to(st1));
                assert(for_init_resolved(init2, st1.defs.len()));
                lemma_check_expr(st1, c);
                lemma_check_assign(st1, u);
                lemma_check_stmt(st1, *b);
                if let (c2, Ok(_)) = check_cond(st1, c, "for loop"@) {
                    if let (u2, Ok(_)) = check_assign(st1, u) {
                        if let (b2, Ok(st2)) = check_stmt(st1, *b) {
                            lemma_steps_trans(en, st1, st2);
                            lemma_steps_enter_leave(st, st2);
                            lemma_expr_mono(c2, st1.defs.len(), st2.defs.len());
                            lemma_assign_mono(u2, st1.defs.len(), st2.defs.len());
                            match init2 {
                                SpecForInit::VarDef(d2) => lemma_var_def_mono(d2, st1.defs.len(), st2.defs.len()),
                                SpecForInit::Assign(a2) => lemma_assign_mono(a2, st1.defs.len(), st2.defs.len()),
                            }
                        }
                    }
                }
            }
        },
        SpecStmt::While(c, b) => {
            lemma_check_expr(st, c);
            lemma_check_stmt(st, *b);
            if let (c2, Ok(_)) = check_cond(st, c, "while loop"@) {
                if let (_, Ok(st1)) = check_stmt(st, *b) {
                    lemma_expr_mono(c2, st.defs.len(), st1.defs.len());
                }
            }
        },
        SpecStmt::DoWhile(c, b) => {
            lemma_check_expr(st, c);
            lemma_check_stmt(st, *b);
            if let (c2, Ok(_)) = check_cond(st, c, "do-while loop"@) {
                if let (_, Ok(st1)) = check_stmt(st, *b) {
                    lemma_expr_mono(c2, st.defs.len(), st1.defs.len());
                }
            }
        },
        SpecStmt::Return(e) => {
            if let Some(x) = e {
                lemma_check_expr(st, x);
            }
        },
        SpecStmt::Print(es) => lemma_check_print(st, es),
        SpecStmt::VarDef(d) => lemma_check_local_var_def(st, d),
        SpecStmt::Assign(a) => lemma_check_assign(st, a),
        SpecStmt::Call(c) => lemma_check_call(st, c),
        SpecStmt::Block(ss) => {
            let en = st.enter();
            lemma_enter_wf(st);
            lemma_check_stmts(en, ss);
            if let (_, Ok(st2)) = check_stmts(en, ss) {
                lemma_steps_enter_leave(st, st2);
            }
        },
    }
}

pub(crate) proof fn lemma_check_stmts(st: SymtabView, ss: Seq<SpecStmt>)
    requires
        st.wf(),
        st.current is Some,
    ensures
        check_stmts(st, ss) matches (ss2, Ok(st2)) ==> st.steps_to(st2) && stmts_resolved(ss2, st2.defs.len()),
    decreases ss,
{
    lemma_steps_refl(st);
    if ss.len() > 0 {
        lemma_check_stmts(st, ss.drop_last());
        if let (init2, Ok(st1)) = check_stmts(st, ss.drop_last()) {
            lemma_check_stmt(st1, ss.last());
            if let (s2, Ok(st2)) = check_stmt(st1, ss.last()) {
                lemma_steps_trans(st, st1, st2);
                lemma_stmts_mono(init2, st1.defs.len(), st2.defs.len());
                assert(init2.push(s2).drop_last() =~= init2);
            }
        }
    }
}

pub(crate) proof fn lemma_check_params(st: SymtabView, ps: Seq<(crate::ast::DataType, Seq<char>)>)
    requires
        st.wf(),
        st.current is Some,
    ensures
        check_params(st, ps) matches Ok(st2) ==> st.steps_to(st2),
    decreases ps.len(),
{
    lemma_steps_refl(st);
    if ps.len() > 0 {
        lemma_check_params(st, ps.drop_last());
        if let Ok(st1) = check_params(st, ps.drop_last()) {
            let (t, name) = ps.last();
            lemma_define_steps(st1, name, t, Seq::empty(), 0);
            if let Ok(st2) = check_param(st1, ps.last()) {
                lemma_steps_trans(st, st1, st2);
            }
        }
    }
}

/// A step of the analysis from one item to the next: the table stays
/// well-formed with one scope, keeps its definitions and functions, and
/// every name resolves as before.
pub open spec fn item_step(a: SymtabView, b: SymtabView) -> bool {
    &&& b.wf()
    &&& b.scopes.len() == 1
    &&& b.defs.len() >= a.defs.len()
    &&& forall|i: int| 0 <= i < a.defs.len() && a.defs[i] is Func ==> #[trigger] b.defs[i] is Func
    &&& forall|name: Seq<char>| #[trigger] a.resolve(name) is Some ==> b.resolve(name) == a.resolve(name)
}

pub(crate) proof fn lemma_check_func_def(st: SymtabView, f: crate::ast::SpecFuncDef)
    requires
        st.wf(),
        st.scopes.len() == 1,
        func_resolves(st, f.name),
    ensures
        check_func_def(st, f) matches (f2, Ok(st2)) ==> item_step(st, st2) && stmts_resolved(f2.body, st2.defs.len()),
{
    let id = st.resolve(f.name)->Some_0;
    let a0 = st.with_current(id);
    let en = a0.enter();
    lemma_enter_wf(a0);
    lemma_check_params(en, f.params);
    if let Ok(st1) = check_params(en, f.params) {
        lemma_check_stmts(st1, f.body);
        if let (_, Ok(st3)) = check_stmts(st1, f.body) {
            lemma_steps_trans(en, st1, st3);
            lemma_steps_enter_leave(a0, st3);
            assert(st3.leave().scopes == st.scopes);
        }
    }
}

pub(crate) proof fn lemma_check_global_var_def(st: SymtabView, d: SpecVarDef, item: usize)
    requires
        st.wf(),
        st.scopes.len() == 1,
    ensures
        check_global_var_def(st, d, item) matches (d2, Ok(st2)) ==> item_step(st, st2) && var_def_resolved(
            d2,
            st2.defs.len(),
        ),
{
    lemma_check_var_init(st, d, "global variable"@);
    lemma_define_steps(st, d.ident.name, d.data_type, Seq::empty(), item);
    if let (d2, Ok(st2)) = check_global_var_def(st, d, item) {
        let (d1, _) = check_var_init(st, d, "global variable"@);
        if let Some(e) = d1.init {
            lemma_expr_mono(e, st.defs.len(), st2.defs.len());
        }
        let def = SpecDef::GlobalVar { data_type: d.data_type, offset: st.globals.len() as usize };
        assert forall|name: Seq<char>| #[trigger] st.resolve(name) is Some implies st2.resolve(name) == st.resolve(name) by {
            lemma_single_scope_defined(st, name);
            law_define_then_resolve(st, d.ident.name, def, name);
        }
    }
}

pub(crate) proof fn lemma_check_items(st: SymtabView, items: Seq<SpecItem>)
    requires
        st.wf(),
        st.scopes.len() == 1,
        funcs_resolve(st, items),
    ensures
        check_items(st, items) matches (items2, Ok(st2)) ==> item_step(st, st2) && items_resolved(items2, st2.defs.len()),
    decreases items.len(),
{
    if items.len() > 0 {
        let prefix = items.drop_last();
        assert forall|k: int| 0 <= k < prefix.len() && (#[trigger] prefix[k]) is Func implies func_resolves(
            st,
            prefix[k]->Func_0.name,
        ) by {
            assert(prefix[k] == items[k]);
        }
        lemma_check_items(st, prefix);
        if let (init2, Ok(st1)) = check_items(st, prefix) {
            let k = items.len() - 1;
            assert(items[k] == items.last());
            match items.last() {
                SpecItem::GlobalVar(d) => {
                    lemma_check_global_var_def(st1, d, k as usize);
                    if let (d2, Ok(st2)) = check_global_var_def(st1, d, k as usize) {
                        let all = init2.push(SpecItem::GlobalVar(d2));
                        assert forall|i: int| 0 <= i < all.len() implies #[trigger] item_resolved(all[i], st2.defs.len()) by {
                            if i < init2.len() {
                                assert(all[i] == init2[i]);
                                assert(item_resolved(init2[i], st1.defs.len()));
                                match init2[i] {
                                    SpecItem::GlobalVar(x) => lemma_var_def_mono(x, st1.defs.len(), st2.defs.len()),
                                    SpecItem::Func(x) => lemma_stmts_mono(x.body, st1.defs.len(), st2.defs.len()),
                                }
                            }
                        }
                    }
                },
                SpecItem::Func(f) => {
                    let id = st.resolve(f.name)->Some_0;
                    assert(func_resolves(st, f.name));
                    assert(st1.resolve(f.name) == Some(id));
                    assert(st1.defs[id as int] is Func);
                    lemma_check_func_def(st1, f);
                    if let (f2, Ok(st2)) = check_func_def(st1, f) {
                        let all = init2.push(SpecItem::Func(f2));
                        assert forall|i: int| 0 <= i < all.len() implies #[trigger] item_resolved(all[i], st2.defs.len()) by {
                            if i < init2.len() {
                                assert(all[i] == init2[i]);
                                assert(item_resolved(init2[i], st1.defs.len()));
                                match init2[i] {
                                    SpecItem::GlobalVar(x) => lemma_var_def_mono(x, st1.defs.len(), st2.defs.len()),
                                    SpecItem::Func(x) => lemma_stmts_mono(x.body, st1.defs.len(), st2.defs.len()),
                                }
                            }
                        }
                    }
                },
            }
        }
    }
}

/// After a successful analysis, every identifier of the program refers to
/// one of the program's definitions.
pub proof fn law_analysis_resolves_all(items: Seq<SpecItem>)
    requires
        items.len() <= usize::MAX,
    ensures
        analysis_of(items) matches (items2, Ok((st, _))) ==> items_resolved(items2, st.defs.len()),
{
    lemma_define_funcs_resolve(items);
    if let Ok(st1) = define_funcs(SymtabView::initial(), items) {
        lemma_check_items(st1, items);
    }
}

// ---------------------------------------------------------------------------
// The analysis only resolves identifiers.

/// The identifier without its resolution.
pub open spec fn bare(r: SpecResIdent) -> SpecResIdent {
    SpecResIdent { name: r.name, res: None }
}

/// The expression with every resolution removed.
pub open spec fn erase_expr(e: SpecExpr) -> SpecExpr
    decreases e,
{
    match e {
        SpecExpr::Literal(_) => e,
        SpecExpr::Var(r) => SpecExpr::Var(bare(r)),
        SpecExpr::UnaryMinus(inner) => SpecExpr::UnaryMinus(Box::new(erase_expr(*inner))),
        SpecExpr::BinaryOp(op, l, r) => SpecExpr::BinaryOp(op, Box::new(erase_expr(*l)), Box::new(erase_expr(*r))),
        SpecExpr::Assign(a) => SpecExpr::Assign(erase_assign(a)),
        SpecExpr::Call(c) => SpecExpr::Call(erase_call(c)),
    }
}

/// The assignment with every resolution removed.
pub open spec fn erase_assign(a: SpecAssign) -> SpecAssign
    decreases a,
{
    SpecAssign { lhs: bare(a.lhs), rhs: Box::new(erase_expr(*a.rhs)) }
}

/// The call with every resolution removed.
pub open spec fn erase_call(c: SpecCall) -> SpecCall
    decreases c,
{
    SpecCall { callee: bare(c.callee), args: erase_exprs(c.args) }
}

/// The expressions with every resolution removed.
pub open spec fn erase_exprs(es: Seq<SpecExpr>) -> Seq<SpecExpr>
    decreases es,
{
    if es.len() == 0 {
        es
    } else {
        erase_exprs(es.drop_last()).push(erase_expr(es.last()))
    }
}

/// The variable definition with every resolution removed.
pub open spec fn erase_var_def(d: SpecVarDef) -> SpecVarDef {
    SpecVarDef {
        data_type: d.data_type,
        ident: bare(d.ident),
        init: match d.init {
            Some(e) => Some(erase_expr(e)),
            None => None,
        },
    }
}

/// The initializer of a `for` statement with every resolution removed.
pub open spec fn erase_for_init(init: SpecForInit) -> SpecForInit {
    match init {
        SpecForInit::VarDef(d) => SpecForInit::VarDef(erase_var_def(d)),
        SpecForInit::Assign(a) => SpecForInit::Assign(erase_assign(a)),
    }
}

/// The statement with every resolution removed.
pub open spec fn erase_stmt(s: SpecStmt) -> SpecStmt
    decreases s,
{
    match s {
        SpecStmt::Empty => s,
        SpecStmt::If(c, t, f) => SpecStmt::If(
            erase_expr(c),
            Box::new(erase_stmt(*t)),
            match f {
                Some(b) => Some(Box::new(erase_stmt(*b))),
                None => None,
            },
        ),
        SpecStmt::For(init, c, u, b) => SpecStmt::For(
            erase_for_init(init),
            erase_expr(c),
            erase_assign(u),
            Box::new(erase_stmt(*b)),
        ),
        SpecStmt::While(c, b) => SpecStmt::While(erase_expr(c), Box::new(erase_stmt(*b))),
        SpecStmt::DoWhile(c, b) => SpecStmt::DoWhile(erase_expr(c), Box::new(erase_stmt(*b))),
        SpecStmt::Return(e) => SpecStmt::Return(
            match e {
                Some(x) => Some(erase_expr(x)),
                None => None,
            },
        ),
        SpecStmt::Print(es) => SpecStmt::Print(erase_exprs(es)),
        SpecStmt::VarDef(d) => SpecStmt::VarDef(erase_var_def(d)),
        SpecStmt::Assign(a) => SpecStmt::Assign(erase_assign(a)),
        SpecStmt::Call(c) => SpecStmt::Call(erase_call(c)),
        SpecStmt::Block(ss) => SpecStmt::Block(erase_stmts(ss)),
    }
}

/// The statements with every resolution removed.
pub open spec fn erase_stmts(ss: Seq<SpecStmt>) -> Seq<SpecStmt>
    decreases ss,
{
    if ss.len() == 0 {
        ss
    } else {
        erase_stmts(ss.drop_last()).push(erase_stmt(ss.last()))
    }
}

/// The item with every resolution removed.
pub open spec fn erase_item(item: SpecItem) -> SpecItem {
    match item {
        SpecItem::GlobalVar(d) => SpecItem::GlobalVar(erase_var_def(d)),
        SpecItem::Func(f) => SpecItem::Func(crate::ast::SpecFuncDef { body: erase_stmts(f.body), ..f }),
    }
}

/// The program with every resolution removed.
pub open spec fn erase_items(items: Seq<SpecItem>) -> Seq<SpecItem> {
    Seq::new(items.len(), |i: int| erase_item(items[i]))
}

proof fn lemma_erase_check_expr(st: SymtabView, e: SpecExpr)
    ensures
        erase_expr(check_expr(st, e).0) == erase_expr(e),
    decreases e,
{
    match e {
        SpecExpr::UnaryMinus(inner) => lemma_erase_check_expr(st, *inner),
        SpecExpr::BinaryOp(_, l, r) => {
            lemma_erase_check_expr(st, *l);
            lemma_erase_check_expr(st, *r);
        },
        SpecExpr::Assign(a) => lemma_erase_check_assign(st, a),
        SpecExpr::Call(c) => lemma_erase_check_call(st, c),
        _ => {},
    }
}

proof fn lemma_erase_check_assign(st: SymtabView, a: SpecAssign)
    ensures
        erase_assign(check_assign(st, a).0) == erase_assign(a),
    decreases a,
{
    lemma_erase_check_expr(st, *a.rhs);
}

proof fn lemma_erase_check_call(st: SymtabView, c: SpecCall)
    ensures
        erase_call(check_call(st, c).0) == erase_call(c),
    decreases c,
{
    lemma_erase_check_exprs(st, c.args);
}

proof fn lemma_erase_check_exprs(st: SymtabView, es: Seq<SpecExpr>)
    ensures
        erase_exprs(check_exprs(st, es).0) == erase_exprs(es),
    decreases es,
{
    if es.len() > 0 {
        lemma_erase_check_exprs(st, es.drop_last());
        lemma_erase_check_expr(st, es.last());
        let (init2, r) = check_exprs(st, es.drop_last());
        match r {
            Err(_) => {
                assert(init2.push(es.last()).drop_last() =~= init2);
            },
            Ok(_) => {
                let (e2, _) = check_expr(st, es.last());
                assert(init2.push(e2).drop_last() =~= init2);
            },
        }
    }
}

proof fn lemma_erase_check_print(st: SymtabView, es: Seq<SpecExpr>)
    ensures
        erase_exprs(check_print(st, es).0) == erase_exprs(es),
    decreases es.len(),
{
    if es.len() > 0 {
        lemma_erase_check_print(st, es.drop_last());
        lemma_erase_check_expr(st, es.last());
        let (init2, r) = check_print(st, es.drop_last());
        match r {
            Err(_) => {
                assert(init2.push(es.last()).drop_last() =~= init2);
            },
            Ok(_) => {
                let (e2, _) = check_expr(st, es.last());
                assert(init2.push(e2).drop_last() =~= init2);
            },
        }
    }
}

proof fn lemma_erase_check_var_init(st: SymtabView, d: SpecVarDef, kind: Seq<char>)
    ensures
        erase_var_def(check_var_init(st, d, kind).0) == erase_var_def(d),
{
    if let Some(e) = d.init {
        lemma_erase_check_expr(st, e);
    }
}

proof fn lemma_erase_check_local_var_def(st: SymtabView, d: SpecVarDef)
    ensures
        erase_var_def(check_local_var_def(st, d).0) == erase_var_def(d),
{
    lemma_erase_check_var_init(st, d, "local variable"@);
}

proof fn lemma_erase_check_stmt(st: SymtabView, s: SpecStmt)
    ensures
        erase_stmt(check_stmt(st, s).0) == erase_stmt(s),
    decreases s,
{
    match s {
        SpecStmt::If(c, t, f) => {
            lemma_erase_check_expr(st, c);
            lemma_erase_check_stmt(st, *t);
            if let (_, Ok(st1)) = check_stmt(st, *t) {
                if let Some(b) = f {
                    lemma_erase_check_stmt(st1, *b);
                }
            }
        },
        SpecStmt::For(init, c, u, b) => {
            let en = st.enter();
            match init {
                SpecForInit::VarDef(d) => lemma_erase_check_local_var_def(en, d),
                SpecForInit::Assign(a) => lemma_erase_check_assign(en, a),
            }
            if let (_, Ok(st1)) = check_for_init(en, init) {
                lemma_erase_check_expr(st1, c);
                lemma_erase_check_assign(st1, u);
                lemma_erase_check_stmt(st1, *b);
            }
        },
        SpecStmt::While(c, b) | SpecStmt::DoWhile(c, b) => {
            lemma_erase_check_expr(st, c);
            lemma_erase_check_stmt(st, *b);
        },
        SpecStmt::Return(e) => {
            if let Some(x) = e {
                lemma_erase_check_expr(st, x);
            }
        },
        SpecStmt::Print(es) => lemma_erase_check_print(st, es),
        SpecStmt::VarDef(d) => lemma_erase_check_local_var_def(st, d),
        SpecStmt::Assign(a) => lemma_erase_check_assign(st, a),
        SpecStmt::Call(c) => lemma_erase_check_call(st, c),
        SpecStmt::Block(ss) => lemma_erase_check_stmts(st.enter(), ss),
        SpecStmt::Empty => {},
    }
}

proof fn lemma_erase_check_stmts(st: SymtabView, ss: Seq<SpecStmt>)
    ensures
        erase_stmts(check_stmts(st, ss).0) == erase_stmts(ss),
    decreases ss,
{
    if ss.len() > 0 {
        lemma_erase_check_stmts(st, ss.drop_last());
        let (init2, r) = check_stmts(st, ss.drop_last());
        match r {
            Err(_) => {
                assert(init2.push(ss.last()).drop_last() =~= init2);
            },
            Ok(st1) => {
                lemma_erase_check_stmt(st1, ss.last());
                let (s2, _) = check_stmt(st1, ss.last());
                assert(init2.push(s2).drop_last() =~= init2);
            },
        }
    }
}

proof fn lemma_erase_check_items(st: SymtabView, items: Seq<SpecItem>)
    ensures
        erase_items(check_items(st, items).0) == erase_items(items),
    decreases items.len(),
{
    crate::analysis::lemma_check_items_len(st, items);
    if items.len() > 0 {
        let prefix = items.drop_last();
        lemma_erase_check_items(st, prefix);
        crate::analysis::lemma_check_items_len(st, prefix);
        let (init2, r) = check_items(st, prefix);
        let res = check_items(st, items).0;
        let k = items.len() - 1;
        assert(res.drop_last() =~= init2);
        assert(erase_item(res[k]) == erase_item(items[k])) by {
            if let Ok(st1) = r {
                match items.last() {
                    SpecItem::GlobalVar(d) => {
                        lemma_erase_check_var_init(st1, d, "global variable"@);
                    },
                    SpecItem::Func(f) => {
                        if let Some(id) = st1.resolve(f.name) {
                            if let Ok(st2) = check_params(st1.with_current(id).enter(), f.params) {
                                lemma_erase_check_stmts(st2, f.body);
                            }
                        }
                    },
                }
            }
        }
        assert forall|i: int| 0 <= i < items.len() implies #[trigger] erase_items(res)[i] == erase_items(items)[i] by {
            if i < k {
                assert(res[i] == init2[i]);
                assert(erase_items(init2)[i] == erase_items(prefix)[i]);
                assert(prefix[i] == items[i]);
            }
        }
        assert(erase_items(res) =~= erase_items(items));
    }
}

/// The analysis changes a program only by resolving its identifiers: with
/// the resolutions removed, the program it gives back is the program it was
/// given, whether it accepts the program or not.
pub proof fn law_analysis_only_resolves(items: Seq<SpecItem>)
    ensures
        erase_items(analysis_of(items).0) == erase_items(items),
{
    if let Ok(st1) = define_funcs(SymtabView::initial(), items) {
        lemma_erase_check_items(st1, items);
    }
}

// ---------------------------------------------------------------------------
// Statements and the names they leave visible.

/// Whether a statement defines a name in the current scope: a variable
/// definition, or a branch or loop body that is one (blocks and `for`
/// statements have a scope of their own).
pub open spec fn defines_in_scope(s: SpecStmt) -> bool
    decreases s,
{
    match s {
        SpecStmt::VarDef(_) => true,
        SpecStmt::If(_, t, f) => defines_in_scope(*t) || match f {
            Some(b) => defines_in_scope(*b),
            None => false,
        },
        SpecStmt::While(_, b) | SpecStmt::DoWhile(_, b) => defines_in_scope(*b),
        _ => false,
    }
}

proof fn lemma_check_stmt_scopes(st: SymtabView, s: SpecStmt)
    requires
        st.wf(),
        st.current is Some,
        !defines_in_scope(s),
    ensures
        check_stmt(st, s) matches (_, Ok(st2)) ==> st2.scopes == st.scopes,
    decreases s,
{
    match s {
        SpecStmt::If(c, t, f) => {
            lemma_check_stmt_scopes(st, *t);
            lemma_check_stmt(st, *t);
            if let (_, Ok(st1)) = check_stmt(st, *t) {
                if let Some(b) = f {
                    lemma_check_stmt_scopes(st1, *b);
                }
            }
        },
        SpecStmt::For(init, c, u, b) => {
            let en = st.enter();
            lemma_enter_wf(st);
            assert(en.scopes.drop_last() =~= st.scopes);
            lemma_steps_refl(en);
            if let SpecForInit::VarDef(d) = init {
                lemma_check_local_var_def(en, d);
            }
            if let (_, Ok(st1)) = check_for_init(en, init) {
                lemma_check_stmt(st1, *b);
                if let (_, Ok(st2)) = check_stmt(st1, *b) {
                    lemma_steps_trans(en, st1, st2);
                }
            }
        },
        SpecStmt::While(_, b) | SpecStmt::DoWhile(_, b) => lemma_check_stmt_scopes(st, *b),
        SpecStmt::Block(ss) => {
            let en = st.enter();
            lemma_enter_wf(st);
            assert(en.scopes.drop_last() =~= st.scopes);
            lemma_check_stmts(en, ss);
        },
        _ => {},
    }
}

/// Analysing a statement that defines nothing in the current scope leaves
/// every name resolving as before: the definitions of a block or a `for`
/// statement are no longer visible after it.
pub proof fn law_statement_keeps_names(st: SymtabView, s: SpecStmt, name: Seq<char>)
    requires
        st.wf(),
        st.current is Some,
        !defines_in_scope(s),
    ensures
        check_stmt(st, s) matches (_, Ok(st2)) ==> st2.resolve(name) == st.resolve(name),
{
    lemma_check_stmt_scopes(st, s);
}

} // verus!
