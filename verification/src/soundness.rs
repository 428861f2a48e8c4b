//! Type soundness: a well-typed program ([`crate::typing`]) runs without ever
//! meeting a value or a variable that does not fit its analysis. Its run
//! prints its output or stops with a genuine run-time error, never with
//! [`msg_invalid`].
//!
//! The proof keeps an invariant on the state of a run: every variable holds
//! a value of its declared type or none, and the innermost frame is the
//! frame of the function whose body runs.
use vstd::prelude::*;
use crate::ast::{BinOp, DataType, SpecAssign, SpecCall, SpecExpr, SpecForInit, SpecResIdent, SpecStmt, SpecVarDef};
use crate::dynamics::{
    Ctx, State, apply_bin_op, cast, eval_args, eval_assign, eval_call, eval_expr, exec_stmt,
    exec_stmts, exec_var_def, init_globals, law_call_keeps_caller_frames, load_var, main_call,
    msg_invalid, msg_no_return, msg_step_limit, msg_uninit, print_values, reset_var, returning,
    run_do_while, run_for, run_program, run_while, store_var, bind_params,
};
use crate::runtime::{
    FloatModel, SpecValue, SpecVar, VmView, msg_div_zero, msg_neg_overflow, msg_overflow, value_type,
};
use crate::semantics::{analysis_of, bin_op_type, first_mismatch, spec_is_compatible, spec_least_upper_bound};
use crate::symtab::SpecDef;
use crate::typecheck::law_analysis_establishes_typing;
use crate::typing::{
    assign_type, call_ret_type, defs_typed, expr_type, exprs_types, func_def_typed,
    print_typed, program_typed, return_type_of, stmt_typed, stmts_typed, var_def_typed, var_ref_type,
};

verus! {

// ---------------------------------------------------------------------------
// Messages.

/// The run-time errors are told apart from the message for a program that
/// does not fit its analysis.
proof fn lemma_messages_differ(name: Seq<char>, t: DataType, lhs: i64, op: BinOp, rhs: i64)
    ensures
        msg_uninit(name) != msg_invalid(),
        msg_no_return(name, t) != msg_invalid(),
        msg_step_limit() != msg_invalid(),
        msg_div_zero(lhs) != msg_invalid(),
        msg_overflow(lhs, op, rhs) != msg_invalid(),
        msg_neg_overflow() != msg_invalid(),
{
    reveal_strlit("program does not match its analysis");
    reveal_strlit("attempted to read uninitialized variable ");
    reveal_strlit("function ");
    reveal_strlit("evaluation step limit exceeded");
    reveal_strlit("attempted to divide ");
    reveal_strlit("overflow computing `");
    reveal_strlit("overflow negating minimum int");
    assert(msg_invalid()[0] == 'p');
    assert(msg_uninit(name)[0] == 'a');
    assert(msg_no_return(name, t)[0] == 'f');
    assert(msg_step_limit()[0] == 'e');
    assert(msg_div_zero(lhs)[0] == 'a');
    assert(msg_overflow(lhs, op, rhs)[0] == 'o');
    assert(msg_neg_overflow()[0] == 'o');
}

// ---------------------------------------------------------------------------
// The invariant of a run.

/// Whether a variable holds a value of type `t`, or none.
pub open spec fn var_holds<F>(v: SpecVar<F>, t: DataType) -> bool {
    v matches Some(x) ==> value_type(x) == t
}

/// Whether every global variable has a slot that holds a value of its type.
pub open spec fn globals_hold<F>(defs: Seq<SpecDef>, vm: VmView<F>) -> bool {
    forall|id: int|
        0 <= id < defs.len() && (#[trigger] defs[id]) is GlobalVar ==> defs[id]->GlobalVar_offset < vm.globals.len()
            && var_holds(vm.globals[defs[id]->GlobalVar_offset as int], defs[id]->GlobalVar_data_type)
}

/// Whether `frame` is a frame of `func`: one slot per local variable, each
/// holding a value of the variable's type.
pub open spec fn frame_holds<F>(defs: Seq<SpecDef>, func: usize, frame: Seq<SpecVar<F>>) -> bool {
    &&& func < defs.len()
    &&& defs[func as int] is Func
    &&& frame.len() == defs[func as int]->locals.len()
    &&& forall|k: int|
        0 <= k < frame.len() ==> var_holds(
            #[trigger] frame[k],
            defs[defs[func as int]->locals[k] as int]->LocalVar_data_type,
        )
}

/// The invariant while code of `func` (or the initializers of the global
/// variables, `None`) runs: the variables hold values of their types, the
/// innermost frame belongs to `func`, and no `return` is under way.
pub open spec fn state_holds<F>(defs: Seq<SpecDef>, func: Option<usize>, s: State<F>) -> bool {
    &&& globals_hold(defs, s.vm)
    &&& s.vm.ret is None
    &&& func matches Some(f) ==> s.vm.frames.len() > 0 && frame_holds(defs, f, s.vm.frames.last())
}

/// Whether a `return` under way carries a value that fits the return type
/// of `func`.
pub open spec fn ret_holds<F>(defs: Seq<SpecDef>, func: usize, ret: Option<SpecVar<F>>) -> bool {
    ret matches Some(Some(v)) ==> return_type_of(defs, func) != DataType::Void && spec_is_compatible(
        value_type(v),
        return_type_of(defs, func),
    )
}

/// The invariant after a statement of `func`: as [`state_holds`], but a
/// `return` may be under way.
pub open spec fn stmt_holds<F>(defs: Seq<SpecDef>, func: usize, s: State<F>) -> bool {
    &&& globals_hold(defs, s.vm)
    &&& s.vm.frames.len() > 0
    &&& frame_holds(defs, func, s.vm.frames.last())
    &&& ret_holds(defs, func, s.vm.ret)
}

// ---------------------------------------------------------------------------
// Values.

proof fn lemma_cast<F>(m: FloatModel<F>, v: SpecValue<F>, t: DataType)
    requires
        spec_is_compatible(value_type(v), t),
    ensures
        value_type(cast(m, v, t)) == t,
{
}

/// The operands of a well-typed operator are not `void`; those of `&&` and
/// `||` are `bool`.
proof fn lemma_operands(op: BinOp, l: DataType, r: DataType)
    requires
        bin_op_type(op, l, r) is Ok,
    ensures
        l != DataType::Void,
        r != DataType::Void,
        bin_op_type(op, l, r)->Ok_0 != DataType::Void,
        op == BinOp::LogAnd || op == BinOp::LogOr ==> l == DataType::Bool && r == DataType::Bool
            && bin_op_type(op, l, r)->Ok_0 == DataType::Bool,
{
}

proof fn lemma_bin_op<F>(m: FloatModel<F>, op: BinOp, l: SpecValue<F>, r: SpecValue<F>)
    requires
        bin_op_type(op, value_type(l), value_type(r)) is Ok,
        op != BinOp::LogAnd,
        op != BinOp::LogOr,
    ensures
        match apply_bin_op(m, op, l, r) {
            Ok(v) => value_type(v) == bin_op_type(op, value_type(l), value_type(r))->Ok_0,
            Err(msg) => msg != msg_invalid(),
        },
{
    let c = spec_least_upper_bound(value_type(l), value_type(r))->Some_0;
    lemma_cast(m, l, c);
    lemma_cast(m, r, c);
    if let (SpecValue::Int(x), SpecValue::Int(y)) = (cast(m, l, c), cast(m, r, c)) {
        lemma_messages_differ(Seq::empty(), DataType::Void, x, op, y);
    }
}

/// Arguments that match their parameters one by one.
proof fn lemma_no_mismatch(args: Seq<DataType>, params: Seq<DataType>)
    requires
        first_mismatch(args, params) is None,
    ensures
        forall|i: int| 0 <= i < args.len() ==> spec_is_compatible(#[trigger] args[i], params[i]),
    decreases args.len(),
{
    if args.len() > 0 {
        lemma_no_mismatch(args.drop_last(), params);
        assert forall|i: int| 0 <= i < args.len() implies spec_is_compatible(#[trigger] args[i], params[i]) by {
            if i < args.len() - 1 {
                assert(args.drop_last()[i] == args[i]);
            }
        }
    }
}

proof fn lemma_exprs_types(defs: Seq<SpecDef>, func: Option<usize>, es: Seq<SpecExpr>)
    requires
        exprs_types(defs, func, es) is Some,
    ensures
        exprs_types(defs, func, es)->Some_0.len() == es.len(),
        forall|i: int|
            0 <= i < es.len() ==> expr_type(defs, func, #[trigger] es[i]) == Some(
                exprs_types(defs, func, es)->Some_0[i],
            ),
    decreases es.len(),
{
    if es.len() > 0 {
        lemma_exprs_types(defs, func, es.drop_last());
        assert forall|i: int| 0 <= i < es.len() implies expr_type(defs, func, #[trigger] es[i]) == Some(
            exprs_types(defs, func, es)->Some_0[i],
        ) by {
            if i < es.len() - 1 {
                assert(es.drop_last()[i] == es[i]);
            }
        }
    }
}

proof fn lemma_print_typed(defs: Seq<SpecDef>, func: Option<usize>, es: Seq<SpecExpr>)
    requires
        print_typed(defs, func, es),
    ensures
        forall|i: int|
            0 <= i < es.len() ==> (expr_type(defs, func, #[trigger] es[i]) matches Some(t) && t != DataType::Void),
    decreases es.len(),
{
    if es.len() > 0 {
        lemma_print_typed(defs, func, es.drop_last());
        assert forall|i: int| 0 <= i < es.len() implies (expr_type(defs, func, #[trigger] es[i]) matches Some(t)
            && t != DataType::Void) by {
            if i < es.len() - 1 {
                assert(es.drop_last()[i] == es[i]);
            }
        }
    }
}

// ---------------------------------------------------------------------------
// Variables.

proof fn lemma_load<F>(c: Ctx, func: Option<usize>, r: SpecResIdent, s: State<F>)
    requires
        defs_typed(c.items, c.defs),
        state_holds(c.defs, func, s),
        var_ref_type(c.defs, func, r.res) is Some,
    ensures
        match load_var(c, r, s) {
            Ok((s2, v)) => s2 == s && value_type(v) == var_ref_type(c.defs, func, r.res)->Some_0,
            Err(msg) => msg != msg_invalid(),
        },
{
    lemma_messages_differ(r.name, DataType::Void, 0, BinOp::Add, 0);
    let id = r.res->Some_0;
    match c.defs[id as int] {
        SpecDef::GlobalVar { .. } => {
            assert(c.defs[id as int] is GlobalVar);
        },
        SpecDef::LocalVar { data_type, offset } => {
            let f = func->Some_0;
            assert(var_holds(s.vm.frames.last()[offset as int], c.defs[c.defs[f as int]->locals[offset as int] as int]->LocalVar_data_type));
        },
        SpecDef::Func { .. } => {},
    }
}

proof fn lemma_store<F>(m: FloatModel<F>, c: Ctx, func: Option<usize>, res: Option<usize>, v: SpecValue<F>, s: State<F>)
    requires
        defs_typed(c.items, c.defs),
        state_holds(c.defs, func, s),
        var_ref_type(c.defs, func, res) is Some,
        spec_is_compatible(value_type(v), var_ref_type(c.defs, func, res)->Some_0),
    ensures
        store_var(m, c, res, v, s) matches Ok((s2, w)) && state_holds(c.defs, func, s2) && value_type(w)
            == var_ref_type(c.defs, func, res)->Some_0,
{
    let id = res->Some_0;
    let t = var_ref_type(c.defs, func, res)->Some_0;
    let w = cast(m, v, t);
    lemma_cast(m, v, t);
    match c.defs[id as int] {
        SpecDef::GlobalVar { data_type, offset } => {
            assert(c.defs[id as int] is GlobalVar);
            let vm2 = s.vm.set(crate::runtime::Slot::Global(offset), Some(w));
            assert forall|j: int| 0 <= j < c.defs.len() && (#[trigger] c.defs[j]) is GlobalVar implies c.defs[j]->GlobalVar_offset
                < vm2.globals.len() && var_holds(vm2.globals[c.defs[j]->GlobalVar_offset as int], c.defs[j]->GlobalVar_data_type) by {
                if c.defs[j]->GlobalVar_offset == offset {
                    assert(j == id);
                }
            }
        },
        SpecDef::LocalVar { data_type, offset } => {
            let f = func->Some_0;
            let last = s.vm.frames.last();
            let vm2 = s.vm.set(crate::runtime::Slot::Local(offset), Some(w));
            assert(vm2.frames.last() == last.update(offset as int, Some(w)));
            assert forall|k: int| 0 <= k < vm2.frames.last().len() implies var_holds(
                #[trigger] vm2.frames.last()[k],
                c.defs[c.defs[f as int]->locals[k] as int]->LocalVar_data_type,
            ) by {
                if k != offset {
                    assert(vm2.frames.last()[k] == last[k]);
                }
            }
        },
        SpecDef::Func { .. } => {},
    }
}

proof fn lemma_reset<F>(c: Ctx, func: Option<usize>, res: Option<usize>, s: State<F>)
    requires
        defs_typed(c.items, c.defs),
        state_holds(c.defs, func, s),
        var_ref_type(c.defs, func, res) is Some,
    ensures
        reset_var(c, res, s) matches Ok(s2) && state_holds(c.defs, func, s2),
{
    let id = res->Some_0;
    match c.defs[id as int] {
        SpecDef::GlobalVar { data_type, offset } => {
            assert(c.defs[id as int] is GlobalVar);
            let vm2 = s.vm.set(crate::runtime::Slot::Global(offset), None);
            assert forall|j: int| 0 <= j < c.defs.len() && (#[trigger] c.defs[j]) is GlobalVar implies c.defs[j]->GlobalVar_offset
                < vm2.globals.len() && var_holds(vm2.globals[c.defs[j]->GlobalVar_offset as int], c.defs[j]->GlobalVar_data_type) by {
                if c.defs[j]->GlobalVar_offset == offset {
                    assert(j == id);
                }
            }
        },
        SpecDef::LocalVar { data_type, offset } => {
            let f = func->Some_0;
            let last = s.vm.frames.last();
            let vm2 = s.vm.set(crate::runtime::Slot::Local(offset), None);
            assert(vm2.frames.last() == last.update(offset as int, None));
            assert forall|k: int| 0 <= k < vm2.frames.last().len() implies var_holds(
                #[trigger] vm2.frames.last()[k],
                c.defs[c.defs[f as int]->locals[k] as int]->LocalVar_data_type,
            ) by {
                if k != offset {
                    assert(vm2.frames.last()[k] == last[k]);
                }
            }
        },
        SpecDef::Func { .. } => {},
    }
}

// ---------------------------------------------------------------------------
// Expressions and calls.

proof fn lemma_expr_sound<F>(m: FloatModel<F>, c: Ctx, fuel: nat, func: Option<usize>, e: SpecExpr, s: State<F>)
    requires
        defs_typed(c.items, c.defs),
        state_holds(c.defs, func, s),
        expr_type(c.defs, func, e) is Some,
        expr_type(c.defs, func, e)->Some_0 != DataType::Void,
    ensures
        match eval_expr(m, c, fuel, e, s) {
            Ok((s2, v)) => state_holds(c.defs, func, s2) && value_type(v) == expr_type(c.defs, func, e)->Some_0,
            Err(msg) => msg != msg_invalid(),
        },
    decreases fuel, 0nat,
{
    lemma_messages_differ(Seq::empty(), DataType::Void, 0, BinOp::Add, 0);
    if fuel > 0 {
        let f = (fuel - 1) as nat;
        match e {
            SpecExpr::Literal(_) => {},
            SpecExpr::Var(r) => lemma_load(c, func, r, s),
            SpecExpr::Assign(a) => lemma_assign_sound(m, c, f, func, a, s),
            SpecExpr::UnaryMinus(inner) => {
                lemma_expr_sound(m, c, f, func, *inner, s);
            },
            SpecExpr::BinaryOp(op, l, r) => {
                let lt = expr_type(c.defs, func, *l)->Some_0;
                let rt = expr_type(c.defs, func, *r)->Some_0;
                lemma_operands(op, lt, rt);
                lemma_expr_sound(m, c, f, func, *l, s);
                if let Ok((s1, lv)) = eval_expr(m, c, f, *l, s) {
                    lemma_expr_sound(m, c, f, func, *r, s1);
                    if op != BinOp::LogAnd && op != BinOp::LogOr {
                        if let Ok((s2, rv)) = eval_expr(m, c, f, *r, s1) {
                            lemma_bin_op(m, op, lv, rv);
                        }
                    }
                }
            },
            SpecExpr::Call(call) => lemma_call_sound(m, c, f, func, call, s),
        }
    }
}

proof fn lemma_assign_sound<F>(m: FloatModel<F>, c: Ctx, fuel: nat, func: Option<usize>, a: SpecAssign, s: State<F>)
    requires
        defs_typed(c.items, c.defs),
        state_holds(c.defs, func, s),
        assign_type(c.defs, func, a) is Some,
    ensures
        match eval_assign(m, c, fuel, a, s) {
            Ok((s2, v)) => state_holds(c.defs, func, s2) && value_type(v) == assign_type(c.defs, func, a)->Some_0,
            Err(msg) => msg != msg_invalid(),
        },
    decreases fuel, 1nat,
{
    lemma_expr_sound(m, c, fuel, func, *a.rhs, s);
    if let Ok((s1, v)) = eval_expr(m, c, fuel, *a.rhs, s) {
        lemma_store(m, c, func, a.lhs.res, v, s1);
    }
}

proof fn lemma_args_sound<F>(
    m: FloatModel<F>,
    c: Ctx,
    fuel: nat,
    func: Option<usize>,
    args: Seq<SpecExpr>,
    ts: Seq<DataType>,
    i: nat,
    s: State<F>,
    vals: Seq<SpecValue<F>>,
)
    requires
        defs_typed(c.items, c.defs),
        state_holds(c.defs, func, s),
        ts.len() == args.len(),
        i <= args.len(),
        vals.len() == i,
        forall|j: int| 0 <= j < args.len() ==> expr_type(c.defs, func, #[trigger] args[j]) == Some(ts[j]) && ts[j] != DataType::Void,
        forall|j: int| 0 <= j < i ==> value_type(#[trigger] vals[j]) == ts[j],
    ensures
        match eval_args(m, c, fuel, args, i, s, vals) {
            Ok((s2, vs)) => state_holds(c.defs, func, s2) && vs.len() == args.len() && forall|j: int|
                0 <= j < args.len() ==> value_type(#[trigger] vs[j]) == ts[j],
            Err(msg) => msg != msg_invalid(),
        },
    decreases fuel, args.len() - i,
{
    if i < args.len() {
        assert(expr_type(c.defs, func, args[i as int]) == Some(ts[i as int]));
        lemma_expr_sound(m, c, fuel, func, args[i as int], s);
        if let Ok((s1, v)) = eval_expr(m, c, fuel, args[i as int], s) {
            let vals2 = vals.push(v);
            assert forall|j: int| 0 <= j < i + 1 implies value_type(#[trigger] vals2[j]) == ts[j] by {
                if j < i {
                    assert(vals2[j] == vals[j]);
                }
            }
            lemma_args_sound(m, c, fuel, func, args, ts, i + 1, s1, vals2);
        }
    }
}

proof fn lemma_bind_sound<F>(
    m: FloatModel<F>,
    c: Ctx,
    id: usize,
    params: Seq<DataType>,
    locals: Seq<usize>,
    vals: Seq<SpecValue<F>>,
    k: nat,
    s: State<F>,
)
    requires
        defs_typed(c.items, c.defs),
        id < c.defs.len(),
        c.defs[id as int] matches SpecDef::Func { params: ps, locals: ls, .. } && ps == params && ls == locals,
        state_holds(c.defs, Some(id), s),
        vals.len() == params.len(),
        k <= params.len(),
        params.len() <= locals.len(),
        forall|j: int| 0 <= j < vals.len() ==> spec_is_compatible(value_type(#[trigger] vals[j]), params[j]),
    ensures
        bind_params(m, c, locals.take(params.len() as int), vals, k, s) matches Ok(s2) && state_holds(
            c.defs,
            Some(id),
            s2,
        ),
    decreases params.len() - k,
{
    let ps = locals.take(params.len() as int);
    if k < params.len() {
        assert(func_def_typed(c.items, c.defs, id));
        let lid = locals[k as int];
        assert(ps[k as int] == lid);
        assert(lid < c.defs.len());
        assert(var_ref_type(c.defs, Some(id), Some(lid)) == Some(params[k as int]));
        lemma_store(m, c, Some(id), Some(lid), vals[k as int], s);
        let s1 = store_var(m, c, Some(lid), vals[k as int], s)->Ok_0.0;
        lemma_bind_sound(m, c, id, params, locals, vals, k + 1, s1);
    }
}

proof fn lemma_call_sound<F>(m: FloatModel<F>, c: Ctx, fuel: nat, func: Option<usize>, call: SpecCall, s: State<F>)
    requires
        defs_typed(c.items, c.defs),
        state_holds(c.defs, func, s),
        call_ret_type(c.defs, func, call) is Some,
    ensures
        match eval_call(m, c, fuel, call, s) {
            Ok((s2, r)) => state_holds(c.defs, func, s2) && (call_ret_type(c.defs, func, call)->Some_0
                != DataType::Void ==> (r matches Some(v) && value_type(v) == call_ret_type(c.defs, func, call)->Some_0))
                && (call_ret_type(c.defs, func, call)->Some_0 == DataType::Void ==> r is None),
            Err(msg) => msg != msg_invalid(),
        },
    decreases fuel, 0nat,
{
    lemma_messages_differ(Seq::empty(), DataType::Void, 0, BinOp::Add, 0);
    if fuel > 0 {
        let f = (fuel - 1) as nat;
        let id = call.callee.res->Some_0;
        let ts = exprs_types(c.defs, func, call.args)->Some_0;
        lemma_exprs_types(c.defs, func, call.args);
        assert(func_def_typed(c.items, c.defs, id));
        if let SpecDef::Func { return_type, params, item, locals } = c.defs[id as int] {
            let fd = c.items[item as int]->Func_0;
            lemma_messages_differ(fd.name, return_type, 0, BinOp::Add, 0);
            lemma_no_mismatch(ts, params);
            assert forall|j: int| 0 <= j < call.args.len() implies expr_type(c.defs, func, #[trigger] call.args[j])
                == Some(ts[j]) && ts[j] != DataType::Void by {
                assert(spec_is_compatible(ts[j], params[j]));
                assert(locals[j] < c.defs.len());
            }
            lemma_args_sound(m, c, f, func, call.args, ts, 0, s, Seq::empty());
            if let Ok((s1, vals)) = eval_args(m, c, f, call.args, 0, s, Seq::empty()) {
                let s2 = State { vm: s1.vm.push_frame(locals.len()), ..s1 };
                assert(frame_holds(c.defs, id, s2.vm.frames.last()));
                lemma_bind_sound(m, c, id, params, locals, vals, 0, s2);
                let s3 = bind_params(m, c, locals.take(params.len() as int), vals, 0, s2)->Ok_0;
                lemma_stmts_sound(m, c, f, id, fd.body, 0, s3);
                law_call_keeps_caller_frames(m, c, fuel, call, s);
                if let Ok(s4) = exec_stmts(m, c, f, fd.body, 0, s3) {
                    if let Some(v) = s4.vm.returned() {
                        lemma_cast(m, v, return_type);
                    }
                }
            }
        }
    }
}

// ---------------------------------------------------------------------------
// Statements.

proof fn lemma_var_def_sound<F>(m: FloatModel<F>, c: Ctx, fuel: nat, func: Option<usize>, d: SpecVarDef, s: State<F>)
    requires
        defs_typed(c.items, c.defs),
        state_holds(c.defs, func, s),
        var_def_typed(c.defs, func, d),
    ensures
        match exec_var_def(m, c, fuel, d, s) {
            Ok(s2) => state_holds(c.defs, func, s2),
            Err(msg) => msg != msg_invalid(),
        },
    decreases fuel, 1nat,
{
    match d.init {
        Some(e) => {
            lemma_expr_sound(m, c, fuel, func, e, s);
            if let Ok((s1, v)) = eval_expr(m, c, fuel, e, s) {
                lemma_store(m, c, func, d.ident.res, v, s1);
            }
        },
        None => lemma_reset(c, func, d.ident.res, s),
    }
}

proof fn lemma_print_sound<F>(m: FloatModel<F>, c: Ctx, fuel: nat, func: Option<usize>, es: Seq<SpecExpr>, i: nat, s: State<F>)
    requires
        defs_typed(c.items, c.defs),
        state_holds(c.defs, func, s),
        forall|j: int| 0 <= j < es.len() ==> (expr_type(c.defs, func, #[trigger] es[j]) matches Some(t) && t != DataType::Void),
    ensures
        match print_values(m, c, fuel, es, i, s) {
            Ok(s2) => state_holds(c.defs, func, s2),
            Err(msg) => msg != msg_invalid(),
        },
    decreases fuel, es.len() - i,
{
    if i < es.len() {
        assert(expr_type(c.defs, func, es[i as int]) is Some);
        lemma_expr_sound(m, c, fuel, func, es[i as int], s);
        if let Ok((s1, v)) = eval_expr(m, c, fuel, es[i as int], s) {
            lemma_print_sound(m, c, fuel, func, es, i + 1, State { out: s1.out + crate::dynamics::render(m, v), ..s1 });
        }
    }
}

proof fn lemma_stmt_sound<F>(m: FloatModel<F>, c: Ctx, fuel: nat, func: usize, st: SpecStmt, s: State<F>)
    requires
        defs_typed(c.items, c.defs),
        state_holds(c.defs, Some(func), s),
        stmt_typed(c.defs, func, st),
    ensures
        match exec_stmt(m, c, fuel, st, s) {
            Ok(s2) => stmt_holds(c.defs, func, s2),
            Err(msg) => msg != msg_invalid(),
        },
    decreases fuel, 0nat,
{
    lemma_messages_differ(Seq::empty(), DataType::Void, 0, BinOp::Add, 0);
    if fuel > 0 {
        let f = (fuel - 1) as nat;
        let fs = Some(func);
        match st {
            SpecStmt::Empty => {},
            SpecStmt::If(cond, if_true, if_false) => {
                lemma_expr_sound(m, c, f, fs, cond, s);
                if let Ok((s1, _)) = eval_expr(m, c, f, cond, s) {
                    lemma_stmt_sound(m, c, f, func, *if_true, s1);
                    if let Some(b) = if_false {
                        lemma_stmt_sound(m, c, f, func, *b, s1);
                    }
                }
            },
            SpecStmt::For(init, cond, update, body) => match init {
                SpecForInit::VarDef(d) => {
                    lemma_var_def_sound(m, c, f, fs, d, s);
                    if let Ok(s1) = exec_var_def(m, c, f, d, s) {
                        lemma_for_sound(m, c, f, func, cond, update, *body, s1);
                    }
                },
                SpecForInit::Assign(a) => {
                    lemma_assign_sound(m, c, f, fs, a, s);
                    if let Ok((s1, _)) = eval_assign(m, c, f, a, s) {
                        lemma_for_sound(m, c, f, func, cond, update, *body, s1);
                    }
                },
            },
            SpecStmt::While(cond, body) => lemma_while_sound(m, c, f, func, cond, *body, s),
            SpecStmt::DoWhile(cond, body) => lemma_do_while_sound(m, c, f, func, cond, *body, s),
            SpecStmt::Return(e) => {
                if let Some(x) = e {
                    lemma_expr_sound(m, c, f, fs, x, s);
                }
            },
            SpecStmt::Print(es) => {
                lemma_print_typed(c.defs, fs, es);
                lemma_print_sound(m, c, f, fs, es, 0, s);
            },
            SpecStmt::VarDef(d) => lemma_var_def_sound(m, c, f, fs, d, s),
            SpecStmt::Assign(a) => lemma_assign_sound(m, c, f, fs, a, s),
            SpecStmt::Call(call) => lemma_call_sound(m, c, f, fs, call, s),
            SpecStmt::Block(ss) => lemma_stmts_sound(m, c, f, func, ss, 0, s),
        }
    }
}

proof fn lemma_stmts_typed(defs: Seq<SpecDef>, func: usize, ss: Seq<SpecStmt>)
    requires
        stmts_typed(defs, func, ss),
    ensures
        forall|i: int| 0 <= i < ss.len() ==> stmt_typed(defs, func, #[trigger] ss[i]),
    decreases ss.len(),
{
    if ss.len() > 0 {
        lemma_stmts_typed(defs, func, ss.drop_last());
        assert forall|i: int| 0 <= i < ss.len() implies stmt_typed(defs, func, #[trigger] ss[i]) by {
            if i < ss.len() - 1 {
                assert(ss.drop_last()[i] == ss[i]);
            }
        }
    }
}

proof fn lemma_stmts_sound<F>(m: FloatModel<F>, c: Ctx, fuel: nat, func: usize, ss: Seq<SpecStmt>, i: nat, s: State<F>)
    requires
        defs_typed(c.items, c.defs),
        state_holds(c.defs, Some(func), s),
        stmts_typed(c.defs, func, ss),
    ensures
        match exec_stmts(m, c, fuel, ss, i, s) {
            Ok(s2) => stmt_holds(c.defs, func, s2),
            Err(msg) => msg != msg_invalid(),
        },
    decreases fuel, ss.len() - i,
{
    if i < ss.len() {
        lemma_stmts_typed(c.defs, func, ss);
        lemma_stmt_sound(m, c, fuel, func, ss[i as int], s);
        if let Ok(s1) = exec_stmt(m, c, fuel, ss[i as int], s) {
            if !returning(s1) {
                lemma_stmts_sound(m, c, fuel, func, ss, i + 1, s1);
            }
        }
    }
}

proof fn lemma_while_sound<F>(m: FloatModel<F>, c: Ctx, fuel: nat, func: usize, cond: SpecExpr, body: SpecStmt, s: State<F>)
    requires
        defs_typed(c.items, c.defs),
        state_holds(c.defs, Some(func), s),
        expr_type(c.defs, Some(func), cond) == Some(DataType::Bool),
        stmt_typed(c.defs, func, body),
    ensures
        match run_while(m, c, fuel, cond, body, s) {
            Ok(s2) => stmt_holds(c.defs, func, s2),
            Err(msg) => msg != msg_invalid(),
        },
    decreases fuel, 0nat,
{
    lemma_messages_differ(Seq::empty(), DataType::Void, 0, BinOp::Add, 0);
    if fuel > 0 {
        let f = (fuel - 1) as nat;
        lemma_expr_sound(m, c, f, Some(func), cond, s);
        if let Ok((s1, _)) = eval_expr(m, c, f, cond, s) {
            lemma_stmt_sound(m, c, f, func, body, s1);
            if let Ok(s2) = exec_stmt(m, c, f, body, s1) {
                if !returning(s2) {
                    lemma_while_sound(m, c, f, func, cond, body, s2);
                }
            }
        }
    }
}

proof fn lemma_do_while_sound<F>(m: FloatModel<F>, c: Ctx, fuel: nat, func: usize, cond: SpecExpr, body: SpecStmt, s: State<F>)
    requires
        defs_typed(c.items, c.defs),
        state_holds(c.defs, Some(func), s),
        expr_type(c.defs, Some(func), cond) == Some(DataType::Bool),
        stmt_typed(c.defs, func, body),
    ensures
        match run_do_while(m, c, fuel, cond, body, s) {
            Ok(s2) => stmt_holds(c.defs, func, s2),
            Err(msg) => msg != msg_invalid(),
        },
    decreases fuel, 0nat,
{
    lemma_messages_differ(Seq::empty(), DataType::Void, 0, BinOp::Add, 0);
    if fuel > 0 {
        let f = (fuel - 1) as nat;
        lemma_stmt_sound(m, c, f, func, body, s);
        if let Ok(s1) = exec_stmt(m, c, f, body, s) {
            if !returning(s1) {
                lemma_expr_sound(m, c, f, Some(func), cond, s1);
                if let Ok((s2, _)) = eval_expr(m, c, f, cond, s1) {
                    lemma_do_while_sound(m, c, f, func, cond, body, s2);
                }
            }
        }
    }
}

proof fn lemma_for_sound<F>(
    m: FloatModel<F>,
    c: Ctx,
    fuel: nat,
    func: usize,
    cond: SpecExpr,
    update: SpecAssign,
    body: SpecStmt,
    s: State<F>,
)
    requires
        defs_typed(c.items, c.defs),
        state_holds(c.defs, Some(func), s),
        expr_type(c.defs, Some(func), cond) == Some(DataType::Bool),
        assign_type(c.defs, Some(func), update) is Some,
        stmt_typed(c.defs, func, body),
    ensures
        match run_for(m, c, fuel, cond, update, body, s) {
            Ok(s2) => stmt_holds(c.defs, func, s2),
            Err(msg) => msg != msg_invalid(),
        },
    decreases fuel, 0nat,
{
    lemma_messages_differ(Seq::empty(), DataType::Void, 0, BinOp::Add, 0);
    if fuel > 0 {
        let f = (fuel - 1) as nat;
        lemma_expr_sound(m, c, f, Some(func), cond, s);
        if let Ok((s1, _)) = eval_expr(m, c, f, cond, s) {
            lemma_stmt_sound(m, c, f, func, body, s1);
            if let Ok(s2) = exec_stmt(m, c, f, body, s1) {
                if !returning(s2) {
                    lemma_assign_sound(m, c, f, Some(func), update, s2);
                    if let Ok((s3, _)) = eval_assign(m, c, f, update, s2) {
                        lemma_for_sound(m, c, f, func, cond, update, body, s3);
                    }
                }
            }
        }
    }
}

// ---------------------------------------------------------------------------
// Programs.

proof fn lemma_globals_sound<F>(m: FloatModel<F>, c: Ctx, fuel: nat, globals: Seq<usize>, i: nat, s: State<F>)
    requires
        defs_typed(c.items, c.defs),
        state_holds(c.defs, None, s),
        forall|j: int|
            0 <= j < globals.len() ==> #[trigger] globals[j] < c.items.len() && (c.items[globals[j] as int] matches crate::ast::SpecItem::GlobalVar(d)
                && var_def_typed(c.defs, None, d)),
    ensures
        match init_globals(m, c, fuel, globals, i, s) {
            Ok(s2) => state_holds(c.defs, None, s2),
            Err(msg) => msg != msg_invalid(),
        },
    decreases globals.len() - i,
{
    if i < globals.len() {
        assert(globals[i as int] < c.items.len());
        let d = c.items[globals[i as int] as int]->GlobalVar_0;
        lemma_var_def_sound(m, c, fuel, None, d, s);
        if let Ok(s1) = exec_var_def(m, c, fuel, d, s) {
            lemma_globals_sound(m, c, fuel, globals, i + 1, s1);
        }
    }
}

/// A well-typed program never goes wrong: whatever the budget of steps and
/// whatever the model of floating point arithmetic, its run prints its
/// output or stops with a run-time error (an uninitialized variable, a
/// function that returns no value, an integer overflow or division by zero,
/// or the step limit), never with the message for a program that does not
/// fit its analysis.
pub proof fn law_typed_program_never_invalid<F>(
    m: FloatModel<F>,
    items: Seq<crate::ast::SpecItem>,
    defs: Seq<SpecDef>,
    globals: Seq<usize>,
    main: usize,
    fuel: nat,
)
    requires
        program_typed(items, defs, globals, main),
    ensures
        run_program(m, Ctx { items, defs }, fuel, globals, Some(main)) != Err::<Seq<char>, Seq<char>>(msg_invalid()),
{
    let c = Ctx { items, defs };
    let s0 = State { vm: VmView::<F>::initial(globals.len()), out: Seq::empty() };
    assert(state_holds(defs, None, s0));
    lemma_globals_sound(m, c, fuel, globals, 0, s0);
    if let Ok(s1) = init_globals(m, c, fuel, globals, 0, s0) {
        let call = main_call(main);
        assert(exprs_types(defs, None, call.args) == Some(Seq::<DataType>::empty()));
        assert(call_ret_type(defs, None, call) is Some);
        lemma_call_sound(m, c, fuel, None, call, s1);
    }
}

/// The analysis rules out every failure but the genuine run-time errors:
/// the run of every program that it accepts (its resolved tree, with the
/// definitions it made) never stops with the message for a program that
/// does not fit its analysis, whatever the budget of steps and the model of
/// floating point arithmetic (as long as there are no more definitions than
/// a `usize` counts).
pub proof fn law_analyzed_program_never_invalid<F>(m: FloatModel<F>, items: Seq<crate::ast::SpecItem>, fuel: nat)
    requires
        items.len() <= usize::MAX,
    ensures
        analysis_of(items) matches (items2, Ok((st, main))) ==> (st.defs.len() <= usize::MAX ==> run_program(
            m,
            Ctx { items: items2, defs: st.defs },
            fuel,
            st.globals,
            Some(main),
        ) != Err::<Seq<char>, Seq<char>>(msg_invalid())),
{
    law_analysis_establishes_typing(items);
    if let (items2, Ok((st, main))) = analysis_of(items) {
        if st.defs.len() <= usize::MAX {
            law_typed_program_never_invalid(m, items2, st.defs, st.globals, main, fuel);
        }
    }
}

/// In a well-typed program a call gives what its function returns,
/// converted to the return type: a value of exactly that type (an `int`
/// returned from a `float` function becomes a `float`), or no value for a
/// `void` function; a failing call stops with a run-time error.
pub proof fn law_typed_call_result<F>(
    m: FloatModel<F>,
    items: Seq<crate::ast::SpecItem>,
    defs: Seq<SpecDef>,
    fuel: nat,
    func: Option<usize>,
    call: SpecCall,
    s: State<F>,
)
    requires
        defs_typed(items, defs),
        state_holds(defs, func, s),
        call_ret_type(defs, func, call) is Some,
    ensures
        match eval_call(m, Ctx { items, defs }, fuel, call, s) {
            Ok((s2, r)) => state_holds(defs, func, s2) && if call_ret_type(defs, func, call)->Some_0 == DataType::Void {
                r is None
            } else {
                r matches Some(v) && value_type(v) == call_ret_type(defs, func, call)->Some_0
            },
            Err(msg) => msg != msg_invalid(),
        },
{
    lemma_call_sound(m, Ctx { items, defs }, fuel, func, call, s);
}

} // verus!
