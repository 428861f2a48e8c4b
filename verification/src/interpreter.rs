//! The interpreter that executes C1 programs.
//!
//! It walks the AST, using the information of the semantic analysis to find
//! the variables ([`ProgramInfo`]) and a [`VirtualMachine`] to store them.
//! [`interpret`] initializes the global variables in definition order, calls
//! `main` and returns what the program printed.
//!
//! Each function is proved to compute what the dynamic semantics
//! ([`crate::dynamics`]) says, for every model of floating point arithmetic
//! that the float type implements ([`implements`]).
use vstd::prelude::*;
use crate::ast::{
    Assign, BinOp, DataType, DefId, Expr, ForInit, FuncCall, Ident, Item, Literal, Program,
    ResIdent, Stmt, VarDef, exprs_view, lemma_exprs_view, lemma_stmts_view, stmts_view,
};
use crate::dynamics::{
    Ctx, Outcome, State, apply_bin_op, as_bool, bind_params, cast, eval_args, eval_assign,
    eval_call, eval_expr, exec_stmt, exec_stmts, exec_var_def, init_globals, literal_value,
    load_var, main_call, msg_invalid, msg_no_return, msg_step_limit, msg_uninit, negate_value,
    print_values, render, reset_var, run_do_while, run_for, run_program, run_while, store_var,
    values_equal, values_ordered, var_slot,
};
use crate::runtime::{
    FloatModel, FloatOps, InterpretError, Slot, SpecValue, Value, Variable, VirtualMachine,
    compare_bools, compare_ints, compare_strings, float_arith, float_equals, float_from_int, float_literal,
    float_negate, float_order, float_render, holds, implements, int_arith, int_negate,
};
use crate::symtab::{DefInfo, FuncDefId, LocalVarDefId, ProgramInfo, globals_view};
use crate::semantics::spec_least_upper_bound;
use crate::text::push_signed_decimal;

verus! {

// ---------------------------------------------------------------------------
// Views of results.

/// The view of an evaluation's result and the state after it.
pub open spec fn value_outcome<F>(r: Result<Value<F>, InterpretError>, s: State<F>) -> Outcome<F, SpecValue<F>> {
    match r {
        Ok(v) => Ok((s, v@)),
        Err(e) => Err(e@),
    }
}

/// The view of a statement's result and the state after it.
pub open spec fn unit_outcome<F>(r: Result<(), InterpretError>, s: State<F>) -> Result<State<F>, Seq<char>> {
    match r {
        Ok(_) => Ok(s),
        Err(e) => Err(e@),
    }
}

/// The view of a run's result: the output or the error message.
pub open spec fn text_outcome(r: Result<String, InterpretError>) -> Result<Seq<char>, Seq<char>> {
    match r {
        Ok(s) => Ok(s@),
        Err(e) => Err(e@),
    }
}

/// The views of a sequence of values.
pub open spec fn values_view<F>(s: Seq<Value<F>>) -> Seq<SpecValue<F>> {
    Seq::new(s.len(), |i: int| s[i]@)
}

/// The index of a definition, if there is one.
pub open spec fn id_view(res: Option<DefId>) -> Option<usize> {
    match res {
        Some(id) => Some(id.0),
        None => None,
    }
}

/// The index of the definition of `main`, if there is one.
pub open spec fn main_view(main: Option<FuncDefId>) -> Option<usize> {
    match main {
        Some(f) => Some(f.0.0),
        None => None,
    }
}

/// The view of the local variables of a function.
pub open spec fn locals_view(s: Seq<LocalVarDefId>) -> Seq<usize> {
    Seq::new(s.len(), |i: int| s[i].0.0)
}

// ---------------------------------------------------------------------------
// Errors.

fn invalid_error() -> (res: InterpretError)
    ensures
        res@ == msg_invalid(),
{
    InterpretError::new("program does not match its analysis".to_owned())
}

fn step_limit_error() -> (res: InterpretError)
    ensures
        res@ == msg_step_limit(),
{
    InterpretError::new("evaluation step limit exceeded".to_owned())
}

fn uninit_error(ident: &Ident) -> (res: InterpretError)
    ensures
        res@ == msg_uninit(ident.0@),
{
    let mut s = String::new();
    s.append("attempted to read uninitialized variable ");
    s.append(ident.quoted().as_str());
    proof {
        assert(s@ == msg_uninit(ident.0@));
    }
    InterpretError::new(s)
}

fn no_return_error(ident: &Ident, t: DataType) -> (res: InterpretError)
    ensures
        res@ == msg_no_return(ident.0@, t),
{
    let mut s = String::new();
    s.append("function ");
    s.append(ident.quoted().as_str());
    s.append(" with return type `");
    s.append(t.name());
    s.append("` did not return a value");
    proof {
        assert(s@ == msg_no_return(ident.0@, t));
    }
    InterpretError::new(s)
}

// ---------------------------------------------------------------------------
// Operations on values.

/// The value of a literal.
fn literal_value_of<F: FloatOps>(l: &Literal) -> (res: Value<F>)
    ensures
        forall|m: FloatModel<F>| #[trigger] implements(m) ==> literal_value(m, l@) == res@,
{
    match l {
        Literal::Bool(b) => Value::Bool(*b),
        Literal::Int(n) => Value::Int(*n),
        Literal::Float(t) => Value::Float(float_literal(t.as_str())),
        Literal::String(s) => Value::String(s.clone()),
    }
}

/// Converts a value to type `t`.
fn cast_value<F: FloatOps>(v: Value<F>, t: DataType) -> (res: Value<F>)
    ensures
        forall|m: FloatModel<F>| #[trigger] implements(m) ==> cast(m, v@, t) == res@,
{
    match v {
        Value::Int(n) => if t == DataType::Float {
            Value::Float(float_from_int(n))
        } else {
            Value::Int(n)
        },
        other => other,
    }
}

/// Whether two values of the same type are equal.
fn equal_values<F: FloatOps>(a: &Value<F>, b: &Value<F>) -> (res: bool)
    ensures
        forall|m: FloatModel<F>| #[trigger] implements(m) ==> values_equal(m, a@, b@) == res,
{
    match (a, b) {
        (Value::Bool(x), Value::Bool(y)) => *x == *y,
        (Value::Int(x), Value::Int(y)) => *x == *y,
        (Value::Float(x), Value::Float(y)) => float_equals(*x, *y),
        (Value::String(x), Value::String(y)) => *x == *y,
        _ => false,
    }
}

/// Whether an ordering operator holds of two values of the same type.
fn ordered_values<F: FloatOps>(op: BinOp, a: &Value<F>, b: &Value<F>) -> (res: Result<bool, InterpretError>)
    ensures
        forall|m: FloatModel<F>| #[trigger] implements(m) ==> values_ordered(m, op, a@, b@) == match res {
            Ok(x) => Ok(x),
            Err(e) => Err::<bool, Seq<char>>(e@),
        },
{
    match (a, b) {
        (Value::Bool(x), Value::Bool(y)) => Ok(holds(op, compare_bools(*x, *y))),
        (Value::Int(x), Value::Int(y)) => Ok(holds(op, compare_ints(*x, *y))),
        (Value::Float(x), Value::Float(y)) => Ok(float_order(op, *x, *y)),
        (Value::String(x), Value::String(y)) => Ok(holds(op, compare_strings(x, y))),
        _ => Err(invalid_error()),
    }
}

/// The least upper bound of two types, if any.
fn least_upper_bound(a: DataType, b: DataType) -> (res: Option<DataType>)
    ensures
        res == spec_least_upper_bound(a, b),
{
    if a == b || (a == DataType::Int && b == DataType::Float) {
        Some(b)
    } else if a == DataType::Float && b == DataType::Int {
        Some(a)
    } else {
        None
    }
}

/// Applies a binary operator other than `&&` and `||` to two values.
fn apply_bin_op_to<F: FloatOps>(op: BinOp, l: Value<F>, r: Value<F>) -> (res: Result<Value<F>, InterpretError>)
    ensures
        forall|m: FloatModel<F>| #[trigger] implements(m) ==> apply_bin_op(m, op, l@, r@) == match res {
            Ok(v) => Ok(v@),
            Err(e) => Err::<SpecValue<F>, Seq<char>>(e@),
        },
{
    let t = match least_upper_bound(l.data_type(), r.data_type()) {
        Some(t) => t,
        None => return Err(invalid_error()),
    };
    let a = cast_value(l, t);
    let b = cast_value(r, t);
    match op {
        BinOp::Add | BinOp::Sub | BinOp::Mul | BinOp::Div => match (a, b) {
            (Value::Int(x), Value::Int(y)) => match int_arith(op, x, y) {
                Ok(v) => Ok(Value::Int(v)),
                Err(e) => Err(e),
            },
            (Value::Float(x), Value::Float(y)) => Ok(Value::Float(float_arith(op, x, y))),
            _ => Err(invalid_error()),
        },
        BinOp::Eq => Ok(Value::Bool(equal_values(&a, &b))),
        BinOp::Neq => Ok(Value::Bool(!equal_values(&a, &b))),
        BinOp::Lt | BinOp::Gt | BinOp::Leq | BinOp::Geq => match ordered_values(op, &a, &b) {
            Ok(x) => Ok(Value::Bool(x)),
            Err(e) => Err(e),
        },
        BinOp::LogAnd | BinOp::LogOr => Err(invalid_error()),
    }
}

/// The negation of a value.
fn negate<F: FloatOps>(v: Value<F>) -> (res: Result<Value<F>, InterpretError>)
    ensures
        forall|m: FloatModel<F>| #[trigger] implements(m) ==> negate_value(m, v@) == match res {
            Ok(w) => Ok(w@),
            Err(e) => Err::<SpecValue<F>, Seq<char>>(e@),
        },
{
    match v {
        Value::Int(n) => match int_negate(n) {
            Ok(w) => Ok(Value::Int(w)),
            Err(e) => Err(e),
        },
        Value::Float(x) => Ok(Value::Float(float_negate(x))),
        _ => Err(invalid_error()),
    }
}

/// The text that `print` writes for a value.
fn render_value<F: FloatOps>(v: &Value<F>) -> (res: String)
    ensures
        forall|m: FloatModel<F>| #[trigger] implements(m) ==> render(m, v@) == res@,
{
    match v {
        Value::Bool(b) => if *b {
            "true".to_owned()
        } else {
            "false".to_owned()
        },
        Value::Int(n) => {
            let mut s = String::new();
            push_signed_decimal(&mut s, *n);
            s
        },
        Value::Float(x) => float_render(*x),
        Value::String(s) => s.clone(),
    }
}

// ---------------------------------------------------------------------------
// The interpreter.

/// The state of a run: the variables and the output so far.
struct Run<F> {
    vm: VirtualMachine<F>,
    output: String,
}

impl<F> View for Run<F> {
    type V = State<F>;

    closed spec fn view(&self) -> State<F> {
        State { vm: self.vm@, out: self.output@ }
    }
}

/// The program being run and the information of its analysis.
struct Interpreter<'a> {
    ast: &'a Program,
    info: &'a ProgramInfo,
}

impl<'a> Interpreter<'a> {
    /// What a run reads of the program.
    spec fn ctx(&self) -> Ctx {
        Ctx { items: self.ast@, defs: self.info.definitions@ }
    }

    /// The slot and the type of the variable that `res` refers to.
    fn slot_of(&self, res: Option<DefId>) -> (r: Option<(Slot, DataType)>)
        ensures
            r == var_slot(self.ctx(), id_view(res)),
    {
        match res {
            Some(id) => if id.0 < self.info.definitions.len() {
                match self.info.definitions.get(id) {
                    DefInfo::GlobalVar(v) => Some((Slot::Global(v.offset), v.data_type)),
                    DefInfo::LocalVar(v) => Some((Slot::Local(v.offset), v.data_type)),
                    DefInfo::Func(_) => None,
                }
            } else {
                None
            },
            None => None,
        }
    }

    /// Reads a variable.
    fn load<F: FloatOps>(&self, run: &Run<F>, ident: &ResIdent) -> (res: Result<Value<F>, InterpretError>)
        ensures
            load_var(self.ctx(), ident@, run@) == value_outcome(res, run@),
    {
        match self.slot_of(ident.res) {
            Some((slot, _)) => if run.vm.has(slot) {
                match run.vm.load(slot) {
                    Variable::Init(v) => Ok(v),
                    Variable::Uninit => Err(uninit_error(&ident.ident)),
                }
            } else {
                Err(invalid_error())
            },
            None => Err(invalid_error()),
        }
    }

    /// Stores a value, converted to the variable's type, into a variable.
    fn store<F: FloatOps>(&self, run: &mut Run<F>, res: Option<DefId>, v: Value<F>) -> (r: Result<Value<F>, InterpretError>)
        ensures
            forall|m: FloatModel<F>| #[trigger] implements(m) ==> store_var(m, self.ctx(), id_view(res), v@, old(run)@)
                == value_outcome(r, final(run)@),
    {
        match self.slot_of(res) {
            Some((slot, t)) => if run.vm.has(slot) {
                let w = cast_value(v, t);
                run.vm.store(slot, Variable::Init(w.duplicate()));
                Ok(w)
            } else {
                Err(invalid_error())
            },
            None => Err(invalid_error()),
        }
    }

    /// Makes a variable uninitialized.
    fn reset<F: FloatOps>(&self, run: &mut Run<F>, res: Option<DefId>) -> (r: Result<(), InterpretError>)
        ensures
            reset_var(self.ctx(), id_view(res), old(run)@) == unit_outcome(r, final(run)@),
    {
        match self.slot_of(res) {
            Some((slot, _)) => if run.vm.has(slot) {
                run.vm.store(slot, Variable::Uninit);
                Ok(())
            } else {
                Err(invalid_error())
            },
            None => Err(invalid_error()),
        }
    }
}

} // verus!

verus! {

impl<'a> Interpreter<'a> {
    /// Evaluates an expression.
    fn visit_expr<F: FloatOps>(&self, run: &mut Run<F>, fuel: u64, expr: &Expr) -> (res: Result<Value<F>, InterpretError>)
        ensures
            forall|m: FloatModel<F>| #[trigger] implements(m) ==> eval_expr(m, self.ctx(), fuel as nat, expr@, old(run)@)
                == value_outcome(res, final(run)@),
        decreases fuel, 0nat,
    {
        if fuel == 0 {
            return Err(step_limit_error());
        }
        let f = fuel - 1;
        assert(f as nat == (fuel as nat - 1) as nat);
        match expr {
            Expr::Literal(l) => Ok(literal_value_of(l)),
            Expr::Var(ident) => self.load(run, ident),
            Expr::Assign(a) => self.visit_assign(run, f, a),
            Expr::UnaryMinus(inner) => {
                let v = self.visit_expr(run, f, inner)?;
                negate(v)
            },
            Expr::BinaryOp(b) => {
                let op = b.op;
                let lhs = self.visit_expr(run, f, &b.lhs)?;
                if op == BinOp::LogAnd || op == BinOp::LogOr {
                    // As in C, the right operand is only evaluated if the left
                    // one does not decide the result.
                    match lhs {
                        Value::Bool(l) => {
                            if l == (op == BinOp::LogOr) {
                                return Ok(Value::Bool(l));
                            }
                            match self.visit_expr(run, f, &b.rhs)? {
                                Value::Bool(r) => Ok(Value::Bool(r)),
                                _ => Err(invalid_error()),
                            }
                        },
                        _ => Err(invalid_error()),
                    }
                } else {
                    let rhs = self.visit_expr(run, f, &b.rhs)?;
                    apply_bin_op_to(op, lhs, rhs)
                }
            },
            Expr::Call(call) => match self.visit_func_call(run, f, call)? {
                Variable::Init(v) => Ok(v),
                Variable::Uninit => Err(invalid_error()),
            },
        }
    }

    /// Evaluates an assignment: the result is the stored value.
    fn visit_assign<F: FloatOps>(&self, run: &mut Run<F>, fuel: u64, assign: &Assign) -> (res: Result<Value<F>, InterpretError>)
        ensures
            forall|m: FloatModel<F>| #[trigger] implements(m) ==> eval_assign(m, self.ctx(), fuel as nat, assign@, old(run)@)
                == value_outcome(res, final(run)@),
        decreases fuel, 1nat,
    {
        let v = self.visit_expr(run, fuel, &assign.rhs)?;
        self.store(run, assign.lhs.res, v)
    }

    /// Evaluates the arguments of a call from left to right.
    fn visit_args<F: FloatOps>(&self, run: &mut Run<F>, fuel: u64, args: &Vec<Expr>) -> (res: Result<Vec<Value<F>>, InterpretError>)
        ensures
            forall|m: FloatModel<F>| #[trigger] implements(m) ==> eval_args(m, self.ctx(), fuel as nat, exprs_view(args@), 0, old(run)@, Seq::empty())
                == match res {
                Ok(vals) => Ok((final(run)@, values_view(vals@))),
                Err(e) => Err::<(State<F>, Seq<SpecValue<F>>), Seq<char>>(e@),
            },
        decreases fuel, 1nat,
    {
        let ghost es = exprs_view(args@);
        let ghost s0 = run@;
        proof {
            lemma_exprs_view(args@);
        }
        let mut vals: Vec<Value<F>> = Vec::new();
        let mut i: usize = 0;
        proof {
            assert(values_view(vals@) =~= Seq::<SpecValue<F>>::empty());
        }
        while i < args.len()
            invariant
                s0 == old(run)@,
                es == exprs_view(args@),
                es.len() == args@.len(),
                forall|j: int| 0 <= j < args@.len() ==> #[trigger] es[j] == args@[j]@,
                i <= args@.len(),
                forall|m: FloatModel<F>| #[trigger] implements(m) ==> eval_args(m, self.ctx(), fuel as nat, es, 0, s0, Seq::empty())
                    == eval_args(m, self.ctx(), fuel as nat, es, i as nat, run@, values_view(vals@)),
            decreases args@.len() - i,
        {
            let ghost vals_before = values_view(vals@);
            let v = self.visit_expr(run, fuel, &args[i])?;
            let ghost vv = v@;
            vals.push(v);
            proof {
                assert(values_view(vals@) =~= vals_before.push(vv));
            }
            i += 1;
        }
        Ok(vals)
    }

    /// Stores the argument values into the parameters of the called function.
    fn bind_args<F: FloatOps>(&self, run: &mut Run<F>, locals: &Vec<LocalVarDefId>, nparams: usize, args: &Vec<Value<F>>) -> (res: Result<(), InterpretError>)
        requires
            nparams <= locals@.len(),
        ensures
            forall|m: FloatModel<F>| #[trigger] implements(m) ==> bind_params(m, self.ctx(), locals_view(locals@).take(nparams as int), values_view(args@), 0, old(run)@)
                == unit_outcome(res, final(run)@),
    {
        let ghost ps = locals_view(locals@).take(nparams as int);
        let ghost vs = values_view(args@);
        let ghost s0 = run@;
        let mut k: usize = 0;
        while k < nparams && k < args.len()
            invariant
                s0 == old(run)@,
                nparams <= locals@.len(),
                ps == locals_view(locals@).take(nparams as int),
                vs == values_view(args@),
                k <= nparams,
                forall|m: FloatModel<F>| #[trigger] implements(m) ==> bind_params(m, self.ctx(), ps, vs, 0, s0)
                    == bind_params(m, self.ctx(), ps, vs, k as nat, run@),
            decreases nparams - k,
        {
            let v = args[k].duplicate();
            assert(ps[k as int] == locals@[k as int].0.0);
            self.store(run, Some(locals[k].0), v)?;
            k += 1;
        }
        Ok(())
    }

    /// Calls a function: the result is its return value, converted to its
    /// return type, or uninitialized for a `void` function.
    fn visit_func_call<F: FloatOps>(&self, run: &mut Run<F>, fuel: u64, call: &FuncCall) -> (res: Result<Variable<F>, InterpretError>)
        ensures
            forall|m: FloatModel<F>| #[trigger] implements(m) ==> eval_call(m, self.ctx(), fuel as nat, call@, old(run)@)
                == match res {
                Ok(v) => Ok((final(run)@, v@)),
                Err(e) => Err::<(State<F>, Option<SpecValue<F>>), Seq<char>>(e@),
            },
        decreases fuel, 0nat,
    {
        if fuel == 0 {
            return Err(step_limit_error());
        }
        let f = fuel - 1;
        assert(f as nat == (fuel as nat - 1) as nat);
        let id = match call.res_ident.res {
            Some(id) => id,
            None => return Err(invalid_error()),
        };
        if id.0 >= self.info.definitions.len() {
            return Err(invalid_error());
        }
        let func_info = match self.info.definitions.get(id) {
            DefInfo::Func(fi) => fi,
            _ => return Err(invalid_error()),
        };
        let item = func_info.item_id.0.0;
        let nparams = func_info.param_types.len();
        if item >= self.ast.items.len() || nparams > func_info.local_vars.len() {
            return Err(invalid_error());
        }
        let func_def = match &self.ast.items[item] {
            Item::Func(fd) => fd,
            Item::GlobalVar(_) => return Err(invalid_error()),
        };
        // The arguments are evaluated from left to right in the caller's frame.
        let args = self.visit_args(run, f, &call.args)?;
        // The callee gets a frame with all local variables uninitialized, and
        // the parameters hold the arguments.
        run.vm.push_frame(func_info.local_vars.len());
        self.bind_args(run, &func_info.local_vars, nparams, &args)?;
        self.visit_stmts(run, f, &func_def.statements)?;
        let ret = run.vm.take_return();
        run.vm.pop_frame();
        match ret {
            Variable::Init(v) => Ok(Variable::Init(cast_value(v, func_info.return_type))),
            // Reaching the end of a function that must return a value is an
            // error, even if the result is not used.
            Variable::Uninit => if func_info.return_type == DataType::Void {
                Ok(Variable::Uninit)
            } else {
                Err(no_return_error(&func_def.ident, func_info.return_type))
            },
        }
    }

    /// Evaluates the condition of a control flow statement.
    fn visit_cond<F: FloatOps>(&self, run: &mut Run<F>, fuel: u64, cond: &Expr) -> (res: Result<bool, InterpretError>)
        ensures
            forall|m: FloatModel<F>| #[trigger] implements(m) ==> as_bool(eval_expr(m, self.ctx(), fuel as nat, cond@, old(run)@))
                == match res {
                Ok(b) => Ok((final(run)@, b)),
                Err(e) => Err::<(State<F>, bool), Seq<char>>(e@),
            },
        decreases fuel, 1nat,
    {
        match self.visit_expr(run, fuel, cond)? {
            Value::Bool(b) => Ok(b),
            _ => Err(invalid_error()),
        }
    }

    /// Runs a variable definition: the variable gets the value of its
    /// initializer, or becomes uninitialized if it has none (a definition may
    /// run repeatedly, in a loop).
    fn visit_var_def<F: FloatOps>(&self, run: &mut Run<F>, fuel: u64, var_def: &VarDef) -> (res: Result<(), InterpretError>)
        ensures
            forall|m: FloatModel<F>| #[trigger] implements(m) ==> exec_var_def(m, self.ctx(), fuel as nat, var_def@, old(run)@)
                == unit_outcome(res, final(run)@),
        decreases fuel, 1nat,
    {
        match &var_def.init {
            Some(init) => {
                let v = self.visit_expr(run, fuel, init)?;
                self.store(run, var_def.res_ident.res, v)?;
                Ok(())
            },
            None => self.reset(run, var_def.res_ident.res),
        }
    }

    /// Evaluates the expressions of a `print` statement, writing each value
    /// right after evaluating it.
    fn visit_print_values<F: FloatOps>(&self, run: &mut Run<F>, fuel: u64, exprs: &Vec<Expr>) -> (res: Result<(), InterpretError>)
        ensures
            forall|m: FloatModel<F>| #[trigger] implements(m) ==> print_values(m, self.ctx(), fuel as nat, exprs_view(exprs@), 0, old(run)@)
                == unit_outcome(res, final(run)@),
        decreases fuel, 1nat,
    {
        let ghost es = exprs_view(exprs@);
        let ghost s0 = run@;
        proof {
            lemma_exprs_view(exprs@);
        }
        let mut i: usize = 0;
        while i < exprs.len()
            invariant
                s0 == old(run)@,
                es == exprs_view(exprs@),
                es.len() == exprs@.len(),
                forall|j: int| 0 <= j < exprs@.len() ==> #[trigger] es[j] == exprs@[j]@,
                i <= exprs@.len(),
                forall|m: FloatModel<F>| #[trigger] implements(m) ==> print_values(m, self.ctx(), fuel as nat, es, 0, s0)
                    == print_values(m, self.ctx(), fuel as nat, es, i as nat, run@),
            decreases exprs@.len() - i,
        {
            let v = self.visit_expr(run, fuel, &exprs[i])?;
            let text = render_value(&v);
            run.output.append(text.as_str());
            i += 1;
        }
        Ok(())
    }

    /// Runs a statement.
    fn visit_stmt<F: FloatOps>(&self, run: &mut Run<F>, fuel: u64, stmt: &Stmt) -> (res: Result<(), InterpretError>)
        ensures
            forall|m: FloatModel<F>| #[trigger] implements(m) ==> exec_stmt(m, self.ctx(), fuel as nat, stmt@, old(run)@)
                == unit_outcome(res, final(run)@),
        decreases fuel, 0nat,
    {
        if fuel == 0 {
            return Err(step_limit_error());
        }
        let f = fuel - 1;
        assert(f as nat == (fuel as nat - 1) as nat);
        match stmt {
            Stmt::Empty => Ok(()),
            Stmt::If(inner) => {
                if self.visit_cond(run, f, &inner.cond)? {
                    self.visit_stmt(run, f, &inner.if_true)
                } else {
                    match &inner.if_false {
                        Some(if_false) => self.visit_stmt(run, f, if_false),
                        None => Ok(()),
                    }
                }
            },
            Stmt::For(inner) => {
                match &inner.init {
                    ForInit::VarDef(var_def) => self.visit_var_def(run, f, var_def)?,
                    ForInit::Assign(assign) => {
                        self.visit_assign(run, f, assign)?;
                    },
                }
                self.visit_for_loop(run, f, &inner.cond, &inner.update, &inner.body)
            },
            Stmt::While(inner) => self.visit_while(run, f, &inner.cond, &inner.body),
            Stmt::DoWhile(inner) => self.visit_do_while(run, f, &inner.cond, &inner.body),
            Stmt::Return(expr) => {
                let value = match expr {
                    Some(expr) => Variable::Init(self.visit_expr(run, f, expr)?),
                    None => Variable::Uninit,
                };
                run.vm.set_return(value);
                Ok(())
            },
            Stmt::Print(print) => {
                self.visit_print_values(run, f, &print.exprs)?;
                run.output.append("\n");
                Ok(())
            },
            Stmt::VarDef(var_def) => self.visit_var_def(run, f, var_def),
            Stmt::Assign(assign) => {
                self.visit_assign(run, f, assign)?;
                Ok(())
            },
            Stmt::Call(call) => {
                self.visit_func_call(run, f, call)?;
                Ok(())
            },
            Stmt::Block(block) => self.visit_stmts(run, f, &block.statements),
        }
    }

    /// Runs statements in order until one of them returns.
    fn visit_stmts<F: FloatOps>(&self, run: &mut Run<F>, fuel: u64, stmts: &Vec<Stmt>) -> (res: Result<(), InterpretError>)
        ensures
            forall|m: FloatModel<F>| #[trigger] implements(m) ==> exec_stmts(m, self.ctx(), fuel as nat, stmts_view(stmts@), 0, old(run)@)
                == unit_outcome(res, final(run)@),
        decreases fuel, 1nat,
    {
        let ghost ss = stmts_view(stmts@);
        let ghost s0 = run@;
        proof {
            lemma_stmts_view(stmts@);
        }
        let mut i: usize = 0;
        while i < stmts.len()
            invariant
                s0 == old(run)@,
                ss == stmts_view(stmts@),
                ss.len() == stmts@.len(),
                forall|j: int| 0 <= j < stmts@.len() ==> #[trigger] ss[j] == stmts@[j]@,
                i <= stmts@.len(),
                forall|m: FloatModel<F>| #[trigger] implements(m) ==> exec_stmts(m, self.ctx(), fuel as nat, ss, 0, s0)
                    == exec_stmts(m, self.ctx(), fuel as nat, ss, i as nat, run@),
            decreases stmts@.len() - i,
        {
            self.visit_stmt(run, fuel, &stmts[i])?;
            if run.vm.is_returning() {
                return Ok(());
            }
            i += 1;
        }
        Ok(())
    }

    /// Runs a `while` loop.
    fn visit_while<F: FloatOps>(&self, run: &mut Run<F>, fuel: u64, cond: &Expr, body: &Stmt) -> (res: Result<(), InterpretError>)
        ensures
            forall|m: FloatModel<F>| #[trigger] implements(m) ==> run_while(m, self.ctx(), fuel as nat, cond@, body@, old(run)@)
                == unit_outcome(res, final(run)@),
        decreases fuel, 0nat,
    {
        let ghost s0 = run@;
        let mut f = fuel;
        loop
            invariant
                s0 == old(run)@,
                f <= fuel,
                forall|m: FloatModel<F>| #[trigger] implements(m) ==> run_while(m, self.ctx(), fuel as nat, cond@, body@, s0)
                    == run_while(m, self.ctx(), f as nat, cond@, body@, run@),
            decreases f,
        {
            if f == 0 {
                return Err(step_limit_error());
            }
            let g = f - 1;
            assert(g as nat == (f as nat - 1) as nat);
            if !self.visit_cond(run, g, cond)? {
                return Ok(());
            }
            self.visit_stmt(run, g, body)?;
            if run.vm.is_returning() {
                return Ok(());
            }
            f = g;
        }
    }

    /// Runs a `do`-`while` loop.
    fn visit_do_while<F: FloatOps>(&self, run: &mut Run<F>, fuel: u64, cond: &Expr, body: &Stmt) -> (res: Result<(), InterpretError>)
        ensures
            forall|m: FloatModel<F>| #[trigger] implements(m) ==> run_do_while(m, self.ctx(), fuel as nat, cond@, body@, old(run)@)
                == unit_outcome(res, final(run)@),
        decreases fuel, 0nat,
    {
        let ghost s0 = run@;
        let mut f = fuel;
        loop
            invariant
                s0 == old(run)@,
                f <= fuel,
                forall|m: FloatModel<F>| #[trigger] implements(m) ==> run_do_while(m, self.ctx(), fuel as nat, cond@, body@, s0)
                    == run_do_while(m, self.ctx(), f as nat, cond@, body@, run@),
            decreases f,
        {
            if f == 0 {
                return Err(step_limit_error());
            }
            let g = f - 1;
            assert(g as nat == (f as nat - 1) as nat);
            self.visit_stmt(run, g, body)?;
            if run.vm.is_returning() {
                return Ok(());
            }
            if !self.visit_cond(run, g, cond)? {
                return Ok(());
            }
            f = g;
        }
    }

    /// Runs the loop of a `for` statement, after its initializer.
    fn visit_for_loop<F: FloatOps>(&self, run: &mut Run<F>, fuel: u64, cond: &Expr, update: &Assign, body: &Stmt) -> (res: Result<(), InterpretError>)
        ensures
            forall|m: FloatModel<F>| #[trigger] implements(m) ==> run_for(m, self.ctx(), fuel as nat, cond@, update@, body@, old(run)@)
                == unit_outcome(res, final(run)@),
        decreases fuel, 0nat,
    {
        let ghost s0 = run@;
        let mut f = fuel;
        loop
            invariant
                s0 == old(run)@,
                f <= fuel,
                forall|m: FloatModel<F>| #[trigger] implements(m) ==> run_for(m, self.ctx(), fuel as nat, cond@, update@, body@, s0)
                    == run_for(m, self.ctx(), f as nat, cond@, update@, body@, run@),
            decreases f,
        {
            if f == 0 {
                return Err(step_limit_error());
            }
            let g = f - 1;
            assert(g as nat == (f as nat - 1) as nat);
            if !self.visit_cond(run, g, cond)? {
                return Ok(());
            }
            self.visit_stmt(run, g, body)?;
            if run.vm.is_returning() {
                return Ok(());
            }
            self.visit_assign(run, g, update)?;
            f = g;
        }
    }
}

} // verus!

verus! {

/// What a run of `ast` reads of the program and of its analysis.
pub open spec fn program_ctx(ast: &Program, info: &ProgramInfo) -> Ctx {
    Ctx { items: ast@, defs: info.definitions@ }
}

/// The number of evaluation steps that [`interpret`] allows a program.
pub const STEP_BUDGET: u64 = 0xffff_ffff_ffff_ffff;

impl<'a> Interpreter<'a> {
    /// Initializes the global variables in definition order.
    fn init_globals<F: FloatOps>(&self, run: &mut Run<F>, fuel: u64) -> (res: Result<(), InterpretError>)
        ensures
            forall|m: FloatModel<F>| #[trigger] implements(m) ==> init_globals(m, self.ctx(), fuel as nat, globals_view(self.info.global_vars@), 0, old(run)@)
                == unit_outcome(res, final(run)@),
    {
        let ghost gs = globals_view(self.info.global_vars@);
        let ghost s0 = run@;
        let n = self.info.global_vars.len();
        let mut i: usize = 0;
        while i < n
            invariant
                s0 == old(run)@,
                n == self.info.global_vars@.len(),
                gs == globals_view(self.info.global_vars@),
                i <= n,
                forall|m: FloatModel<F>| #[trigger] implements(m) ==> init_globals(m, self.ctx(), fuel as nat, gs, 0, s0)
                    == init_globals(m, self.ctx(), fuel as nat, gs, i as nat, run@),
            decreases n - i,
        {
            let item = self.info.global_vars[i].0.0;
            if item >= self.ast.items.len() {
                return Err(invalid_error());
            }
            match &self.ast.items[item] {
                Item::GlobalVar(var_def) => self.visit_var_def(run, fuel, var_def)?,
                Item::Func(_) => return Err(invalid_error()),
            }
            i += 1;
        }
        Ok(())
    }
}

/// Runs an analyzed program: initializes the global variables in definition
/// order, then calls `main`. The result is what the program printed, or the
/// error that stopped it.
///
/// For every model of floating point arithmetic that `F` implements, the
/// result is the one of the dynamic semantics ([`run_program`]). A program
/// and information that do not fit each other give the error for an invalid
/// program; an analyzed program never does
/// ([`crate::soundness::law_analyzed_program_never_invalid`]).
pub fn interpret<F: FloatOps>(ast: &Program, info: &ProgramInfo) -> (res: Result<String, InterpretError>)
    ensures
        forall|m: FloatModel<F>| #[trigger] implements(m) ==> run_program(
            m,
            program_ctx(ast, info),
            STEP_BUDGET as nat,
            globals_view(info.global_vars@),
            main_view(info.main_func),
        ) == text_outcome(res),
{
    let interpreter = Interpreter { ast, info };
    let mut run: Run<F> = Run { vm: VirtualMachine::new(info.global_vars.len()), output: String::new() };
    proof {
        assert(run@.out =~= Seq::<char>::empty());
    }
    interpreter.init_globals(&mut run, STEP_BUDGET)?;
    let main = match info.main_func {
        Some(f) => f.0,
        None => return Err(invalid_error()),
    };
    let call = FuncCall {
        res_ident: ResIdent { ident: Ident("main".to_owned()), res: Some(main) },
        args: Vec::new(),
    };
    proof {
        assert(call@.args =~= Seq::<crate::ast::SpecExpr>::empty());
        assert(call@ == main_call(main.0));
    }
    interpreter.visit_func_call(&mut run, STEP_BUDGET, &call)?;
    Ok(run.output)
}

} // verus!
