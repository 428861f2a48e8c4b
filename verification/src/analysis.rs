//! The semantic analysis pass of C1.
//!
//! [`analyze`] checks the static semantics of a program, resolves every
//! identifier to its definition (writing the resolution into the AST), and
//! collects the information the interpreter needs about every definition
//! ([`ProgramInfo`]). It stops at the first violated rule and reports it as an
//! [`AnalysisError`]. The rules themselves are stated in
//! [`crate::semantics`].
use vstd::prelude::*;
use crate::ast::{
    Assign, BinOp, BinOpExpr, Block, DataType, DefId, Expr, ForInit, ForStmt, FuncCall, FuncDef,
    FuncItemId, FuncParam, GlobalVarItemId, Ident, IfStmt, Item, ItemId, PrintStmt, Program,
    ResIdent, SpecExpr, SpecItem, SpecStmt, Stmt, VarDef, WhileStmt, expr_view, exprs_view,
    lemma_exprs_view, lemma_exprs_view_update, lemma_stmts_view, lemma_stmts_view_update, stmt_view,
    stmts_view,
};
use crate::semantics::{
    analysis_of, check_assign, check_call, check_cond, check_expr, check_exprs, check_func_def,
    check_global_var_def, check_items, check_local_var_def, check_main, check_param, check_params,
    check_print, check_stmt, check_stmts, check_var_init, define_funcs, first_mismatch,
    msg_duplicate, msg_operator, msg_resolve, resolved, spec_is_compatible, spec_least_upper_bound,
};
use crate::symtab::{
    DefInfo, FuncDefId, ProgramInfo, SpecDef, Symtab, SymtabView, globals_view,
    law_define_then_resolve, lemma_define_steps, lemma_enter_wf, lemma_steps_enter_leave,
    lemma_steps_refl, lemma_steps_trans, lookup, param_types_of, resolve_in,
};
use crate::text::push_decimal;

verus! {

/// A human-readable compile-time error.
#[derive(Debug)]
pub struct AnalysisError(String);

impl View for AnalysisError {
    type V = Seq<char>;

    closed spec fn view(&self) -> Seq<char> {
        self.0@
    }
}

/// The view of an analysis result: the value, or the error message.
pub open spec fn result_view<T>(r: Result<T, AnalysisError>) -> Result<T, Seq<char>> {
    match r {
        Ok(v) => Ok(v),
        Err(e) => Err(e@),
    }
}

impl AnalysisError {
    fn new(msg: &str) -> (res: AnalysisError)
        ensures
            res@ == msg@,
    {
        AnalysisError(msg.to_owned())
    }

    /// The error with a message.
    pub fn from_string(msg: String) -> (res: AnalysisError)
        ensures
            res@ == msg@,
    {
        AnalysisError(msg)
    }

    /// The message of the error.
    pub fn message(&self) -> (res: String)
        ensures
            res@ == self@,
    {
        self.0.clone()
    }

    /// The error for a name that cannot be resolved.
    fn resolve(name: &Ident) -> (res: AnalysisError)
        ensures
            res@ == msg_resolve(name.0@),
    {
        let mut s = String::new();
        s.append("cannot resolve ");
        s.append(name.quoted().as_str());
        s.append(" in this scope");
        AnalysisError(s)
    }

    /// The error for a name defined twice in the same scope.
    fn duplicate(name: &Ident) -> (res: AnalysisError)
        ensures
            res@ == msg_duplicate(name.0@),
    {
        let mut s = String::new();
        s.append("duplicate definition of ");
        s.append(name.quoted().as_str());
        s.append(" in the same scope");
        AnalysisError(s)
    }
}

/// The visitor that drives the semantic analysis pass.
#[derive(Debug)]
pub struct Analyzer {
    /// The block-structured symbol table.
    tab: Symtab,
}

impl View for Analyzer {
    type V = SymtabView;

    closed spec fn view(&self) -> SymtabView {
        self.tab@
    }
}

impl Default for Analyzer {
    fn default() -> (res: Analyzer)
        ensures
            res@ == SymtabView::initial(),
    {
        Analyzer { tab: Symtab::new() }
    }
}

impl Analyzer {
    /// Returns whether a value of type `from` can be used where a value of
    /// type `to` is expected, i.e. whether the types are identical or `from`
    /// can be implicitly converted to `to`.
    ///
    /// The only implicit conversion in C1 is from `int` to `float`.
    fn is_compatible(from: DataType, to: DataType) -> (res: bool)
        ensures
            res == spec_is_compatible(from, to),
    {
        from == to || (from == DataType::Int && to == DataType::Float)
    }

    /// Returns the smallest type that both types are compatible with, or
    /// `None` if the types are incompatible with each other.
    fn least_upper_bound(a: DataType, b: DataType) -> (res: Option<DataType>)
        ensures
            res == spec_least_upper_bound(a, b),
    {
        if Self::is_compatible(a, b) {
            Some(b)
        } else if Self::is_compatible(b, a) {
            Some(a)
        } else {
            None
        }
    }

    /// Resolves an identifier and records the resolution.
    fn resolve_ident(&mut self, ident: &mut ResIdent) -> (res: Result<DefId, AnalysisError>)
        requires
            old(self)@.wf(),
        ensures
            final(self)@ == old(self)@,
            match old(self)@.resolve(old(ident)@.name) {
                Some(id) => res == Ok::<DefId, AnalysisError>(DefId(id)) && final(ident)@ == resolved(
                    old(ident)@,
                    id,
                ) && id < old(self)@.defs.len(),
                None => res matches Err(e) && e@ == msg_resolve(old(ident)@.name) && final(ident)@
                    == old(ident)@,
            },
    {
        match self.tab.resolve(&ident.ident.0) {
            Some(id) => {
                proof {
                    lemma_resolve_in_defs(self@, ident@.name);
                }
                ident.set_res(id);
                Ok(id)
            },
            None => Err(AnalysisError::resolve(&ident.ident)),
        }
    }

    /// Analyzes an expression and returns its type.
    fn visit_expr(&mut self, expr: &mut Expr) -> (res: Result<DataType, AnalysisError>)
        requires
            old(self)@.wf(),
        ensures
            final(self)@ == old(self)@,
            (final(expr)@, result_view(res)) == check_expr(old(self)@, old(expr)@),
        decreases *old(expr), 0nat,
    {
        match expr {
            Expr::BinaryOp(inner) => self.visit_bin_op_expr(inner),
            Expr::UnaryMinus(inner) => self.visit_unary_minus_expr(inner),
            Expr::Assign(inner) => self.visit_assign(inner),
            Expr::Call(inner) => self.visit_call(inner),
            Expr::Literal(literal) => Ok(literal.data_type()),
            Expr::Var(res_ident) => self.visit_var_expr(res_ident),
        }
    }

    /// Analyzes a binary operator expression and returns its type.
    fn visit_bin_op_expr(&mut self, bin_op_expr: &mut BinOpExpr) -> (res: Result<DataType, AnalysisError>)
        requires
            old(self)@.wf(),
        ensures
            final(self)@ == old(self)@,
            (final(bin_op_expr)@, result_view(res)) == check_expr(old(self)@, old(bin_op_expr)@),
        decreases *old(bin_op_expr), 1nat,
    {
        let lhs_type = match self.visit_expr(&mut bin_op_expr.lhs) {
            Ok(t) => t,
            Err(e) => return Err(e),
        };
        let rhs_type = match self.visit_expr(&mut bin_op_expr.rhs) {
            Ok(t) => t,
            Err(e) => return Err(e),
        };
        let op = bin_op_expr.op;

        // Both operands must be compatible with each other, the operator is
        // then checked against their common type.
        let common_type = match Self::least_upper_bound(lhs_type, rhs_type) {
            Some(t) => t,
            None => {
                let mut s = String::new();
                s.append("cannot apply binary operator to incompatible types: `");
                s.append(lhs_type.name());
                s.append(" ");
                s.append(op.symbol());
                s.append(" ");
                s.append(rhs_type.name());
                s.append("`");
                return Err(AnalysisError::from_string(s));
            },
        };
        match op {
            BinOp::Add | BinOp::Sub | BinOp::Mul | BinOp::Div => {
                if !common_type.is_numeric() {
                    return Err(Self::operator_error("arithmetic", op, common_type));
                }
                // `float` if one of the operands is `float`, `int` otherwise.
                Ok(common_type)
            },
            BinOp::LogAnd | BinOp::LogOr => {
                if common_type != DataType::Bool {
                    return Err(Self::operator_error("logical", op, common_type));
                }
                Ok(DataType::Bool)
            },
            _ => {
                if common_type == DataType::Void {
                    return Err(Self::operator_error("comparison", op, common_type));
                }
                Ok(DataType::Bool)
            },
        }
    }

    /// The error for an operator applied to values of an unsuitable type.
    fn operator_error(kind: &str, op: BinOp, t: DataType) -> (res: AnalysisError)
        ensures
            res@ == msg_operator(kind@, op, t),
    {
        let mut s = String::new();
        s.append("cannot use ");
        s.append(kind);
        s.append(" operator `");
        s.append(op.symbol());
        s.append("` with values of type `");
        s.append(t.name());
        s.append("`");
        AnalysisError::from_string(s)
    }

    /// Analyzes an unary minus expression and returns its type.
    fn visit_unary_minus_expr(&mut self, inner_expr: &mut Box<Expr>) -> (res: Result<DataType, AnalysisError>)
        requires
            old(self)@.wf(),
        ensures
            final(self)@ == old(self)@,
            (crate::ast::SpecExpr::UnaryMinus(Box::new(final(inner_expr)@)), result_view(res))
                == check_expr(old(self)@, crate::ast::SpecExpr::UnaryMinus(Box::new(old(inner_expr)@))),
        decreases *old(inner_expr), 1nat,
    {
        let inner_type = match self.visit_expr(inner_expr) {
            Ok(t) => t,
            Err(e) => return Err(e),
        };
        if !inner_type.is_numeric() {
            let mut s = String::new();
            s.append("cannot apply unary minus to type `");
            s.append(inner_type.name());
            s.append("`");
            return Err(AnalysisError::from_string(s));
        }
        Ok(inner_type)
    }

    /// Analyzes a variable expression and returns its type.
    fn visit_var_expr(&mut self, res_ident: &mut ResIdent) -> (res: Result<DataType, AnalysisError>)
        requires
            old(self)@.wf(),
        ensures
            final(self)@ == old(self)@,
            (crate::ast::SpecExpr::Var(final(res_ident)@), result_view(res)) == check_expr(
                old(self)@,
                crate::ast::SpecExpr::Var(old(res_ident)@),
            ),
    {
        let def_id = self.resolve_ident(res_ident)?;
        // Function identifiers are only valid expressions when called.
        match self.tab.get(def_id) {
            DefInfo::GlobalVar(var_info) | DefInfo::LocalVar(var_info) => Ok(var_info.data_type),
            DefInfo::Func(_) => {
                let mut s = String::new();
                s.append("cannot load function ");
                s.append(res_ident.quoted().as_str());
                s.append(" as a value");
                Err(AnalysisError::from_string(s))
            },
        }
    }

    /// Analyzes an assignment statement or expression and returns its type.
    fn visit_assign(&mut self, assign: &mut Assign) -> (res: Result<DataType, AnalysisError>)
        requires
            old(self)@.wf(),
        ensures
            final(self)@ == old(self)@,
            (final(assign)@, result_view(res)) == check_assign(old(self)@, old(assign)@),
        decreases *old(assign), 1nat,
    {
        let rhs_type = match self.visit_expr(&mut assign.rhs) {
            Ok(t) => t,
            Err(e) => return Err(e),
        };
        let def_id = self.resolve_ident(&mut assign.lhs)?;
        // Only variables can be assigned to.
        let lhs_type = match self.tab.get(def_id) {
            DefInfo::GlobalVar(var_info) | DefInfo::LocalVar(var_info) => var_info.data_type,
            DefInfo::Func(_) => {
                let mut s = String::new();
                s.append("cannot assign to function ");
                s.append(assign.lhs.quoted().as_str());
                return Err(AnalysisError::from_string(s));
            },
        };
        if !Self::is_compatible(rhs_type, lhs_type) {
            let mut s = String::new();
            s.append("cannot assign value of type `");
            s.append(rhs_type.name());
            s.append("` to variable ");
            s.append(assign.lhs.quoted().as_str());
            s.append(" of type `");
            s.append(lhs_type.name());
            s.append("`");
            return Err(AnalysisError::from_string(s));
        }
        // The type of an assignment is the type of the variable.
        Ok(lhs_type)
    }

    /// Analyzes a call statement or expression and returns its return type.
    fn visit_call(&mut self, call: &mut FuncCall) -> (res: Result<DataType, AnalysisError>)
        requires
            old(self)@.wf(),
        ensures
            final(self)@ == old(self)@,
            (final(call)@, result_view(res)) == check_call(old(self)@, old(call)@),
        decreases *old(call), 1nat,
    {
        let ghost st = self@;
        let ghost old_args = exprs_view(call.args@);
        let mut arg_types: Vec<DataType> = Vec::new();
        let n = call.args.len();
        let mut i: usize = 0;
        proof {
            lemma_exprs_view(call.args@);
        }
        while i < n
            invariant
                self@ == st,
                st == old(self)@,
                st.wf(),
                n == call.args@.len(),
                i <= n,
                old_args == exprs_view(old(call).args@),
                old_args.len() == n,
                call.res_ident == old(call).res_ident,
                exprs_view(call.args@) == check_exprs(st, old_args.take(i as int)).0 + old_args.skip(
                    i as int,
                ),
                check_exprs(st, old_args.take(i as int)).1 == Ok::<Seq<DataType>, Seq<char>>(arg_types@),
                forall|j: int| i <= j < n ==> call.args@[j] == old(call).args@[j],
            decreases n - i,
        {
            proof {
                lemma_exprs_view(call.args@);
                lemma_exprs_view(old(call).args@);
                assert(old_args.take(i + 1).drop_last() == old_args.take(i as int));
                assert(old_args.take(i + 1).last() == old_args[i as int]);
                assert(old_args[i as int] == crate::ast::expr_view(old(call).args@[i as int]));
                lemma_check_exprs_len(st, old_args.take(i as int));
                let ov = old(call).args;
                assert(decreases_to!(*old(call) => ov));
                assert(decreases_to!(ov => ov@));
                assert(decreases_to!(ov@ => ov@[i as int]));
            }
            let ghost before = call.args@;
            let t = self.visit_expr(&mut call.args[i]);
            proof {
                lemma_exprs_view_update(before, i as int, call.args@[i as int]);
                lemma_check_exprs_len(st, old_args.take(i as int));
            }
            match t {
                Ok(t) => {
                    arg_types.push(t);
                    proof {
                        assert(exprs_view(call.args@) =~= check_exprs(st, old_args.take(i + 1)).0
                            + old_args.skip(i + 1));
                    }
                },
                Err(e) => {
                    proof {
                        assert(old_args.take(i + 1) + old_args.skip(i + 1) =~= old_args);
                        lemma_check_exprs_prefix_err(st, old_args, i as int + 1);
                        assert(exprs_view(call.args@) =~= check_exprs(st, old_args).0);
                    }
                    return Err(e);
                },
            }
            i += 1;
        }
        proof {
            assert(old_args.take(n as int) == old_args);
            assert(old_args.skip(n as int) =~= Seq::<crate::ast::SpecExpr>::empty());
            assert(exprs_view(call.args@) =~= check_exprs(st, old_args).0);
        }
        let def_id = self.resolve_ident(&mut call.res_ident)?;
        // The call operator can only be applied to functions.
        let func_info = match self.tab.get(def_id) {
            DefInfo::Func(func_info) => func_info,
            _ => {
                let mut s = String::new();
                s.append("cannot call variable ");
                s.append(call.res_ident.quoted().as_str());
                return Err(AnalysisError::from_string(s));
            },
        };
        if arg_types.len() != func_info.param_count() {
            let mut s = String::new();
            s.append("incorrect number of arguments in call to ");
            s.append(call.res_ident.quoted().as_str());
            s.append(", expected ");
            push_decimal(&mut s, func_info.param_count() as u64);
            s.append(", found ");
            push_decimal(&mut s, arg_types.len() as u64);
            return Err(AnalysisError::from_string(s));
        }
        let mut index: usize = 0;
        #[verifier::loop_isolation(false)]
        while index < arg_types.len()
            invariant
                index <= arg_types@.len(),
                arg_types@.len() == func_info.param_types@.len(),
                first_mismatch(arg_types@.take(index as int), func_info.param_types@) is None,
            decreases arg_types@.len() - index,
        {
            let arg_type = arg_types[index];
            let param_type = func_info.param_types[index];
            proof {
                assert(arg_types@.take(index + 1).drop_last() == arg_types@.take(index as int));
            }
            if !Self::is_compatible(arg_type, param_type) {
                let mut s = String::new();
                s.append("incorrect type for argument ");
                push_decimal(&mut s, index as u64);
                s.append(" in call to ");
                s.append(call.res_ident.quoted().as_str());
                s.append(", expected `");
                s.append(param_type.name());
                s.append("`, found `");
                s.append(arg_type.name());
                s.append("`");
                proof {
                    lemma_first_mismatch_prefix(arg_types@, func_info.param_types@, index as int + 1);
                }
                return Err(AnalysisError::from_string(s));
            }
            index += 1;
        }
        proof {
            assert(arg_types@.take(index as int) == arg_types@);
        }
        Ok(func_info.return_type)
    }
}

impl Analyzer {
    /// Analyzes the condition expression of a control flow statement, expecting
    /// a boolean type.
    ///
    /// The `kind` parameter describes the statement for diagnostics.
    fn visit_cond_expr(&mut self, expr: &mut Expr, kind: &str) -> (res: Result<(), AnalysisError>)
        requires
            old(self)@.wf(),
        ensures
            final(self)@ == old(self)@,
            (final(expr)@, result_view(res)) == check_cond(old(self)@, old(expr)@, kind@),
    {
        let cond_type = self.visit_expr(expr)?;
        if cond_type != DataType::Bool {
            let mut s = String::new();
            s.append("condition of ");
            s.append(kind);
            s.append(" must have type `bool`, found `");
            s.append(cond_type.name());
            s.append("`");
            return Err(AnalysisError::from_string(s));
        }
        Ok(())
    }

    /// Analyzes a variable definition.
    ///
    /// This method contains code that is shared between [`Self::visit_global_var_def`] and
    /// [`Self::visit_local_var_def`].
    ///
    /// The `kind` parameter can be used to distinguish global and local vars in diagnostics.
    fn visit_var_def(&mut self, var_def: &mut VarDef, kind: &str) -> (res: Result<(), AnalysisError>)
        requires
            old(self)@.wf(),
        ensures
            final(self)@ == old(self)@,
            (final(var_def)@, result_view(res)) == check_var_init(old(self)@, old(var_def)@, kind@),
    {
        if var_def.data_type == DataType::Void {
            let mut s = String::new();
            s.append("cannot define ");
            s.append(kind);
            s.append(" ");
            s.append(var_def.res_ident.quoted().as_str());
            s.append(" with type `void`");
            return Err(AnalysisError::from_string(s));
        }
        let data_type = var_def.data_type;
        match &mut var_def.init {
            None => Ok(()),
            Some(init) => {
                let init_type = self.visit_expr(init)?;
                if !Self::is_compatible(init_type, data_type) {
                    let mut s = String::new();
                    s.append("cannot initialize variable ");
                    s.append(var_def.res_ident.quoted().as_str());
                    s.append(" of type `");
                    s.append(data_type.name());
                    s.append("` with value of type `");
                    s.append(init_type.name());
                    s.append("`");
                    return Err(AnalysisError::from_string(s));
                }
                Ok(())
            },
        }
    }

    /// Analyzes a local variable definition (not a function parameter).
    fn visit_local_var_def(&mut self, var_def: &mut VarDef) -> (res: Result<(), AnalysisError>)
        requires
            old(self)@.wf(),
            old(self)@.current is Some,
        ensures
            ({
                let (t, r) = check_local_var_def(old(self)@, old(var_def)@);
                &&& final(var_def)@ == t
                &&& match r {
                    Ok(st) => res is Ok && final(self)@ == st && old(self)@.steps_to(st),
                    Err(m) => res matches Err(e) && e@ == m,
                }
            }),
    {
        let ghost st = self@;
        self.visit_var_def(var_def, "local variable")?;
        // The variable is defined after its initializer was analyzed, so the
        // initializer can't refer to the variable itself.
        proof {
            lemma_define_steps(st, var_def.res_ident@.name, var_def.data_type, Seq::empty(), 0);
        }
        match self.tab.define_local_var(&var_def.res_ident.ident.0, var_def.data_type) {
            Some(def_id) => {
                var_def.res_ident.set_res(def_id);
                Ok(())
            },
            None => Err(AnalysisError::duplicate(&var_def.res_ident.ident)),
        }
    }

    /// Analyzes a statement.
    fn visit_stmt(&mut self, stmt: &mut Stmt) -> (res: Result<(), AnalysisError>)
        requires
            old(self)@.wf(),
            old(self)@.current is Some,
        ensures
            ({
                let (t, r) = check_stmt(old(self)@, old(stmt)@);
                &&& final(stmt)@ == t
                &&& match r {
                    Ok(st) => res is Ok && final(self)@ == st && old(self)@.steps_to(st),
                    Err(m) => res matches Err(e) && e@ == m,
                }
            }),
        decreases *old(stmt), 0nat,
    {
        proof {
            lemma_steps_refl(self@);
        }
        match stmt {
            Stmt::Empty => Ok(()),
            Stmt::If(inner) => self.visit_if_stmt(inner),
            Stmt::For(inner) => self.visit_for_stmt(inner),
            Stmt::While(inner) => self.visit_while_stmt(inner, "while loop"),
            Stmt::DoWhile(inner) => self.visit_while_stmt(inner, "do-while loop"),
            Stmt::Return(expr) => self.visit_return_stmt(expr),
            Stmt::Print(inner) => self.visit_print_stmt(inner),
            Stmt::VarDef(var_def) => self.visit_local_var_def(var_def),
            Stmt::Assign(assign) => {
                self.visit_assign(assign)?;
                Ok(())
            },
            Stmt::Call(call) => {
                self.visit_call(call)?;
                Ok(())
            },
            Stmt::Block(block) => self.visit_block(block),
        }
    }

    /// Analyzes statements in order.
    fn visit_stmts(&mut self, stmts: &mut Vec<Stmt>) -> (res: Result<(), AnalysisError>)
        requires
            old(self)@.wf(),
            old(self)@.current is Some,
        ensures
            ({
                let (t, r) = check_stmts(old(self)@, stmts_view(old(stmts)@));
                &&& stmts_view(final(stmts)@) == t
                &&& match r {
                    Ok(st) => res is Ok && final(self)@ == st && old(self)@.steps_to(st),
                    Err(m) => res matches Err(e) && e@ == m,
                }
            }),
        decreases *old(stmts), 1nat,
    {
        let ghost st0 = self@;
        let ghost old_ss = stmts_view(stmts@);
        let n = stmts.len();
        let mut i: usize = 0;
        proof {
            lemma_stmts_view(stmts@);
            lemma_steps_refl(st0);
            assert(old_ss.take(0) =~= Seq::<SpecStmt>::empty());
            assert(old_ss.skip(0) == old_ss);
        }
        while i < n
            invariant
                st0 == old(self)@,
                st0.wf(),
                st0.current is Some,
                n == stmts@.len(),
                i <= n,
                old_ss == stmts_view(old(stmts)@),
                old_ss.len() == n,
                stmts_view(stmts@) == check_stmts(st0, old_ss.take(i as int)).0 + old_ss.skip(i as int),
                check_stmts(st0, old_ss.take(i as int)).1 == Ok::<SymtabView, Seq<char>>(self@),
                st0.steps_to(self@),
                forall|j: int| i <= j < n ==> stmts@[j] == old(stmts)@[j],
            decreases n - i,
        {
            proof {
                lemma_stmts_view(stmts@);
                lemma_stmts_view(old(stmts)@);
                assert(old_ss.take(i + 1).drop_last() == old_ss.take(i as int));
                assert(old_ss.take(i + 1).last() == old_ss[i as int]);
                assert(old_ss[i as int] == stmt_view(old(stmts)@[i as int]));
                lemma_check_stmts_len(st0, old_ss.take(i as int));
                let ov = *old(stmts);
                assert(decreases_to!(ov => ov@));
                assert(decreases_to!(ov@ => ov@[i as int]));
            }
            let ghost before = stmts@;
            let ghost st_before = self@;
            let r = self.visit_stmt(&mut stmts[i]);
            proof {
                lemma_stmts_view_update(before, i as int, stmts@[i as int]);
                lemma_check_stmts_len(st0, old_ss.take(i as int));
            }
            match r {
                Ok(()) => {
                    proof {
                        lemma_steps_trans(st0, st_before, self@);
                        assert(stmts_view(stmts@) =~= check_stmts(st0, old_ss.take(i + 1)).0
                            + old_ss.skip(i + 1));
                    }
                },
                Err(e) => {
                    proof {
                        lemma_check_stmts_prefix_err(st0, old_ss, i as int + 1);
                        assert(stmts_view(stmts@) =~= check_stmts(st0, old_ss).0);
                    }
                    return Err(e);
                },
            }
            i += 1;
        }
        proof {
            assert(old_ss.take(n as int) == old_ss);
            assert(old_ss.skip(n as int) =~= Seq::<SpecStmt>::empty());
            assert(stmts_view(stmts@) =~= check_stmts(st0, old_ss).0);
        }
        Ok(())
    }

    /// Analyzes a block statement.
    fn visit_block(&mut self, block: &mut Block) -> (res: Result<(), AnalysisError>)
        requires
            old(self)@.wf(),
            old(self)@.current is Some,
        ensures
            ({
                let (t, r) = check_stmt(old(self)@, stmt_view(Stmt::Block(*old(block))));
                &&& stmt_view(Stmt::Block(*final(block))) == t
                &&& match r {
                    Ok(st) => res is Ok && final(self)@ == st && old(self)@.steps_to(st),
                    Err(m) => res matches Err(e) && e@ == m,
                }
            }),
        decreases *old(block), 1nat,
    {
        let ghost st0 = self@;
        proof {
            lemma_enter_wf(st0);
        }
        self.tab.scope_enter();
        self.visit_stmts(&mut block.statements)?;
        proof {
            lemma_steps_enter_leave(st0, self@);
        }
        self.tab.scope_leave();
        Ok(())
    }

    /// Analyzes an `if` statement.
    fn visit_if_stmt(&mut self, stmt: &mut IfStmt) -> (res: Result<(), AnalysisError>)
        requires
            old(self)@.wf(),
            old(self)@.current is Some,
        ensures
            ({
                let (t, r) = check_stmt(old(self)@, stmt_view(Stmt::If(*old(stmt))));
                &&& stmt_view(Stmt::If(*final(stmt))) == t
                &&& match r {
                    Ok(st) => res is Ok && final(self)@ == st && old(self)@.steps_to(st),
                    Err(m) => res matches Err(e) && e@ == m,
                }
            }),
        decreases *old(stmt), 1nat,
    {
        let ghost st0 = self@;
        self.visit_cond_expr(&mut stmt.cond, "if")?;
        self.visit_stmt(&mut stmt.if_true)?;
        let ghost st1 = self@;
        match &mut stmt.if_false {
            Some(if_false) => {
                self.visit_stmt(if_false)?;
                proof {
                    lemma_steps_trans(st0, st1, self@);
                }
            },
            None => {},
        }
        Ok(())
    }

    /// Analyzes a `for` statement.
    fn visit_for_stmt(&mut self, stmt: &mut ForStmt) -> (res: Result<(), AnalysisError>)
        requires
            old(self)@.wf(),
            old(self)@.current is Some,
        ensures
            ({
                let (t, r) = check_stmt(old(self)@, stmt_view(Stmt::For(*old(stmt))));
                &&& stmt_view(Stmt::For(*final(stmt))) == t
                &&& match r {
                    Ok(st) => res is Ok && final(self)@ == st && old(self)@.steps_to(st),
                    Err(m) => res matches Err(e) && e@ == m,
                }
            }),
        decreases *old(stmt), 1nat,
    {
        let ghost st0 = self@;
        proof {
            lemma_enter_wf(st0);
            lemma_steps_refl(st0.enter());
        }
        // A variable defined in the initializer is only visible inside the loop.
        self.tab.scope_enter();
        match &mut stmt.init {
            ForInit::VarDef(var_def) => self.visit_local_var_def(var_def)?,
            ForInit::Assign(assign) => {
                self.visit_assign(assign)?;
            },
        }
        let ghost st1 = self@;
        self.visit_cond_expr(&mut stmt.cond, "for loop")?;
        self.visit_assign(&mut stmt.update)?;
        self.visit_stmt(&mut stmt.body)?;
        proof {
            lemma_steps_trans(st0.enter(), st1, self@);
            lemma_steps_enter_leave(st0, self@);
        }
        self.tab.scope_leave();
        Ok(())
    }

    /// Analyzes a `while` or `do`-`while` statement.
    ///
    /// The `kind` parameter can be used to distinguish them in diagnostics.
    fn visit_while_stmt(&mut self, stmt: &mut WhileStmt, kind: &str) -> (res: Result<(), AnalysisError>)
        requires
            old(self)@.wf(),
            old(self)@.current is Some,
        ensures
            ({
                let (c2, rc) = check_cond(old(self)@, old(stmt).cond@, kind@);
                let (b2, rb) = check_stmt(old(self)@, stmt_view(*old(stmt).body));
                &&& final(stmt).cond@ == c2
                &&& match rc {
                    Err(m) => res matches Err(e) && e@ == m && stmt_view(*final(stmt).body)
                        == stmt_view(*old(stmt).body),
                    Ok(_) => stmt_view(*final(stmt).body) == b2 && match rb {
                        Ok(st) => res is Ok && final(self)@ == st && old(self)@.steps_to(st),
                        Err(m) => res matches Err(e) && e@ == m,
                    },
                }
            }),
        decreases *old(stmt), 1nat,
    {
        self.visit_cond_expr(&mut stmt.cond, kind)?;
        self.visit_stmt(&mut stmt.body)
    }

    /// Analyzes a `return` statement.
    fn visit_return_stmt(&mut self, expr: &mut Option<Expr>) -> (res: Result<(), AnalysisError>)
        requires
            old(self)@.wf(),
            old(self)@.current is Some,
        ensures
            ({
                let (t, r) = check_stmt(old(self)@, stmt_view(Stmt::Return(*old(expr))));
                &&& stmt_view(Stmt::Return(*final(expr))) == t
                &&& match r {
                    Ok(st) => res is Ok && final(self)@ == st && old(self)@.steps_to(st),
                    Err(m) => res matches Err(e) && e@ == m,
                }
            }),
    {
        proof {
            lemma_steps_refl(self@);
        }
        let func_return_type = self.tab.current_func().unwrap().return_type;
        match expr {
            Some(expr) => {
                let expr_type = self.visit_expr(expr)?;
                // `void` functions must not return anything, not even `void` values.
                if func_return_type == DataType::Void {
                    return Err(
                        AnalysisError::new("cannot `return` with value in function returning `void`"),
                    );
                }
                if !Self::is_compatible(expr_type, func_return_type) {
                    let mut s = String::new();
                    s.append("cannot return value of type `");
                    s.append(expr_type.name());
                    s.append("` from function returning `");
                    s.append(func_return_type.name());
                    s.append("`");
                    return Err(AnalysisError::from_string(s));
                }
            },
            None => {
                if func_return_type != DataType::Void {
                    let mut s = String::new();
                    s.append("cannot `return;` without value in function returning `");
                    s.append(func_return_type.name());
                    s.append("`");
                    return Err(AnalysisError::from_string(s));
                }
            },
        }
        Ok(())
    }

    /// Analyzes a `print` statement.
    fn visit_print_stmt(&mut self, print: &mut PrintStmt) -> (res: Result<(), AnalysisError>)
        requires
            old(self)@.wf(),
            old(self)@.current is Some,
        ensures
            ({
                let (t, r) = check_stmt(old(self)@, stmt_view(Stmt::Print(*old(print))));
                &&& stmt_view(Stmt::Print(*final(print))) == t
                &&& match r {
                    Ok(st) => res is Ok && final(self)@ == st && old(self)@.steps_to(st),
                    Err(m) => res matches Err(e) && e@ == m,
                }
            }),
    {
        let ghost st = self@;
        let ghost old_es = exprs_view(print.exprs@);
        let n = print.exprs.len();
        let mut i: usize = 0;
        proof {
            lemma_exprs_view(print.exprs@);
            lemma_steps_refl(st);
            assert(old_es.take(0) =~= Seq::<SpecExpr>::empty());
            assert(old_es.skip(0) == old_es);
        }
        while i < n
            invariant
                self@ == st,
                st == old(self)@,
                st.wf(),
                n == print.exprs@.len(),
                i <= n,
                old_es == exprs_view(old(print).exprs@),
                old_es.len() == n,
                exprs_view(print.exprs@) == check_print(st, old_es.take(i as int)).0 + old_es.skip(
                    i as int,
                ),
                check_print(st, old_es.take(i as int)).1 == Ok::<(), Seq<char>>(()),
                forall|j: int| i <= j < n ==> print.exprs@[j] == old(print).exprs@[j],
            decreases n - i,
        {
            proof {
                lemma_exprs_view(print.exprs@);
                lemma_exprs_view(old(print).exprs@);
                assert(old_es.take(i + 1).drop_last() == old_es.take(i as int));
                assert(old_es.take(i + 1).last() == old_es[i as int]);
                assert(old_es[i as int] == expr_view(old(print).exprs@[i as int]));
                lemma_check_print_len(st, old_es.take(i as int));
            }
            let ghost before = print.exprs@;
            let r = self.visit_expr(&mut print.exprs[i]);
            proof {
                lemma_exprs_view_update(before, i as int, print.exprs@[i as int]);
                lemma_check_print_len(st, old_es.take(i as int));
            }
            match r {
                Ok(expr_type) => {
                    if expr_type == DataType::Void {
                        proof {
                            lemma_check_print_prefix_err(st, old_es, i as int + 1);
                            assert(exprs_view(print.exprs@) =~= check_print(st, old_es).0);
                        }
                        return Err(AnalysisError::new("cannot `print` value of type `void`"));
                    }
                    proof {
                        assert(exprs_view(print.exprs@) =~= check_print(st, old_es.take(i + 1)).0
                            + old_es.skip(i + 1));
                    }
                },
                Err(e) => {
                    proof {
                        lemma_check_print_prefix_err(st, old_es, i as int + 1);
                        assert(exprs_view(print.exprs@) =~= check_print(st, old_es).0);
                    }
                    return Err(e);
                },
            }
            i += 1;
        }
        proof {
            assert(old_es.take(n as int) == old_es);
            assert(old_es.skip(n as int) =~= Seq::<SpecExpr>::empty());
            assert(exprs_view(print.exprs@) =~= check_print(st, old_es).0);
        }
        Ok(())
    }
}

/// The entry function of the semantic analysis pass.
///
/// This function supports forward referencing of functions: a pre-pass
/// registers all function definitions before the main analysis pass, so
/// functions can be called before they are defined.
pub fn analyze(root: &mut Program) -> (res: Result<ProgramInfo, AnalysisError>)
    ensures
        ({
            let (items, r) = analysis_of(old(root)@);
            &&& final(root)@ == items
            &&& match r {
                Ok((st, main)) => res matches Ok(info) && info.definitions@ == st.defs && globals_view(
                    info.global_vars@,
                ) == st.globals && info.main_func == Some(FuncDefId(DefId(main))),
                Err(m) => res matches Err(e) && e@ == m,
            }
        }),
{
    let mut analyzer = Analyzer::default();
    let ghost items = root@;
    let n = root.items.len();

    // Pre-pass: register all function definitions.
    let mut index: usize = 0;
    while index < n
        invariant
            n == root.items@.len(),
            items == root@,
            items == old(root)@,
            items.len() == n,
            index <= n,
            define_funcs(SymtabView::initial(), items.take(index as int)) == Ok::<SymtabView, Seq<char>>(
                analyzer@,
            ),
            analyzer@.wf(),
            analyzer@.scopes.len() == 1,
            funcs_resolve(analyzer@, items.take(index as int)),
        decreases n - index,
    {
        proof {
            assert(items.take(index + 1).drop_last() == items.take(index as int));
            assert(items[index as int] == root.items@[index as int]@);
        }
        match &root.items[index] {
            Item::Func(func_def) => {
                let ghost st = analyzer@;
                proof {
                    lemma_define_steps(
                        st,
                        func_def.ident.0@,
                        func_def.return_type,
                        param_types_of(crate::ast::params_view(func_def.params@)),
                        index,
                    );
                }
                match analyzer.tab.define_func(
                    &func_def.ident.0,
                    func_def.return_type,
                    &func_def.params,
                    FuncItemId(ItemId(index)),
                ) {
                    Some(_) => {
                        proof {
                            analyzer.tab.lemma_defs_bound();
                            lemma_funcs_resolve_define(st, analyzer@, items.take(index as int), func_def@);
                            assert(items.take(index + 1) =~= items.take(index as int).push(
                                SpecItem::Func(func_def@),
                            ));
                        }
                    },
                    None => {
                        proof {
                            lemma_define_funcs_prefix_err(items, index as int + 1);
                        }
                        return Err(AnalysisError::duplicate(&func_def.ident));
                    },
                }
            },
            Item::GlobalVar(_) => {
                proof {
                    assert(items.take(index + 1) =~= items.take(index as int).push(items[index as int]));
                    assert forall|k: int| 0 <= k < items.take(index + 1).len() && (#[trigger] items.take(index + 1)[k]) is Func
                        implies func_resolves(analyzer@, items.take(index + 1)[k]->Func_0.name) by {
                        if k < index {
                            assert(items.take(index + 1)[k] == items.take(index as int)[k]);
                        }
                    }
                }
            },
        }
        index += 1;
    }
    proof {
        assert(items.take(n as int) == items);
    }
    let ghost st1 = analyzer@;

    // Main pass: full semantic analysis.
    let mut index: usize = 0;
    proof {
        assert(items.take(0) =~= Seq::<SpecItem>::empty());
        assert(items.skip(0) == items);
    }
    while index < n
        invariant
            n == root.items@.len(),
            items.len() == n,
            items == old(root)@,
            index <= n,
            define_funcs(SymtabView::initial(), items) == Ok::<SymtabView, Seq<char>>(st1),
            root@ == check_items(st1, items.take(index as int)).0 + items.skip(index as int),
            check_items(st1, items.take(index as int)).1 == Ok::<SymtabView, Seq<char>>(analyzer@),
            analyzer@.wf(),
            analyzer@.scopes.len() == 1,
            forall|k: int| index <= k < n && (#[trigger] items[k]) is Func ==> func_resolves(analyzer@, items[k]->Func_0.name),
            forall|j: int| index <= j < n ==> root.items@[j]@ == #[trigger] items[j],
        decreases n - index,
    {
        let ghost st = analyzer@;
        let ghost before = root.items@;
        proof {
            assert(items.take(index + 1).drop_last() == items.take(index as int));
            assert(items.take(index + 1).last() == items[index as int]);
            lemma_check_items_len(st1, items.take(index as int));
        }
        let ghost prefix = check_items(st1, items.take(index as int)).0;
        proof {
            lemma_check_items_len(st1, items.take(index as int));
            assert(before[index as int]@ == items[index as int]);
        }
        let r = analyzer.visit_item(ItemId(index), &mut root.items[index]);
        proof {
            assert(root.items@ == before.update(index as int, root.items@[index as int]));
            assert(root@ =~= (prefix + items.skip(index as int)).update(
                index as int,
                root.items@[index as int]@,
            ));
            assert(root@ =~= prefix.push(root.items@[index as int]@) + items.skip(index + 1));
        }
        match r {
            Ok(()) => {
                proof {
                    assert(root@ =~= check_items(st1, items.take(index + 1)).0 + items.skip(index + 1));
                    assert forall|k: int| index + 1 <= k < n && (#[trigger] items[k]) is Func implies func_resolves(analyzer@, items[k]->Func_0.name) by {
                        if let SpecItem::Func(f) = items[k] {
                            assert(st.resolve(f.name) is Some);
                            let id = st.resolve(f.name)->Some_0;
                            assert(analyzer@.resolve(f.name) == Some(id));
                            assert(st.defs[id as int] is Func);
                            assert(analyzer@.defs[id as int] is Func);
                        }
                    }
                }
            },
            Err(e) => {
                proof {
                    assert(check_items(st1, items.take(index + 1)).1 == Err::<SymtabView, Seq<char>>(e@));
                    lemma_check_items_prefix_err(st1, items, index as int + 1);
                    assert(root@ =~= check_items(st1, items).0);
                    assert(analysis_of(items).0 == check_items(st1, items).0);
                    assert(analysis_of(items).1 == Err::<(SymtabView, usize), Seq<char>>(e@));
                }
                return Err(e);
            },
        }
        index += 1;
    }
    proof {
        assert(items.take(n as int) == items);
        assert(items.skip(n as int) =~= Seq::<SpecItem>::empty());
        assert(root@ =~= check_items(st1, items).0);
    }
    let main_func = analyzer.check_main_func()?;
    Ok(analyzer.tab.into_program_info(Some(main_func)))
}

/// Every function item before `items.len()` resolves to a function definition.
pub open spec fn funcs_resolve(st: SymtabView, items: Seq<SpecItem>) -> bool {
    forall|k: int| 0 <= k < items.len() && (#[trigger] items[k]) is Func ==> func_resolves(st, items[k]->Func_0.name)
}

/// `name` resolves to a function definition.
pub open spec fn func_resolves(st: SymtabView, name: Seq<char>) -> bool {
    st.resolve(name) matches Some(id) && id < st.defs.len() && st.defs[id as int] is Func
}

/// Registering one more function in the global scope keeps the earlier ones
/// resolvable.
proof fn lemma_funcs_resolve_define(
    st: SymtabView,
    st2: SymtabView,
    items: Seq<SpecItem>,
    f: crate::ast::SpecFuncDef,
)
    requires
        st.wf(),
        st.scopes.len() == 1,
        funcs_resolve(st, items),
        st.define_func(f.name, f.return_type, param_types_of(f.params), items.len() as usize) == Some(st2),
        st2.defs.len() <= usize::MAX,
    ensures
        funcs_resolve(st2, items.push(SpecItem::Func(f))),
        st2.wf(),
        st2.scopes.len() == 1,
{
    let d = SpecDef::Func {
        return_type: f.return_type,
        params: param_types_of(f.params),
        item: items.len() as usize,
        locals: Seq::empty(),
    };
    lemma_define_steps(st, f.name, f.return_type, param_types_of(f.params), items.len() as usize);
    law_define_then_resolve(st, f.name, d, f.name);
    let all = items.push(SpecItem::Func(f));
    assert forall|k: int| 0 <= k < all.len() && (#[trigger] all[k]) is Func implies func_resolves(st2, all[k]->Func_0.name) by {
        if k < items.len() {
            assert(all[k] == items[k]);
            if let SpecItem::Func(g) = items[k] {
                law_define_then_resolve(st, f.name, d, g.name);
                lemma_single_scope_defined(st, g.name);
                assert(st.resolve(g.name) is Some);
                let id = st.resolve(g.name)->Some_0;
                assert(st.defs[id as int] is Func);
                assert(g.name != f.name);
                assert(st2.resolve(g.name) == Some(id));
                assert(st2.defs[id as int] == st.defs[id as int]);
                assert(func_resolves(st2, g.name));
            }
        } else {
            assert(all[k] == SpecItem::Func(f));
            assert(st2 == st.with_def(f.name, d));
            assert(st2.resolve(f.name) == Some(st.defs.len() as usize));
            assert(st2.defs[st.defs.len() as int] is Func);
            assert(func_resolves(st2, f.name));
        }
    }
}

/// Functions are visible in the whole program, even before their
/// definition: once all functions are registered, the name of every
/// function item resolves to a function definition.
pub proof fn law_functions_visible_everywhere(items: Seq<SpecItem>)
    requires
        items.len() <= usize::MAX,
    ensures
        define_funcs(SymtabView::initial(), items) matches Ok(st) ==> funcs_resolve(st, items),
{
    lemma_define_funcs_resolve(items);
}

/// Registering the functions of a program gives a well-formed table with one
/// scope, in which every function item resolves to a function.
pub proof fn lemma_define_funcs_resolve(items: Seq<SpecItem>)
    requires
        items.len() <= usize::MAX,
    ensures
        define_funcs(SymtabView::initial(), items) matches Ok(st) ==> funcs_resolve(st, items) && st.wf()
            && st.scopes.len() == 1 && st.defs.len() <= items.len(),
    decreases items.len(),
{
    if items.len() > 0 {
        let prefix = items.drop_last();
        lemma_define_funcs_resolve(prefix);
        if let Ok(st1) = define_funcs(SymtabView::initial(), prefix) {
            match items.last() {
                SpecItem::Func(f) => {
                    if let Some(st2) = st1.define_func(
                        f.name,
                        f.return_type,
                        param_types_of(f.params),
                        (items.len() - 1) as usize,
                    ) {
                        lemma_funcs_resolve_define(st1, st2, prefix, f);
                        assert(items =~= prefix.push(SpecItem::Func(f)));
                    }
                },
                SpecItem::GlobalVar(_) => {
                    assert forall|k: int| 0 <= k < items.len() && (#[trigger] items[k]) is Func implies func_resolves(
                        st1,
                        items[k]->Func_0.name,
                    ) by {
                        assert(items[k] == prefix[k]);
                    }
                },
            }
        }
    }
}

/// In a table with one scope, every name that resolves is defined in that scope.
pub proof fn lemma_single_scope_defined(st: SymtabView, name: Seq<char>)
    requires
        st.scopes.len() == 1,
    ensures
        st.resolve(name) is Some ==> st.defined_in_scope(name),
{
    assert(st.scopes.drop_last().len() == 0);
    assert(resolve_in(st.scopes.drop_last(), name) is None);
}

proof fn lemma_define_funcs_prefix_err(items: Seq<SpecItem>, k: int)
    requires
        0 <= k <= items.len(),
        define_funcs(SymtabView::initial(), items.take(k)) is Err,
    ensures
        define_funcs(SymtabView::initial(), items) == define_funcs(SymtabView::initial(), items.take(k)),
        analysis_of(items).0 == items,
        analysis_of(items).1 == Err::<(SymtabView, usize), Seq<char>>(
            define_funcs(SymtabView::initial(), items.take(k))->Err_0,
        ),
    decreases items.len() - k,
{
    if k == items.len() {
        assert(items.take(k) == items);
    } else {
        assert(items.drop_last().take(k) == items.take(k));
        lemma_define_funcs_prefix_err(items.drop_last(), k);
    }
}

pub(crate) proof fn lemma_check_items_len(st: SymtabView, items: Seq<SpecItem>)
    ensures
        check_items(st, items).0.len() == items.len(),
    decreases items.len(),
{
    if items.len() > 0 {
        lemma_check_items_len(st, items.drop_last());
    }
}

proof fn lemma_check_items_prefix_err(st: SymtabView, items: Seq<SpecItem>, k: int)
    requires
        0 <= k <= items.len(),
        check_items(st, items.take(k)).1 is Err,
    ensures
        check_items(st, items).0 == check_items(st, items.take(k)).0 + items.skip(k),
        check_items(st, items).1 == check_items(st, items.take(k)).1,
    decreases items.len() - k,
{
    if k == items.len() {
        assert(items.take(k) == items);
        assert(items.skip(k) =~= Seq::<SpecItem>::empty());
    } else {
        assert(items.drop_last().take(k) == items.take(k));
        lemma_check_items_prefix_err(st, items.drop_last(), k);
        assert(items.drop_last().skip(k).push(items.last()) =~= items.skip(k));
    }
}

impl Analyzer {
    /// Resolves the `main` function and checks its signature.
    ///
    /// There must be a function `main` without parameters and with return type `void`.
    fn check_main_func(&self) -> (res: Result<FuncDefId, AnalysisError>)
        requires
            self@.wf(),
        ensures
            match check_main(self@) {
                Ok(id) => res == Ok::<FuncDefId, AnalysisError>(FuncDefId(DefId(id))),
                Err(m) => res matches Err(e) && e@ == m,
            },
    {
        let main_name = "main".to_owned();
        let def_id = match self.tab.resolve(&main_name) {
            Some(id) => id,
            None => return Err(AnalysisError::new("cannot find main function")),
        };
        proof {
            lemma_resolve_in_defs(self@, "main"@);
        }
        let func_info = match self.tab.get(def_id) {
            DefInfo::Func(func_info) => func_info,
            _ => return Err(AnalysisError::new("main is not a function")),
        };
        if func_info.return_type != DataType::Void {
            let mut s = String::new();
            s.append("the return type of main must be `void`, but it is `");
            s.append(func_info.return_type.name());
            s.append("`");
            return Err(AnalysisError::from_string(s));
        }
        if func_info.param_count() != 0 {
            return Err(AnalysisError::new("the main function must not have parameters"));
        }
        Ok(FuncDefId(def_id))
    }

    /// Analyzes an item.
    fn visit_item(&mut self, item_id: ItemId, item: &mut Item) -> (res: Result<(), AnalysisError>)
        requires
            old(self)@.wf(),
            old(self)@.scopes.len() == 1,
            old(item)@ is Func ==> func_resolves(old(self)@, old(item)@->Func_0.name),
        ensures
            ({
                let (t, r) = match old(item)@ {
                    SpecItem::GlobalVar(d) => {
                        let (d2, r) = check_global_var_def(old(self)@, d, item_id.0);
                        (SpecItem::GlobalVar(d2), r)
                    },
                    SpecItem::Func(f) => {
                        let (f2, r) = check_func_def(old(self)@, f);
                        (SpecItem::Func(f2), r)
                    },
                };
                &&& final(item)@ == t
                &&& match r {
                    Ok(st) => res is Ok && final(self)@ == st,
                    Err(m) => res matches Err(e) && e@ == m,
                }
            }),
            res is Ok ==> final(self)@.wf() && final(self)@.scopes.len() == 1,
            res is Ok ==> final(self)@.defs.len() >= old(self)@.defs.len(),
            res is Ok ==> forall|i: int|
                0 <= i < old(self)@.defs.len() && old(self)@.defs[i] is Func
                    ==> #[trigger] final(self)@.defs[i] is Func,
            res is Ok ==> forall|name: Seq<char>|
                #[trigger] old(self)@.resolve(name) is Some ==> final(self)@.resolve(name)
                    == old(self)@.resolve(name),
    {
        match item {
            Item::GlobalVar(var_def) => self.visit_global_var_def(GlobalVarItemId(item_id), var_def),
            Item::Func(func_def) => self.visit_func_def(func_def),
        }
    }

    /// Analyzes a global variable definition.
    fn visit_global_var_def(&mut self, item_id: GlobalVarItemId, var_def: &mut crate::ast::VarDef) -> (res: Result<(), AnalysisError>)
        requires
            old(self)@.wf(),
            old(self)@.scopes.len() == 1,
        ensures
            ({
                let (t, r) = check_global_var_def(old(self)@, old(var_def)@, item_id.0.0);
                &&& final(var_def)@ == t
                &&& match r {
                    Ok(st) => res is Ok && final(self)@ == st && st.wf() && st.scopes.len() == 1
                        && st.defs.len() >= old(self)@.defs.len() && (forall|i: int|
                        0 <= i < old(self)@.defs.len() && old(self)@.defs[i] is Func
                            ==> #[trigger] st.defs[i] is Func) && (forall|name: Seq<char>|
                        #[trigger] old(self)@.resolve(name) is Some ==> st.resolve(name)
                            == old(self)@.resolve(name)),
                    Err(m) => res matches Err(e) && e@ == m,
                }
            }),
    {
        let ghost st = self@;
        self.visit_var_def(var_def, "global variable")?;
        // The variable is defined after its initializer was analyzed, so the
        // initializer can't refer to the variable itself.
        proof {
            lemma_define_steps(st, var_def.res_ident@.name, var_def.data_type, Seq::empty(), item_id.0.0);
        }
        match self.tab.define_global_var(&var_def.res_ident.ident.0, var_def.data_type, item_id) {
            Some(def_id) => {
                var_def.res_ident.set_res(def_id);
                proof {
                    let name = var_def.res_ident@.name;
                    let d = SpecDef::GlobalVar { data_type: var_def.data_type, offset: st.globals.len() as usize };
                    assert forall|other: Seq<char>| #[trigger] st.resolve(other) is Some implies self@.resolve(other)
                        == st.resolve(other) by {
                        law_define_then_resolve(st, name, d, other);
                        lemma_single_scope_defined(st, other);
                    }
                }
                Ok(())
            },
            None => Err(AnalysisError::duplicate(&var_def.res_ident.ident)),
        }
    }

    /// Analyzes a function parameter.
    fn visit_func_param(&mut self, param: &FuncParam) -> (res: Result<(), AnalysisError>)
        requires
            old(self)@.wf(),
            old(self)@.current is Some,
        ensures
            match check_param(old(self)@, param@) {
                Ok(st) => res is Ok && final(self)@ == st && old(self)@.steps_to(st),
                Err(m) => res matches Err(e) && e@ == m,
            },
    {
        if param.data_type == DataType::Void {
            let mut s = String::new();
            s.append("cannot define function parameter ");
            s.append(param.ident.quoted().as_str());
            s.append(" with type `void`");
            return Err(AnalysisError::from_string(s));
        }
        proof {
            lemma_define_steps(self@, param.ident.0@, param.data_type, Seq::empty(), 0);
        }
        match self.tab.define_local_var(&param.ident.0, param.data_type) {
            Some(_) => Ok(()),
            None => Err(AnalysisError::duplicate(&param.ident)),
        }
    }

    /// Analyzes a function definition.
    fn visit_func_def(&mut self, func_def: &mut FuncDef) -> (res: Result<(), AnalysisError>)
        requires
            old(self)@.wf(),
            old(self)@.resolve(old(func_def)@.name) matches Some(id) && id < old(self)@.defs.len()
                && old(self)@.defs[id as int] is Func,
        ensures
            ({
                let (t, r) = check_func_def(old(self)@, old(func_def)@);
                &&& final(func_def)@ == t
                &&& match r {
                    Ok(st) => res is Ok && final(self)@ == st && st.wf() && st.scopes == old(self)@.scopes
                        && st.defs.len() >= old(self)@.defs.len() && (forall|i: int|
                        0 <= i < old(self)@.defs.len() && old(self)@.defs[i] is Func
                            ==> #[trigger] st.defs[i] is Func),
                    Err(m) => res matches Err(e) && e@ == m,
                }
            }),
    {
        let ghost st = self@;
        // The function was already defined in the pre-pass.
        // Resolve it and set it as the current function.
        let def_id = self.tab.resolve(&func_def.ident.0).unwrap();
        self.tab.set_current_func(FuncDefId(def_id));
        let ghost stc = self@;
        proof {
            lemma_enter_wf(stc);
            lemma_steps_refl(stc.enter());
        }

        // Parameters and the function body share one scope, so a local
        // variable can't redefine a parameter.
        self.tab.scope_enter();
        let ghost ps = crate::ast::params_view(func_def.params@);
        let mut i: usize = 0;
        while i < func_def.params.len()
            invariant
                i <= func_def.params@.len(),
                ps == crate::ast::params_view(func_def.params@),
                check_params(stc.enter(), ps.take(i as int)) == Ok::<SymtabView, Seq<char>>(self@),
                *func_def == *old(func_def),
                stc == old(self)@.with_current(def_id.0),
                old(self)@.resolve(old(func_def)@.name) == Some(def_id.0),
                stc.enter().steps_to(self@),
                self@.current is Some,
            decreases func_def.params@.len() - i,
        {
            proof {
                assert(ps.take(i + 1).drop_last() == ps.take(i as int));
            }
            let ghost before = self@;
            match self.visit_func_param(&func_def.params[i]) {
                Ok(()) => {
                    proof {
                        lemma_steps_trans(stc.enter(), before, self@);
                    }
                },
                Err(e) => {
                    proof {
                        lemma_check_params_prefix_err(stc.enter(), ps, i as int + 1);
                    }
                    return Err(e);
                },
            }
            i += 1;
        }
        proof {
            assert(ps.take(i as int) == ps);
        }
        let ghost stp = self@;
        self.visit_stmts(&mut func_def.statements)?;
        proof {
            lemma_steps_trans(stc.enter(), stp, self@);
            lemma_steps_enter_leave(stc, self@);
        }
        self.tab.scope_leave();
        Ok(())
    }
}

proof fn lemma_check_params_prefix_err(st: SymtabView, ps: Seq<(DataType, Seq<char>)>, k: int)
    requires
        0 <= k <= ps.len(),
        check_params(st, ps.take(k)) is Err,
    ensures
        check_params(st, ps) == check_params(st, ps.take(k)),
    decreases ps.len() - k,
{
    if k == ps.len() {
        assert(ps.take(k) == ps);
    } else {
        assert(ps.drop_last().take(k) == ps.take(k));
        lemma_check_params_prefix_err(st, ps.drop_last(), k);
    }
}

/// Every definition a name resolves to exists.
pub proof fn lemma_resolve_in_defs(st: SymtabView, name: Seq<char>)
    requires
        st.wf(),
    ensures
        st.resolve(name) matches Some(id) ==> id < st.defs.len(),
{
    lemma_resolve_in_scopes(st.scopes, name);
    if let Some(id) = st.resolve(name) {
        let (i, j) = choose|i: int, j: int|
            0 <= i < st.scopes.len() && 0 <= j < st.scopes[i].len() && #[trigger] st.scopes[i][j] == (
                name,
                id,
            );
        assert(st.scopes[i][j].1 < st.defs.len());
    }
}

/// A name that resolves is defined in one of the scopes.
pub(crate) proof fn lemma_resolve_in_scopes(scopes: Seq<crate::symtab::SpecScope>, name: Seq<char>)
    ensures
        resolve_in(scopes, name) matches Some(id) ==> exists|i: int, j: int|
            0 <= i < scopes.len() && 0 <= j < scopes[i].len() && #[trigger] scopes[i][j] == (name, id),
    decreases scopes.len(),
{
    if scopes.len() > 0 {
        lemma_lookup_in_scope(scopes.last(), name);
        lemma_resolve_in_scopes(scopes.drop_last(), name);
        if let Some(id) = resolve_in(scopes, name) {
            if let Some(id2) = lookup(scopes.last(), name) {
                let j = choose|j: int| 0 <= j < scopes.last().len() && scopes.last()[j] == (name, id2);
                assert(scopes[scopes.len() - 1][j] == (name, id));
            } else {
                let (i, j) = choose|i: int, j: int|
                    0 <= i < scopes.drop_last().len() && 0 <= j < scopes.drop_last()[i].len()
                        && #[trigger] scopes.drop_last()[i][j] == (name, id);
                assert(scopes[i][j] == (name, id));
            }
        }
    }
}

/// A name found in a scope is defined there.
proof fn lemma_lookup_in_scope(scope: crate::symtab::SpecScope, name: Seq<char>)
    ensures
        lookup(scope, name) matches Some(id) ==> exists|j: int|
            0 <= j < scope.len() && #[trigger] scope[j] == (name, id),
    decreases scope.len(),
{
    if scope.len() > 0 {
        lemma_lookup_in_scope(scope.drop_last(), name);
        if let Some(id) = lookup(scope, name) {
            if scope.last().0 == name {
                assert(scope[scope.len() - 1] == (name, id));
            } else {
                let j = choose|j: int| 0 <= j < scope.drop_last().len() && scope.drop_last()[j] == (name, id);
                assert(scope[j] == (name, id));
            }
        }
    }
}

proof fn lemma_check_exprs_len(st: SymtabView, es: Seq<crate::ast::SpecExpr>)
    ensures
        check_exprs(st, es).0.len() == es.len(),
        check_exprs(st, es).1 matches Ok(ts) ==> ts.len() == es.len(),
    decreases es.len(),
{
    if es.len() > 0 {
        lemma_check_exprs_len(st, es.drop_last());
    }
}

proof fn lemma_check_exprs_prefix_err(st: SymtabView, es: Seq<crate::ast::SpecExpr>, k: int)
    requires
        0 <= k <= es.len(),
        check_exprs(st, es.take(k)).1 is Err,
    ensures
        check_exprs(st, es).0 == check_exprs(st, es.take(k)).0 + es.skip(k),
        check_exprs(st, es).1 == check_exprs(st, es.take(k)).1,
    decreases es.len() - k,
{
    if k == es.len() {
        assert(es.take(k) == es);
        assert(es.skip(k) =~= Seq::<crate::ast::SpecExpr>::empty());
    } else {
        assert(es.drop_last().take(k) == es.take(k));
        lemma_check_exprs_prefix_err(st, es.drop_last(), k);
        assert(es.drop_last().skip(k).push(es.last()) =~= es.skip(k));
    }
}

proof fn lemma_first_mismatch_prefix(args: Seq<DataType>, params: Seq<DataType>, k: int)
    requires
        0 < k <= args.len(),
        first_mismatch(args.take(k - 1), params) is None,
        !spec_is_compatible(args[k - 1], params[k - 1]),
    ensures
        first_mismatch(args, params) == Some((k - 1) as nat),
    decreases args.len() - k,
{
    if k == args.len() {
        assert(args.take(k - 1) == args.drop_last());
    } else {
        assert(args.drop_last().take(k - 1) == args.take(k - 1));
        assert(args.drop_last()[k - 1] == args[k - 1]);
        lemma_first_mismatch_prefix(args.drop_last(), params, k);
    }
}

proof fn lemma_check_stmts_len(st: SymtabView, ss: Seq<SpecStmt>)
    ensures
        check_stmts(st, ss).0.len() == ss.len(),
    decreases ss.len(),
{
    if ss.len() > 0 {
        lemma_check_stmts_len(st, ss.drop_last());
    }
}

proof fn lemma_check_stmts_prefix_err(st: SymtabView, ss: Seq<SpecStmt>, k: int)
    requires
        0 <= k <= ss.len(),
        check_stmts(st, ss.take(k)).1 is Err,
    ensures
        check_stmts(st, ss).0 == check_stmts(st, ss.take(k)).0 + ss.skip(k),
        check_stmts(st, ss).1 == check_stmts(st, ss.take(k)).1,
    decreases ss.len() - k,
{
    if k == ss.len() {
        assert(ss.take(k) == ss);
        assert(ss.skip(k) =~= Seq::<SpecStmt>::empty());
    } else {
        assert(ss.drop_last().take(k) == ss.take(k));
        lemma_check_stmts_prefix_err(st, ss.drop_last(), k);
        assert(ss.drop_last().skip(k).push(ss.last()) =~= ss.skip(k));
    }
}

proof fn lemma_check_print_len(st: SymtabView, es: Seq<SpecExpr>)
    ensures
        check_print(st, es).0.len() == es.len(),
    decreases es.len(),
{
    if es.len() > 0 {
        lemma_check_print_len(st, es.drop_last());
    }
}

proof fn lemma_check_print_prefix_err(st: SymtabView, es: Seq<SpecExpr>, k: int)
    requires
        0 <= k <= es.len(),
        check_print(st, es.take(k)).1 is Err,
    ensures
        check_print(st, es).0 == check_print(st, es.take(k)).0 + es.skip(k),
        check_print(st, es).1 == check_print(st, es.take(k)).1,
    decreases es.len() - k,
{
    if k == es.len() {
        assert(es.take(k) == es);
        assert(es.skip(k) =~= Seq::<SpecExpr>::empty());
    } else {
        assert(es.drop_last().take(k) == es.take(k));
        lemma_check_print_prefix_err(st, es.drop_last(), k);
        assert(es.drop_last().skip(k).push(es.last()) =~= es.skip(k));
    }
}

} // verus!
