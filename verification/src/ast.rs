//! The abstract syntax tree (AST) of C1 programs.
//!
//! Every node type has a view: a value of the matching `Spec*` type, in which
//! strings are character sequences and vectors are sequences. Contracts speak
//! of these views.
use vstd::prelude::*;

verus! {

/// The data types of C1.
#[derive(Debug, Clone, Copy, PartialEq, Eq, Structural)]
pub enum DataType {
    Bool,
    Int,
    Float,
    String,
    Void,
}

/// The name of a data type as written in C1 source code.
pub open spec fn spec_type_name(t: DataType) -> Seq<char> {
    match t {
        DataType::Bool => "bool"@,
        DataType::Int => "int"@,
        DataType::Float => "float"@,
        DataType::String => "string"@,
        DataType::Void => "void"@,
    }
}

impl DataType {
    /// Whether values of this type support arithmetic.
    pub open spec fn spec_is_numeric(self) -> bool {
        self == DataType::Int || self == DataType::Float
    }

    /// Returns whether the type is `int` or `float`.
    pub fn is_numeric(self) -> (res: bool)
        ensures
            res == self.spec_is_numeric(),
    {
        match self {
            DataType::Int | DataType::Float => true,
            _ => false,
        }
    }

    /// The name of the type as written in C1 source code.
    pub fn name(self) -> (res: &'static str)
        ensures
            res@ == spec_type_name(self),
    {
        match self {
            DataType::Bool => "bool",
            DataType::Int => "int",
            DataType::Float => "float",
            DataType::String => "string",
            DataType::Void => "void",
        }
    }
}

/// The binary operators of C1.
#[derive(Debug, Clone, Copy, PartialEq, Eq, Structural)]
pub enum BinOp {
    Add,
    Sub,
    Mul,
    Div,
    Eq,
    Neq,
    Lt,
    Gt,
    Leq,
    Geq,
    LogAnd,
    LogOr,
}

/// The symbol of a binary operator as written in C1 source code.
pub open spec fn spec_op_symbol(op: BinOp) -> Seq<char> {
    match op {
        BinOp::Add => "+"@,
        BinOp::Sub => "-"@,
        BinOp::Mul => "*"@,
        BinOp::Div => "/"@,
        BinOp::Eq => "=="@,
        BinOp::Neq => "!="@,
        BinOp::Lt => "<"@,
        BinOp::Gt => ">"@,
        BinOp::Leq => "<="@,
        BinOp::Geq => ">="@,
        BinOp::LogAnd => "&&"@,
        BinOp::LogOr => "||"@,
    }
}

impl BinOp {
    /// The symbol of the operator as written in C1 source code.
    pub fn symbol(self) -> (res: &'static str)
        ensures
            res@ == spec_op_symbol(self),
    {
        match self {
            BinOp::Add => "+",
            BinOp::Sub => "-",
            BinOp::Mul => "*",
            BinOp::Div => "/",
            BinOp::Eq => "==",
            BinOp::Neq => "!=",
            BinOp::Lt => "<",
            BinOp::Gt => ">",
            BinOp::Leq => "<=",
            BinOp::Geq => ">=",
            BinOp::LogAnd => "&&",
            BinOp::LogOr => "||",
        }
    }
}

/// An identifier.
#[derive(Debug)]
pub struct Ident(pub String);

/// The way an identifier is shown in messages: enclosed in backticks.
pub open spec fn spec_quoted(name: Seq<char>) -> Seq<char> {
    "`"@ + name + "`"@
}

impl Ident {
    /// The identifier enclosed in backticks, as shown in messages.
    pub fn quoted(&self) -> (res: String)
        ensures
            res@ == spec_quoted(self.0@),
    {
        let mut s = String::new();
        s.append("`");
        s.append(self.0.as_str());
        s.append("`");
        s
    }

    /// A copy of the identifier.
    pub fn copy(&self) -> (res: Ident)
        ensures
            res.0@ == self.0@,
    {
        Ident(self.0.clone())
    }
}

/// The id of a definition: an index into the definitions of the program.
#[derive(Debug, Clone, Copy, PartialEq, Eq, Structural)]
pub struct DefId(pub usize);

/// The id of an item: its index in the program's item list.
#[derive(Debug, Clone, Copy, PartialEq, Eq, Structural)]
pub struct ItemId(pub usize);

/// The id of an item that is a global variable definition.
#[derive(Debug, Clone, Copy, PartialEq, Eq, Structural)]
pub struct GlobalVarItemId(pub ItemId);

/// The id of an item that is a function definition.
#[derive(Debug, Clone, Copy, PartialEq, Eq, Structural)]
pub struct FuncItemId(pub ItemId);

/// An identifier that can be resolved to a definition.
#[derive(Debug)]
pub struct ResIdent {
    pub ident: Ident,
    pub res: Option<DefId>,
}

impl ResIdent {
    /// An unresolved identifier.
    pub fn new(ident: Ident) -> (res: ResIdent)
        ensures
            res.ident == ident,
            res.res is None,
    {
        ResIdent { ident, res: None }
    }

    /// The definition the identifier resolves to.
    pub fn get_res(&self) -> (res: DefId)
        requires
            self.res is Some,
        ensures
            self.res == Some(res),
    {
        self.res.unwrap()
    }

    /// Resolves the identifier to the definition `id`.
    pub fn set_res(&mut self, id: DefId)
        ensures
            final(self).ident == old(self).ident,
            final(self).res == Some(id),
    {
        self.res = Some(id);
    }

    /// The identifier enclosed in backticks, as shown in messages.
    pub fn quoted(&self) -> (res: String)
        ensures
            res@ == spec_quoted(self.ident.0@),
    {
        self.ident.quoted()
    }
}

/// A literal value.
#[derive(Debug)]
pub enum Literal {
    Bool(bool),
    Int(i64),
    /// A floating point literal, kept as written in the source code.
    Float(String),
    String(String),
}

impl Literal {
    /// The type of the literal.
    pub fn data_type(&self) -> (res: DataType)
        ensures
            res == spec_literal_type(self@),
    {
        match self {
            Literal::Bool(_) => DataType::Bool,
            Literal::Int(_) => DataType::Int,
            Literal::Float(_) => DataType::Float,
            Literal::String(_) => DataType::String,
        }
    }
}

/// A binary operator expression.
#[derive(Debug)]
pub struct BinOpExpr {
    pub op: BinOp,
    pub lhs: Box<Expr>,
    pub rhs: Box<Expr>,
}

/// An assignment `lhs = rhs`.
#[derive(Debug)]
pub struct Assign {
    pub lhs: ResIdent,
    pub rhs: Box<Expr>,
}

/// A function call.
#[derive(Debug)]
pub struct FuncCall {
    pub res_ident: ResIdent,
    pub args: Vec<Expr>,
}

/// An expression.
#[derive(Debug)]
pub enum Expr {
    BinaryOp(BinOpExpr),
    UnaryMinus(Box<Expr>),
    Assign(Assign),
    Call(FuncCall),
    Literal(Literal),
    Var(ResIdent),
}

/// A variable definition with optional initializer.
#[derive(Debug)]
pub struct VarDef {
    pub data_type: DataType,
    pub res_ident: ResIdent,
    pub init: Option<Expr>,
}

/// An `if` statement.
#[derive(Debug)]
pub struct IfStmt {
    pub cond: Expr,
    pub if_true: Box<Stmt>,
    pub if_false: Option<Box<Stmt>>,
}

/// The initializer of a `for` statement.
#[derive(Debug)]
pub enum ForInit {
    VarDef(VarDef),
    Assign(Assign),
}

/// A `for` statement.
#[derive(Debug)]
pub struct ForStmt {
    pub init: ForInit,
    pub cond: Expr,
    pub update: Assign,
    pub body: Box<Stmt>,
}

/// A `while` or `do`-`while` statement.
#[derive(Debug)]
pub struct WhileStmt {
    pub cond: Expr,
    pub body: Box<Stmt>,
}

/// A `print` statement.
#[derive(Debug)]
pub struct PrintStmt {
    pub exprs: Vec<Expr>,
}

/// A block of statements.
#[derive(Debug)]
pub struct Block {
    pub statements: Vec<Stmt>,
}

/// A statement.
#[derive(Debug)]
pub enum Stmt {
    Empty,
    If(IfStmt),
    For(ForStmt),
    While(WhileStmt),
    DoWhile(WhileStmt),
    Return(Option<Expr>),
    Print(PrintStmt),
    VarDef(VarDef),
    Assign(Assign),
    Call(FuncCall),
    Block(Block),
}

/// A function parameter.
#[derive(Debug)]
pub struct FuncParam {
    pub data_type: DataType,
    pub ident: Ident,
}

/// A function definition.
#[derive(Debug)]
pub struct FuncDef {
    pub return_type: DataType,
    pub ident: Ident,
    pub params: Vec<FuncParam>,
    pub statements: Vec<Stmt>,
}

/// A top-level item.
#[derive(Debug)]
pub enum Item {
    GlobalVar(VarDef),
    Func(FuncDef),
}

/// A C1 program: a list of items.
#[derive(Debug)]
pub struct Program {
    pub items: Vec<Item>,
}

// ---------------------------------------------------------------------------
// The views of the AST.

/// The view of a resolvable identifier.
pub struct SpecResIdent {
    pub name: Seq<char>,
    pub res: Option<usize>,
}

/// The view of a literal.
pub enum SpecLiteral {
    Bool(bool),
    Int(i64),
    Float(Seq<char>),
    String(Seq<char>),
}

/// The type of a literal.
pub open spec fn spec_literal_type(l: SpecLiteral) -> DataType {
    match l {
        SpecLiteral::Bool(_) => DataType::Bool,
        SpecLiteral::Int(_) => DataType::Int,
        SpecLiteral::Float(_) => DataType::Float,
        SpecLiteral::String(_) => DataType::String,
    }
}

/// The view of an assignment.
pub struct SpecAssign {
    pub lhs: SpecResIdent,
    pub rhs: Box<SpecExpr>,
}

/// The view of a function call.
pub struct SpecCall {
    pub callee: SpecResIdent,
    pub args: Seq<SpecExpr>,
}

/// The view of an expression.
pub enum SpecExpr {
    BinaryOp(BinOp, Box<SpecExpr>, Box<SpecExpr>),
    UnaryMinus(Box<SpecExpr>),
    Assign(SpecAssign),
    Call(SpecCall),
    Literal(SpecLiteral),
    Var(SpecResIdent),
}

/// The view of a variable definition.
pub struct SpecVarDef {
    pub data_type: DataType,
    pub ident: SpecResIdent,
    pub init: Option<SpecExpr>,
}

/// The view of the initializer of a `for` statement.
pub enum SpecForInit {
    VarDef(SpecVarDef),
    Assign(SpecAssign),
}

/// The view of a statement.
pub enum SpecStmt {
    Empty,
    If(SpecExpr, Box<SpecStmt>, Option<Box<SpecStmt>>),
    For(SpecForInit, SpecExpr, SpecAssign, Box<SpecStmt>),
    While(SpecExpr, Box<SpecStmt>),
    DoWhile(SpecExpr, Box<SpecStmt>),
    Return(Option<SpecExpr>),
    Print(Seq<SpecExpr>),
    VarDef(SpecVarDef),
    Assign(SpecAssign),
    Call(SpecCall),
    Block(Seq<SpecStmt>),
}

/// The view of a function definition.
pub struct SpecFuncDef {
    pub return_type: DataType,
    pub name: Seq<char>,
    pub params: Seq<(DataType, Seq<char>)>,
    pub body: Seq<SpecStmt>,
}

/// The view of an item.
pub enum SpecItem {
    GlobalVar(SpecVarDef),
    Func(SpecFuncDef),
}

impl View for ResIdent {
    type V = SpecResIdent;

    open spec fn view(&self) -> SpecResIdent {
        SpecResIdent {
            name: self.ident.0@,
            res: match self.res {
                Some(id) => Some(id.0),
                None => None,
            },
        }
    }
}

impl View for Literal {
    type V = SpecLiteral;

    open spec fn view(&self) -> SpecLiteral {
        match self {
            Literal::Bool(b) => SpecLiteral::Bool(*b),
            Literal::Int(n) => SpecLiteral::Int(*n),
            Literal::Float(s) => SpecLiteral::Float(s@),
            Literal::String(s) => SpecLiteral::String(s@),
        }
    }
}

/// The view of an expression.
pub open spec fn expr_view(e: Expr) -> SpecExpr
    decreases e,
{
    match e {
        Expr::BinaryOp(b) => SpecExpr::BinaryOp(
            b.op,
            Box::new(expr_view(*b.lhs)),
            Box::new(expr_view(*b.rhs)),
        ),
        Expr::UnaryMinus(inner) => SpecExpr::UnaryMinus(Box::new(expr_view(*inner))),
        Expr::Assign(a) => SpecExpr::Assign(SpecAssign { lhs: a.lhs@, rhs: Box::new(expr_view(*a.rhs)) }),
        Expr::Call(c) => SpecExpr::Call(SpecCall { callee: c.res_ident@, args: exprs_view(c.args@) }),
        Expr::Literal(l) => SpecExpr::Literal(l@),
        Expr::Var(r) => SpecExpr::Var(r@),
    }
}

/// The views of a sequence of expressions.
pub open spec fn exprs_view(s: Seq<Expr>) -> Seq<SpecExpr>
    decreases s,
{
    if s.len() == 0 {
        Seq::empty()
    } else {
        exprs_view(s.drop_last()).push(expr_view(s.last()))
    }
}

impl View for Expr {
    type V = SpecExpr;

    open spec fn view(&self) -> SpecExpr {
        expr_view(*self)
    }
}

impl View for Assign {
    type V = SpecAssign;

    open spec fn view(&self) -> SpecAssign {
        SpecAssign { lhs: self.lhs@, rhs: Box::new(expr_view(*self.rhs)) }
    }
}

impl View for FuncCall {
    type V = SpecCall;

    open spec fn view(&self) -> SpecCall {
        SpecCall { callee: self.res_ident@, args: exprs_view(self.args@) }
    }
}

impl View for BinOpExpr {
    type V = SpecExpr;

    open spec fn view(&self) -> SpecExpr {
        SpecExpr::BinaryOp(self.op, Box::new(expr_view(*self.lhs)), Box::new(expr_view(*self.rhs)))
    }
}

impl View for VarDef {
    type V = SpecVarDef;

    open spec fn view(&self) -> SpecVarDef {
        SpecVarDef {
            data_type: self.data_type,
            ident: self.res_ident@,
            init: match self.init {
                Some(e) => Some(expr_view(e)),
                None => None,
            },
        }
    }
}

impl View for ForInit {
    type V = SpecForInit;

    open spec fn view(&self) -> SpecForInit {
        match self {
            ForInit::VarDef(d) => SpecForInit::VarDef(d@),
            ForInit::Assign(a) => SpecForInit::Assign(a@),
        }
    }
}

/// The view of a statement.
pub open spec fn stmt_view(s: Stmt) -> SpecStmt
    decreases s,
{
    match s {
        Stmt::Empty => SpecStmt::Empty,
        Stmt::If(i) => SpecStmt::If(
            i.cond@,
            Box::new(stmt_view(*i.if_true)),
            match i.if_false {
                Some(f) => Some(Box::new(stmt_view(*f))),
                None => None,
            },
        ),
        Stmt::For(f) => SpecStmt::For(f.init@, f.cond@, f.update@, Box::new(stmt_view(*f.body))),
        Stmt::While(w) => SpecStmt::While(w.cond@, Box::new(stmt_view(*w.body))),
        Stmt::DoWhile(w) => SpecStmt::DoWhile(w.cond@, Box::new(stmt_view(*w.body))),
        Stmt::Return(e) => SpecStmt::Return(
            match e {
                Some(e) => Some(expr_view(e)),
                None => None,
            },
        ),
        Stmt::Print(p) => SpecStmt::Print(exprs_view(p.exprs@)),
        Stmt::VarDef(d) => SpecStmt::VarDef(d@),
        Stmt::Assign(a) => SpecStmt::Assign(a@),
        Stmt::Call(c) => SpecStmt::Call(c@),
        Stmt::Block(b) => SpecStmt::Block(stmts_view(b.statements@)),
    }
}

/// The views of a sequence of statements.
pub open spec fn stmts_view(s: Seq<Stmt>) -> Seq<SpecStmt>
    decreases s,
{
    if s.len() == 0 {
        Seq::empty()
    } else {
        stmts_view(s.drop_last()).push(stmt_view(s.last()))
    }
}

impl View for Stmt {
    type V = SpecStmt;

    open spec fn view(&self) -> SpecStmt {
        stmt_view(*self)
    }
}

impl View for FuncParam {
    type V = (DataType, Seq<char>);

    open spec fn view(&self) -> (DataType, Seq<char>) {
        (self.data_type, self.ident.0@)
    }
}

/// The views of a sequence of function parameters.
pub open spec fn params_view(s: Seq<FuncParam>) -> Seq<(DataType, Seq<char>)> {
    Seq::new(s.len(), |i: int| s[i]@)
}

impl View for FuncDef {
    type V = SpecFuncDef;

    open spec fn view(&self) -> SpecFuncDef {
        SpecFuncDef {
            return_type: self.return_type,
            name: self.ident.0@,
            params: params_view(self.params@),
            body: stmts_view(self.statements@),
        }
    }
}

impl View for Item {
    type V = SpecItem;

    open spec fn view(&self) -> SpecItem {
        match self {
            Item::GlobalVar(d) => SpecItem::GlobalVar(d@),
            Item::Func(f) => SpecItem::Func(f@),
        }
    }
}

/// The views of a sequence of items.
pub open spec fn items_view(s: Seq<Item>) -> Seq<SpecItem> {
    Seq::new(s.len(), |i: int| s[i]@)
}

impl View for Program {
    type V = Seq<SpecItem>;

    open spec fn view(&self) -> Seq<SpecItem> {
        items_view(self.items@)
    }
}

/// `exprs_view` maps the expressions one by one.
pub proof fn lemma_exprs_view(s: Seq<Expr>)
    ensures
        exprs_view(s).len() == s.len(),
        forall|i: int| 0 <= i < s.len() ==> #[trigger] exprs_view(s)[i] == expr_view(s[i]),
    decreases s.len(),
{
    if s.len() > 0 {
        lemma_exprs_view(s.drop_last());
    }
}

/// `stmts_view` maps the statements one by one.
pub proof fn lemma_stmts_view(s: Seq<Stmt>)
    ensures
        stmts_view(s).len() == s.len(),
        forall|i: int| 0 <= i < s.len() ==> #[trigger] stmts_view(s)[i] == stmt_view(s[i]),
    decreases s.len(),
{
    if s.len() > 0 {
        lemma_stmts_view(s.drop_last());
    }
}

/// Updating one expression of a sequence updates its view at the same index.
pub proof fn lemma_exprs_view_update(s: Seq<Expr>, i: int, e: Expr)
    requires
        0 <= i < s.len(),
    ensures
        exprs_view(s.update(i, e)) == exprs_view(s).update(i, expr_view(e)),
{
    lemma_exprs_view(s);
    lemma_exprs_view(s.update(i, e));
    assert(exprs_view(s.update(i, e)) =~= exprs_view(s).update(i, expr_view(e)));
}

/// Updating one statement of a sequence updates its view at the same index.
pub proof fn lemma_stmts_view_update(s: Seq<Stmt>, i: int, st: Stmt)
    requires
        0 <= i < s.len(),
    ensures
        stmts_view(s.update(i, st)) == stmts_view(s).update(i, stmt_view(st)),
{
    lemma_stmts_view(s);
    lemma_stmts_view(s.update(i, st));
    assert(stmts_view(s.update(i, st)) =~= stmts_view(s).update(i, stmt_view(st)));
}

} // verus!
