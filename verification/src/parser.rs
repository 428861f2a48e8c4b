//! The parser of C1: builds the AST of a program from its tokens.
//!
//! The grammar, from the loosest to the tightest binding:
//!
//! ```text
//! program    ::= item*
//! item       ::= type ident "(" params? ")" "{" stmt* "}" | type ident ("=" assign)? ";"
//! params     ::= type ident ("," type ident)*
//! stmt       ::= "{" stmt* "}" | ";" | "if" "(" assign ")" stmt ("else" stmt)?
//!              | "for" "(" (vardef | ident "=" assign) ";" assign ";" ident "=" assign ")" stmt
//!              | "while" "(" assign ")" stmt | "do" stmt "while" "(" assign ")" ";"
//!              | "return" assign? ";" | "print" "(" (assign ("," assign)*)? ")" ";"
//!              | vardef ";" | ident "=" assign ";" | call ";"
//! vardef     ::= type ident ("=" assign)?
//! assign     ::= ident "=" assign | expr
//! expr       ::= simple (("==" | "!=" | "<" | ">" | "<=" | ">=") simple)?
//! simple     ::= term (("+" | "-" | "||") term)*
//! term       ::= factor (("*" | "/" | "&&") factor)*
//! factor     ::= literal | ident | call | "(" assign ")" | "-" factor
//! call       ::= ident "(" (assign ("," assign)*)? ")"
//! ```
//!
//! The `p_*` spec functions state this grammar over the views of the tokens
//! ([`SpecToken`]), and [`parse`] is proved to build the program that
//! [`program_of`] gives.
use vstd::prelude::*;
use crate::ast::{
    Assign, BinOp, BinOpExpr, Block, DataType, Expr, ForInit, ForStmt, FuncCall, FuncDef, FuncParam,
    Ident, IfStmt, Item, Literal, PrintStmt, Program, ResIdent, SpecAssign, SpecCall, SpecExpr,
    SpecForInit, SpecFuncDef, SpecItem, SpecLiteral, SpecResIdent, SpecStmt, SpecVarDef, Stmt,
    VarDef, WhileStmt, exprs_view, items_view, params_view, stmts_view,
};
use crate::lexer::{SpecToken, Token, lex, tokenize, tokens_view};

verus! {

// ---------------------------------------------------------------------------
// The grammar.
//
// Each `p_*` function parses one construct from position `p` of the tokens
// and gives its tree and the position after it, or the message of the first
// syntax error. A construct that has been parsed never ends before it starts;
// the checks of this in the rules below never fail (see `Parser`).

/// The token at position `p`, if there is one.
pub open spec fn tok(ts: Seq<SpecToken>, p: nat) -> Option<SpecToken> {
    if p < ts.len() {
        Some(ts[p as int])
    } else {
        None
    }
}

/// The kind of a token: tokens of one kind differ only in their contents.
pub open spec fn token_kind(t: SpecToken) -> int {
    match t {
        SpecToken::Ident(_) => 0,
        SpecToken::IntLiteral(_) => 1,
        SpecToken::FloatLiteral(_) => 2,
        SpecToken::StringLiteral(_) => 3,
        SpecToken::BoolLiteral(_) => 4,
        SpecToken::KwBool => 5,
        SpecToken::KwDo => 6,
        SpecToken::KwElse => 7,
        SpecToken::KwFloat => 8,
        SpecToken::KwFor => 9,
        SpecToken::KwIf => 10,
        SpecToken::KwInt => 11,
        SpecToken::KwPrint => 12,
        SpecToken::KwReturn => 13,
        SpecToken::KwVoid => 14,
        SpecToken::KwWhile => 15,
        SpecToken::Add => 16,
        SpecToken::Sub => 17,
        SpecToken::Mul => 18,
        SpecToken::Div => 19,
        SpecToken::Assign => 20,
        SpecToken::Eq => 21,
        SpecToken::Neq => 22,
        SpecToken::Lt => 23,
        SpecToken::Gt => 24,
        SpecToken::Leq => 25,
        SpecToken::Geq => 26,
        SpecToken::LogAnd => 27,
        SpecToken::LogOr => 28,
        SpecToken::Comma => 29,
        SpecToken::Semicolon => 30,
        SpecToken::LParen => 31,
        SpecToken::RParen => 32,
        SpecToken::LBrace => 33,
        SpecToken::RBrace => 34,
    }
}

/// Whether the token at `p` is of the kind of `k`.
pub open spec fn at(ts: Seq<SpecToken>, p: nat, k: SpecToken) -> bool {
    p < ts.len() && token_kind(ts[p as int]) == token_kind(k)
}

/// The number of tokens from `p` on.
pub open spec fn rest(ts: Seq<SpecToken>, p: nat) -> nat {
    if p <= ts.len() {
        (ts.len() - p) as nat
    } else {
        0
    }
}

/// An identifier as the parser leaves it: not resolved yet.
pub open spec fn unresolved(name: Seq<char>) -> SpecResIdent {
    SpecResIdent { name, res: None }
}

/// The message for a construct that ends before it starts (never given).
pub open spec fn msg_stuck() -> Seq<char> {
    "parser made no progress"@
}

/// Consumes a token of the kind of `k`.
pub open spec fn expect(ts: Seq<SpecToken>, p: nat, k: SpecToken, msg: Seq<char>) -> Result<nat, Seq<char>> {
    if at(ts, p, k) {
        Ok(p + 1)
    } else {
        Err(msg)
    }
}

/// Consumes an identifier.
pub open spec fn p_ident(ts: Seq<SpecToken>, p: nat) -> Result<(Seq<char>, nat), Seq<char>> {
    match tok(ts, p) {
        Some(SpecToken::Ident(name)) => Ok((name, p + 1)),
        _ => Err("expected an identifier"@),
    }
}

/// The data type named by the token at `p`, if it names one.
pub open spec fn type_at(ts: Seq<SpecToken>, p: nat) -> Option<DataType> {
    match tok(ts, p) {
        Some(SpecToken::KwBool) => Some(DataType::Bool),
        Some(SpecToken::KwInt) => Some(DataType::Int),
        Some(SpecToken::KwFloat) => Some(DataType::Float),
        Some(SpecToken::KwVoid) => Some(DataType::Void),
        _ => None,
    }
}

/// The comparison operator at `p`, if there is one.
pub open spec fn comparison_at(ts: Seq<SpecToken>, p: nat) -> Option<BinOp> {
    match tok(ts, p) {
        Some(SpecToken::Eq) => Some(BinOp::Eq),
        Some(SpecToken::Neq) => Some(BinOp::Neq),
        Some(SpecToken::Lt) => Some(BinOp::Lt),
        Some(SpecToken::Gt) => Some(BinOp::Gt),
        Some(SpecToken::Leq) => Some(BinOp::Leq),
        Some(SpecToken::Geq) => Some(BinOp::Geq),
        _ => None,
    }
}

/// The operator `+`, `-` or `||` at `p`, if there is one.
pub open spec fn additive_at(ts: Seq<SpecToken>, p: nat) -> Option<BinOp> {
    match tok(ts, p) {
        Some(SpecToken::Add) => Some(BinOp::Add),
        Some(SpecToken::Sub) => Some(BinOp::Sub),
        Some(SpecToken::LogOr) => Some(BinOp::LogOr),
        _ => None,
    }
}

/// The operator `*`, `/` or `&&` at `p`, if there is one.
pub open spec fn multiplicative_at(ts: Seq<SpecToken>, p: nat) -> Option<BinOp> {
    match tok(ts, p) {
        Some(SpecToken::Mul) => Some(BinOp::Mul),
        Some(SpecToken::Div) => Some(BinOp::Div),
        Some(SpecToken::LogAnd) => Some(BinOp::LogAnd),
        _ => None,
    }
}

/// The literal at `p`, if there is one.
pub open spec fn literal_at(ts: Seq<SpecToken>, p: nat) -> Option<SpecLiteral> {
    match tok(ts, p) {
        Some(SpecToken::IntLiteral(v)) => Some(SpecLiteral::Int(v)),
        Some(SpecToken::FloatLiteral(s)) => Some(SpecLiteral::Float(s)),
        Some(SpecToken::StringLiteral(s)) => Some(SpecLiteral::String(s)),
        Some(SpecToken::BoolLiteral(b)) => Some(SpecLiteral::Bool(b)),
        _ => None,
    }
}

/// `assign ::= ident "=" assign | expr`
pub open spec fn p_assign(ts: Seq<SpecToken>, p: nat) -> Result<(SpecExpr, nat), Seq<char>>
    decreases rest(ts, p), 5nat,
{
    if tok(ts, p) matches Some(SpecToken::Ident(_)) && tok(ts, p + 1) matches Some(SpecToken::Assign) {
        match p_assignment(ts, p) {
            Ok((a, q)) => Ok((SpecExpr::Assign(a), q)),
            Err(m) => Err(m),
        }
    } else {
        p_expr(ts, p)
    }
}

/// `ident "=" assign`
pub open spec fn p_assignment(ts: Seq<SpecToken>, p: nat) -> Result<(SpecAssign, nat), Seq<char>>
    decreases rest(ts, p), 4nat,
{
    match p_ident(ts, p) {
        Err(m) => Err(m),
        Ok((name, q)) => match expect(ts, q, SpecToken::Assign, "expected `=`"@) {
            Err(m) => Err(m),
            Ok(q2) => match p_assign(ts, q2) {
                Ok((e, q3)) => Ok((SpecAssign { lhs: unresolved(name), rhs: Box::new(e) }, q3)),
                Err(m) => Err(m),
            },
        },
    }
}

/// `expr ::= simple (("==" | "!=" | "<" | ">" | "<=" | ">=") simple)?`
pub open spec fn p_expr(ts: Seq<SpecToken>, p: nat) -> Result<(SpecExpr, nat), Seq<char>>
    decreases rest(ts, p), 4nat,
{
    match p_simple(ts, p) {
        Err(m) => Err(m),
        Ok((l, q)) => if p <= q {
            match comparison_at(ts, q) {
                None => Ok((l, q)),
                Some(op) => match p_simple(ts, q + 1) {
                    Ok((r, q2)) => Ok((SpecExpr::BinaryOp(op, Box::new(l), Box::new(r)), q2)),
                    Err(m) => Err(m),
                },
            }
        } else {
            Err(msg_stuck())
        },
    }
}

/// `simple ::= term (("+" | "-" | "||") term)*`, associating to the left.
pub open spec fn p_simple(ts: Seq<SpecToken>, p: nat) -> Result<(SpecExpr, nat), Seq<char>>
    decreases rest(ts, p), 3nat,
{
    match p_term(ts, p) {
        Err(m) => Err(m),
        Ok((l, q)) => if p <= q {
            p_simple_rest(ts, q, l)
        } else {
            Err(msg_stuck())
        },
    }
}

/// The rest of a `simple` after its terms up to `q`, which make `l`.
pub open spec fn p_simple_rest(ts: Seq<SpecToken>, q: nat, l: SpecExpr) -> Result<(SpecExpr, nat), Seq<char>>
    decreases rest(ts, q), 2nat,
{
    match additive_at(ts, q) {
        None => Ok((l, q)),
        Some(op) => match p_term(ts, q + 1) {
            Ok((r, q2)) => if q < q2 {
                p_simple_rest(ts, q2, SpecExpr::BinaryOp(op, Box::new(l), Box::new(r)))
            } else {
                Err(msg_stuck())
            },
            Err(m) => Err(m),
        },
    }
}

/// `term ::= factor (("*" | "/" | "&&") factor)*`, associating to the left.
pub open spec fn p_term(ts: Seq<SpecToken>, p: nat) -> Result<(SpecExpr, nat), Seq<char>>
    decreases rest(ts, p), 2nat,
{
    match p_factor(ts, p) {
        Err(m) => Err(m),
        Ok((l, q)) => if p <= q {
            p_term_rest(ts, q, l)
        } else {
            Err(msg_stuck())
        },
    }
}

/// The rest of a `term` after its factors up to `q`, which make `l`.
pub open spec fn p_term_rest(ts: Seq<SpecToken>, q: nat, l: SpecExpr) -> Result<(SpecExpr, nat), Seq<char>>
    decreases rest(ts, q), 1nat,
{
    match multiplicative_at(ts, q) {
        None => Ok((l, q)),
        Some(op) => match p_factor(ts, q + 1) {
            Ok((r, q2)) => if q < q2 {
                p_term_rest(ts, q2, SpecExpr::BinaryOp(op, Box::new(l), Box::new(r)))
            } else {
                Err(msg_stuck())
            },
            Err(m) => Err(m),
        },
    }
}

/// `factor ::= literal | "-" factor | "(" assign ")" | ident | ident "(" args`
pub open spec fn p_factor(ts: Seq<SpecToken>, p: nat) -> Result<(SpecExpr, nat), Seq<char>>
    decreases rest(ts, p), 1nat,
{
    match literal_at(ts, p) {
        Some(l) => Ok((SpecExpr::Literal(l), p + 1)),
        None => if at(ts, p, SpecToken::Sub) {
            match p_factor(ts, p + 1) {
                Ok((e, q)) => Ok((SpecExpr::UnaryMinus(Box::new(e)), q)),
                Err(m) => Err(m),
            }
        } else if at(ts, p, SpecToken::LParen) {
            match p_assign(ts, p + 1) {
                Ok((e, q)) => match expect(ts, q, SpecToken::RParen, "expected `)`"@) {
                    Ok(q2) => Ok((e, q2)),
                    Err(m) => Err(m),
                },
                Err(m) => Err(m),
            }
        } else {
            match p_ident(ts, p) {
                Err(m) => Err(m),
                Ok((name, q)) => if at(ts, q, SpecToken::LParen) {
                    match p_args(ts, q + 1) {
                        Ok((args, q2)) => Ok((SpecExpr::Call(SpecCall { callee: unresolved(name), args }), q2)),
                        Err(m) => Err(m),
                    }
                } else {
                    Ok((SpecExpr::Var(unresolved(name)), q))
                },
            }
        }
    }
}

/// `args ::= ")" | assign ("," assign)* ")"`
pub open spec fn p_args(ts: Seq<SpecToken>, p: nat) -> Result<(Seq<SpecExpr>, nat), Seq<char>>
    decreases rest(ts, p), 7nat,
{
    if at(ts, p, SpecToken::RParen) {
        Ok((Seq::empty(), p + 1))
    } else {
        p_args_rest(ts, p, Seq::empty())
    }
}

/// The arguments from `p` on, after the arguments `acc`.
pub open spec fn p_args_rest(ts: Seq<SpecToken>, p: nat, acc: Seq<SpecExpr>) -> Result<(Seq<SpecExpr>, nat), Seq<char>>
    decreases rest(ts, p), 6nat,
{
    match p_assign(ts, p) {
        Err(m) => Err(m),
        Ok((e, q)) => if p <= q {
            if at(ts, q, SpecToken::Comma) {
                p_args_rest(ts, q + 1, acc.push(e))
            } else {
                match expect(ts, q, SpecToken::RParen, "expected `)` after arguments"@) {
                    Ok(q2) => Ok((acc.push(e), q2)),
                    Err(m) => Err(m),
                }
            }
        } else {
            Err(msg_stuck())
        },
    }
}

/// `vardef ::= type ident ("=" assign)?`, after its type `t`.
pub open spec fn p_var_def(ts: Seq<SpecToken>, p: nat, t: DataType) -> Result<(SpecVarDef, nat), Seq<char>> {
    match p_ident(ts, p) {
        Err(m) => Err(m),
        Ok((name, q)) => if at(ts, q, SpecToken::Assign) {
            match p_assign(ts, q + 1) {
                Ok((e, q2)) => Ok((SpecVarDef { data_type: t, ident: unresolved(name), init: Some(e) }, q2)),
                Err(m) => Err(m),
            }
        } else {
            Ok((SpecVarDef { data_type: t, ident: unresolved(name), init: None }, q))
        },
    }
}

/// The statements from `p` on up to the closing brace, which is consumed,
/// after the statements `acc`.
pub open spec fn p_stmts(ts: Seq<SpecToken>, p: nat, acc: Seq<SpecStmt>) -> Result<(Seq<SpecStmt>, nat), Seq<char>>
    decreases rest(ts, p), 1nat,
{
    if at(ts, p, SpecToken::RBrace) {
        Ok((acc, p + 1))
    } else if p >= ts.len() {
        Err("expected `}`"@)
    } else {
        match p_stmt(ts, p) {
            Ok((s, q)) => if p < q {
                p_stmts(ts, q, acc.push(s))
            } else {
                Err(msg_stuck())
            },
            Err(m) => Err(m),
        }
    }
}

/// `"if" "(" assign ")" stmt ("else" stmt)?`, after `if`.
pub open spec fn p_if(ts: Seq<SpecToken>, p: nat) -> Result<(SpecStmt, nat), Seq<char>>
    decreases rest(ts, p), 0nat,
{
    match expect(ts, p, SpecToken::LParen, "expected `(` after `if`"@) {
        Err(m) => Err(m),
        Ok(q1) => match p_assign(ts, q1) {
            Err(m) => Err(m),
            Ok((c, q2)) => match expect(ts, q2, SpecToken::RParen, "expected `)` after condition"@) {
                Err(m) => Err(m),
                Ok(q3) => if p < q3 {
                    match p_stmt(ts, q3) {
                        Err(m) => Err(m),
                        Ok((t, q4)) => if q3 < q4 {
                            if at(ts, q4, SpecToken::KwElse) {
                                match p_stmt(ts, q4 + 1) {
                                    Ok((f, q5)) => Ok((SpecStmt::If(c, Box::new(t), Some(Box::new(f))), q5)),
                                    Err(m) => Err(m),
                                }
                            } else {
                                Ok((SpecStmt::If(c, Box::new(t), None), q4))
                            }
                        } else {
                            Err(msg_stuck())
                        },
                    }
                } else {
                    Err(msg_stuck())
                },
            },
        },
    }
}

/// `"for" "(" (vardef | ident "=" assign) ";" assign ";" ident "=" assign ")" stmt`, after `for`.
pub open spec fn p_for(ts: Seq<SpecToken>, p: nat) -> Result<(SpecStmt, nat), Seq<char>>
    decreases rest(ts, p), 0nat,
{
    match expect(ts, p, SpecToken::LParen, "expected `(` after `for`"@) {
        Err(m) => Err(m),
        Ok(q1) => {
            let init = match type_at(ts, q1) {
                Some(t) => match p_var_def(ts, q1 + 1, t) {
                    Ok((d, q)) => Ok((SpecForInit::VarDef(d), q)),
                    Err(m) => Err(m),
                },
                None => match p_assignment(ts, q1) {
                    Ok((a, q)) => Ok((SpecForInit::Assign(a), q)),
                    Err(m) => Err(m),
                },
            };
            match init {
                Err(m) => Err(m),
                Ok((init, q2)) => match expect(ts, q2, SpecToken::Semicolon, "expected `;` after loop initializer"@) {
                    Err(m) => Err(m),
                    Ok(q3) => match p_assign(ts, q3) {
                        Err(m) => Err(m),
                        Ok((c, q4)) => match expect(ts, q4, SpecToken::Semicolon, "expected `;` after loop condition"@) {
                            Err(m) => Err(m),
                            Ok(q5) => match p_assignment(ts, q5) {
                                Err(m) => Err(m),
                                Ok((u, q6)) => match expect(ts, q6, SpecToken::RParen, "expected `)` after loop update"@) {
                                    Err(m) => Err(m),
                                    Ok(q7) => if p < q7 {
                                        match p_stmt(ts, q7) {
                                            Ok((b, q8)) => Ok((SpecStmt::For(init, c, u, Box::new(b)), q8)),
                                            Err(m) => Err(m),
                                        }
                                    } else {
                                        Err(msg_stuck())
                                    },
                                },
                            },
                        },
                    },
                },
            }
        },
    }
}

/// `"while" "(" assign ")" stmt`, after `while`.
pub open spec fn p_while(ts: Seq<SpecToken>, p: nat) -> Result<(SpecStmt, nat), Seq<char>>
    decreases rest(ts, p), 0nat,
{
    match expect(ts, p, SpecToken::LParen, "expected `(` after `while`"@) {
        Err(m) => Err(m),
        Ok(q1) => match p_assign(ts, q1) {
            Err(m) => Err(m),
            Ok((c, q2)) => match expect(ts, q2, SpecToken::RParen, "expected `)` after condition"@) {
                Err(m) => Err(m),
                Ok(q3) => if p < q3 {
                    match p_stmt(ts, q3) {
                        Ok((b, q4)) => Ok((SpecStmt::While(c, Box::new(b)), q4)),
                        Err(m) => Err(m),
                    }
                } else {
                    Err(msg_stuck())
                },
            },
        },
    }
}

/// `"do" stmt "while" "(" assign ")" ";"`, after `do`.
pub open spec fn p_do_while(ts: Seq<SpecToken>, p: nat) -> Result<(SpecStmt, nat), Seq<char>>
    decreases rest(ts, p), 1nat,
{
    match p_stmt(ts, p) {
        Err(m) => Err(m),
        Ok((b, q1)) => match expect(ts, q1, SpecToken::KwWhile, "expected `while` after loop body"@) {
            Err(m) => Err(m),
            Ok(q2) => match expect(ts, q2, SpecToken::LParen, "expected `(` after `while`"@) {
                Err(m) => Err(m),
                Ok(q3) => match p_assign(ts, q3) {
                    Err(m) => Err(m),
                    Ok((c, q4)) => match expect(ts, q4, SpecToken::RParen, "expected `)` after condition"@) {
                        Err(m) => Err(m),
                        Ok(q5) => match expect(ts, q5, SpecToken::Semicolon, "expected `;` after `do`-`while` loop"@) {
                            Ok(q6) => Ok((SpecStmt::DoWhile(c, Box::new(b)), q6)),
                            Err(m) => Err(m),
                        },
                    },
                },
            },
        },
    }
}

/// `"return" assign? ";"`, after `return`.
pub open spec fn p_return(ts: Seq<SpecToken>, p: nat) -> Result<(SpecStmt, nat), Seq<char>> {
    if at(ts, p, SpecToken::Semicolon) {
        Ok((SpecStmt::Return(None), p + 1))
    } else {
        match p_assign(ts, p) {
            Err(m) => Err(m),
            Ok((e, q)) => match expect(ts, q, SpecToken::Semicolon, "expected `;` after `return`"@) {
                Ok(q2) => Ok((SpecStmt::Return(Some(e)), q2)),
                Err(m) => Err(m),
            },
        }
    }
}

/// A statement: a block, `;`, `if`, `for`, `while`, `do`-`while`, `return`,
/// `print`, a variable definition, a call or an assignment.
pub open spec fn p_stmt(ts: Seq<SpecToken>, p: nat) -> Result<(SpecStmt, nat), Seq<char>>
    decreases rest(ts, p), 0nat,
{
    if at(ts, p, SpecToken::LBrace) {
        match p_stmts(ts, p + 1, Seq::empty()) {
            Ok((ss, q)) => Ok((SpecStmt::Block(ss), q)),
            Err(m) => Err(m),
        }
    } else if at(ts, p, SpecToken::Semicolon) {
        Ok((SpecStmt::Empty, p + 1))
    } else if at(ts, p, SpecToken::KwIf) {
        p_if(ts, p + 1)
    } else if at(ts, p, SpecToken::KwFor) {
        p_for(ts, p + 1)
    } else if at(ts, p, SpecToken::KwWhile) {
        p_while(ts, p + 1)
    } else if at(ts, p, SpecToken::KwDo) {
        p_do_while(ts, p + 1)
    } else if at(ts, p, SpecToken::KwReturn) {
        p_return(ts, p + 1)
    } else if at(ts, p, SpecToken::KwPrint) {
        match expect(ts, p + 1, SpecToken::LParen, "expected `(` after `print`"@) {
            Err(m) => Err(m),
            Ok(q1) => match p_args(ts, q1) {
                Err(m) => Err(m),
                Ok((es, q2)) => match expect(ts, q2, SpecToken::Semicolon, "expected `;` after `print`"@) {
                    Ok(q3) => Ok((SpecStmt::Print(es), q3)),
                    Err(m) => Err(m),
                },
            },
        }
    } else if type_at(ts, p) is Some {
        match p_var_def(ts, p + 1, type_at(ts, p)->Some_0) {
            Err(m) => Err(m),
            Ok((d, q)) => match expect(ts, q, SpecToken::Semicolon, "expected `;` after variable definition"@) {
                Ok(q2) => Ok((SpecStmt::VarDef(d), q2)),
                Err(m) => Err(m),
            },
        }
    } else if tok(ts, p + 1) matches Some(SpecToken::LParen) {
        match p_ident(ts, p) {
            Err(m) => Err(m),
            Ok((name, q)) => match p_args(ts, q + 1) {
                Err(m) => Err(m),
                Ok((args, q2)) => match expect(ts, q2, SpecToken::Semicolon, "expected `;` after call"@) {
                    Ok(q3) => Ok((SpecStmt::Call(SpecCall { callee: unresolved(name), args }), q3)),
                    Err(m) => Err(m),
                },
            },
        }
    } else {
        match p_assignment(ts, p) {
            Err(m) => Err(m),
            Ok((a, q)) => match expect(ts, q, SpecToken::Semicolon, "expected `;` after assignment"@) {
                Ok(q2) => Ok((SpecStmt::Assign(a), q2)),
                Err(m) => Err(m),
            },
        }
    }
}

/// The parameters from `p` on up to the closing parenthesis, after `acc`.
pub open spec fn p_params_rest(ts: Seq<SpecToken>, p: nat, acc: Seq<(DataType, Seq<char>)>) -> Result<
    (Seq<(DataType, Seq<char>)>, nat),
    Seq<char>,
>
    decreases rest(ts, p),
{
    match type_at(ts, p) {
        None => Err("expected a parameter type"@),
        Some(t) => match p_ident(ts, p + 1) {
            Err(m) => Err(m),
            Ok((name, q)) => if at(ts, q, SpecToken::Comma) {
                p_params_rest(ts, q + 1, acc.push((t, name)))
            } else {
                match expect(ts, q, SpecToken::RParen, "expected `)` after parameters"@) {
                    Ok(q2) => Ok((acc.push((t, name)), q2)),
                    Err(m) => Err(m),
                }
            },
        },
    }
}

/// `params ::= ")" | type ident ("," type ident)* ")"`
pub open spec fn p_params(ts: Seq<SpecToken>, p: nat) -> Result<(Seq<(DataType, Seq<char>)>, nat), Seq<char>> {
    if at(ts, p, SpecToken::RParen) {
        Ok((Seq::empty(), p + 1))
    } else {
        p_params_rest(ts, p, Seq::empty())
    }
}

/// `item ::= type ident "(" params "{" stmt* "}" | type vardef ";"`
pub open spec fn p_item(ts: Seq<SpecToken>, p: nat) -> Result<(SpecItem, nat), Seq<char>> {
    match type_at(ts, p) {
        None => Err("expected a type"@),
        Some(t) => if at(ts, p + 1, SpecToken::Ident(Seq::empty())) && tok(ts, p + 2) matches Some(
            SpecToken::LParen,
        ) {
            match p_ident(ts, p + 1) {
                Err(m) => Err(m),
                Ok((name, q)) => match p_params(ts, q + 1) {
                    Err(m) => Err(m),
                    Ok((params, q2)) => match expect(ts, q2, SpecToken::LBrace, "expected `{` before function body"@) {
                        Err(m) => Err(m),
                        Ok(q3) => match p_stmts(ts, q3, Seq::empty()) {
                            Ok((body, q4)) => Ok(
                                (SpecItem::Func(SpecFuncDef { return_type: t, name, params, body }), q4),
                            ),
                            Err(m) => Err(m),
                        },
                    },
                },
            }
        } else {
            match p_var_def(ts, p + 1, t) {
                Err(m) => Err(m),
                Ok((d, q)) => match expect(ts, q, SpecToken::Semicolon, "expected `;` after variable definition"@) {
                    Ok(q2) => Ok((SpecItem::GlobalVar(d), q2)),
                    Err(m) => Err(m),
                },
            }
        },
    }
}

/// The items from `p` to the end, after the items `acc`.
pub open spec fn p_items(ts: Seq<SpecToken>, p: nat, acc: Seq<SpecItem>) -> Result<Seq<SpecItem>, Seq<char>>
    decreases rest(ts, p),
{
    if p >= ts.len() {
        Ok(acc)
    } else {
        match p_item(ts, p) {
            Ok((item, q)) => if p < q {
                p_items(ts, q, acc.push(item))
            } else {
                Err(msg_stuck())
            },
            Err(m) => Err(m),
        }
    }
}

/// The program that a source text denotes, or the message of its first
/// lexical or syntax error.
pub open spec fn program_of(cs: Seq<char>) -> Result<Seq<SpecItem>, Seq<char>> {
    match lex(cs) {
        Ok(ts) => p_items(ts, 0, Seq::empty()),
        Err((_, m)) => Err(m),
    }
}

/// A syntax error.
#[derive(Debug)]
pub struct ParseError {
    pub message: String,
}

fn syntax_error(msg: &str) -> (res: ParseError)
    ensures
        res.message@ == msg@,
{
    ParseError { message: msg.to_owned() }
}

/// The views of a sequence of statements pushed one by one.
proof fn lemma_stmts_view_push(s: Seq<Stmt>, x: Stmt)
    ensures
        stmts_view(s.push(x)) == stmts_view(s).push(x@),
{
    assert(s.push(x).drop_last() =~= s);
}

/// The views of a sequence of expressions pushed one by one.
proof fn lemma_exprs_view_push(s: Seq<Expr>, x: Expr)
    ensures
        exprs_view(s.push(x)) == exprs_view(s).push(x@),
{
    assert(s.push(x).drop_last() =~= s);
}

/// The state of the parser: the tokens and the position of the next one.
struct Parser {
    tokens: Vec<Token>,
    pos: usize,
}

impl Parser {
    /// The views of the tokens.
    spec fn toks(&self) -> Seq<SpecToken> {
        tokens_view(self.tokens@)
    }

    /// `next` has the tokens of `self` and a position in them, not before
    /// the position of `self`.
    spec fn same_tokens(&self, next: &Parser) -> bool {
        &&& next.tokens@ == self.tokens@
        &&& self.pos <= next.pos <= next.tokens@.len()
    }

    /// The next token, if any.
    fn peek(&self) -> (res: Option<&Token>)
        requires
            self.pos <= self.tokens@.len(),
        ensures
            match tok(self.toks(), self.pos as nat) {
                Some(t) => res matches Some(u) && u@ == t,
                None => res is None,
            },
    {
        if self.pos < self.tokens.len() {
            Some(&self.tokens[self.pos])
        } else {
            None
        }
    }

    /// The token after the next one, if any.
    fn peek2(&self) -> (res: Option<&Token>)
        requires
            self.pos <= self.tokens@.len(),
        ensures
            match tok(self.toks(), self.pos as nat + 1) {
                Some(t) => res matches Some(u) && u@ == t,
                None => res is None,
            },
    {
        if self.tokens.len() - self.pos > 1 {
            Some(&self.tokens[self.pos + 1])
        } else {
            None
        }
    }

    /// Skips the next token.
    fn bump(&mut self)
        requires
            old(self).pos < old(self).tokens@.len(),
        ensures
            final(self).tokens@ == old(self).tokens@,
            final(self).pos == old(self).pos + 1,
    {
        proof {
            assert(self.tokens.len() == self.tokens@.len());
        }
        self.pos = self.pos + 1;
    }

    /// Whether the next token is of the kind of `expected`.
    fn at(&self, expected: &Token) -> (res: bool)
        requires
            self.pos <= self.tokens@.len(),
        ensures
            res == at(self.toks(), self.pos as nat, expected@),
    {
        match self.peek() {
            Some(t) => same_kind(t, expected),
            None => false,
        }
    }

    /// Consumes the next token if it is of the kind of `expected`.
    fn expect(&mut self, expected: &Token, msg: &str) -> (res: Result<(), ParseError>)
        requires
            old(self).pos <= old(self).tokens@.len(),
        ensures
            old(self).same_tokens(final(self)),
            match expect(old(self).toks(), old(self).pos as nat, expected@, msg@) {
                Ok(q) => res is Ok && final(self).pos == q,
                Err(m) => res matches Err(e) && e.message@ == m,
            },
    {
        if self.at(expected) {
            self.bump();
            Ok(())
        } else {
            Err(syntax_error(msg))
        }
    }

    /// Consumes an identifier.
    fn ident(&mut self) -> (res: Result<Ident, ParseError>)
        requires
            old(self).pos <= old(self).tokens@.len(),
        ensures
            old(self).same_tokens(final(self)),
            match p_ident(old(self).toks(), old(self).pos as nat) {
                Ok((name, q)) => res matches Ok(id) && id.0@ == name && final(self).pos == q,
                Err(m) => res matches Err(e) && e.message@ == m,
            },
    {
        match self.peek() {
            Some(Token::Ident(name)) => {
                let id = Ident(name.clone());
                self.bump();
                Ok(id)
            },
            _ => Err(syntax_error("expected an identifier")),
        }
    }

    /// The data type named by the next token, if it names one.
    fn peek_type(&self) -> (res: Option<DataType>)
        requires
            self.pos <= self.tokens@.len(),
        ensures
            res == type_at(self.toks(), self.pos as nat),
    {
        match self.peek() {
            Some(Token::KwBool) => Some(DataType::Bool),
            Some(Token::KwInt) => Some(DataType::Int),
            Some(Token::KwFloat) => Some(DataType::Float),
            Some(Token::KwVoid) => Some(DataType::Void),
            _ => None,
        }
    }

    /// Parses a comma separated list of arguments up to the closing parenthesis.
    fn args(&mut self) -> (res: Result<Vec<Expr>, ParseError>)
        requires
            old(self).pos <= old(self).tokens@.len(),
        ensures
            old(self).same_tokens(final(self)),
            p_args(old(self).toks(), old(self).pos as nat) == match res {
                Ok(v) => Ok((exprs_view(v@), final(self).pos as nat)),
                Err(e) => Err::<(Seq<SpecExpr>, nat), Seq<char>>(e.message@),
            },
        decreases old(self).tokens@.len() - old(self).pos, 7nat,
    {
        let ghost ts = self.toks();
        let ghost p0 = self.pos as nat;
        let mut args: Vec<Expr> = Vec::new();
        if self.at(&Token::RParen) {
            self.bump();
            return Ok(args);
        }
        proof {
            assert(exprs_view(args@) =~= Seq::<SpecExpr>::empty());
        }
        loop
            invariant
                self.tokens@ == old(self).tokens@,
                ts == self.toks(),
                p0 == old(self).pos,
                p0 <= self.pos <= self.tokens@.len(),
                p_args(ts, p0) == p_args_rest(ts, self.pos as nat, exprs_view(args@)),
            decreases self.tokens@.len() - self.pos,
        {
            let arg = self.assign()?;
            proof {
                lemma_exprs_view_push(args@, arg);
            }
            args.push(arg);
            if self.at(&Token::Comma) {
                self.bump();
            } else {
                self.expect(&Token::RParen, "expected `)` after arguments")?;
                return Ok(args);
            }
        }
    }

    /// Parses an assignment or an expression.
    fn assign(&mut self) -> (res: Result<Expr, ParseError>)
        requires
            old(self).pos <= old(self).tokens@.len(),
        ensures
            old(self).same_tokens(final(self)),
            res is Ok ==> final(self).pos > old(self).pos,
            p_assign(old(self).toks(), old(self).pos as nat) == match res {
                Ok(e) => Ok((e@, final(self).pos as nat)),
                Err(e) => Err::<(SpecExpr, nat), Seq<char>>(e.message@),
            },
        decreases old(self).tokens@.len() - old(self).pos, 5nat,
    {
        let is_assign = match (self.peek(), self.peek2()) {
            (Some(Token::Ident(_)), Some(Token::Assign)) => true,
            _ => false,
        };
        if is_assign {
            let a = self.assignment()?;
            Ok(Expr::Assign(a))
        } else {
            self.expr()
        }
    }

    /// Parses `ident = assign`.
    fn assignment(&mut self) -> (res: Result<Assign, ParseError>)
        requires
            old(self).pos <= old(self).tokens@.len(),
        ensures
            old(self).same_tokens(final(self)),
            res is Ok ==> final(self).pos > old(self).pos,
            p_assignment(old(self).toks(), old(self).pos as nat) == match res {
                Ok(a) => Ok((a@, final(self).pos as nat)),
                Err(e) => Err::<(SpecAssign, nat), Seq<char>>(e.message@),
            },
        decreases old(self).tokens@.len() - old(self).pos, 4nat,
    {
        let lhs = self.ident()?;
        self.expect(&Token::Assign, "expected `=`")?;
        let rhs = self.assign()?;
        Ok(Assign { lhs: ResIdent::new(lhs), rhs: Box::new(rhs) })
    }

    /// The comparison operator of the next token, if it is one.
    fn peek_comparison(&self) -> (res: Option<BinOp>)
        requires
            self.pos <= self.tokens@.len(),
        ensures
            res == comparison_at(self.toks(), self.pos as nat),
    {
        match self.peek() {
            Some(Token::Eq) => Some(BinOp::Eq),
            Some(Token::Neq) => Some(BinOp::Neq),
            Some(Token::Lt) => Some(BinOp::Lt),
            Some(Token::Gt) => Some(BinOp::Gt),
            Some(Token::Leq) => Some(BinOp::Leq),
            Some(Token::Geq) => Some(BinOp::Geq),
            _ => None,
        }
    }

    /// Parses a comparison of simple expressions, or a simple expression.
    fn expr(&mut self) -> (res: Result<Expr, ParseError>)
        requires
            old(self).pos <= old(self).tokens@.len(),
        ensures
            old(self).same_tokens(final(self)),
            res is Ok ==> final(self).pos > old(self).pos,
            p_expr(old(self).toks(), old(self).pos as nat) == match res {
                Ok(e) => Ok((e@, final(self).pos as nat)),
                Err(e) => Err::<(SpecExpr, nat), Seq<char>>(e.message@),
            },
        decreases old(self).tokens@.len() - old(self).pos, 4nat,
    {
        let lhs = self.simple()?;
        match self.peek_comparison() {
            Some(op) => {
                self.bump();
                let rhs = self.simple()?;
                Ok(Expr::BinaryOp(BinOpExpr { op, lhs: Box::new(lhs), rhs: Box::new(rhs) }))
            },
            None => Ok(lhs),
        }
    }

    /// Parses terms joined by `+`, `-` and `||`, associating to the left.
    fn simple(&mut self) -> (res: Result<Expr, ParseError>)
        requires
            old(self).pos <= old(self).tokens@.len(),
        ensures
            old(self).same_tokens(final(self)),
            res is Ok ==> final(self).pos > old(self).pos,
            p_simple(old(self).toks(), old(self).pos as nat) == match res {
                Ok(e) => Ok((e@, final(self).pos as nat)),
                Err(e) => Err::<(SpecExpr, nat), Seq<char>>(e.message@),
            },
        decreases old(self).tokens@.len() - old(self).pos, 3nat,
    {
        let ghost ts = self.toks();
        let ghost p0 = self.pos as nat;
        let mut lhs = self.term()?;
        loop
            invariant
                self.tokens@ == old(self).tokens@,
                ts == self.toks(),
                p0 == old(self).pos,
                p0 < self.pos <= self.tokens@.len(),
                p_simple(ts, p0) == p_simple_rest(ts, self.pos as nat, lhs@),
            decreases self.tokens@.len() - self.pos,
        {
            let op = match self.peek() {
                Some(Token::Add) => BinOp::Add,
                Some(Token::Sub) => BinOp::Sub,
                Some(Token::LogOr) => BinOp::LogOr,
                _ => return Ok(lhs),
            };
            self.bump();
            let rhs = self.term()?;
            lhs = Expr::BinaryOp(BinOpExpr { op, lhs: Box::new(lhs), rhs: Box::new(rhs) });
        }
    }

    /// Parses factors joined by `*`, `/` and `&&`, associating to the left.
    fn term(&mut self) -> (res: Result<Expr, ParseError>)
        requires
            old(self).pos <= old(self).tokens@.len(),
        ensures
            old(self).same_tokens(final(self)),
            res is Ok ==> final(self).pos > old(self).pos,
            p_term(old(self).toks(), old(self).pos as nat) == match res {
                Ok(e) => Ok((e@, final(self).pos as nat)),
                Err(e) => Err::<(SpecExpr, nat), Seq<char>>(e.message@),
            },
        decreases old(self).tokens@.len() - old(self).pos, 2nat,
    {
        let ghost ts = self.toks();
        let ghost p0 = self.pos as nat;
        let mut lhs = self.factor()?;
        loop
            invariant
                self.tokens@ == old(self).tokens@,
                ts == self.toks(),
                p0 == old(self).pos,
                p0 < self.pos <= self.tokens@.len(),
                p_term(ts, p0) == p_term_rest(ts, self.pos as nat, lhs@),
            decreases self.tokens@.len() - self.pos,
        {
            let op = match self.peek() {
                Some(Token::Mul) => BinOp::Mul,
                Some(Token::Div) => BinOp::Div,
                Some(Token::LogAnd) => BinOp::LogAnd,
                _ => return Ok(lhs),
            };
            self.bump();
            let rhs = self.factor()?;
            lhs = Expr::BinaryOp(BinOpExpr { op, lhs: Box::new(lhs), rhs: Box::new(rhs) });
        }
    }

    /// Parses a literal, a variable, a call, a parenthesized assignment or
    /// a negated factor.
    fn factor(&mut self) -> (res: Result<Expr, ParseError>)
        requires
            old(self).pos <= old(self).tokens@.len(),
        ensures
            old(self).same_tokens(final(self)),
            res is Ok ==> final(self).pos > old(self).pos,
            p_factor(old(self).toks(), old(self).pos as nat) == match res {
                Ok(e) => Ok((e@, final(self).pos as nat)),
                Err(e) => Err::<(SpecExpr, nat), Seq<char>>(e.message@),
            },
        decreases old(self).tokens@.len() - old(self).pos, 1nat,
    {
        let lit = match self.peek() {
            Some(Token::IntLiteral(v)) => Some(Literal::Int(*v)),
            Some(Token::FloatLiteral(s)) => Some(Literal::Float(s.clone())),
            Some(Token::StringLiteral(s)) => Some(Literal::String(s.clone())),
            Some(Token::BoolLiteral(b)) => Some(Literal::Bool(*b)),
            _ => None,
        };
        if let Some(lit) = lit {
            self.bump();
            return Ok(Expr::Literal(lit));
        }
        if self.at(&Token::Sub) {
            self.bump();
            let inner = self.factor()?;
            return Ok(Expr::UnaryMinus(Box::new(inner)));
        }
        if self.at(&Token::LParen) {
            self.bump();
            let inner = self.assign()?;
            self.expect(&Token::RParen, "expected `)`")?;
            return Ok(inner);
        }
        let name = self.ident()?;
        if self.at(&Token::LParen) {
            self.bump();
            let args = self.args()?;
            Ok(Expr::Call(FuncCall { res_ident: ResIdent::new(name), args }))
        } else {
            Ok(Expr::Var(ResIdent::new(name)))
        }
    }
}

impl Parser {
    /// Parses a variable definition after its type.
    fn var_def(&mut self, data_type: DataType) -> (res: Result<VarDef, ParseError>)
        requires
            old(self).pos <= old(self).tokens@.len(),
        ensures
            old(self).same_tokens(final(self)),
            res is Ok ==> final(self).pos > old(self).pos,
            p_var_def(old(self).toks(), old(self).pos as nat, data_type) == match res {
                Ok(d) => Ok((d@, final(self).pos as nat)),
                Err(e) => Err::<(SpecVarDef, nat), Seq<char>>(e.message@),
            },
    {
        let name = self.ident()?;
        let init = if self.at(&Token::Assign) {
            self.bump();
            Some(self.assign()?)
        } else {
            None
        };
        Ok(VarDef { data_type, res_ident: ResIdent::new(name), init })
    }

    /// Parses statements up to the closing brace, which it consumes.
    fn stmts(&mut self) -> (res: Result<Vec<Stmt>, ParseError>)
        requires
            old(self).pos <= old(self).tokens@.len(),
        ensures
            old(self).same_tokens(final(self)),
            res is Ok ==> final(self).pos > old(self).pos,
            p_stmts(old(self).toks(), old(self).pos as nat, Seq::empty()) == match res {
                Ok(v) => Ok((stmts_view(v@), final(self).pos as nat)),
                Err(e) => Err::<(Seq<SpecStmt>, nat), Seq<char>>(e.message@),
            },
        decreases old(self).tokens@.len() - old(self).pos, 1nat,
    {
        let ghost ts = self.toks();
        let ghost p0 = self.pos as nat;
        let mut stmts: Vec<Stmt> = Vec::new();
        proof {
            assert(stmts_view(stmts@) =~= Seq::<SpecStmt>::empty());
        }
        loop
            invariant
                self.tokens@ == old(self).tokens@,
                ts == self.toks(),
                p0 == old(self).pos,
                p0 <= self.pos <= self.tokens@.len(),
                p_stmts(ts, p0, Seq::empty()) == p_stmts(ts, self.pos as nat, stmts_view(stmts@)),
            decreases self.tokens@.len() - self.pos,
        {
            if self.at(&Token::RBrace) {
                self.bump();
                return Ok(stmts);
            }
            if self.pos == self.tokens.len() {
                return Err(syntax_error("expected `}`"));
            }
            let s = self.stmt()?;
            proof {
                lemma_stmts_view_push(stmts@, s);
            }
            stmts.push(s);
        }
    }

    /// Parses the rest of an `if` statement, after `if`.
    fn if_stmt(&mut self) -> (res: Result<Stmt, ParseError>)
        requires
            old(self).pos <= old(self).tokens@.len(),
        ensures
            old(self).same_tokens(final(self)),
            res is Ok ==> final(self).pos > old(self).pos,
            p_if(old(self).toks(), old(self).pos as nat) == match res {
                Ok(s) => Ok((s@, final(self).pos as nat)),
                Err(e) => Err::<(SpecStmt, nat), Seq<char>>(e.message@),
            },
        decreases old(self).tokens@.len() - old(self).pos, 0nat,
    {
        self.expect(&Token::LParen, "expected `(` after `if`")?;
        let cond = self.assign()?;
        self.expect(&Token::RParen, "expected `)` after condition")?;
        let if_true = self.stmt()?;
        let if_false = if self.at(&Token::KwElse) {
            self.bump();
            Some(Box::new(self.stmt()?))
        } else {
            None
        };
        Ok(Stmt::If(IfStmt { cond, if_true: Box::new(if_true), if_false }))
    }

    /// Parses the rest of a `for` statement, after `for`.
    fn for_stmt(&mut self) -> (res: Result<Stmt, ParseError>)
        requires
            old(self).pos <= old(self).tokens@.len(),
        ensures
            old(self).same_tokens(final(self)),
            res is Ok ==> final(self).pos > old(self).pos,
            p_for(old(self).toks(), old(self).pos as nat) == match res {
                Ok(s) => Ok((s@, final(self).pos as nat)),
                Err(e) => Err::<(SpecStmt, nat), Seq<char>>(e.message@),
            },
        decreases old(self).tokens@.len() - old(self).pos, 0nat,
    {
        self.expect(&Token::LParen, "expected `(` after `for`")?;
        let init = match self.peek_type() {
            Some(t) => {
                self.bump();
                ForInit::VarDef(self.var_def(t)?)
            },
            None => ForInit::Assign(self.assignment()?),
        };
        self.expect(&Token::Semicolon, "expected `;` after loop initializer")?;
        let cond = self.assign()?;
        self.expect(&Token::Semicolon, "expected `;` after loop condition")?;
        let update = self.assignment()?;
        self.expect(&Token::RParen, "expected `)` after loop update")?;
        let body = self.stmt()?;
        Ok(Stmt::For(ForStmt { init, cond, update, body: Box::new(body) }))
    }

    /// Parses the rest of a `while` statement, after `while`.
    fn while_stmt(&mut self) -> (res: Result<Stmt, ParseError>)
        requires
            old(self).pos <= old(self).tokens@.len(),
        ensures
            old(self).same_tokens(final(self)),
            res is Ok ==> final(self).pos > old(self).pos,
            p_while(old(self).toks(), old(self).pos as nat) == match res {
                Ok(s) => Ok((s@, final(self).pos as nat)),
                Err(e) => Err::<(SpecStmt, nat), Seq<char>>(e.message@),
            },
        decreases old(self).tokens@.len() - old(self).pos, 0nat,
    {
        self.expect(&Token::LParen, "expected `(` after `while`")?;
        let cond = self.assign()?;
        self.expect(&Token::RParen, "expected `)` after condition")?;
        let body = self.stmt()?;
        Ok(Stmt::While(WhileStmt { cond, body: Box::new(body) }))
    }

    /// Parses the rest of a `do`-`while` statement, after `do`.
    fn do_while_stmt(&mut self) -> (res: Result<Stmt, ParseError>)
        requires
            old(self).pos <= old(self).tokens@.len(),
        ensures
            old(self).same_tokens(final(self)),
            res is Ok ==> final(self).pos > old(self).pos,
            p_do_while(old(self).toks(), old(self).pos as nat) == match res {
                Ok(s) => Ok((s@, final(self).pos as nat)),
                Err(e) => Err::<(SpecStmt, nat), Seq<char>>(e.message@),
            },
        decreases old(self).tokens@.len() - old(self).pos, 1nat,
    {
        let body = self.stmt()?;
        self.expect(&Token::KwWhile, "expected `while` after loop body")?;
        self.expect(&Token::LParen, "expected `(` after `while`")?;
        let cond = self.assign()?;
        self.expect(&Token::RParen, "expected `)` after condition")?;
        self.expect(&Token::Semicolon, "expected `;` after `do`-`while` loop")?;
        Ok(Stmt::DoWhile(WhileStmt { cond, body: Box::new(body) }))
    }

    /// Parses the rest of a `return` statement, after `return`.
    fn return_stmt(&mut self) -> (res: Result<Stmt, ParseError>)
        requires
            old(self).pos <= old(self).tokens@.len(),
        ensures
            old(self).same_tokens(final(self)),
            res is Ok ==> final(self).pos > old(self).pos,
            p_return(old(self).toks(), old(self).pos as nat) == match res {
                Ok(s) => Ok((s@, final(self).pos as nat)),
                Err(e) => Err::<(SpecStmt, nat), Seq<char>>(e.message@),
            },
    {
        if self.at(&Token::Semicolon) {
            self.bump();
            return Ok(Stmt::Return(None));
        }
        let value = self.assign()?;
        self.expect(&Token::Semicolon, "expected `;` after `return`")?;
        Ok(Stmt::Return(Some(value)))
    }

    /// Parses a statement.
    fn stmt(&mut self) -> (res: Result<Stmt, ParseError>)
        requires
            old(self).pos <= old(self).tokens@.len(),
        ensures
            old(self).same_tokens(final(self)),
            res is Ok ==> final(self).pos > old(self).pos,
            p_stmt(old(self).toks(), old(self).pos as nat) == match res {
                Ok(s) => Ok((s@, final(self).pos as nat)),
                Err(e) => Err::<(SpecStmt, nat), Seq<char>>(e.message@),
            },
        decreases old(self).tokens@.len() - old(self).pos, 0nat,
    {
        if self.at(&Token::LBrace) {
            self.bump();
            let statements = self.stmts()?;
            return Ok(Stmt::Block(Block { statements }));
        }
        if self.at(&Token::Semicolon) {
            self.bump();
            return Ok(Stmt::Empty);
        }
        if self.at(&Token::KwIf) {
            self.bump();
            return self.if_stmt();
        }
        if self.at(&Token::KwFor) {
            self.bump();
            return self.for_stmt();
        }
        if self.at(&Token::KwWhile) {
            self.bump();
            return self.while_stmt();
        }
        if self.at(&Token::KwDo) {
            self.bump();
            return self.do_while_stmt();
        }
        if self.at(&Token::KwReturn) {
            self.bump();
            return self.return_stmt();
        }
        self.other_stmt()
    }

    /// Parses a `print` statement, a variable definition, a call or an
    /// assignment: the statements that `p_stmt` gives after its keywords.
    fn other_stmt(&mut self) -> (res: Result<Stmt, ParseError>)
        requires
            old(self).pos <= old(self).tokens@.len(),
            !at(old(self).toks(), old(self).pos as nat, SpecToken::LBrace),
            !at(old(self).toks(), old(self).pos as nat, SpecToken::Semicolon),
            !at(old(self).toks(), old(self).pos as nat, SpecToken::KwIf),
            !at(old(self).toks(), old(self).pos as nat, SpecToken::KwFor),
            !at(old(self).toks(), old(self).pos as nat, SpecToken::KwWhile),
            !at(old(self).toks(), old(self).pos as nat, SpecToken::KwDo),
            !at(old(self).toks(), old(self).pos as nat, SpecToken::KwReturn),
        ensures
            old(self).same_tokens(final(self)),
            res is Ok ==> final(self).pos > old(self).pos,
            p_stmt(old(self).toks(), old(self).pos as nat) == match res {
                Ok(s) => Ok((s@, final(self).pos as nat)),
                Err(e) => Err::<(SpecStmt, nat), Seq<char>>(e.message@),
            },
    {
        if self.at(&Token::KwPrint) {
            self.bump();
            self.expect(&Token::LParen, "expected `(` after `print`")?;
            let exprs = self.args()?;
            self.expect(&Token::Semicolon, "expected `;` after `print`")?;
            return Ok(Stmt::Print(PrintStmt { exprs }));
        }
        if let Some(t) = self.peek_type() {
            self.bump();
            let var_def = self.var_def(t)?;
            self.expect(&Token::Semicolon, "expected `;` after variable definition")?;
            return Ok(Stmt::VarDef(var_def));
        }
        let is_call = match self.peek2() {
            Some(Token::LParen) => true,
            _ => false,
        };
        if is_call {
            let name = self.ident()?;
            self.bump();
            let args = self.args()?;
            self.expect(&Token::Semicolon, "expected `;` after call")?;
            return Ok(Stmt::Call(FuncCall { res_ident: ResIdent::new(name), args }));
        }
        let a = self.assignment()?;
        self.expect(&Token::Semicolon, "expected `;` after assignment")?;
        Ok(Stmt::Assign(a))
    }

    /// Parses the parameters of a function up to the closing parenthesis.
    fn params(&mut self) -> (res: Result<Vec<FuncParam>, ParseError>)
        requires
            old(self).pos <= old(self).tokens@.len(),
        ensures
            old(self).same_tokens(final(self)),
            p_params(old(self).toks(), old(self).pos as nat) == match res {
                Ok(v) => Ok((params_view(v@), final(self).pos as nat)),
                Err(e) => Err::<(Seq<(DataType, Seq<char>)>, nat), Seq<char>>(e.message@),
            },
    {
        let ghost ts = self.toks();
        let ghost p0 = self.pos as nat;
        let mut params: Vec<FuncParam> = Vec::new();
        if self.at(&Token::RParen) {
            self.bump();
            proof {
                assert(params_view(params@) =~= Seq::<(DataType, Seq<char>)>::empty());
            }
            return Ok(params);
        }
        proof {
            assert(params_view(params@) =~= Seq::<(DataType, Seq<char>)>::empty());
        }
        loop
            invariant
                self.tokens@ == old(self).tokens@,
                ts == self.toks(),
                p0 == old(self).pos,
                p0 <= self.pos <= self.tokens@.len(),
                p_params(ts, p0) == p_params_rest(ts, self.pos as nat, params_view(params@)),
            decreases self.tokens@.len() - self.pos,
        {
            let data_type = match self.peek_type() {
                Some(t) => t,
                None => return Err(syntax_error("expected a parameter type")),
            };
            self.bump();
            let ident = self.ident()?;
            let ghost before = params@;
            params.push(FuncParam { data_type, ident });
            proof {
                assert(params_view(params@) =~= params_view(before).push((data_type, params@.last().ident.0@)));
            }
            if self.at(&Token::Comma) {
                self.bump();
            } else {
                self.expect(&Token::RParen, "expected `)` after parameters")?;
                return Ok(params);
            }
        }
    }

    /// Parses a global variable or function definition.
    fn item(&mut self) -> (res: Result<Item, ParseError>)
        requires
            old(self).pos <= old(self).tokens@.len(),
        ensures
            old(self).same_tokens(final(self)),
            res is Ok ==> final(self).pos > old(self).pos,
            p_item(old(self).toks(), old(self).pos as nat) == match res {
                Ok(i) => Ok((i@, final(self).pos as nat)),
                Err(e) => Err::<(SpecItem, nat), Seq<char>>(e.message@),
            },
    {
        let data_type = match self.peek_type() {
            Some(t) => t,
            None => return Err(syntax_error("expected a type")),
        };
        self.bump();
        let is_func = self.at(&Token::Ident(String::new())) && match self.peek2() {
            Some(Token::LParen) => true,
            _ => false,
        };
        if is_func {
            let ident = self.ident()?;
            self.bump();
            let params = self.params()?;
            self.expect(&Token::LBrace, "expected `{` before function body")?;
            let statements = self.stmts()?;
            return Ok(Item::Func(FuncDef { return_type: data_type, ident, params, statements }));
        }
        let var_def = self.var_def(data_type)?;
        self.expect(&Token::Semicolon, "expected `;` after variable definition")?;
        Ok(Item::GlobalVar(var_def))
    }
}

/// Whether two tokens are of the same kind (ignoring their contents).
fn same_kind(a: &Token, b: &Token) -> (res: bool)
    ensures
        res == (token_kind(a@) == token_kind(b@)),
{
    match (a, b) {
        (Token::Ident(_), Token::Ident(_)) => true,
        (Token::IntLiteral(_), Token::IntLiteral(_)) => true,
        (Token::FloatLiteral(_), Token::FloatLiteral(_)) => true,
        (Token::StringLiteral(_), Token::StringLiteral(_)) => true,
        (Token::BoolLiteral(_), Token::BoolLiteral(_)) => true,
        (Token::KwBool, Token::KwBool) => true,
        (Token::KwDo, Token::KwDo) => true,
        (Token::KwElse, Token::KwElse) => true,
        (Token::KwFloat, Token::KwFloat) => true,
        (Token::KwFor, Token::KwFor) => true,
        (Token::KwIf, Token::KwIf) => true,
        (Token::KwInt, Token::KwInt) => true,
        (Token::KwPrint, Token::KwPrint) => true,
        (Token::KwReturn, Token::KwReturn) => true,
        (Token::KwVoid, Token::KwVoid) => true,
        (Token::KwWhile, Token::KwWhile) => true,
        (Token::Add, Token::Add) => true,
        (Token::Sub, Token::Sub) => true,
        (Token::Mul, Token::Mul) => true,
        (Token::Div, Token::Div) => true,
        (Token::Assign, Token::Assign) => true,
        (Token::Eq, Token::Eq) => true,
        (Token::Neq, Token::Neq) => true,
        (Token::Lt, Token::Lt) => true,
        (Token::Gt, Token::Gt) => true,
        (Token::Leq, Token::Leq) => true,
        (Token::Geq, Token::Geq) => true,
        (Token::LogAnd, Token::LogAnd) => true,
        (Token::LogOr, Token::LogOr) => true,
        (Token::Comma, Token::Comma) => true,
        (Token::Semicolon, Token::Semicolon) => true,
        (Token::LParen, Token::LParen) => true,
        (Token::RParen, Token::RParen) => true,
        (Token::LBrace, Token::LBrace) => true,
        (Token::RBrace, Token::RBrace) => true,
        _ => false,
    }
}

/// Parses a C1 program: the result is the program that [`program_of`] gives
/// for the input, or the message of its first lexical or syntax error.
pub fn parse(input: &str) -> (res: Result<Program, ParseError>)
    ensures
        program_of(input@) == match res {
            Ok(p) => Ok(p@),
            Err(e) => Err::<Seq<SpecItem>, Seq<char>>(e.message@),
        },
{
    let tokens = match tokenize(input) {
        Ok(tokens) => tokens,
        Err(e) => {
            return Err(ParseError { message: e.message });
        },
    };
    let mut p = Parser { tokens, pos: 0 };
    let ghost ts = p.toks();
    let mut items: Vec<Item> = Vec::new();
    proof {
        assert(items_view(items@) =~= Seq::<SpecItem>::empty());
    }
    while p.pos < p.tokens.len()
        invariant
            p.pos <= p.tokens@.len(),
            ts == p.toks(),
            lex(input@) == Ok::<Seq<SpecToken>, (nat, Seq<char>)>(ts),
            program_of(input@) == p_items(ts, p.pos as nat, items_view(items@)),
        decreases p.tokens@.len() - p.pos,
    {
        let item = p.item()?;
        let ghost before = items@;
        items.push(item);
        proof {
            assert(items_view(items@) =~= items_view(before).push(items@.last()@));
        }
    }
    Ok(Program { items })
}

/// Every binary operator, written as its symbol, lexes to one token that
/// the grammar reads back as that very operator, at its level of
/// precedence: comparisons, then `+ - ||`, then `* / &&`.
pub proof fn law_operator_symbols_parse_back(op: BinOp)
    ensures
        lex(crate::ast::spec_op_symbol(op)) matches Ok(ts) && ts.len() == 1 && match op {
            BinOp::Eq | BinOp::Neq | BinOp::Lt | BinOp::Gt | BinOp::Leq | BinOp::Geq => comparison_at(ts, 0) == Some(op),
            BinOp::Add | BinOp::Sub | BinOp::LogOr => additive_at(ts, 0) == Some(op),
            BinOp::Mul | BinOp::Div | BinOp::LogAnd => multiplicative_at(ts, 0) == Some(op),
        },
{
    reveal_strlit("+");
    reveal_strlit("-");
    reveal_strlit("*");
    reveal_strlit("/");
    reveal_strlit("==");
    reveal_strlit("!=");
    reveal_strlit("<");
    reveal_strlit(">");
    reveal_strlit("<=");
    reveal_strlit(">=");
    reveal_strlit("&&");
    reveal_strlit("||");
    let cs = crate::ast::spec_op_symbol(op);
    let n = cs.len();
    assert(crate::lexer::lex_from(cs, n) == Ok::<Seq<SpecToken>, (nat, Seq<char>)>(Seq::empty()));
    let t = crate::lexer::operator_at(cs, 0)->Some_0.0;
    assert(crate::lexer::operator_at(cs, 0) == Some((t, n)));
    assert(crate::lexer::step(cs, 0) == Ok::<(Option<SpecToken>, nat), (nat, Seq<char>)>((Some(t), n)));
    assert(seq![t] + Seq::<SpecToken>::empty() =~= seq![t]);
}

} // verus!
