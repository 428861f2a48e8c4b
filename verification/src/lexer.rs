//! The lexer of C1: turns source text into tokens.
//!
//! Tokens are found by longest match from left to right; white space, line
//! comments (`//` to the end of the line) and block comments (`/*` to the
//! first `*/`) separate them. A `/*` without its `*/` is no comment.
//!
//! [`tokenize`] stops at the first lexical error; [`lex_with_spans`] gives
//! every token with its span and every lexical error with its text and
//! span, going on after each error.
use vstd::prelude::*;
use crate::text::{spec_decimal, spec_digit};

verus! {

/// A token of C1 source code.
#[derive(Debug, PartialEq)]
pub enum Token {
    Ident(String),
    IntLiteral(i64),
    /// A floating point literal, kept as written.
    FloatLiteral(String),
    /// A string literal without its quotes.
    StringLiteral(String),
    BoolLiteral(bool),
    KwBool,
    KwDo,
    KwElse,
    KwFloat,
    KwFor,
    KwIf,
    KwInt,
    KwPrint,
    KwReturn,
    KwVoid,
    KwWhile,
    Add,
    Sub,
    Mul,
    Div,
    Assign,
    Eq,
    Neq,
    Lt,
    Gt,
    Leq,
    Geq,
    LogAnd,
    LogOr,
    Comma,
    Semicolon,
    LParen,
    RParen,
    LBrace,
    RBrace,
}

/// The view of a token.
pub enum SpecToken {
    Ident(Seq<char>),
    IntLiteral(i64),
    FloatLiteral(Seq<char>),
    StringLiteral(Seq<char>),
    BoolLiteral(bool),
    KwBool,
    KwDo,
    KwElse,
    KwFloat,
    KwFor,
    KwIf,
    KwInt,
    KwPrint,
    KwReturn,
    KwVoid,
    KwWhile,
    Add,
    Sub,
    Mul,
    Div,
    Assign,
    Eq,
    Neq,
    Lt,
    Gt,
    Leq,
    Geq,
    LogAnd,
    LogOr,
    Comma,
    Semicolon,
    LParen,
    RParen,
    LBrace,
    RBrace,
}

impl View for Token {
    type V = SpecToken;

    open spec fn view(&self) -> SpecToken {
        match self {
            Token::Ident(s) => SpecToken::Ident(s@),
            Token::IntLiteral(v) => SpecToken::IntLiteral(*v),
            Token::FloatLiteral(s) => SpecToken::FloatLiteral(s@),
            Token::StringLiteral(s) => SpecToken::StringLiteral(s@),
            Token::BoolLiteral(b) => SpecToken::BoolLiteral(*b),
            Token::KwBool => SpecToken::KwBool,
            Token::KwDo => SpecToken::KwDo,
            Token::KwElse => SpecToken::KwElse,
            Token::KwFloat => SpecToken::KwFloat,
            Token::KwFor => SpecToken::KwFor,
            Token::KwIf => SpecToken::KwIf,
            Token::KwInt => SpecToken::KwInt,
            Token::KwPrint => SpecToken::KwPrint,
            Token::KwReturn => SpecToken::KwReturn,
            Token::KwVoid => SpecToken::KwVoid,
            Token::KwWhile => SpecToken::KwWhile,
            Token::Add => SpecToken::Add,
            Token::Sub => SpecToken::Sub,
            Token::Mul => SpecToken::Mul,
            Token::Div => SpecToken::Div,
            Token::Assign => SpecToken::Assign,
            Token::Eq => SpecToken::Eq,
            Token::Neq => SpecToken::Neq,
            Token::Lt => SpecToken::Lt,
            Token::Gt => SpecToken::Gt,
            Token::Leq => SpecToken::Leq,
            Token::Geq => SpecToken::Geq,
            Token::LogAnd => SpecToken::LogAnd,
            Token::LogOr => SpecToken::LogOr,
            Token::Comma => SpecToken::Comma,
            Token::Semicolon => SpecToken::Semicolon,
            Token::LParen => SpecToken::LParen,
            Token::RParen => SpecToken::RParen,
            Token::LBrace => SpecToken::LBrace,
            Token::RBrace => SpecToken::RBrace,
        }
    }
}

/// A lexical error: the position (in characters) where no token starts,
/// and what is wrong there.
#[derive(Debug)]
pub struct LexError {
    pub pos: usize,
    pub message: String,
}

/// Whether `c` is an ASCII decimal digit.
pub open spec fn is_digit(c: char) -> bool {
    '0' <= c && c <= '9'
}

/// Whether `c` can start an identifier.
pub open spec fn is_ident_start(c: char) -> bool {
    ('a' <= c && c <= 'z') || ('A' <= c && c <= 'Z') || c == '_'
}

/// Whether `c` can continue an identifier.
pub open spec fn is_ident_char(c: char) -> bool {
    is_ident_start(c) || is_digit(c)
}

/// Whether `c` is white space between tokens.
pub open spec fn is_space(c: char) -> bool {
    c == ' ' || c == '\t' || c == '\r' || c == '\n'
}

// ---------------------------------------------------------------------------
// The lexical grammar.

/// The end of the run of digits that starts at `i`.
pub open spec fn digits_end(cs: Seq<char>, i: nat) -> nat
    decreases cs.len() - i,
{
    if i < cs.len() && is_digit(cs[i as int]) {
        digits_end(cs, i + 1)
    } else {
        i
    }
}

/// The end of the run of identifier characters that starts at `i`.
pub open spec fn ident_end(cs: Seq<char>, i: nat) -> nat
    decreases cs.len() - i,
{
    if i < cs.len() && is_ident_char(cs[i as int]) {
        ident_end(cs, i + 1)
    } else {
        i
    }
}

/// The position of the first line feed at or after `i`, or the end.
pub open spec fn line_end(cs: Seq<char>, i: nat) -> nat
    decreases cs.len() - i,
{
    if i < cs.len() && cs[i as int] != '\n' {
        line_end(cs, i + 1)
    } else {
        i
    }
}

/// The position of the first quote or line break at or after `i`, or the end.
pub open spec fn string_end(cs: Seq<char>, i: nat) -> nat
    decreases cs.len() - i,
{
    if i < cs.len() && cs[i as int] != '"' && cs[i as int] != '\n' && cs[i as int] != '\r' {
        string_end(cs, i + 1)
    } else {
        i
    }
}

/// The position after the first `*/` at or after `i`, if there is one.
pub open spec fn comment_end(cs: Seq<char>, i: nat) -> Option<nat>
    decreases cs.len() - i,
{
    if i + 1 < cs.len() {
        if cs[i as int] == '*' && cs[i + 1int] == '/' {
            Some(i + 2)
        } else {
            comment_end(cs, i + 1)
        }
    } else {
        None
    }
}

/// The end of an exponent `[eE][+-]?[0-9]+` that starts at `i`, or `i` if
/// there is none.
pub open spec fn exponent_end(cs: Seq<char>, i: nat) -> nat {
    if i < cs.len() && (cs[i as int] == 'e' || cs[i as int] == 'E') {
        let j: nat = if i + 1 < cs.len() && (cs[i + 1int] == '+' || cs[i + 1int] == '-') {
            i + 2
        } else {
            i + 1
        };
        if digits_end(cs, j) > j {
            digits_end(cs, j)
        } else {
            i
        }
    } else {
        i
    }
}

/// The value of the decimal digits `cs[lo..hi]`.
pub open spec fn digits_value(cs: Seq<char>, lo: nat, hi: nat) -> int
    decreases hi,
{
    if hi <= lo {
        0
    } else {
        digits_value(cs, lo, (hi - 1) as nat) * 10 + (cs[hi - 1] as int - '0' as int)
    }
}

/// The keyword or truth value spelled `w`, or an identifier.
pub open spec fn spec_word_token(w: Seq<char>) -> SpecToken {
    if w == "bool"@ {
        SpecToken::KwBool
    } else if w == "do"@ {
        SpecToken::KwDo
    } else if w == "else"@ {
        SpecToken::KwElse
    } else if w == "float"@ {
        SpecToken::KwFloat
    } else if w == "for"@ {
        SpecToken::KwFor
    } else if w == "if"@ {
        SpecToken::KwIf
    } else if w == "int"@ {
        SpecToken::KwInt
    } else if w == "print"@ {
        SpecToken::KwPrint
    } else if w == "return"@ {
        SpecToken::KwReturn
    } else if w == "void"@ {
        SpecToken::KwVoid
    } else if w == "while"@ {
        SpecToken::KwWhile
    } else if w == "true"@ {
        SpecToken::BoolLiteral(true)
    } else if w == "false"@ {
        SpecToken::BoolLiteral(false)
    } else {
        SpecToken::Ident(w)
    }
}

/// The operator or separator at `i` and its length, if there is one; of two
/// operators the longer one is taken.
pub open spec fn operator_at(cs: Seq<char>, i: nat) -> Option<(SpecToken, nat)> {
    let c = cs[i as int];
    let next = if i + 1 < cs.len() {
        cs[i + 1int]
    } else {
        ' '
    };
    if c == '+' {
        Some((SpecToken::Add, 1))
    } else if c == '-' {
        Some((SpecToken::Sub, 1))
    } else if c == '*' {
        Some((SpecToken::Mul, 1))
    } else if c == '/' {
        Some((SpecToken::Div, 1))
    } else if c == '=' && next == '=' {
        Some((SpecToken::Eq, 2))
    } else if c == '=' {
        Some((SpecToken::Assign, 1))
    } else if c == '!' && next == '=' {
        Some((SpecToken::Neq, 2))
    } else if c == '<' && next == '=' {
        Some((SpecToken::Leq, 2))
    } else if c == '<' {
        Some((SpecToken::Lt, 1))
    } else if c == '>' && next == '=' {
        Some((SpecToken::Geq, 2))
    } else if c == '>' {
        Some((SpecToken::Gt, 1))
    } else if c == '&' && next == '&' {
        Some((SpecToken::LogAnd, 2))
    } else if c == '|' && next == '|' {
        Some((SpecToken::LogOr, 2))
    } else if c == ',' {
        Some((SpecToken::Comma, 1))
    } else if c == ';' {
        Some((SpecToken::Semicolon, 1))
    } else if c == '(' {
        Some((SpecToken::LParen, 1))
    } else if c == ')' {
        Some((SpecToken::RParen, 1))
    } else if c == '{' {
        Some((SpecToken::LBrace, 1))
    } else if c == '}' {
        Some((SpecToken::RBrace, 1))
    } else {
        None
    }
}

/// The end of the fraction of a number whose digits before the point end at
/// `int_end`, or `int_end` if it has no fraction.
pub open spec fn fraction_end(cs: Seq<char>, int_end: nat) -> nat {
    if int_end + 1 < cs.len() && cs[int_end as int] == '.' && is_digit(cs[int_end + 1int]) {
        digits_end(cs, int_end + 1)
    } else {
        int_end
    }
}

/// The number that starts at `i` and its end: a float literal if it has a
/// fraction or an exponent, else an integer literal (`None` if its value
/// exceeds the largest `int`).
pub open spec fn number_at(cs: Seq<char>, i: nat) -> (Option<SpecToken>, nat) {
    let int_end = digits_end(cs, i);
    let frac_end = fraction_end(cs, int_end);
    let exp_end = exponent_end(cs, frac_end);
    if frac_end > int_end || exp_end > frac_end {
        (Some(SpecToken::FloatLiteral(cs.subrange(i as int, exp_end as int))), exp_end)
    } else if digits_value(cs, i, int_end) <= i64::MAX {
        (Some(SpecToken::IntLiteral(digits_value(cs, i, int_end) as i64)), int_end)
    } else {
        (None, int_end)
    }
}

/// Puts a token in front of the tokens of the rest of the input.
pub open spec fn prepend(t: SpecToken, r: Result<Seq<SpecToken>, (nat, Seq<char>)>) -> Result<
    Seq<SpecToken>,
    (nat, Seq<char>),
> {
    match r {
        Ok(ts) => Ok(seq![t] + ts),
        Err(e) => Err(e),
    }
}

/// The scans end at or after where they start, and not after the end.
pub proof fn lemma_scan_ends(cs: Seq<char>, i: nat)
    ensures
        i <= digits_end(cs, i),
        i < cs.len() && is_digit(cs[i as int]) ==> i < digits_end(cs, i),
        i <= cs.len() ==> digits_end(cs, i) <= cs.len(),
        i <= ident_end(cs, i),
        i <= cs.len() ==> ident_end(cs, i) <= cs.len(),
        i <= line_end(cs, i),
        i <= cs.len() ==> line_end(cs, i) <= cs.len(),
        i <= string_end(cs, i),
        i <= cs.len() ==> string_end(cs, i) <= cs.len(),
        comment_end(cs, i) matches Some(e) ==> i + 2 <= e <= cs.len(),
    decreases cs.len() - i,
{
    if i < cs.len() {
        lemma_scan_ends(cs, i + 1);
    }
}

/// What the lexer finds at position `i`: the token that starts there (none
/// for white space and comments) and the position after it, or the position
/// and message of a lexical error.
pub open spec fn step(cs: Seq<char>, i: nat) -> Result<(Option<SpecToken>, nat), (nat, Seq<char>)> {
    let c = cs[i as int];
    if is_space(c) {
        Ok((None, i + 1))
    } else if c == '/' && i + 1 < cs.len() && cs[i + 1int] == '/' {
        Ok((None, line_end(cs, i + 2)))
    } else if c == '/' && i + 1 < cs.len() && cs[i + 1int] == '*' && comment_end(cs, i + 2) is Some {
        Ok((None, comment_end(cs, i + 2)->Some_0))
    } else if is_digit(c) || (c == '.' && i + 1 < cs.len() && is_digit(cs[i + 1int])) {
        match number_at(cs, i) {
            (Some(t), end) => Ok((Some(t), end)),
            (None, _) => Err((i, "integer literal out of range"@)),
        }
    } else if is_ident_start(c) {
        let j = ident_end(cs, i + 1);
        Ok((Some(spec_word_token(cs.subrange(i as int, j as int))), j))
    } else if c == '"' {
        let j = string_end(cs, i + 1);
        if j < cs.len() && cs[j as int] == '"' {
            Ok((Some(SpecToken::StringLiteral(cs.subrange(i + 1int, j as int))), j + 1))
        } else {
            Err((i, "unterminated string literal"@))
        }
    } else {
        match operator_at(cs, i) {
            Some((t, k)) => Ok((Some(t), i + k)),
            None => Err((i, "unexpected character"@)),
        }
    }
}

/// The tokens of `cs` from position `i` on, or the position and message of
/// the first lexical error. (Every step advances; see [`lemma_step_advances`].)
pub open spec fn lex_from(cs: Seq<char>, i: nat) -> Result<Seq<SpecToken>, (nat, Seq<char>)>
    decreases cs.len() - i,
{
    if i >= cs.len() {
        Ok(Seq::empty())
    } else {
        match step(cs, i) {
            Err(e) => Err(e),
            Ok((t, j)) => if i < j <= cs.len() {
                match t {
                    Some(t) => prepend(t, lex_from(cs, j)),
                    None => lex_from(cs, j),
                }
            } else {
                Err((i, "unexpected character"@))
            },
        }
    }
}

/// Every step of the lexer advances, and not beyond the end.
pub proof fn lemma_step_advances(cs: Seq<char>, i: nat)
    requires
        i < cs.len(),
    ensures
        step(cs, i) matches Ok((_, j)) ==> i < j <= cs.len(),
{
    lemma_scan_ends(cs, i);
    lemma_scan_ends(cs, i + 1);
    lemma_scan_ends(cs, i + 2);
    let int_end = digits_end(cs, i);
    lemma_scan_ends(cs, int_end);
    lemma_scan_ends(cs, int_end + 1);
    let frac_end = fraction_end(cs, int_end);
    lemma_scan_ends(cs, frac_end);
    lemma_scan_ends(cs, frac_end + 1);
    lemma_scan_ends(cs, frac_end + 2);
}

/// The tokens of a source text, or the position and message of the first
/// lexical error.
pub open spec fn lex(cs: Seq<char>) -> Result<Seq<SpecToken>, (nat, Seq<char>)> {
    lex_from(cs, 0)
}

/// Where the text of a lexical error at `i` ends: an integer literal out of
/// range takes its digits, an unterminated string literal the rest of its
/// line, and any other error the one character.
pub open spec fn error_end(cs: Seq<char>, i: nat) -> nat {
    let c = cs[i as int];
    if is_digit(c) {
        digits_end(cs, i)
    } else if c == '"' {
        string_end(cs, i + 1)
    } else {
        i + 1
    }
}

/// What lexing with recovery finds: a token with its span, or the text and
/// span of a lexical error (positions in characters).
pub enum SpecLexItem {
    Token(nat, SpecToken, nat),
    Error(Seq<char>, nat, nat),
}

/// The tokens and errors of `cs` from position `i` on: after an error,
/// lexing goes on right after its text.
pub open spec fn lex_items_from(cs: Seq<char>, i: nat) -> Seq<SpecLexItem>
    decreases cs.len() - i,
{
    if i >= cs.len() {
        Seq::empty()
    } else {
        match step(cs, i) {
            Ok((t, j)) => if i < j <= cs.len() {
                match t {
                    Some(t) => seq![SpecLexItem::Token(i, t, j)] + lex_items_from(cs, j),
                    None => lex_items_from(cs, j),
                }
            } else {
                Seq::empty()
            },
            Err(_) => {
                let e = error_end(cs, i);
                if i < e <= cs.len() {
                    seq![SpecLexItem::Error(cs.subrange(i as int, e as int), i, e)] + lex_items_from(cs, e)
                } else {
                    Seq::empty()
                }
            },
        }
    }
}

/// The tokens and lexical errors of the whole text, in order.
pub open spec fn lex_items(cs: Seq<char>) -> Seq<SpecLexItem> {
    lex_items_from(cs, 0)
}

/// The text of a lexical error spans at least one character.
pub proof fn lemma_error_end(cs: Seq<char>, i: nat)
    requires
        i < cs.len(),
    ensures
        i < error_end(cs, i) <= cs.len(),
{
    lemma_scan_ends(cs, i);
    lemma_scan_ends(cs, i + 1);
}

/// The views of a sequence of tokens.
pub open spec fn tokens_view(ts: Seq<Token>) -> Seq<SpecToken> {
    Seq::new(ts.len(), |i: int| ts[i]@)
}

// ---------------------------------------------------------------------------
// The lexer.

fn digit(c: char) -> (res: bool)
    ensures
        res == is_digit(c),
{
    '0' <= c && c <= '9'
}

fn ident_start(c: char) -> (res: bool)
    ensures
        res == is_ident_start(c),
{
    ('a' <= c && c <= 'z') || ('A' <= c && c <= 'Z') || c == '_'
}

fn ident_char(c: char) -> (res: bool)
    ensures
        res == is_ident_char(c),
{
    ident_start(c) || digit(c)
}

fn space(c: char) -> (res: bool)
    ensures
        res == is_space(c),
{
    c == ' ' || c == '\t' || c == '\r' || c == '\n'
}

/// The characters of `s`.
fn chars_of(s: &str) -> (res: Vec<char>)
    ensures
        res@ == s@,
{
    let mut v: Vec<char> = Vec::new();
    for c in it: s.chars()
        invariant
            v@ == it.seq().take(it.index() as int),
            it.seq() == s@,
    {
        v.push(c);
    }
    v
}

/// The end of the run of digits from `i`.
fn scan_digits(cs: &Vec<char>, i: usize) -> (res: usize)
    requires
        i <= cs@.len(),
    ensures
        res == digits_end(cs@, i as nat),
        i <= res <= cs@.len(),
{
    let mut j = i;
    while j < cs.len() && digit(cs[j])
        invariant
            i <= j <= cs@.len(),
            digits_end(cs@, i as nat) == digits_end(cs@, j as nat),
        decreases cs@.len() - j,
    {
        j += 1;
    }
    j
}

/// The end of the run of identifier characters from `i`.
fn scan_ident(cs: &Vec<char>, i: usize) -> (res: usize)
    requires
        i <= cs@.len(),
    ensures
        res == ident_end(cs@, i as nat),
        i <= res <= cs@.len(),
{
    let mut j = i;
    while j < cs.len() && ident_char(cs[j])
        invariant
            i <= j <= cs@.len(),
            ident_end(cs@, i as nat) == ident_end(cs@, j as nat),
        decreases cs@.len() - j,
    {
        j += 1;
    }
    j
}

/// The position of the first line feed from `i`, or the end.
fn scan_line(cs: &Vec<char>, i: usize) -> (res: usize)
    requires
        i <= cs@.len(),
    ensures
        res == line_end(cs@, i as nat),
        i <= res <= cs@.len(),
{
    let mut j = i;
    while j < cs.len() && cs[j] != '\n'
        invariant
            i <= j <= cs@.len(),
            line_end(cs@, i as nat) == line_end(cs@, j as nat),
        decreases cs@.len() - j,
    {
        j += 1;
    }
    j
}

/// The position of the first quote or line break from `i`, or the end.
fn scan_string(cs: &Vec<char>, i: usize) -> (res: usize)
    requires
        i <= cs@.len(),
    ensures
        res == string_end(cs@, i as nat),
        i <= res <= cs@.len(),
{
    let mut j = i;
    while j < cs.len() && cs[j] != '"' && cs[j] != '\n' && cs[j] != '\r'
        invariant
            i <= j <= cs@.len(),
            string_end(cs@, i as nat) == string_end(cs@, j as nat),
        decreases cs@.len() - j,
    {
        j += 1;
    }
    j
}

/// The position after the first `*/` from `i`, if there is one: a block
/// comment without its end is no comment.
fn block_comment_end(cs: &Vec<char>, i: usize) -> (res: Option<usize>)
    requires
        i <= cs@.len(),
    ensures
        res == match comment_end(cs@, i as nat) {
            Some(e) => Some(e as usize),
            None => None::<usize>,
        },
        res matches Some(e) ==> e <= cs@.len(),
{
    let n = cs.len();
    let mut j = i;
    while n - j > 1 && !(cs[j] == '*' && cs[j + 1] == '/')
        invariant
            i <= j <= n,
            n == cs@.len(),
            comment_end(cs@, i as nat) == comment_end(cs@, j as nat),
        decreases n - j,
    {
        j += 1;
    }
    if n - j > 1 {
        Some(j + 2)
    } else {
        None
    }
}

/// The end of an exponent from `i`, or `i` if there is none.
fn scan_exponent(cs: &Vec<char>, i: usize) -> (res: usize)
    requires
        i <= cs@.len(),
    ensures
        res == exponent_end(cs@, i as nat),
        i <= res <= cs@.len(),
{
    if i < cs.len() && (cs[i] == 'e' || cs[i] == 'E') {
        let mut j = i + 1;
        if j < cs.len() && (cs[j] == '+' || cs[j] == '-') {
            j += 1;
        }
        let k = scan_digits(cs, j);
        if k > j {
            k
        } else {
            i
        }
    } else {
        i
    }
}

proof fn lemma_digits_value_bound(cs: Seq<char>, lo: nat, hi: nat, k: nat)
    requires
        lo <= k <= hi <= cs.len(),
        forall|x: int| lo <= x < hi ==> is_digit(#[trigger] cs[x]),
    ensures
        0 <= digits_value(cs, lo, k) <= digits_value(cs, lo, hi),
    decreases hi - k,
{
    if k < hi {
        lemma_digits_value_bound(cs, lo, hi, k + 1);
        lemma_digits_value_nonneg(cs, lo, k);
        assert(digits_value(cs, lo, k + 1) == digits_value(cs, lo, k) * 10 + (cs[k as int] as int - '0' as int));
    } else {
        lemma_digits_value_nonneg(cs, lo, k);
    }
}

proof fn lemma_digits_value_nonneg(cs: Seq<char>, lo: nat, hi: nat)
    requires
        lo <= hi <= cs.len(),
        forall|x: int| lo <= x < hi ==> is_digit(#[trigger] cs[x]),
    ensures
        0 <= digits_value(cs, lo, hi),
    decreases hi,
{
    if hi > lo {
        lemma_digits_value_nonneg(cs, lo, (hi - 1) as nat);
        assert(is_digit(cs[hi - 1]));
    }
}

/// The value of the decimal digits `cs[lo..hi]`, or `None` if it exceeds the
/// largest `int`.
fn int_value(cs: &Vec<char>, lo: usize, hi: usize) -> (res: Option<i64>)
    requires
        lo <= hi <= cs@.len(),
        forall|k: int| lo <= k < hi ==> is_digit(#[trigger] cs@[k]),
    ensures
        res == (if digits_value(cs@, lo as nat, hi as nat) <= i64::MAX {
            Some(digits_value(cs@, lo as nat, hi as nat) as i64)
        } else {
            None::<i64>
        }),
{
    let mut v: i64 = 0;
    let mut i = lo;
    while i < hi
        invariant
            lo <= i <= hi,
            hi <= cs@.len(),
            forall|k: int| lo <= k < hi ==> is_digit(#[trigger] cs@[k]),
            v == digits_value(cs@, lo as nat, i as nat),
            v >= 0,
        decreases hi - i,
    {
        let d = (cs[i] as u32 - '0' as u32) as i64;
        assert(is_digit(cs@[i as int]));
        assert(d == cs@[i as int] as int - '0' as int);
        assert(digits_value(cs@, lo as nat, (i + 1) as nat) == v * 10 + d);
        if v > (i64::MAX - d) / 10 {
            proof {
                assert(v * 10 + d > i64::MAX) by (nonlinear_arith)
                    requires
                        v > (i64::MAX - d) / 10,
                        0 <= d <= 9,
                ;
                lemma_digits_value_bound(cs@, lo as nat, hi as nat, (i + 1) as nat);
            }
            return None;
        }
        assert(v * 10 + d <= i64::MAX) by (nonlinear_arith)
            requires
                v <= (i64::MAX - d) / 10,
                0 <= d <= 9,
                v >= 0,
        ;
        v = v * 10 + d;
        i += 1;
    }
    Some(v)
}

/// The keyword or truth value spelled `word`, or an identifier.
fn word_token(word: String) -> (res: Token)
    ensures
        res@ == spec_word_token(word@),
{
    if word == "bool".to_owned() {
        Token::KwBool
    } else if word == "do".to_owned() {
        Token::KwDo
    } else if word == "else".to_owned() {
        Token::KwElse
    } else if word == "float".to_owned() {
        Token::KwFloat
    } else if word == "for".to_owned() {
        Token::KwFor
    } else if word == "if".to_owned() {
        Token::KwIf
    } else if word == "int".to_owned() {
        Token::KwInt
    } else if word == "print".to_owned() {
        Token::KwPrint
    } else if word == "return".to_owned() {
        Token::KwReturn
    } else if word == "void".to_owned() {
        Token::KwVoid
    } else if word == "while".to_owned() {
        Token::KwWhile
    } else if word == "true".to_owned() {
        Token::BoolLiteral(true)
    } else if word == "false".to_owned() {
        Token::BoolLiteral(false)
    } else {
        Token::Ident(word)
    }
}

/// The operator or separator at `i` and its length, if there is one.
fn operator(cs: &Vec<char>, i: usize) -> (res: Option<(Token, usize)>)
    requires
        i < cs@.len(),
    ensures
        match operator_at(cs@, i as nat) {
            Some((t, k)) => res matches Some((u, l)) && u@ == t && l == k,
            None => res is None,
        },
{
    let c = cs[i];
    let next = if cs.len() - i > 1 {
        cs[i + 1]
    } else {
        ' '
    };
    if c == '+' {
        Some((Token::Add, 1))
    } else if c == '-' {
        Some((Token::Sub, 1))
    } else if c == '*' {
        Some((Token::Mul, 1))
    } else if c == '/' {
        Some((Token::Div, 1))
    } else if c == '=' && next == '=' {
        Some((Token::Eq, 2))
    } else if c == '=' {
        Some((Token::Assign, 1))
    } else if c == '!' && next == '=' {
        Some((Token::Neq, 2))
    } else if c == '<' && next == '=' {
        Some((Token::Leq, 2))
    } else if c == '<' {
        Some((Token::Lt, 1))
    } else if c == '>' && next == '=' {
        Some((Token::Geq, 2))
    } else if c == '>' {
        Some((Token::Gt, 1))
    } else if c == '&' && next == '&' {
        Some((Token::LogAnd, 2))
    } else if c == '|' && next == '|' {
        Some((Token::LogOr, 2))
    } else if c == ',' {
        Some((Token::Comma, 1))
    } else if c == ';' {
        Some((Token::Semicolon, 1))
    } else if c == '(' {
        Some((Token::LParen, 1))
    } else if c == ')' {
        Some((Token::RParen, 1))
    } else if c == '{' {
        Some((Token::LBrace, 1))
    } else if c == '}' {
        Some((Token::RBrace, 1))
    } else {
        None
    }
}

fn error(pos: usize, msg: &str) -> (res: LexError)
    ensures
        res.pos == pos,
        res.message@ == msg@,
{
    LexError { pos, message: msg.to_owned() }
}

/// The view of the result of the lexer.
pub open spec fn lex_result_view(r: Result<Vec<Token>, LexError>) -> Result<Seq<SpecToken>, (nat, Seq<char>)> {
    match r {
        Ok(ts) => Ok(tokens_view(ts@)),
        Err(e) => Err((e.pos as nat, e.message@)),
    }
}

/// The tokens `ts` in front of the result `r` for the rest of the input.
pub open spec fn prepend_all(ts: Seq<SpecToken>, r: Result<Seq<SpecToken>, (nat, Seq<char>)>) -> Result<
    Seq<SpecToken>,
    (nat, Seq<char>),
> {
    match r {
        Ok(rest) => Ok(ts + rest),
        Err(e) => Err(e),
    }
}


proof fn lemma_digits_all(cs: Seq<char>, i: nat)
    ensures
        forall|k: int| i <= k < digits_end(cs, i) ==> is_digit(#[trigger] cs[k]),
    decreases cs.len() - i,
{
    if i < cs.len() && is_digit(cs[i as int]) {
        lemma_digits_all(cs, i + 1);
    }
}

/// The token at position `i` (none for white space and comments) and the
/// position after it.
fn next_token(input: &str, cs: &Vec<char>, i: usize) -> (res: Result<(Option<Token>, usize), LexError>)
    requires
        cs@ == input@,
        i < cs@.len(),
    ensures
        match step(cs@, i as nat) {
            Ok((t, j)) => res matches Ok((u, k)) && k == j && match t {
                Some(t) => u matches Some(v) && v@ == t,
                None => u is None,
            },
            Err((p, m)) => res matches Err(e) && e.pos == p && e.message@ == m,
        },
{
    let n = cs.len();
    let c = cs[i];
    proof {
        lemma_scan_ends(cs@, i as nat + 2);
    }
    let comment_end = if c == '/' && n - i > 1 && cs[i + 1] == '*' {
        block_comment_end(cs, i + 2)
    } else {
        None
    };
    if space(c) {
        Ok((None, i + 1))
    } else if c == '/' && n - i > 1 && cs[i + 1] == '/' {
        Ok((None, scan_line(cs, i + 2)))
    } else if comment_end.is_some() {
        Ok((None, comment_end.unwrap()))
    } else if digit(c) || (c == '.' && n - i > 1 && digit(cs[i + 1])) {
        let int_end = scan_digits(cs, i);
        let mut end = int_end;
        let mut is_float = false;
        if n - end > 1 && cs[end] == '.' && digit(cs[end + 1]) {
            end = scan_digits(cs, end + 1);
            is_float = true;
        }
        proof {
            lemma_scan_ends(cs@, int_end as nat + 1);
            assert(end == fraction_end(cs@, int_end as nat));
        }
        let exp_end = scan_exponent(cs, end);
        if exp_end > end {
            is_float = true;
        }
        if is_float {
            Ok((Some(Token::FloatLiteral(input.substring_char(i, exp_end).to_owned())), exp_end))
        } else {
            proof {
                lemma_digits_all(cs@, i as nat);
            }
            match int_value(cs, i, int_end) {
                Some(v) => Ok((Some(Token::IntLiteral(v)), int_end)),
                None => Err(error(i, "integer literal out of range")),
            }
        }
    } else if ident_start(c) {
        let j = scan_ident(cs, i + 1);
        Ok((Some(word_token(input.substring_char(i, j).to_owned())), j))
    } else if c == '"' {
        let j = scan_string(cs, i + 1);
        if j >= n || cs[j] != '"' {
            return Err(error(i, "unterminated string literal"));
        }
        Ok((Some(Token::StringLiteral(input.substring_char(i + 1, j).to_owned())), j + 1))
    } else {
        match operator(cs, i) {
            Some((tok, len)) => Ok((Some(tok), i + len)),
            None => Err(error(i, "unexpected character")),
        }
    }
}

/// Splits `input` into tokens by longest match, skipping white space and
/// comments; the result is the one of [`lex`].
pub fn tokenize(input: &str) -> (res: Result<Vec<Token>, LexError>)
    ensures
        lex_result_view(res) == lex(input@),
{
    let cs = chars_of(input);
    let n = cs.len();
    let mut tokens: Vec<Token> = Vec::new();
    let mut i: usize = 0;
    proof {
        assert(tokens_view(tokens@) =~= Seq::<SpecToken>::empty());
        if let Ok(rest) = lex_from(cs@, 0) {
            assert(Seq::<SpecToken>::empty() + rest =~= rest);
        }
    }
    while i < n
        invariant
            n == cs@.len(),
            cs@ == input@,
            i <= n,
            lex(cs@) == prepend_all(tokens_view(tokens@), lex_from(cs@, i as nat)),
        decreases n - i,
    {
        let ghost ts = tokens_view(tokens@);
        proof {
            lemma_step_advances(cs@, i as nat);
        }
        let (tok, j) = match next_token(input, &cs, i) {
            Ok(found) => found,
            Err(e) => return Err(e),
        };
        match tok {
            Some(t) => {
                let ghost tv = t@;
                tokens.push(t);
                proof {
                    assert(tokens_view(tokens@) =~= ts.push(tv));
                    if let Ok(rest) = lex_from(cs@, j as nat) {
                        assert(ts.push(tv) + rest =~= ts + (seq![tv] + rest));
                    }
                }
            },
            None => {},
        }
        i = j;
    }
    proof {
        assert(tokens_view(tokens@) + Seq::<SpecToken>::empty() =~= tokens_view(tokens@));
    }
    Ok(tokens)
}

/// A lexical error: the offending text and its span (in characters).
#[derive(Debug, PartialEq)]
pub struct LexicalError {
    pub text: String,
    pub span: core::ops::Range<usize>,
}

/// The view of a token with its span, or of a lexical error.
pub open spec fn lex_item_view(r: Result<(usize, Token, usize), LexicalError>) -> SpecLexItem {
    match r {
        Ok((a, t, b)) => SpecLexItem::Token(a as nat, t@, b as nat),
        Err(e) => SpecLexItem::Error(e.text@, e.span.start as nat, e.span.end as nat),
    }
}

/// The views of tokens with spans and lexical errors.
pub open spec fn lex_items_view(rs: Seq<Result<(usize, Token, usize), LexicalError>>) -> Seq<SpecLexItem> {
    Seq::new(rs.len(), |k: int| lex_item_view(rs[k]))
}

fn error_end_at(cs: &Vec<char>, i: usize) -> (res: usize)
    requires
        i < cs@.len(),
    ensures
        res == error_end(cs@, i as nat),
{
    let n = cs.len();
    assert(i < n);
    if digit(cs[i]) {
        scan_digits(cs, i)
    } else if cs[i] == '"' {
        scan_string(cs, i + 1)
    } else {
        i + 1
    }
}

/// Splits `input` into tokens by longest match, each with its span, and
/// goes on after a lexical error, which it reports with its text and span;
/// the result is the one of [`lex_items`].
pub fn lex_with_spans(input: &str) -> (res: Vec<Result<(usize, Token, usize), LexicalError>>)
    ensures
        lex_items_view(res@) == lex_items(input@),
{
    let cs = chars_of(input);
    let n = cs.len();
    let mut items: Vec<Result<(usize, Token, usize), LexicalError>> = Vec::new();
    let mut i: usize = 0;
    proof {
        assert(lex_items_view(items@) + lex_items_from(cs@, 0) =~= lex_items_from(cs@, 0));
    }
    while i < n
        invariant
            n == cs@.len(),
            cs@ == input@,
            i <= n,
            lex_items(cs@) == lex_items_view(items@) + lex_items_from(cs@, i as nat),
        decreases n - i,
    {
        let ghost done = lex_items_view(items@);
        proof {
            lemma_step_advances(cs@, i as nat);
            lemma_error_end(cs@, i as nat);
        }
        match next_token(input, &cs, i) {
            Ok((tok, j)) => {
                match tok {
                    Some(t) => {
                        let ghost tv = t@;
                        items.push(Ok((i, t, j)));
                        proof {
                            assert(lex_items_view(items@) =~= done.push(SpecLexItem::Token(i as nat, tv, j as nat)));
                            assert(done.push(SpecLexItem::Token(i as nat, tv, j as nat)) + lex_items_from(cs@, j as nat)
                                =~= done + (seq![SpecLexItem::Token(i as nat, tv, j as nat)] + lex_items_from(cs@, j as nat)));
                        }
                    },
                    None => {},
                }
                i = j;
            },
            Err(_) => {
                let e = error_end_at(&cs, i);
                let text = input.substring_char(i, e).to_owned();
                let ghost item = SpecLexItem::Error(cs@.subrange(i as int, e as int), i as nat, e as nat);
                items.push(Err(LexicalError { text, span: i..e }));
                proof {
                    assert(lex_items_view(items@) =~= done.push(item));
                    assert(done.push(item) + lex_items_from(cs@, e as nat) =~= done + (seq![item] + lex_items_from(cs@, e as nat)));
                }
                i = e;
            },
        }
    }
    proof {
        assert(lex_items_view(items@) + Seq::<SpecLexItem>::empty() =~= lex_items_view(items@));
    }
    items
}

/// The tokens among lexed items, in order.
pub open spec fn item_tokens(items: Seq<SpecLexItem>) -> Seq<SpecToken>
    decreases items.len(),
{
    if items.len() == 0 {
        Seq::empty()
    } else {
        match items[0] {
            SpecLexItem::Token(_, t, _) => seq![t] + item_tokens(items.drop_first()),
            SpecLexItem::Error(..) => item_tokens(items.drop_first()),
        }
    }
}

/// Where the first lexical error among lexed items starts, if there is one.
pub open spec fn first_error(items: Seq<SpecLexItem>) -> Option<nat>
    decreases items.len(),
{
    if items.len() == 0 {
        None
    } else {
        match items[0] {
            SpecLexItem::Token(..) => first_error(items.drop_first()),
            SpecLexItem::Error(_, start, _) => Some(start),
        }
    }
}

proof fn lemma_items_agree(cs: Seq<char>, i: nat)
    ensures
        lex_from(cs, i) matches Ok(ts) ==> first_error(lex_items_from(cs, i)) is None && item_tokens(
            lex_items_from(cs, i),
        ) == ts,
        lex_from(cs, i) matches Err((p, _)) ==> first_error(lex_items_from(cs, i)) == Some(p),
    decreases cs.len() - i,
{
    if i < cs.len() {
        lemma_step_advances(cs, i);
        lemma_error_end(cs, i);
        match step(cs, i) {
            Ok((t, j)) => {
                lemma_items_agree(cs, j);
                if let Some(t) = t {
                    let rest = lex_items_from(cs, j);
                    assert((seq![SpecLexItem::Token(i, t, j)] + rest).drop_first() =~= rest);
                }
            },
            Err(_) => {},
        }
    }
}

/// Lexing with recovery agrees with [`lex`]: on text without a lexical
/// error it finds exactly the tokens of [`lex`] and no error, and otherwise
/// its first error starts where [`lex`] stops.
pub proof fn law_recovery_agrees(cs: Seq<char>)
    ensures
        lex(cs) matches Ok(ts) ==> first_error(lex_items(cs)) is None && item_tokens(lex_items(cs)) == ts,
        lex(cs) matches Err((p, _)) ==> first_error(lex_items(cs)) == Some(p),
{
    lemma_items_agree(cs, 0);
}

/// Distinct words give distinct tokens: no two spellings share a keyword,
/// and an identifier keeps its spelling.
pub proof fn law_words_distinct(w1: Seq<char>, w2: Seq<char>)
    ensures
        spec_word_token(w1) == spec_word_token(w2) ==> w1 == w2,
        spec_word_token(w1) matches SpecToken::Ident(x) ==> x == w1,
{
}

proof fn lemma_digit(d: nat)
    requires
        d < 10,
    ensures
        spec_digit(d).len() == 1,
        is_digit(spec_digit(d)[0]),
        spec_digit(d)[0] as int - '0' as int == d,
{
    reveal_strlit("0");
    reveal_strlit("1");
    reveal_strlit("2");
    reveal_strlit("3");
    reveal_strlit("4");
    reveal_strlit("5");
    reveal_strlit("6");
    reveal_strlit("7");
    reveal_strlit("8");
    reveal_strlit("9");
}

proof fn lemma_digits_value_same(a: Seq<char>, b: Seq<char>, lo: nat, hi: nat)
    requires
        forall|k: int| lo <= k < hi ==> a[k] == b[k],
    ensures
        digits_value(a, lo, hi) == digits_value(b, lo, hi),
    decreases hi,
{
    if hi > lo {
        lemma_digits_value_same(a, b, lo, (hi - 1) as nat);
    }
}

proof fn lemma_decimal(n: nat)
    ensures
        spec_decimal(n).len() >= 1,
        forall|k: int| 0 <= k < spec_decimal(n).len() ==> is_digit(#[trigger] spec_decimal(n)[k]),
        digits_value(spec_decimal(n), 0, spec_decimal(n).len()) == n,
    decreases n,
{
    let s = spec_decimal(n);
    if n < 10 {
        lemma_digit(n);
        assert(digits_value(s, 0, 0) == 0);
    } else {
        let a = spec_decimal(n / 10);
        let d = spec_digit(n % 10);
        lemma_decimal(n / 10);
        lemma_digit(n % 10);
        assert(s == a + d);
        assert forall|k: int| 0 <= k < s.len() implies is_digit(#[trigger] s[k]) by {
            if k < a.len() {
                assert(s[k] == a[k]);
            } else {
                assert(s[k] == d[k - a.len()]);
            }
        }
        lemma_digits_value_same(s, a, 0, a.len());
        assert(s[s.len() - 1] == d[0]);
        assert(digits_value(s, 0, s.len()) == digits_value(s, 0, a.len()) * 10 + (s[s.len() - 1] as int - '0' as int));
        assert((n / 10) * 10 + n % 10 == n);
    }
}

proof fn lemma_all_digits_end(cs: Seq<char>, i: nat)
    requires
        i <= cs.len(),
        forall|k: int| i <= k < cs.len() ==> is_digit(#[trigger] cs[k]),
    ensures
        digits_end(cs, i) == cs.len(),
    decreases cs.len() - i,
{
    if i < cs.len() {
        lemma_all_digits_end(cs, i + 1);
    }
}

/// The decimal notation of an integer lexes back to that integer: printing
/// a non-negative `int` and lexing the text gives one integer literal with
/// the same value.
pub proof fn law_decimal_lexes_back(n: nat)
    requires
        n <= i64::MAX,
    ensures
        lex(spec_decimal(n)) == Ok::<Seq<SpecToken>, (nat, Seq<char>)>(seq![SpecToken::IntLiteral(n as i64)]),
{
    let cs = spec_decimal(n);
    lemma_decimal(n);
    lemma_all_digits_end(cs, 0);
    assert(is_digit(cs[0]));
    assert(fraction_end(cs, cs.len()) == cs.len());
    assert(exponent_end(cs, cs.len()) == cs.len());
    assert(number_at(cs, 0) == (Some(SpecToken::IntLiteral(n as i64)), cs.len()));
    assert(step(cs, 0) == Ok::<(Option<SpecToken>, nat), (nat, Seq<char>)>((Some(SpecToken::IntLiteral(n as i64)), cs.len())));
    assert(lex_from(cs, cs.len()) == Ok::<Seq<SpecToken>, (nat, Seq<char>)>(Seq::empty()));
    assert(seq![SpecToken::IntLiteral(n as i64)] + Seq::<SpecToken>::empty() =~= seq![SpecToken::IntLiteral(n as i64)]);
}

} // verus!
