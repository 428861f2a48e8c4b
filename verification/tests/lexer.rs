//! Tests of the lexer and of the syntax errors of the parser.
use c1::lexer::tokenize;

/// The tokens of `input` in debug notation, or the position and message of
/// the lexical error.
fn lex(input: &str) -> Result<Vec<String>, (usize, String)> {
    tokenize(input)
        .map(|tokens| tokens.iter().map(|t| format!("{t:?}")).collect())
        .map_err(|e| (e.pos, e.message))
}

fn tokens(list: &[&str]) -> Result<Vec<String>, (usize, String)> {
    Ok(list.iter().map(|t| t.to_string()).collect())
}

fn error(pos: usize, message: &str) -> Result<Vec<String>, (usize, String)> {
    Err((pos, message.to_owned()))
}

#[test]
fn tokenize_literals() {
    assert_eq!(lex(""), tokens(&[]));
    assert_eq!(lex("true false"), tokens(&["BoolLiteral(true)", "BoolLiteral(false)"]));
    assert_eq!(lex("13 001"), tokens(&["IntLiteral(13)", "IntLiteral(1)"]));
    assert_eq!(
        lex("1.0 .01 3.1e-12 2E3 1e10 1.5E+3 .5e-2 007.25"),
        tokens(&[
            "FloatLiteral(\"1.0\")",
            "FloatLiteral(\".01\")",
            "FloatLiteral(\"3.1e-12\")",
            "FloatLiteral(\"2E3\")",
            "FloatLiteral(\"1e10\")",
            "FloatLiteral(\"1.5E+3\")",
            "FloatLiteral(\".5e-2\")",
            "FloatLiteral(\"007.25\")",
        ])
    );
    assert_eq!(lex("\"\" \"Hallo\""), tokens(&["StringLiteral(\"\")", "StringLiteral(\"Hallo\")"]));
    assert_eq!(lex("9223372036854775807"), tokens(&["IntLiteral(9223372036854775807)"]));
}

#[test]
fn tokenize_numbers_by_longest_match() {
    // The exponent must be an integer, and a point must be followed by a digit.
    assert_eq!(lex("2.0e-1.4"), tokens(&["FloatLiteral(\"2.0e-1\")", "FloatLiteral(\".4\")"]));
    assert_eq!(lex("0x12"), tokens(&["IntLiteral(0)", "Ident(\"x12\")"]));
    assert_eq!(lex("123foo"), tokens(&["IntLiteral(123)", "Ident(\"foo\")"]));
    assert_eq!(lex("-1"), tokens(&["Sub", "IntLiteral(1)"]));
    assert_eq!(lex("e0"), tokens(&["Ident(\"e0\")"]));
    assert_eq!(lex("1e"), tokens(&["IntLiteral(1)", "Ident(\"e\")"]));
}

#[test]
fn tokenize_words() {
    assert_eq!(
        lex("bool do else for float if int print return void while"),
        tokens(&["KwBool", "KwDo", "KwElse", "KwFor", "KwFloat", "KwIf", "KwInt", "KwPrint", "KwReturn", "KwVoid", "KwWhile"])
    );
    for word in ["iff", "integer", "do_", "while2", "truex", "falsey", "Int", "_unused", "LOG_2"] {
        assert_eq!(lex(word), tokens(&[&format!("Ident({word:?})")]), "input: {word}");
    }
}

#[test]
fn tokenize_operators() {
    assert_eq!(
        lex("a<=b==c!=d>=e"),
        tokens(&["Ident(\"a\")", "Leq", "Ident(\"b\")", "Eq", "Ident(\"c\")", "Neq", "Ident(\"d\")", "Geq", "Ident(\"e\")"])
    );
    assert_eq!(lex("==="), tokens(&["Eq", "Assign"]));
    assert_eq!(
        lex("+-*/<>&&||,;(){}"),
        tokens(&["Add", "Sub", "Mul", "Div", "Lt", "Gt", "LogAnd", "LogOr", "Comma", "Semicolon", "LParen", "RParen", "LBrace", "RBrace"])
    );
}

#[test]
fn tokenize_comments_and_white_space() {
    assert_eq!(lex(" \t\r\n int \r\n\t x \n"), tokens(&["KwInt", "Ident(\"x\")"]));
    for input in ["/* */", "/***/", "/**/", "/* a ** b / c */", "//", "//*", "// int x;"] {
        assert_eq!(lex(input), tokens(&[]), "input: {input:?}");
    }
    assert_eq!(lex("int/* comment */x"), tokens(&["KwInt", "Ident(\"x\")"]));
    // Block comments do not nest, and a `/*` without `*/` is no comment.
    assert_eq!(lex("/*/* */*/"), tokens(&["Mul", "Div"]));
    assert_eq!(lex("/*"), tokens(&["Div", "Mul"]));
    assert_eq!(lex("// comment\r\nint"), tokens(&["KwInt"]));
    assert_eq!(lex("//* comment\n*/"), tokens(&["Mul", "Div"]));
}

#[test]
fn tokenize_strings() {
    assert_eq!(
        lex("\"\"Laser\"\""),
        tokens(&["StringLiteral(\"\")", "Ident(\"Laser\")", "StringLiteral(\"\")"])
    );
    assert_eq!(lex("\"int x = 1; // /* */\""), tokens(&["StringLiteral(\"int x = 1; // /* */\")"]));
}

#[test]
fn tokenize_errors() {
    assert_eq!(lex("9223372036854775808"), error(0, "integer literal out of range"));
    assert_eq!(lex("x \"a\nb\""), error(2, "unterminated string literal"));
    assert_eq!(lex("\"abc"), error(0, "unterminated string literal"));
    assert_eq!(lex("1."), error(1, "unexpected character"));
    assert_eq!(lex("a & b"), error(2, "unexpected character"));
    assert_eq!(lex("!a"), error(0, "unexpected character"));
    for input in ["#", "%", "^", "[", "]", "'", "~", "@", "$", "?", ":", "ä"] {
        assert_eq!(lex(input), error(0, "unexpected character"), "input: {input}");
    }
}

#[test]
fn parse_errors() {
    let message = |input: &str| c1::parse(input).err().map(|e| e.message);
    assert_eq!(message("void main() { int x = 1 }"), Some("expected `;` after variable definition".to_owned()));
    assert_eq!(message("void main() { # }"), Some("unexpected character".to_owned()));
    assert_eq!(message("void main() {"), Some("expected `}`".to_owned()));
    assert!(c1::parse("int x; void main() { x = -x * (2 + 3); }").is_ok());
}

// Lexing with recovery agrees with `tokenize`: the same tokens on text
// without errors, and its first error where `tokenize` stops.
#[test]
fn recovery_agrees_with_tokenize() {
    for input in ["int x = 1; /* c */ print(x);", "a<=b==c", ""] {
        let plain: Vec<String> = tokenize(input).expect("lexing failed").iter().map(|t| format!("{t:?}")).collect();
        let spanned: Vec<String> = c1::lexer::lex_with_spans(input)
            .into_iter()
            .map(|r| format!("{:?}", r.expect("no error expected").1))
            .collect();
        assert_eq!(plain, spanned, "input: {input}");
    }
    for input in ["a & b", "x = \"open", "1. 2 # 3", "99999999999999999999 + 1"] {
        let pos = tokenize(input).err().expect("error expected").pos;
        let first = c1::lexer::lex_with_spans(input).into_iter().find_map(|r| r.err()).expect("error expected");
        assert_eq!(first.span.start, pos, "input: {input}");
    }
    let items = c1::lexer::lex_with_spans("99999999999999999999 + 1");
    assert_eq!(items[0].as_ref().err().map(|e| (e.text.as_str(), e.span.clone())), Some(("99999999999999999999", 0..20)));
    assert_eq!(items.len(), 3);
}
