use rlox::scanner::{Scanner, TokenKind};

#[test]
fn left_paren() {
    let input = String::from("(");
    let mut scanner = Scanner::new(&input);
    let result = scanner.scan();
    assert_eq!(result.kind, TokenKind::LeftParen);
    assert_eq!(result.lexeme, "(");
    assert_eq!(result.line, 1);
}

#[test]
fn right_paren() {
    let input = String::from(")");
    let mut scanner = Scanner::new(&input);
    let result = scanner.scan();
    assert_eq!(result.kind, TokenKind::RightParen);
    assert_eq!(result.lexeme, ")");
    assert_eq!(result.line, 1);
}

#[test]
fn left_brace() {
    let input = String::from("{");
    let mut scanner = Scanner::new(&input);
    let result = scanner.scan();
    assert_eq!(result.kind, TokenKind::LeftBrace);
    assert_eq!(result.lexeme, "{");
    assert_eq!(result.line, 1);
}

#[test]
fn right_brace() {
    let input = String::from("}");
    let mut scanner = Scanner::new(&input);
    let result = scanner.scan();
    assert_eq!(result.kind, TokenKind::RightBrace);
    assert_eq!(result.lexeme, "}");
    assert_eq!(result.line, 1);
}

#[test]
fn semicolon() {
    let input = String::from(";");
    let mut scanner = Scanner::new(&input);
    let result = scanner.scan();
    assert_eq!(result.kind, TokenKind::Semicolon);
    assert_eq!(result.lexeme, ";");
    assert_eq!(result.line, 1);
}

#[test]
fn comma() {
    let input = String::from(",");
    let mut scanner = Scanner::new(&input);
    let result = scanner.scan();
    assert_eq!(result.kind, TokenKind::Comma);
    assert_eq!(result.lexeme, ",");
    assert_eq!(result.line, 1);
}

#[test]
fn dot() {
    let input = String::from(".");
    let mut scanner = Scanner::new(&input);
    let result = scanner.scan();
    assert_eq!(result.kind, TokenKind::Dot);
    assert_eq!(result.lexeme, ".");
    assert_eq!(result.line, 1);
}

#[test]
fn minus() {
    let input = String::from("-");
    let mut scanner = Scanner::new(&input);
    let result = scanner.scan();
    assert_eq!(result.kind, TokenKind::Minus);
    assert_eq!(result.lexeme, "-");
    assert_eq!(result.line, 1);
}

#[test]
fn plus() {
    let input = String::from("+");
    let mut scanner = Scanner::new(&input);
    let result = scanner.scan();
    assert_eq!(result.kind, TokenKind::Plus);
    assert_eq!(result.lexeme, "+");
    assert_eq!(result.line, 1);
}

#[test]
fn slash() {
    let input = String::from("/");
    let mut scanner = Scanner::new(&input);
    let result = scanner.scan();
    assert_eq!(result.kind, TokenKind::Slash);
    assert_eq!(result.lexeme, "/");
    assert_eq!(result.line, 1);
}

#[test]
fn star() {
    let input = String::from("*");
    let mut scanner = Scanner::new(&input);
    let result = scanner.scan();
    assert_eq!(result.kind, TokenKind::Star);
    assert_eq!(result.lexeme, "*");
    assert_eq!(result.line, 1);
}

#[test]
fn bang() {
    let input = String::from("!");
    let mut scanner = Scanner::new(&input);
    let result = scanner.scan();
    assert_eq!(result.kind, TokenKind::Bang);
    assert_eq!(result.lexeme, "!");
    assert_eq!(result.line, 1);
}

#[test]
fn scanner_bang_equal() {
    let input = String::from("!=");
    let mut scanner = Scanner::new(&input);
    let result = scanner.scan();
    assert_eq!(result.kind, TokenKind::BangEqual);
    assert_eq!(result.lexeme, "!=");
    assert_eq!(result.line, 1);
}

#[test]
fn scanner_equal() {
    let input = String::from("=");
    let mut scanner = Scanner::new(&input);
    let result = scanner.scan();
    assert_eq!(result.kind, TokenKind::Equal);
    assert_eq!(result.lexeme, "=");
    assert_eq!(result.line, 1);
}

#[test]
fn scanner_equal_equal() {
    let input = String::from("==");
    let mut scanner = Scanner::new(&input);
    let result = scanner.scan();
    assert_eq!(result.kind, TokenKind::EqualEqual);
    assert_eq!(result.lexeme, "==");
    assert_eq!(result.line, 1);
}

#[test]
fn scanner_greater() {
    let input = String::from(">");
    let mut scanner = Scanner::new(&input);
    let result = scanner.scan();
    assert_eq!(result.kind, TokenKind::Greater);
    assert_eq!(result.lexeme, ">");
    assert_eq!(result.line, 1);
}

#[test]
fn greater_equal() {
    let input = String::from(">=");
    let mut scanner = Scanner::new(&input);
    let result = scanner.scan();
    assert_eq!(result.kind, TokenKind::GreaterEqual);
    assert_eq!(result.lexeme, ">=");
    assert_eq!(result.line, 1);
}

#[test]
fn less() {
    let input = String::from("<");
    let mut scanner = Scanner::new(&input);
    let result = scanner.scan();
    assert_eq!(result.kind, TokenKind::Less);
    assert_eq!(result.lexeme, "<");
    assert_eq!(result.line, 1);
}

#[test]
fn less_equal() {
    let input = String::from("<=");
    let mut scanner = Scanner::new(&input);
    let result = scanner.scan();
    assert_eq!(result.kind, TokenKind::LessEqual);
    assert_eq!(result.lexeme, "<=");
    assert_eq!(result.line, 1);
}

#[test]
fn identifier() {
    let input = String::from("foobar");
    let mut scanner = Scanner::new(&input);
    let result = scanner.scan();
    assert_eq!(result.kind, TokenKind::Identifier);
    assert_eq!(result.lexeme, "foobar");
    assert_eq!(result.line, 1);
}

#[test]
fn identifier_with_underscore() {
    let input = String::from("foo_bar");
    let mut scanner = Scanner::new(&input);
    let result = scanner.scan();
    assert_eq!(result.kind, TokenKind::Identifier);
    assert_eq!(result.lexeme, "foo_bar");
    assert_eq!(result.line, 1);
}

#[test]
fn identifier_with_digit() {
    let input = String::from("foo1");
    let mut scanner = Scanner::new(&input);
    let result = scanner.scan();
    assert_eq!(result.kind, TokenKind::Identifier);
    assert_eq!(result.lexeme, "foo1");
    assert_eq!(result.line, 1);
}

#[test]
fn number() {
    let input = String::from("123");
    let mut scanner = Scanner::new(&input);
    let result = scanner.scan();
    assert_eq!(result.kind, TokenKind::Number);
    assert_eq!(result.lexeme, "123");
    assert_eq!(result.line, 1);
}

#[test]
fn number_with_decimal() {
    let input = String::from("123.456");
    let mut scanner = Scanner::new(&input);
    let result = scanner.scan();
    assert_eq!(result.kind, TokenKind::Number);
    assert_eq!(result.lexeme, "123.456");
    assert_eq!(result.line, 1);
}

#[test]
fn and() {
    let input = String::from("and");
    let mut scanner = Scanner::new(&input);
    let result = scanner.scan();
    assert_eq!(result.kind, TokenKind::And);
    assert_eq!(result.lexeme, "and");
    assert_eq!(result.line, 1);
}

#[test]
fn class() {
    let input = String::from("class");
    let mut scanner = Scanner::new(&input);
    let result = scanner.scan();
    assert_eq!(result.kind, TokenKind::Class);
    assert_eq!(result.lexeme, "class");
    assert_eq!(result.line, 1);
}

#[test]
fn r_else() {
    let input = String::from("else");
    let mut scanner = Scanner::new(&input);
    let result = scanner.scan();
    assert_eq!(result.kind, TokenKind::Else);
    assert_eq!(result.lexeme, "else");
    assert_eq!(result.line, 1);
}

#[test]
fn r_false() {
    let input = String::from("false");
    let mut scanner = Scanner::new(&input);
    let result = scanner.scan();
    assert_eq!(result.kind, TokenKind::False);
    assert_eq!(result.lexeme, "false");
    assert_eq!(result.line, 1);
}

#[test]
fn r_for() {
    let input = String::from("for");
    let mut scanner = Scanner::new(&input);
    let result = scanner.scan();
    assert_eq!(result.kind, TokenKind::For);
    assert_eq!(result.lexeme, "for");
    assert_eq!(result.line, 1);
}

#[test]
fn fun() {
    let input = String::from("fun");
    let mut scanner = Scanner::new(&input);
    let result = scanner.scan();
    assert_eq!(result.kind, TokenKind::Fun);
    assert_eq!(result.lexeme, "fun");
    assert_eq!(result.line, 1);
}

#[test]
fn r_if() {
    let input = String::from("if");
    let mut scanner = Scanner::new(&input);
    let result = scanner.scan();
    assert_eq!(result.kind, TokenKind::If);
    assert_eq!(result.lexeme, "if");
    assert_eq!(result.line, 1);
}

#[test]
fn scanner_nil() {
    let input = String::from("nil");
    let mut scanner = Scanner::new(&input);
    let result = scanner.scan();
    assert_eq!(result.kind, TokenKind::Nil);
    assert_eq!(result.lexeme, "nil");
    assert_eq!(result.line, 1);
}

#[test]
fn or() {
    let input = String::from("or");
    let mut scanner = Scanner::new(&input);
    let result = scanner.scan();
    assert_eq!(result.kind, TokenKind::Or);
    assert_eq!(result.lexeme, "or");
    assert_eq!(result.line, 1);
}

#[test]
fn print() {
    let input = String::from("print");
    let mut scanner = Scanner::new(&input);
    let result = scanner.scan();
    assert_eq!(result.kind, TokenKind::Print);
    assert_eq!(result.lexeme, "print");
    assert_eq!(result.line, 1);
}

#[test]
fn r_return() {
    let input = String::from("return");
    let mut scanner = Scanner::new(&input);
    let result = scanner.scan();
    assert_eq!(result.kind, TokenKind::Return);
    assert_eq!(result.lexeme, "return");
    assert_eq!(result.line, 1);
}

#[test]
fn super_() {
    let input = String::from("super");
    let mut scanner = Scanner::new(&input);
    let result = scanner.scan();
    assert_eq!(result.kind, TokenKind::Super);
    assert_eq!(result.lexeme, "super");
    assert_eq!(result.line, 1);
}

#[test]
fn this() {
    let input = String::from("this");
    let mut scanner = Scanner::new(&input);
    let result = scanner.scan();
    assert_eq!(result.kind, TokenKind::This);
    assert_eq!(result.lexeme, "this");
    assert_eq!(result.line, 1);
}

#[test]
fn true_() {
    let input = String::from("true");
    let mut scanner = Scanner::new(&input);
    let result = scanner.scan();
    assert_eq!(result.kind, TokenKind::True);
    assert_eq!(result.lexeme, "true");
    assert_eq!(result.line, 1);
}

#[test]
fn var() {
    let input = String::from("var");
    let mut scanner = Scanner::new(&input);
    let result = scanner.scan();
    assert_eq!(result.kind, TokenKind::Var);
    assert_eq!(result.lexeme, "var");
    assert_eq!(result.line, 1);
}

#[test]
fn r_while() {
    let input = String::from("while");
    let mut scanner = Scanner::new(&input);
    let result = scanner.scan();
    assert_eq!(result.kind, TokenKind::While);
    assert_eq!(result.lexeme, "while");
    assert_eq!(result.line, 1);
}
#[test]
fn string() {
    let input = String::from("\"foobar\"");
    let mut scanner = Scanner::new(&input);
    let result = scanner.scan();
    assert_eq!(result.kind, TokenKind::String);
    assert_eq!(result.lexeme, "\"foobar\"");
    assert_eq!(result.line, 1);
}

#[test]
fn unterminated_string() {
    let input = String::from("\"This is a string");
    let mut scanner = Scanner::new(&input);
    let result = scanner.scan();
    assert_eq!(result.kind, TokenKind::Error);
    assert_eq!(result.lexeme, "Unterminated string.");
    assert_eq!(result.line, 1);
}

#[test]
fn error() {
    let input = String::from("@");
    let mut scanner = Scanner::new(&input);
    let result = scanner.scan();
    assert_eq!(result.kind, TokenKind::Error);
    assert_eq!(result.lexeme, "Unexpected character.");
    assert_eq!(result.line, 1);
}

#[test]
fn empty_input() {
    let input = String::from("");
    let mut scanner = Scanner::new(&input);
    let result = scanner.scan();
    assert_eq!(result.kind, TokenKind::Eof);
}

#[test]
fn skips_whitespace() {
    let input = String::from(" ( ) ");
    let mut scanner = Scanner::new(&input);
    let result = scanner.scan();
    assert_eq!(result.kind, TokenKind::LeftParen);
    assert_eq!(result.lexeme, "(");
    assert_eq!(result.line, 1);
    let result = scanner.scan();
    assert_eq!(result.kind, TokenKind::RightParen);
    assert_eq!(result.lexeme, ")");
    assert_eq!(result.line, 1);
    let result = scanner.scan();
    assert_eq!(result.kind, TokenKind::Eof);
    assert_eq!(result.lexeme, "");
    assert_eq!(result.line, 1);
}

#[test]
fn skips_comments() {
    let input = String::from("// This is a comment\n// This is another comment\n");
    let mut scanner = Scanner::new(&input);
    let result = scanner.scan();
    assert_eq!(result.kind, TokenKind::Eof);
    assert_eq!(result.lexeme, "");
    assert_eq!(result.line, 3);
}

#[test]
fn scans_sequence() {
    let input = String::from("var five = 5;");
    let mut scanner = Scanner::new(&input);
    let result = scanner.scan();
    assert_eq!(result.kind, TokenKind::Var);
    assert_eq!(result.lexeme, "var");
    assert_eq!(result.line, 1);
    let result = scanner.scan();
    assert_eq!(result.kind, TokenKind::Identifier);
    assert_eq!(result.lexeme, "five");
    assert_eq!(result.line, 1);
    let result = scanner.scan();
    assert_eq!(result.kind, TokenKind::Equal);
    assert_eq!(result.lexeme, "=");
    assert_eq!(result.line, 1);
    let result = scanner.scan();
    assert_eq!(result.kind, TokenKind::Number);
    assert_eq!(result.lexeme, "5");
    assert_eq!(result.line, 1);
    let result = scanner.scan();
    assert_eq!(result.kind, TokenKind::Semicolon);
    assert_eq!(result.lexeme, ";");
    assert_eq!(result.line, 1);
    let result = scanner.scan();
    assert_eq!(result.kind, TokenKind::Eof);
    assert_eq!(result.lexeme, "");
    assert_eq!(result.line, 1);
}

#[test]
fn advances_lines() {
    let input = String::from("var five = 5;\nvar ten = 10;");
    let mut scanner = Scanner::new(&input);
    let result = scanner.scan();
    assert_eq!(result.kind, TokenKind::Var);
    assert_eq!(result.lexeme, "var");
    assert_eq!(result.line, 1);
    let result = scanner.scan();
    assert_eq!(result.kind, TokenKind::Identifier);
    assert_eq!(result.lexeme, "five");
    assert_eq!(result.line, 1);
    let result = scanner.scan();
    assert_eq!(result.kind, TokenKind::Equal);
    assert_eq!(result.lexeme, "=");
    assert_eq!(result.line, 1);
    let result = scanner.scan();
    assert_eq!(result.kind, TokenKind::Number);
    assert_eq!(result.lexeme, "5");
    assert_eq!(result.line, 1);
    let result = scanner.scan();
    assert_eq!(result.kind, TokenKind::Semicolon);
    assert_eq!(result.lexeme, ";");
    assert_eq!(result.line, 1);
    let result = scanner.scan();
    assert_eq!(result.kind, TokenKind::Var);
    assert_eq!(result.lexeme, "var");
    assert_eq!(result.line, 2);
    let result = scanner.scan();
    assert_eq!(result.kind, TokenKind::Identifier);
    assert_eq!(result.lexeme, "ten");
    assert_eq!(result.line, 2);
    let result = scanner.scan();
    assert_eq!(result.kind, TokenKind::Equal);
    assert_eq!(result.lexeme, "=");
    assert_eq!(result.line, 2);
    let result = scanner.scan();
    assert_eq!(result.kind, TokenKind::Number);
    assert_eq!(result.lexeme, "10");
    assert_eq!(result.line, 2);
    let result = scanner.scan();
    assert_eq!(result.kind, TokenKind::Semicolon);
    assert_eq!(result.lexeme, ";");
    assert_eq!(result.line, 2);
    let result = scanner.scan();
    assert_eq!(result.kind, TokenKind::Eof);
    assert_eq!(result.lexeme, "");
    assert_eq!(result.line, 2);
}

#[test]
fn string_literal_counts_inner_line_feeds() {
    let input = String::from("\"a\nb\" x");
    let mut scanner = Scanner::new(&input);
    let result = scanner.scan();
    assert_eq!(result.kind, TokenKind::String);
    assert_eq!(result.lexeme, "\"a\nb\"");
    assert_eq!(result.line, 2);
    let result = scanner.scan();
    assert_eq!(result.kind, TokenKind::Identifier);
    assert_eq!(result.lexeme, "x");
    assert_eq!(result.line, 2);
}

#[test]
fn trailing_dot_is_left_unconsumed() {
    let input = String::from("123.");
    let mut scanner = Scanner::new(&input);
    let result = scanner.scan();
    assert_eq!(result.kind, TokenKind::Number);
    assert_eq!(result.lexeme, "123");
    let result = scanner.scan();
    assert_eq!(result.kind, TokenKind::Dot);
    assert_eq!(result.lexeme, ".");
}

#[test]
fn eof_repeats_forever() {
    let input = String::from("x");
    let mut scanner = Scanner::new(&input);
    let result = scanner.scan();
    assert_eq!(result.kind, TokenKind::Identifier);
    for _ in 0..5 {
        let result = scanner.scan();
        assert_eq!(result.kind, TokenKind::Eof);
    }
}
