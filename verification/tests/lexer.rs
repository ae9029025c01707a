//! End-to-end tests of the lexer engine: dispatch, operator disambiguation,
//! literals, escapes, comments and the terminal state.

use tokeniser::tokeniser::Tokeniser;
use tokeniser::types::{Token, TokenType};

fn first_token(src: &str) -> Token {
    let mut t = Tokeniser::new(String::from(src));
    t.next_token()
}

fn all_tokens(src: &str) -> Vec<Token> {
    let mut t = Tokeniser::new(String::from(src));
    let mut out = Vec::new();
    let mut guard: usize = 0;
    loop {
        let tok = t.next_token();
        let done = tok.type_() == TokenType::Eof;
        out.push(tok);
        guard += 1;
        if done || guard > 1000 {
            return out;
        }
    }
}

fn expect(src: &str, type_: TokenType, value: &str, length: usize) {
    let toks = all_tokens(src);
    assert_eq!(toks.len(), 2, "one token then end of input for {:?}", src);
    assert_eq!(toks[0].type_(), type_, "kind for {:?}", src);
    assert_eq!(toks[0].value(), value, "value for {:?}", src);
    assert_eq!(toks[0].length(), length, "length for {:?}", src);
}

#[test]
fn semi_single_char() {
    let toks = all_tokens(";");
    assert_eq!(toks.len(), 2);
    assert_eq!(toks[0].type_(), TokenType::Semi);
    assert_eq!(toks[1].type_(), TokenType::Eof);
}

#[test]
fn punctuation_single_chars() {
    let cases = [
        ("{", TokenType::LeftBrace),
        ("}", TokenType::RightBrace),
        ("(", TokenType::LeftParen),
        (")", TokenType::RightParen),
        ("[", TokenType::LeftSquare),
        ("]", TokenType::RightSquare),
        (",", TokenType::Comma),
        (":", TokenType::Colon),
    ];
    for (src, type_) in cases {
        let toks = all_tokens(src);
        assert_eq!(toks.len(), 2, "cursor advanced by one for {:?}", src);
        assert_eq!(toks[0].type_(), type_, "kind for {:?}", src);
    }
}

#[test]
fn newline_tokens() {
    let toks = all_tokens("\n");
    assert_eq!(toks[0].type_(), TokenType::Newline);
    let toks = all_tokens("\r");
    assert_eq!(toks[0].type_(), TokenType::Newline);
}

#[test]
fn eof_terminal_state_idempotent() {
    let mut t = Tokeniser::new(String::from(";"));
    assert_eq!(t.next_token().type_(), TokenType::Semi);
    for _ in 0..10 {
        let tok = t.next_token();
        assert_eq!(tok.type_(), TokenType::Eof);
        assert_eq!(tok.value(), "");
        assert_eq!(tok.length(), 0);
    }
}

#[test]
fn string_literal_round_trip() {
    expect("\"abc\"", TokenType::StringLit, "abc", 3);
}

#[test]
fn string_escape_newline() {
    expect("\"a\\nb\"", TokenType::StringLit, "a\nb", 3);
}

#[test]
fn string_escape_unicode() {
    expect("\"\\u0041\"", TokenType::StringLit, "A", 1);
}

#[test]
fn string_escape_table() {
    expect(
        "\"\\\\\\b\\r\\t\\v\\f\\a\"",
        TokenType::StringLit,
        "\\\u{8}\r\t\u{B}\u{C}\u{7}",
        7,
    );
}

#[test]
fn string_unknown_escape_passes_through() {
    expect("\"\\q\"", TokenType::StringLit, "q", 1);
}

#[test]
fn empty_string_literal_advances_two() {
    let toks = all_tokens("\"\"x");
    assert_eq!(toks[0].type_(), TokenType::StringLit);
    assert_eq!(toks[0].value(), "");
    assert_eq!(toks[0].length(), 0);
    assert_eq!(toks[1].type_(), TokenType::Ident);
    assert_eq!(toks[1].value(), "x");
}

#[test]
fn empty_char_literal_is_invalid() {
    let toks = all_tokens("''");
    assert_eq!(toks[0].type_(), TokenType::Invalid);
    assert_eq!(toks[0].length(), 0);
    assert!(!toks[0].valid());
}

#[test]
fn char_literal_simple() {
    expect("'a'", TokenType::CharLit, "a", 1);
}

#[test]
fn char_literal_escaped_double_quote_is_invalid() {
    assert_eq!(first_token("'\\\"'").type_(), TokenType::Invalid);
}

#[test]
fn char_literal_escaped_slash_is_invalid() {
    assert_eq!(first_token("'\\/'").type_(), TokenType::Invalid);
}

#[test]
fn string_escaped_single_quote_is_invalid() {
    assert_eq!(first_token("\"a\\'b\"").type_(), TokenType::Invalid);
}

#[test]
fn string_bad_unicode_escape_is_invalid() {
    assert_eq!(first_token("\"\\uZZ\"").type_(), TokenType::Invalid);
    assert_eq!(first_token("\"\\u110000\"").type_(), TokenType::Invalid);
    assert_eq!(first_token("\"\\uD800\"").type_(), TokenType::Invalid);
}

#[test]
fn unterminated_string_is_terminal() {
    let toks = all_tokens("\"abc");
    assert_eq!(toks.len(), 1);
    assert_eq!(toks[0].type_(), TokenType::Eof);
}

#[test]
fn operator_disambiguation_table() {
    expect("+", TokenType::AddOp, "+", 1);
    expect("++", TokenType::IncOp, "++", 2);
    expect("+=", TokenType::AssignOp, "+=", 2);
    expect("-", TokenType::AddOp, "-", 1);
    expect("--", TokenType::IncOp, "--", 2);
    expect("-=", TokenType::AssignOp, "-=", 2);
    expect("<", TokenType::RelOp, "<", 1);
    expect("<=", TokenType::RelOp, "<=", 2);
    expect("<<", TokenType::ShiftOp, "<<", 2);
    expect("<<=", TokenType::AssignOp, "<<=", 3);
    expect("==", TokenType::EquOp, "==", 2);
    expect("!=", TokenType::EquOp, "!=", 2);
    expect("=", TokenType::AssignOp, "=", 1);
}

#[test]
fn increment_consumes_exactly_two() {
    let toks = all_tokens("++x");
    assert_eq!(toks[0].type_(), TokenType::IncOp);
    assert_eq!(toks[0].value(), "++");
    assert_eq!(toks[1].type_(), TokenType::Ident);
    assert_eq!(toks[1].value(), "x");
    let toks = all_tokens("&&x");
    assert_eq!(toks[0].type_(), TokenType::LogicOp);
    assert_eq!(toks[0].value(), "&&");
    assert_eq!(toks[1].value(), "x");
}

#[test]
fn unterminated_char_literal_is_terminal() {
    let toks = all_tokens("'a");
    assert_eq!(toks.len(), 1);
    assert_eq!(toks[0].type_(), TokenType::Eof);
}

#[test]
fn arrow_token() {
    let toks = all_tokens("->");
    assert_eq!(toks.len(), 2, "the arrow consumes both characters");
    assert_eq!(toks[0].type_(), TokenType::Arrow);
}

#[test]
fn relational_greater_family() {
    expect(">", TokenType::RelOp, ">", 1);
    expect(">=", TokenType::RelOp, ">=", 2);
    expect(">>", TokenType::ShiftOp, ">>", 2);
    expect(">>=", TokenType::AssignOp, ">>=", 3);
}

#[test]
fn equality_family_bare_invert() {
    expect("!", TokenType::Invert, "!", 1);
    expect("~", TokenType::Invert, "~", 1);
}

#[test]
fn boolean_family() {
    expect("&", TokenType::BitOp, "&", 1);
    expect("|", TokenType::BitOp, "|", 1);
    expect("&&", TokenType::LogicOp, "&&", 2);
    expect("||", TokenType::LogicOp, "||", 2);
    expect("&=", TokenType::AssignOp, "&=", 2);
    expect("^", TokenType::BitOp, "^", 1);
    expect("^=", TokenType::AssignOp, "^=", 2);
}

#[test]
fn multiplicative_family() {
    expect("*", TokenType::MulOp, "*", 1);
    expect("%", TokenType::MulOp, "%", 1);
    expect("*=", TokenType::AssignOp, "*=", 2);
    expect("%=", TokenType::AssignOp, "%=", 2);
    expect("/", TokenType::MulOp, "/", 1);
    expect("/=", TokenType::AssignOp, "/=", 2);
}

#[test]
fn dot_and_ellipsis() {
    let toks = all_tokens("...");
    assert_eq!(toks.len(), 2);
    assert_eq!(toks[0].type_(), TokenType::Ellipsis);
    let toks = all_tokens(".");
    assert_eq!(toks.len(), 2);
    assert_eq!(toks[0].type_(), TokenType::Dot);
    let toks = all_tokens("..");
    assert_eq!(toks.len(), 3, "two dots are two dot tokens");
    assert_eq!(toks[0].type_(), TokenType::Dot);
    assert_eq!(toks[1].type_(), TokenType::Dot);
}

#[test]
fn numeric_bases() {
    expect("0b101", TokenType::BinLit, "101", 3);
    expect("0c17", TokenType::OctLit, "17", 2);
    expect("0xFF", TokenType::HexLit, "FF", 2);
    expect("123", TokenType::IntLit, "123", 3);
}

#[test]
fn numeric_base_prefix_without_digits_is_invalid() {
    let toks = all_tokens("0b");
    assert_eq!(toks[0].type_(), TokenType::Invalid);
    let toks = all_tokens("0c");
    assert_eq!(toks[0].type_(), TokenType::Invalid);
    let toks = all_tokens("0x");
    assert_eq!(toks[0].type_(), TokenType::Invalid);
}

#[test]
fn decimal_with_leading_zero() {
    expect("0", TokenType::IntLit, "0", 1);
    expect("007", TokenType::IntLit, "007", 3);
}

#[test]
fn keyword_reclassification() {
    expect("class", TokenType::ClassDef, "class", 5);
    expect("if", TokenType::IfStmt, "if", 2);
    expect("unsafe", TokenType::Unsafe, "unsafe", 6);
    expect("public", TokenType::Visibility, "public", 6);
    expect("eeprom", TokenType::LocationSpec, "eeprom", 6);
    expect("myVar1", TokenType::Ident, "myVar1", 6);
}

#[test]
fn keyword_table_full() {
    expect("true", TokenType::BoolLit, "true", 4);
    expect("false", TokenType::BoolLit, "false", 5);
    expect("nullptr", TokenType::NullptrLit, "nullptr", 7);
    expect("none", TokenType::NoneType, "none", 4);
    expect("flash", TokenType::LocationSpec, "flash", 5);
    expect("rom", TokenType::LocationSpec, "rom", 3);
    expect("const", TokenType::StorageSpec, "const", 5);
    expect("static", TokenType::StorageSpec, "static", 6);
    expect("volatile", TokenType::StorageSpec, "volatile", 8);
    expect("private", TokenType::Visibility, "private", 7);
    expect("protected", TokenType::Visibility, "protected", 9);
    expect("new", TokenType::NewStmt, "new", 3);
    expect("delete", TokenType::DeleteStmt, "delete", 6);
    expect("from", TokenType::FromStmt, "from", 4);
    expect("import", TokenType::ImportStmt, "import", 6);
    expect("as", TokenType::AsStmt, "as", 2);
    expect("return", TokenType::ReturnStmt, "return", 6);
    expect("elif", TokenType::ElifStmt, "elif", 4);
    expect("else", TokenType::ElseStmt, "else", 4);
    expect("for", TokenType::ForStmt, "for", 3);
    expect("while", TokenType::WhileStmt, "while", 5);
    expect("do", TokenType::DoStmt, "do", 2);
    expect("enum", TokenType::EnumDef, "enum", 4);
    expect("function", TokenType::FunctionDef, "function", 8);
    expect("operator", TokenType::OperatorDef, "operator", 8);
}

#[test]
fn word_operator_rewrite() {
    expect("and", TokenType::LogicOp, "&", 1);
    expect("or", TokenType::LogicOp, "|", 1);
    expect("not", TokenType::Invert, "!", 1);
}

#[test]
fn line_comment_excludes_newline() {
    let toks = all_tokens("# hello");
    assert_eq!(toks[0].type_(), TokenType::Comment);
    assert_eq!(toks[0].value(), " hello");
    assert_eq!(toks[0].length(), 6);
    assert_eq!(toks[1].type_(), TokenType::Eof);
}

#[test]
fn line_comment_stops_at_newline() {
    let toks = all_tokens("# a\nb");
    assert_eq!(toks[0].type_(), TokenType::Comment);
    assert_eq!(toks[0].value(), " a");
    assert_eq!(toks[1].type_(), TokenType::Newline);
    assert_eq!(toks[2].type_(), TokenType::Ident);
    assert_eq!(toks[2].value(), "b");
}

#[test]
fn double_slash_line_comment() {
    let toks = all_tokens("// hi");
    assert_eq!(toks[0].type_(), TokenType::Comment);
    assert_eq!(toks[0].value(), " hi");
}

#[test]
fn block_comment_lands_after_close() {
    let toks = all_tokens("/* x */;");
    assert_eq!(toks[0].type_(), TokenType::Comment);
    assert_eq!(toks[0].value(), " x ");
    assert_eq!(toks[0].length(), 3);
    assert_eq!(toks[1].type_(), TokenType::Semi);
    assert_eq!(toks[2].type_(), TokenType::Eof);
}

#[test]
fn unterminated_block_comment_is_terminal() {
    let toks = all_tokens("/* x");
    assert_eq!(toks.len(), 1);
    assert_eq!(toks[0].type_(), TokenType::Eof);
}

#[test]
fn whitespace_run_collapses() {
    let toks = all_tokens("  \t;");
    assert_eq!(toks[0].type_(), TokenType::Whitespace);
    assert_eq!(toks[0].length(), 3);
    assert_eq!(toks[1].type_(), TokenType::Semi);
}

#[test]
fn unknown_character_is_invalid_and_advances() {
    let toks = all_tokens("@;");
    assert_eq!(toks[0].type_(), TokenType::Invalid);
    assert!(!toks[0].valid());
    assert_eq!(toks[1].type_(), TokenType::Semi);
}

#[test]
fn small_program() {
    let toks = all_tokens("if a == 0b10 { return x; }");
    let kinds: Vec<TokenType> = toks.iter().map(|t| t.type_()).collect();
    assert_eq!(
        kinds,
        vec![
            TokenType::IfStmt,
            TokenType::Whitespace,
            TokenType::Ident,
            TokenType::Whitespace,
            TokenType::EquOp,
            TokenType::Whitespace,
            TokenType::BinLit,
            TokenType::Whitespace,
            TokenType::LeftBrace,
            TokenType::Whitespace,
            TokenType::ReturnStmt,
            TokenType::Whitespace,
            TokenType::Ident,
            TokenType::Semi,
            TokenType::Whitespace,
            TokenType::RightBrace,
            TokenType::Eof,
        ]
    );
}
