//! Tests of the token data model and the classification predicates.

use tokeniser::recogniser::{str_eq, CharRecogniser, StringRecogniser};
use tokeniser::types::{Position, Range, Token, TokenType};

#[test]
fn token_from_type_is_empty() {
    let t = Token::from_type(TokenType::Semi);
    assert_eq!(t.type_(), TokenType::Semi);
    assert_eq!(t.value(), "");
    assert_eq!(t.length(), 0);
    assert!(t.location().is_none());
}

#[test]
fn token_new_keeps_fields() {
    let t = Token::new(TokenType::Ident, String::from("abc"), Range::default(), 3);
    assert_eq!(t.type_(), TokenType::Ident);
    assert_eq!(t.value(), "abc");
    assert_eq!(t.length(), 3);
    assert!(t.location().is_some());
}

#[test]
fn token_set_type_and_value() {
    let mut t = Token::new(TokenType::Ident, String::from("and"), Range::default(), 3);
    t.set_type(TokenType::LogicOp);
    t.set_value(String::from("&"));
    assert_eq!(t.type_(), TokenType::LogicOp);
    assert_eq!(t.value(), "&");
}

#[test]
fn token_valid_flags_invalid_kind() {
    assert!(Token::from_type(TokenType::IntLit).valid());
    assert!(!Token::from_type(TokenType::Invalid).valid());
}

#[test]
fn range_default_is_placeholder() {
    let r = Range::default();
    assert_eq!(r.start, Position { line: 0, character: 0 });
    assert_eq!(r.end, Position { line: 0, character: 0 });
}

#[test]
fn char_recognisers() {
    assert!('\n'.is_new_line());
    assert!('\r'.is_new_line());
    assert!(!'n'.is_new_line());
    assert!('_'.is_underscore());
    assert!('b'.is_begin_bin() && 'B'.is_begin_bin());
    assert!('c'.is_begin_oct() && 'C'.is_begin_oct());
    assert!('x'.is_begin_hex() && 'X'.is_begin_hex());
    assert!('0'.is_bin() && '1'.is_bin() && !'2'.is_bin());
    assert!('7'.is_oct() && !'8'.is_oct());
    assert!('9'.is_hex() && 'a'.is_hex() && 'F'.is_hex() && !'g'.is_hex());
    assert!('.'.is_dot());
    assert!('\''.is_single_quote());
    assert!('"'.is_double_quote());
    assert!('='.is_equals());
}

#[test]
fn string_recognisers() {
    assert!("true".is_true() && !"True".is_true());
    assert!("false".is_false());
    assert!("nullptr".is_null());
    assert!("and".is_and() && "or".is_or() && "not".is_not());
    assert!("<".is_begin_tmpl() && ">".is_end_tmpl());
    assert!("<=".is_equality() && !"!=".is_equality());
    assert!("!=".is_relation() && "==".is_relation() && ">=".is_relation());
    assert!("new".is_new() && "delete".is_delete());
    assert!("from".is_from() && "import".is_import() && "as".is_as());
    assert!("return".is_return() && "if".is_if_stmt() && "elif".is_elif_stmt());
    assert!("else".is_else_stmt() && "for".is_for_stmt() && "while".is_while_stmt());
    assert!("do".is_do_stmt() && "class".is_class() && "enum".is_enum());
    assert!("function".is_function_def() && "operator".is_operator_def());
    assert!("const".is_const() && "static".is_static() && "volatile".is_volatile());
    assert!("eeprom".is_location_spec() && "flash".is_location_spec() && "rom".is_location_spec());
    assert!("const".is_storage_spec() && !"eeprom".is_storage_spec());
    assert!("none".is_none() && "->".is_arrow());
    assert!("public".is_visibility() && "private".is_visibility() && "protected".is_visibility());
    assert!("unsafe".is_unsafe());
    assert!(str_eq("abc", "abc") && !str_eq("abc", "abd") && !str_eq("a", "ab"));
}
