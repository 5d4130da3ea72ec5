//! Tests of the identifier parser.

use mini_c::parser::identifiers::{identifier, IdentifierError};

#[test]
fn test_identifier_simple() {
    assert_eq!(identifier("x"), Ok(("", "x")));
    assert_eq!(identifier("abc123 = 4"), Ok((" = 4", "abc123")));
    assert_eq!(identifier("_tmp_1+2"), Ok(("+2", "_tmp_1")));
    assert_eq!(identifier("a_b(c)"), Ok(("(c)", "a_b")));
}

#[test]
fn test_identifier_unicode_letters() {
    assert_eq!(identifier("été!"), Ok(("!", "été")));
}

#[test]
fn test_identifier_rejects_non_start() {
    assert_eq!(identifier(""), Err(IdentifierError::NoIdentifier));
    assert_eq!(identifier("1abc"), Err(IdentifierError::NoIdentifier));
    assert_eq!(identifier(" x"), Err(IdentifierError::NoIdentifier));
    assert_eq!(identifier("+"), Err(IdentifierError::NoIdentifier));
}

#[test]
fn test_identifier_rejects_reserved_words() {
    for w in ["true", "false", "int", "float", "bool", "str", "void"] {
        assert_eq!(identifier(w), Err(IdentifierError::Reserved));
    }
    assert_eq!(identifier("int x"), Err(IdentifierError::Reserved));
    assert_eq!(identifier("integer"), Ok(("", "integer")));
    assert_eq!(identifier("truex"), Ok(("", "truex")));
}
