use rmarshal::document::{create_document, document_value, lua_document_source, plain_text, DocumentError};
use rmarshal::unit::DocumentHint;
use rmarshal::value::Value;

fn any(s: &str) -> Result<Value, DocumentError> {
    let f = s.parse::<f64>().ok().map(|x| x.to_string());
    create_document(DocumentHint::Any, s, &f)
}

#[test]
fn infer_any() {
    assert_eq!(any("~"), Ok(Value::Nil));
    assert_eq!(any("TRUE"), Ok(Value::Boolean(true)));
    assert_eq!(any("On"), Ok(Value::Boolean(true)));
    assert_eq!(any("off"), Ok(Value::Boolean(false)));
    assert_eq!(any("-42"), Ok(Value::Integer(-42)));
    assert_eq!(any("+7"), Ok(Value::Integer(7)));
    assert_eq!(any("1.50"), Ok(Value::Float("1.5".to_owned())));
    assert_eq!(any(".5"), Ok(Value::Float("0.5".to_owned())));
    assert_eq!(any("1e3"), Ok(Value::String("1e3".to_owned())));
    assert_eq!(any("hello"), Ok(Value::String("hello".to_owned())));
    assert_eq!(any("99999999999999999999"), Err(DocumentError::Decode));
}

#[test]
fn explicit_hints() {
    let none: Option<String> = None;
    assert_eq!(create_document(DocumentHint::Nil, "~", &none), Ok(Value::Nil));
    assert_eq!(create_document(DocumentHint::Nil, "x", &none), Err(DocumentError::Decode));
    assert_eq!(create_document(DocumentHint::Boolean, "yes", &none), Err(DocumentError::Decode));
    assert_eq!(create_document(DocumentHint::Integer, "12", &none), Ok(Value::Integer(12)));
    assert_eq!(create_document(DocumentHint::Integer, " 12", &none), Err(DocumentError::Decode));
    assert_eq!(create_document(DocumentHint::Float, "x", &none), Err(DocumentError::Decode));
    let f = Some("3".to_owned());
    assert_eq!(create_document(DocumentHint::Float, "3.0", &f), Ok(Value::Float("3".to_owned())));
    assert_eq!(create_document(DocumentHint::String, "~", &none), Ok(Value::String("~".to_owned())));
    assert_eq!(create_document(DocumentHint::Lua, "1", &none), Err(DocumentError::NeedsScript));
}

#[test]
fn document_value_uses_given_shapes() {
    let none: Option<String> = None;
    assert_eq!(document_value(DocumentHint::Any, "12", false, false, &none), Ok(Value::String("12".to_owned())));
    assert_eq!(document_value(DocumentHint::Any, "12", true, false, &none), Ok(Value::Integer(12)));
    assert_eq!(document_value(DocumentHint::Any, "1.5", false, true, &none), Err(DocumentError::Decode));
}

#[test]
fn expression_source() {
    assert_eq!(lua_document_source("{1,2}"), "ctx:set_output({1,2})\n");
}

#[test]
fn plain_texts() {
    assert_eq!(plain_text(&Value::Nil), Some("~".to_owned()));
    assert_eq!(plain_text(&Value::Integer(-5)), Some("-5".to_owned()));
    assert_eq!(plain_text(&Value::Boolean(true)), Some("true".to_owned()));
    assert_eq!(plain_text(&Value::String("x y".to_owned())), Some("x y".to_owned()));
    assert_eq!(plain_text(&Value::Array(vec![])), None);
}
