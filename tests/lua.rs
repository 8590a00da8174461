use rmarshal::lua::{
    extract_outputs, from_lua_table, from_processed_template, inject_source, node_to_value,
    rendered_output, to_lua_string, BridgeError, LuaNode, LuaTable,
};
use rmarshal::value::Value;

fn st(s: &str) -> LuaNode {
    LuaNode::Str(s.to_owned())
}

fn table(class: Option<&str>, entries: Vec<(LuaNode, LuaNode)>) -> LuaTable {
    LuaTable { class: class.map(|c| c.to_owned()), entries }
}

fn seq(items: Vec<LuaNode>) -> LuaTable {
    table(None, items.into_iter().enumerate().map(|(k, v)| (LuaNode::Integer(k as i64 + 1), v)).collect())
}

#[test]
fn lua_source_of_scalars() {
    assert_eq!(to_lua_string(&Value::Nil), "NULL");
    assert_eq!(to_lua_string(&Value::Boolean(true)), "true");
    assert_eq!(to_lua_string(&Value::Boolean(false)), "false");
    assert_eq!(to_lua_string(&Value::Integer(-120)), "-120");
    assert_eq!(to_lua_string(&Value::Integer(0)), "0");
    assert_eq!(to_lua_string(&Value::Integer(i64::MIN)), "-9223372036854775808");
    assert_eq!(to_lua_string(&Value::Float("2.5".to_owned())), "2.5");
}

#[test]
fn lua_source_escapes_strings() {
    let v = Value::String("a\"b\\c\nd\u{1}".to_owned());
    assert_eq!(to_lua_string(&v), "\"a\\\"b\\\\c\\nd\\001\"");
}

#[test]
fn lua_source_of_structures() {
    let v = Value::Object(vec![
        ("a".to_owned(), Value::Integer(1)),
        ("b".to_owned(), Value::Array(vec![Value::String("x".to_owned()), Value::Nil])),
    ]);
    assert_eq!(to_lua_string(&v), "Object:new({{\"a\",1},{\"b\",Array:new({\"x\",NULL,})},})");
}

#[test]
fn inject_source_appends_inputs() {
    let src = inject_source(&vec![Value::Integer(1), Value::String("x".to_owned())]);
    assert_eq!(src, "table.insert(ctx.inputs,1)\ntable.insert(ctx.inputs,\"x\")\n");
}

#[test]
fn ordered_object_reads_back_in_key_order() {
    let keys = seq(vec![st("b"), st("a")]);
    let values = table(None, vec![(st("a"), LuaNode::Integer(1)), (st("b"), st("x"))]);
    let obj = table(Some("Object"), vec![(st("_values"), LuaNode::Table(values)), (st("_keys"), LuaNode::Table(keys))]);
    let v = from_lua_table(&obj).unwrap();
    assert_eq!(
        v,
        Value::Object(vec![("b".to_owned(), Value::String("x".to_owned())), ("a".to_owned(), Value::Integer(1))])
    );
}

#[test]
fn tagged_tables() {
    assert_eq!(from_lua_table(&table(Some("NullClass"), vec![])), Ok(Value::Nil));
    let a = table(Some("Array"), vec![(LuaNode::Integer(1), LuaNode::Boolean(true)), (LuaNode::Integer(2), LuaNode::Number("0.5".to_owned()))]);
    assert_eq!(from_lua_table(&a), Ok(Value::Array(vec![Value::Boolean(true), Value::Float("0.5".to_owned())])));
    assert_eq!(from_lua_table(&table(Some("Context"), vec![])), Err(BridgeError::Unsupported));
}

#[test]
fn untagged_tables() {
    let s = seq(vec![LuaNode::Integer(5), st("q")]);
    assert_eq!(from_lua_table(&s), Ok(Value::Array(vec![Value::Integer(5), Value::String("q".to_owned())])));
    let o = table(None, vec![(st("k"), LuaNode::Integer(2))]);
    assert_eq!(from_lua_table(&o), Ok(Value::Object(vec![("k".to_owned(), Value::Integer(2))])));
    let gap = table(None, vec![(LuaNode::Integer(2), LuaNode::Integer(2))]);
    assert_eq!(from_lua_table(&gap), Err(BridgeError::Unsupported));
    assert_eq!(from_lua_table(&table(None, vec![])), Ok(Value::Array(vec![])));
}

#[test]
fn unsupported_nodes() {
    assert_eq!(node_to_value(&LuaNode::Other), Err(BridgeError::Unsupported));
    let s = seq(vec![LuaNode::Other]);
    assert_eq!(from_lua_table(&s), Err(BridgeError::Unsupported));
}

#[test]
fn outputs_in_order() {
    let outputs = seq(vec![LuaNode::Integer(1), LuaNode::Table(table(Some("NullClass"), vec![]))]);
    assert_eq!(extract_outputs(&outputs), Ok(vec![Value::Integer(1), Value::Nil]));
}

#[test]
fn rendered_text_pieces() {
    let buf = seq(vec![st("n="), LuaNode::Integer(-3), st(" "), LuaNode::Boolean(false), LuaNode::Table(table(Some("NullClass"), vec![]))]);
    assert_eq!(from_processed_template(&buf), Ok("n=-3 falsenull".to_owned()));
    let bad = seq(vec![LuaNode::Number("1.5".to_owned())]);
    assert_eq!(from_processed_template(&bad), Err(BridgeError::Unsupported));
    let outputs = seq(vec![LuaNode::Table(seq(vec![st("kept\n")]))]);
    assert_eq!(rendered_output(&outputs), Ok("kept\n".to_owned()));
    assert_eq!(rendered_output(&seq(vec![])), Err(BridgeError::Unsupported));
}

#[test]
fn sequence_read_in_key_order() {
    let t = table(None, vec![(LuaNode::Integer(2), st("b")), (LuaNode::Integer(1), st("a"))]);
    assert_eq!(from_lua_table(&t), Ok(Value::Array(vec![Value::String("a".to_owned()), Value::String("b".to_owned())])));
    let a = table(Some("Array"), vec![(LuaNode::Integer(2), LuaNode::Integer(20)), (LuaNode::Integer(1), LuaNode::Integer(10))]);
    assert_eq!(from_lua_table(&a), Ok(Value::Array(vec![Value::Integer(10), Value::Integer(20)])));
    let holes = table(Some("Array"), vec![(LuaNode::Integer(1), LuaNode::Integer(10)), (LuaNode::Integer(3), LuaNode::Integer(30))]);
    assert_eq!(from_lua_table(&holes), Err(BridgeError::Unsupported));
}

#[test]
fn object_key_list_read_in_key_order() {
    let keys = table(None, vec![(LuaNode::Integer(2), st("a")), (LuaNode::Integer(1), st("b"))]);
    let values = table(None, vec![(st("a"), LuaNode::Integer(1)), (st("b"), LuaNode::Integer(2))]);
    let obj = table(Some("Object"), vec![(st("_keys"), LuaNode::Table(keys)), (st("_values"), LuaNode::Table(values))]);
    assert_eq!(
        from_lua_table(&obj),
        Ok(Value::Object(vec![("b".to_owned(), Value::Integer(2)), ("a".to_owned(), Value::Integer(1))]))
    );
}

#[test]
fn rendered_text_joined_in_key_order() {
    let buf = table(None, vec![(LuaNode::Integer(2), st("b")), (LuaNode::Integer(1), st("a"))]);
    assert_eq!(from_processed_template(&buf), Ok("ab".to_owned()));
    let gap = table(None, vec![(LuaNode::Integer(1), st("a")), (LuaNode::Integer(3), st("c"))]);
    assert_eq!(from_processed_template(&gap), Err(BridgeError::Unsupported));
    assert_eq!(from_processed_template(&table(None, vec![])), Ok(String::new()));
}
