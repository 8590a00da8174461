use rmarshal::lua::{extract_outputs, inject_source, rendered_output, LuaNode, LuaTable, LUA_PRELUDE};
use rmarshal::template::Template;
use rmarshal::value::Value;

fn node(value: rlua::Value) -> LuaNode {
    match value {
        rlua::Value::Nil => LuaNode::Nil,
        rlua::Value::Boolean(b) => LuaNode::Boolean(b),
        rlua::Value::Integer(i) => LuaNode::Integer(i),
        rlua::Value::Number(f) => LuaNode::Number(f.to_string()),
        rlua::Value::String(s) => LuaNode::Str(s.to_str().unwrap().to_owned()),
        rlua::Value::Table(t) => LuaNode::Table(snapshot(t)),
        _ => LuaNode::Other,
    }
}

fn snapshot(t: rlua::Table) -> LuaTable {
    let class = match t.get::<_, rlua::Value>("_classname").unwrap() {
        rlua::Value::String(s) => Some(s.to_str().unwrap().to_owned()),
        _ => None,
    };
    let mut entries = Vec::new();
    for pair in t.pairs::<rlua::Value, rlua::Value>() {
        let (k, v) = pair.unwrap();
        entries.push((node(k), node(v)));
    }
    LuaTable { class, entries }
}

fn run(source: &str, inputs: &Vec<Value>) -> LuaTable {
    let lua = rlua::Lua::new();
    let inject = inject_source(inputs);
    lua.context(|ctx| {
        ctx.load(LUA_PRELUDE).exec().unwrap();
        ctx.load(&inject).exec().unwrap();
        ctx.load(source).exec().unwrap();
        let context: rlua::Table = ctx.globals().get("ctx").unwrap();
        let outputs: rlua::Table = context.get("outputs").unwrap();
        snapshot(outputs)
    })
}

#[test]
fn script_round_trip_keeps_key_order() {
    let v = Value::Object(vec![
        ("a".to_owned(), Value::Integer(1)),
        ("b".to_owned(), Value::String("x".to_owned())),
    ]);
    let out = run("ctx:set_output(ctx:get_input(1))", &vec![v.clone()]);
    assert_eq!(extract_outputs(&out), Ok(vec![v]));
}

#[test]
fn script_round_trip_of_nested_values() {
    let v = Value::Object(vec![
        ("z".to_owned(), Value::Array(vec![Value::Nil, Value::Boolean(false), Value::String("q\"uote\n".to_owned())])),
        ("y".to_owned(), Value::Object(vec![("k".to_owned(), Value::Integer(-3))])),
        ("x".to_owned(), Value::Float("2.5".to_owned())),
    ]);
    let out = run("for _, input in ipairs(ctx:get_inputs()) do ctx:set_output(input) end", &vec![v.clone(), Value::Integer(7)]);
    assert_eq!(extract_outputs(&out), Ok(vec![v, Value::Integer(7)]));
}

#[test]
fn template_renders_trimmed_lines() {
    let t = Template::compile("<%- if true then -%>\nkept\n<%- end -%>").unwrap();
    let out = run(&t.content, &vec![]);
    assert_eq!(rendered_output(&out), Ok("kept\n".to_owned()));
}

#[test]
fn template_renders_inputs() {
    let t = Template::compile("<% for _, v in ipairs(ctx:get_inputs()) do -%>\n- <%= v %>\n<% end -%>\n").unwrap();
    let out = run(&t.content, &vec![Value::Integer(1), Value::String("two".to_owned())]);
    assert_eq!(rendered_output(&out), Ok("- 1\n- two\n".to_owned()));
}

#[test]
fn merge_inputs_in_script() {
    let a = Value::Object(vec![("a".to_owned(), Value::Integer(1)), ("b".to_owned(), Value::Integer(2))]);
    let b = Value::Object(vec![("b".to_owned(), Value::Integer(3)), ("c".to_owned(), Value::Integer(4))]);
    let out = run("ctx:set_output(ctx:merge_inputs())", &vec![a, b]);
    let expected = Value::Object(vec![
        ("a".to_owned(), Value::Integer(1)),
        ("b".to_owned(), Value::Integer(3)),
        ("c".to_owned(), Value::Integer(4)),
    ]);
    assert_eq!(extract_outputs(&out), Ok(vec![expected]));
}
