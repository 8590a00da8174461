use vstd::prelude::*;

use crate::text::{chars_of, push_char};
use crate::value::{entry_models, models, Value, ValueModel};

verus! {

/// The script library that every fresh runtime loads first: the `NULL`
/// marker, the ordered `Array` and `Object` types, and the `ctx` context with
/// its inputs and outputs.
pub const LUA_PRELUDE: &'static str = r#"
-- Tests whether a given table can be treated as an array.
-- @param tab [table]
-- @return [boolean]
function is_table_array(tab)
    local idx = 1
    for k, _ in pairs(tab) do
        if k ~= idx then
            return false
        end
        idx = idx + 1
    end

    return true
end

-- Returns the type of a given value.
-- @return [string] Either 'null', 'object', 'array' or any of what the function type() returns.
function typeof(v)
    local t = type(v)
    if t == 'table' then
        if v._classname == 'NullClass' then
            return 'null'
        elseif v._classname == 'Object' then
            return 'object'
        elseif v._classname == 'Array' or is_table_array(v) then
            return 'array'
        end

        return 'table'
    end

    return t
end

-- Represents the NULL value (different than nil).
NullClass = {
    _classname = 'NullClass',
}
NullClass.__index = NullClass
NULL = {}
setmetatable(NULL, NullClass)

-- Represents an Array.
Array = {
    _classname = 'Array',
}
Array.__index = Array

-- Constructs a new Array.
-- @return [Array]
function Array:new(init)
    local arr = {}
    if type(init) == 'table' then
        for _, v in ipairs(init) do
            table.insert(arr, v)
        end
    end
    setmetatable(arr, self)

    return arr
end

-- Constructs a new Array from either an other one or a table.
-- @param other [Array|table]
-- @return [Array]
function Array:from(other)
    if type(other) == 'table' then
        return Array:new(other)
    end

    error('wrong format')
end

function Array:iterator()
    return ipairs(self)
end

-- Removes the last value of the Array represented by this one.
-- @return [any]
function Array:pop()
    local last_val = self[#self]
    table.remove(self)

    return last_val
end

-- Adds a new value at the end of the Array represented by this one.
-- @param value [any]
-- @return [any]
function Array:push(value)
    table.insert(self, value)

    return value
end

-- Removes the first value of the Array represented by this one.
-- @param value [any]
-- @return [any]
function Array:shift()
    local first_val = self[1]
    table.remove(self, 1)

    return first_val
end

-- Adds a new value at the front of the Array represented by this one.
-- @param value [any]
-- @return [any]
function Array:unshift(value)
    table.insert(self, 1, value)

    return value
end

-- Creates a new Array populated with the results of calling a provided function
-- on every element in the Array represented by this one.
-- @param callback [function]
-- @return [Array]
function Array:map(callback)
    local res = Array:new()
    for _, v in ipairs(self) do
        res:push(callback(v))
    end

    return res
end

-- Represents an Object with key insertion order iterator.
Object = {
    _classname = 'Object',
}
Object.__index = Object

-- Constructs a new Object.
-- @return [Object]
function Object:new(init)
    local obj = {
        _keys = {},     -- Array of keys (for insertion order).
        _values = {},   -- Map of key-value pairs.
    }
    if type(init) == 'table' then
        for _, tuple in ipairs(init) do
            local k = tuple[1]
            if type(k) ~= 'string' or k:len() <= 0 then
                error('wrong key format')
            end

            if obj._values[k] == nil then
                table.insert(obj._keys, k)
            end
            obj._values[k] = tuple[2]
        end
    end
    setmetatable(obj, self)

    return obj
end

-- Constructs a new Object from either an other one or a table.
-- @param other [Object|table]
-- @return [Object]
function Object:from(other)
    local t = typeof(other)
    if t == 'object' then
        local new_obj = Object:new()
        for _, e in other:iterator() do
            new_obj:set(e.key, e.value)
        end
        return new_obj
    elseif t == 'table' then
        local new_obj = Object:new()
        for k, v in pairs(other) do
            new_obj:set(k, v)
        end
        return new_obj
    end

    error('wrong format')
end

-- Deletes a given key and its value.
-- @param key [string]
-- @return [any] The previous value if any, nil otherwise.
function Object:delete(key)
    for i, k in ipairs(self._keys) do
        if k == key then
            table.remove(self._keys, i)
            break
        end
    end

    local prev_val = self._values[key]
    self._values[key] = nil

    return prev_val
end

-- Returns the value of a given key.
-- @param key [string]
-- @return [any]
function Object:get(key)
    return self._values[key]
end

-- Tests whether a given key exists.
-- @param key [string]
-- @return [boolean]
function Object:has(key)
    return self._values[key] ~= nil
end

function _object_iterator(obj, idx)
    local next_idx = idx + 1
    local key = obj._keys[next_idx]
    if key == nil then
        return
    end

    local val = obj._values[key]
    local entry = {
        key = key,
        value = val,
    }

    return next_idx, entry
end

-- Returns an entry iterator.
function Object:iterator()
    return _object_iterator, self, 0
end

-- Sets a new value of a given key.
-- If the value is nil then the previous key-value pair is deleted.
-- @param key [string]
-- @param value [any]
-- @return [any] The previous value if any, nil otherwise.
function Object:set(key, value)
    if type(key) ~= 'string' or key:len() <= 0 then
        error('wrong key format')
    end

    if value == nil then
        return self:delete(key)
    end

    local prev_val = self._values[key]
    if prev_val == nil then
        -- The given key does not exist yet.
        table.insert(self._keys, key)
    end

    self._values[key] = value

    return prev_val
end

-- Merges the Object represented by this one with another Object.
-- @param other [Object]
-- @return [Object] The Object represented by this one (self).
function Object:merge(other)
    for _, e in other:iterator() do
        self:set(e.key, e.value)
    end

    return self
end

-- Returns an Array containing all keys in insertion order.
-- @return [Array]
function Object:keys()
    local keys = Array:new()
    for _, k in ipairs(self._keys) do
        keys:push(k)
    end

    return keys
end

-- Returns an Array containing all values in insertion order.
-- @return [Array]
function Object:values()
    local vals = Array:new()
    for _, k in ipairs(self._keys) do
        vals:push(self._values[k])
    end

    return vals
end

-- Represents a Context for accessing inputs and outputs.
Context = {
    _classname = "Context",
}
Context.__index = Context

function Context:new(ctx)
    local ctx = {
        inputs = {},
        outputs = {},
    }
    setmetatable(ctx, self)
    return ctx
end

function Context:get_input(idx)
    return self.inputs[idx]
end

function Context:get_inputs()
    return self.inputs
end

function Context:merge_inputs()
    local ret = Object:new()
    for _, input in ipairs(self.inputs) do
        ret:merge(input)
    end
    return ret
end

function Context:set_output(output)
    table.insert(self.outputs, output)
end

ctx = Context:new()
"#;

broadcast use {
    vstd::seq::group_seq_axioms,
    vstd::std_specs::vec::axiom_vec_index_decreases,
    vstd::std_specs::vec::axiom_vec_decreases_to_view,
};

/// The decimal digit of `d`, for `d` below ten.
pub open spec fn digit_char(d: int) -> char {
    ('0' as int + d) as char
}

/// How one character is written inside a double-quoted script string.
pub open spec fn escape_char(c: char) -> Seq<char> {
    if c == '"' {
        seq!['\\', '"']
    } else if c == '\\' {
        seq!['\\', '\\']
    } else if c == '\n' {
        seq!['\\', 'n']
    } else if c == '\r' {
        seq!['\\', 'r']
    } else if c == '\t' {
        seq!['\\', 't']
    } else if (c as u32) < 32 || (c as u32) == 127 {
        seq![
            '\\',
            digit_char((c as u32) as int / 100),
            digit_char((c as u32) as int / 10 % 10),
            digit_char((c as u32) as int % 10),
        ]
    } else {
        seq![c]
    }
}

/// The escaped form of a text, character by character.
pub open spec fn escape_spec(s: Seq<char>) -> Seq<char>
    decreases s.len(),
{
    if s.len() == 0 {
        Seq::empty()
    } else {
        escape_spec(s.drop_last()) + escape_char(s.last())
    }
}

/// A double-quoted script string literal whose value is the given text.
pub open spec fn quote_spec(s: Seq<char>) -> Seq<char> {
    seq!['"'] + escape_spec(s) + seq!['"']
}

/// Appends the escaped form of one character.
fn push_escaped(out: &mut String, c: char)
    ensures
        final(out)@ == old(out)@ + escape_char(c),
{
    if c == '"' {
        push_char(out, '\\');
        push_char(out, '"');
    } else if c == '\\' {
        push_char(out, '\\');
        push_char(out, '\\');
    } else if c == '\n' {
        push_char(out, '\\');
        push_char(out, 'n');
    } else if c == '\r' {
        push_char(out, '\\');
        push_char(out, 'r');
    } else if c == '\t' {
        push_char(out, '\\');
        push_char(out, 't');
    } else if (c as u32) < 32 || (c as u32) == 127 {
        let n = c as u32;
        push_char(out, '\\');
        push_char(out, ((48 + n / 100) as u8) as char);
        push_char(out, ((48 + n / 10 % 10) as u8) as char);
        push_char(out, ((48 + n % 10) as u8) as char);
    } else {
        push_char(out, c);
    }
    proof {
        assert(final(out)@ =~= old(out)@ + escape_char(c));
    }
}

/// Appends a double-quoted script string literal of the given text.
pub fn push_quoted(out: &mut String, s: &str)
    ensures
        final(out)@ == old(out)@ + quote_spec(s@),
{
    let ghost start = out@;
    push_char(out, '"');
    let cs = chars_of(s);
    let n = cs.len();
    let mut i: usize = 0;
    while i < n
        invariant
            n == s@.len(),
            cs@ == s@,
            i <= n,
            out@ == start + seq!['"'] + escape_spec(s@.subrange(0, i as int)),
        decreases n - i,
    {
        let c = cs[i];
        let ghost before = out@;
        push_escaped(out, c);
        proof {
            assert(s@.subrange(0, i + 1).drop_last() =~= s@.subrange(0, i as int));
            assert(out@ =~= start + seq!['"'] + escape_spec(s@.subrange(0, i + 1)));
        }
        i += 1;
    }
    push_char(out, '"');
    proof {
        assert(s@.subrange(0, n as int) =~= s@);
        assert(out@ =~= start + quote_spec(s@));
    }
}


/// The decimal digits of a natural number, without leading zeros.
pub open spec fn nat_digits(n: nat) -> Seq<char>
    decreases n,
{
    if n < 10 {
        seq![digit_char(n as int)]
    } else {
        nat_digits(n / 10).push(digit_char(n as int % 10))
    }
}

/// The decimal text of an integer, with a leading `-` when it is negative.
pub open spec fn decimal_spec(i: int) -> Seq<char> {
    if i < 0 {
        seq!['-'] + nat_digits((-i) as nat)
    } else {
        nat_digits(i as nat)
    }
}

fn push_digits(out: &mut String, n: u64)
    ensures
        final(out)@ == old(out)@ + nat_digits(n as nat),
    decreases n,
{
    if n >= 10 {
        push_digits(out, n / 10);
    }
    push_char(out, ((48 + n % 10) as u8) as char);
    proof {
        assert(final(out)@ =~= old(out)@ + nat_digits(n as nat));
    }
}

/// Appends the decimal text of an integer.
pub fn push_decimal(out: &mut String, i: i64)
    ensures
        final(out)@ == old(out)@ + decimal_spec(i as int),
{
    if i < 0 {
        push_char(out, '-');
        let magnitude: u64 = (-(i as i128)) as u64;
        push_digits(out, magnitude);
        proof {
            assert(final(out)@ =~= old(out)@ + decimal_spec(i as int));
        }
    } else {
        push_digits(out, i as u64);
    }
}

/// Script source that evaluates to the runtime's form of a value: the null
/// marker, a literal, or a call of the `Array` or `Object` constructor.
pub open spec fn lua_source(v: ValueModel) -> Seq<char>
    decreases v, 1int,
{
    match v {
        ValueModel::Nil => "NULL"@,
        ValueModel::Boolean(b) => if b { "true"@ } else { "false"@ },
        ValueModel::Integer(i) => decimal_spec(i),
        ValueModel::Float(f) => f,
        ValueModel::Str(s) => quote_spec(s),
        ValueModel::Array(a) => "Array:new({"@ + items_source(a) + "})"@,
        ValueModel::Object(o) => "Object:new({"@ + fields_source(o) + "})"@,
    }
}

/// The sources of array items, each followed by a comma.
pub open spec fn items_source(a: Seq<ValueModel>) -> Seq<char>
    decreases a, 0int,
{
    if a.len() == 0 {
        Seq::empty()
    } else {
        items_source(a.drop_last()) + lua_source(a.last()) + ","@
    }
}

/// The sources of object fields, each a `{key,value}` pair followed by a comma.
pub open spec fn fields_source(o: Seq<(Seq<char>, ValueModel)>) -> Seq<char>
    decreases o, 0int,
{
    if o.len() == 0 {
        Seq::empty()
    } else {
        fields_source(o.drop_last()) + "{"@ + quote_spec(o.last().0) + ","@ + lua_source(o.last().1)
            + "},"@
    }
}

/// Appends the sources of array items, each followed by a comma.
#[verifier::loop_isolation(false)]
fn push_items_source(out: &mut String, a: &Vec<Value>, Ghost(parent): Ghost<Value>)
    requires
        decreases_to!(parent => *a),
    ensures
        final(out)@ == old(out)@ + items_source(models(a@)),
    decreases parent, 0int,
{
    let ghost start = out@;
    let ghost m = models(a@);
    let mut i: usize = 0;
    while i < a.len()
        invariant
            i <= a@.len(),
            out@ == start + items_source(m.subrange(0, i as int)),
        decreases a@.len() - i,
    {
        proof {
            assert(decreases_to!(*a => a[i as int]));
        }
        push_lua_source(out, &a[i]);
        out.append(",");
        proof {
            assert(m.subrange(0, i + 1).drop_last() =~= m.subrange(0, i as int));
            assert(out@ =~= start + items_source(m.subrange(0, i + 1)));
        }
        i += 1;
    }
    proof {
        assert(m.subrange(0, a@.len() as int) =~= m);
    }
}

/// Appends the sources of object fields, each followed by a comma.
#[verifier::loop_isolation(false)]
fn push_fields_source(out: &mut String, o: &Vec<(String, Value)>, Ghost(parent): Ghost<Value>)
    requires
        decreases_to!(parent => *o),
    ensures
        final(out)@ == old(out)@ + fields_source(entry_models(o@)),
    decreases parent, 0int,
{
    let ghost start = out@;
    let ghost m = entry_models(o@);
    let mut i: usize = 0;
    while i < o.len()
        invariant
            i <= o@.len(),
            out@ == start + fields_source(m.subrange(0, i as int)),
        decreases o@.len() - i,
    {
        proof {
            assert(decreases_to!(*o => o[i as int]));
        }
        out.append("{");
        push_quoted(out, o[i].0.as_str());
        out.append(",");
        push_lua_source(out, &o[i].1);
        out.append("},");
        proof {
            assert(m.subrange(0, i + 1).drop_last() =~= m.subrange(0, i as int));
            assert(out@ =~= start + fields_source(m.subrange(0, i + 1)));
        }
        i += 1;
    }
    proof {
        assert(m.subrange(0, o@.len() as int) =~= m);
    }
}

/// Appends the script source of a value; see `lua_source`.
pub fn push_lua_source(out: &mut String, value: &Value)
    ensures
        final(out)@ == old(out)@ + lua_source(value@),
    decreases value, 1int,
{
    let ghost start = out@;
    match value {
        Value::Nil => out.append("NULL"),
        Value::Boolean(b) => {
            if *b {
                out.append("true")
            } else {
                out.append("false")
            }
        },
        Value::Integer(i) => push_decimal(out, *i),
        Value::Float(f) => out.append(f.as_str()),
        Value::String(s) => push_quoted(out, s.as_str()),
        Value::Array(a) => {
            out.append("Array:new({");
            push_items_source(out, a, Ghost(*value));
            out.append("})");
            proof {
                assert(out@ =~= start + lua_source(value@));
            }
        },
        Value::Object(o) => {
            out.append("Object:new({");
            push_fields_source(out, o, Ghost(*value));
            out.append("})");
            proof {
                assert(out@ =~= start + lua_source(value@));
            }
        },
    }
}

/// Script source that evaluates to the runtime's form of a value.
pub fn to_lua_string(value: &Value) -> (r: String)
    ensures
        r@ == lua_source(value@),
{
    let mut out = String::new();
    push_lua_source(&mut out, value);
    proof {
        assert(out@ =~= lua_source(value@));
    }
    out
}

/// The statement that appends a value to the context's inputs.
pub open spec fn input_statement(v: ValueModel) -> Seq<char> {
    "table.insert(ctx.inputs,"@ + lua_source(v) + ")\n"@
}

/// The statements that append each value, in order, to the context's inputs.
pub open spec fn inputs_source(vs: Seq<ValueModel>) -> Seq<char>
    decreases vs.len(),
{
    if vs.len() == 0 {
        Seq::empty()
    } else {
        inputs_source(vs.drop_last()) + input_statement(vs.last())
    }
}

/// Script source that hands the values, in order, to the context as inputs.
pub fn inject_source(values: &Vec<Value>) -> (r: String)
    ensures
        r@ == inputs_source(models(values@)),
{
    let ghost m = models(values@);
    let mut out = String::new();
    let mut i: usize = 0;
    while i < values.len()
        invariant
            i <= values@.len(),
            m == models(values@),
            out@ == inputs_source(m.subrange(0, i as int)),
        decreases values@.len() - i,
    {
        out.append("table.insert(ctx.inputs,");
        push_lua_source(&mut out, &values[i]);
        out.append(")\n");
        proof {
            assert(m.subrange(0, i + 1).drop_last() =~= m.subrange(0, i as int));
            assert(out@ =~= inputs_source(m.subrange(0, i + 1)));
        }
        i += 1;
    }
    proof {
        assert(m.subrange(0, values@.len() as int) =~= m);
    }
    out
}


/// A value of the scripting runtime, read out of it: a scalar, a table, or
/// anything else (a function, a thread, user data).
#[derive(Debug)]
pub enum LuaNode {
    Nil,
    Boolean(bool),
    Integer(i64),
    /// A float, as its decimal text.
    Number(String),
    Str(String),
    Table(LuaTable),
    Other,
}

/// A table of the scripting runtime: the `_classname` that its metatable
/// gives it, if that is a string, and its own entries in the order in which
/// the runtime's `pairs` walks them.
#[derive(Debug)]
pub struct LuaTable {
    pub class: Option<String>,
    pub entries: Vec<(LuaNode, LuaNode)>,
}

/// Why a runtime value has no document value.
#[derive(Debug, PartialEq)]
pub enum BridgeError {
    Unsupported,
}

/// Whether the node is the string `s`.
pub open spec fn is_str(n: LuaNode, s: Seq<char>) -> bool {
    match n {
        LuaNode::Str(x) => x@ == s,
        _ => false,
    }
}

/// Whether the table's class is `name`.
pub open spec fn class_is(t: LuaTable, name: Seq<char>) -> bool {
    match t.class {
        Some(c) => c@ == name,
        None => false,
    }
}

/// Whether entry `j` has the integer key `k`.
pub open spec fn has_int_key(es: Seq<(LuaNode, LuaNode)>, k: int, j: int) -> bool {
    &&& 0 <= j < es.len()
    &&& match es[j].0 {
        LuaNode::Integer(x) => x == k,
        _ => false,
    }
}

/// Whether some entry has the integer key `k`.
pub open spec fn key_present(es: Seq<(LuaNode, LuaNode)>, k: int) -> bool {
    exists|j: int| has_int_key(es, k, j)
}

/// Whether `j` is the position of the first entry with the integer key `k`.
pub open spec fn is_first_int_key(es: Seq<(LuaNode, LuaNode)>, k: int, j: int) -> bool {
    &&& has_int_key(es, k, j)
    &&& forall|i: int| 0 <= i < j ==> !has_int_key(es, k, i)
}

/// The position of the entry with the integer key `k`.
pub open spec fn key_position(es: Seq<(LuaNode, LuaNode)>, k: int) -> int {
    choose|j: int| is_first_int_key(es, k, j)
}

/// Whether the keys are exactly the integers 1..N, N being the number of
/// entries, in whatever order the runtime walks them: every key is such an
/// integer, and each of them is a key.
pub open spec fn is_sequence(es: Seq<(LuaNode, LuaNode)>) -> bool {
    &&& forall|j: int|
        0 <= j < es.len() ==> match #[trigger] es[j].0 {
            LuaNode::Integer(k) => 1 <= k <= es.len(),
            _ => false,
        }
    &&& forall|k: int| 1 <= k <= es.len() ==> #[trigger] key_present(es, k)
}

proof fn lemma_key_position(es: Seq<(LuaNode, LuaNode)>, k: int, j: int)
    requires
        is_first_int_key(es, k, j),
    ensures
        key_position(es, k) == j,
{
    let c = choose|c: int| is_first_int_key(es, k, c);
    assert(is_first_int_key(es, k, c));
    if c < j {
        assert(!has_int_key(es, k, c));
    } else if j < c {
        assert(!has_int_key(es, k, j));
    }
}

/// Whether `j` is the position of the first entry whose key is the string `key`.
pub open spec fn is_first_str_key(es: Seq<(LuaNode, LuaNode)>, key: Seq<char>, j: int) -> bool {
    &&& 0 <= j < es.len()
    &&& is_str(es[j].0, key)
    &&& forall|k: int| 0 <= k < j ==> !is_str(#[trigger] es[k].0, key)
}

/// The position of the first entry whose key is the string `key`.
pub open spec fn str_key_index(es: Seq<(LuaNode, LuaNode)>, key: Seq<char>) -> Option<int> {
    if exists|j: int| is_first_str_key(es, key, j) {
        Some(choose|j: int| is_first_str_key(es, key, j))
    } else {
        None
    }
}

proof fn lemma_str_key_index(es: Seq<(LuaNode, LuaNode)>, key: Seq<char>, j: int)
    requires
        is_first_str_key(es, key, j),
    ensures
        str_key_index(es, key) == Some(j),
{
    let c = choose|c: int| is_first_str_key(es, key, c);
    assert(is_first_str_key(es, key, c));
    if c < j {
        assert(!is_str(es[c].0, key));
    } else if j < c {
        assert(!is_str(es[j].0, key));
    }
}

/// The document value of a runtime value, or `None` where it has none.
pub open spec fn node_value(n: LuaNode) -> Option<ValueModel>
    decreases n, 0int,
{
    match n {
        LuaNode::Nil => Some(ValueModel::Nil),
        LuaNode::Boolean(b) => Some(ValueModel::Boolean(b)),
        LuaNode::Integer(i) => Some(ValueModel::Integer(i as int)),
        LuaNode::Number(f) => Some(ValueModel::Float(f@)),
        LuaNode::Str(s) => Some(ValueModel::Str(s@)),
        LuaNode::Table(t) => table_value(t),
        LuaNode::Other => None,
    }
}

/// The document values under the integer keys 1..m, in key order.
pub open spec fn values_by_key(es: Seq<(LuaNode, LuaNode)>, m: int) -> Option<Seq<ValueModel>>
    decreases es, m,
{
    if m <= 0 {
        Some(Seq::empty())
    } else {
        let j = key_position(es, m);
        match values_by_key(es, m - 1) {
            Some(a) => if 0 <= j < es.len() {
                match node_value(es[j].1) {
                    Some(v) => Some(a.push(v)),
                    None => None,
                }
            } else {
                None
            },
            None => None,
        }
    }
}

/// The document values of a table whose keys are 1..N, in key order; `None`
/// where the keys are not 1..N.
pub open spec fn sequence_values(es: Seq<(LuaNode, LuaNode)>) -> Option<Seq<ValueModel>>
    decreases es, es.len() + 1,
{
    if is_sequence(es) {
        values_by_key(es, es.len() as int)
    } else {
        None
    }
}

/// The fields of a table whose keys must all be strings, in entry order.
pub open spec fn string_fields(es: Seq<(LuaNode, LuaNode)>) -> Option<Seq<(Seq<char>, ValueModel)>>
    decreases es, 0int,
{
    if es.len() == 0 {
        Some(Seq::empty())
    } else {
        match (string_fields(es.drop_last()), es.last().0, node_value(es.last().1)) {
            (Some(a), LuaNode::Str(k), Some(v)) => Some(a.push((k@, v))),
            _ => None,
        }
    }
}

/// The fields of an ordered object: each of the names under the keys 1..m
/// of the key list, in key order, with the converted value that the value
/// table holds for it.
pub open spec fn ordered_fields(
    keys: Seq<(LuaNode, LuaNode)>,
    vals: Seq<(LuaNode, LuaNode)>,
    m: int,
) -> Option<Seq<(Seq<char>, ValueModel)>>
    decreases vals, m,
{
    if m <= 0 {
        Some(Seq::empty())
    } else {
        let p = key_position(keys, m);
        match ordered_fields(keys, vals, m - 1) {
            Some(a) => if 0 <= p < keys.len() {
                match keys[p].1 {
                    LuaNode::Str(k) => match str_key_index(vals, k@) {
                        Some(j) => if 0 <= j < vals.len() {
                            match node_value(vals[j].1) {
                                Some(v) => Some(a.push((k@, v))),
                                None => None,
                            }
                        } else {
                            None
                        },
                        None => None,
                    },
                    _ => None,
                }
            } else {
                None
            },
            None => None,
        }
    }
}

/// The fields of an ordered object whose key list is keyed 1..N; `None`
/// where it is not.
pub open spec fn object_fields(keys: Seq<(LuaNode, LuaNode)>, vals: Seq<(LuaNode, LuaNode)>) -> Option<
    Seq<(Seq<char>, ValueModel)>,
>
    decreases vals, keys.len() + 1,
{
    if is_sequence(keys) {
        ordered_fields(keys, vals, keys.len() as int)
    } else {
        None
    }
}

/// The table held under the string key `key`, if any.
pub open spec fn table_at(es: Seq<(LuaNode, LuaNode)>, key: Seq<char>) -> Option<LuaTable> {
    match str_key_index(es, key) {
        Some(j) => if 0 <= j < es.len() {
            match es[j].1 {
                LuaNode::Table(t) => Some(t),
                _ => None,
            }
        } else {
            None
        },
        None => None,
    }
}

/// The document value of a runtime table: the null marker gives `Nil`; an
/// `Array` its values in key order; an `Object` its fields in key-list
/// order; a table of another class none; an untagged table with keys 1..N
/// an array in key order, and any other untagged table an object with
/// string keys, in the order the runtime walks them.
pub open spec fn table_value(t: LuaTable) -> Option<ValueModel>
    decreases t, 0int,
{
    let es = t.entries@;
    if class_is(t, "NullClass"@) {
        Some(ValueModel::Nil)
    } else if class_is(t, "Array"@) {
        match sequence_values(es) {
            Some(a) => Some(ValueModel::Array(a)),
            None => None,
        }
    } else if class_is(t, "Object"@) {
        match (table_at(es, "_keys"@), table_at(es, "_values"@)) {
            (Some(kt), Some(vt)) => match object_fields(kt.entries@, vt.entries@) {
                Some(o) => Some(ValueModel::Object(o)),
                None => None,
            },
            _ => None,
        }
    } else if t.class is Some {
        None
    } else if is_sequence(es) {
        match sequence_values(es) {
            Some(a) => Some(ValueModel::Array(a)),
            None => None,
        }
    } else {
        match string_fields(es) {
            Some(o) => Some(ValueModel::Object(o)),
            None => None,
        }
    }
}


proof fn lemma_values_by_key_none(es: Seq<(LuaNode, LuaNode)>, m: int, n: int)
    requires
        0 <= m <= n,
        values_by_key(es, m) is None,
    ensures
        values_by_key(es, n) is None,
    decreases n - m,
{
    if m < n {
        lemma_values_by_key_none(es, m + 1, n);
    }
}

proof fn lemma_string_fields_none(es: Seq<(LuaNode, LuaNode)>, n: int)
    requires
        0 <= n <= es.len(),
        string_fields(es.subrange(0, n)) is None,
    ensures
        string_fields(es) is None,
    decreases es.len() - n,
{
    if n < es.len() {
        assert(es.subrange(0, n + 1).drop_last() =~= es.subrange(0, n));
        lemma_string_fields_none(es, n + 1);
    } else {
        assert(es.subrange(0, n) =~= es);
    }
}

proof fn lemma_ordered_fields_none(
    keys: Seq<(LuaNode, LuaNode)>,
    vals: Seq<(LuaNode, LuaNode)>,
    m: int,
    n: int,
)
    requires
        0 <= m <= n,
        ordered_fields(keys, vals, m) is None,
    ensures
        ordered_fields(keys, vals, n) is None,
    decreases n - m,
{
    if m < n {
        lemma_ordered_fields_none(keys, vals, m + 1, n);
    }
}

fn node_is_str(n: &LuaNode, key: &String) -> (r: bool)
    ensures
        r == is_str(*n, key@),
{
    match n {
        LuaNode::Str(x) => *x == *key,
        _ => false,
    }
}

fn find_str_key(es: &Vec<(LuaNode, LuaNode)>, key: &String) -> (r: Option<usize>)
    ensures
        match r {
            Some(j) => str_key_index(es@, key@) == Some(j as int) && j < es@.len(),
            None => str_key_index(es@, key@) is None,
        },
{
    let mut i: usize = 0;
    while i < es.len()
        invariant
            i <= es@.len(),
            forall|k: int| 0 <= k < i ==> !is_str(#[trigger] es@[k].0, key@),
        decreases es@.len() - i,
    {
        if node_is_str(&es[i].0, key) {
            proof {
                lemma_str_key_index(es@, key@, i as int);
            }
            return Some(i);
        }
        i += 1;
    }
    None
}

fn has_class(t: &LuaTable, name: &str) -> (r: bool)
    ensures
        r == class_is(*t, name@),
{
    match &t.class {
        Some(c) => *c == String::from_str(name),
        None => false,
    }
}

/// The positions of the entries under the keys 1..N, in key order, where
/// the keys are exactly 1..N; `None` where they are not.
fn sequence_positions(es: &Vec<(LuaNode, LuaNode)>) -> (r: Option<Vec<usize>>)
    ensures
        match r {
            Some(p) => is_sequence(es@) && p@.len() == es@.len() && forall|i: int|
                0 <= i < p@.len() ==> is_first_int_key(es@, i + 1, #[trigger] p@[i] as int),
            None => !is_sequence(es@),
        },
{
    let n = es.len();
    let mut slots: Vec<Option<usize>> = Vec::new();
    let mut x: usize = 0;
    while x < n
        invariant
            x <= n,
            slots@.len() == x,
            forall|y: int| 0 <= y < x ==> #[trigger] slots@[y] is None,
        decreases n - x,
    {
        slots.push(None);
        x += 1;
    }
    let mut j: usize = 0;
    while j < n
        invariant
            n == es@.len(),
            slots@.len() == n,
            j <= n,
            forall|i: int|
                0 <= i < j ==> match #[trigger] es@[i].0 {
                    LuaNode::Integer(k) => 1 <= k <= n,
                    _ => false,
                },
            forall|y: int|
                0 <= y < n ==> match #[trigger] slots@[y] {
                    Some(p) => is_first_int_key(es@, y + 1, p as int) && p < j,
                    None => forall|i: int| 0 <= i < j ==> !#[trigger] has_int_key(es@, y + 1, i),
                },
        decreases n - j,
    {
        let k = match &es[j].0 {
            LuaNode::Integer(k) => *k,
            _ => {
                return None;
            },
        };
        if (k as i128) < 1 || (k as i128) > (n as i128) {
            return None;
        }
        let slot = (k - 1) as usize;
        let ghost old_slots = slots@;
        if slots[slot].is_none() {
            slots.set(slot, Some(j));
        }
        proof {
            assert forall|y: int| 0 <= y < n implies match #[trigger] slots@[y] {
                Some(p) => is_first_int_key(es@, y + 1, p as int) && p < j + 1,
                None => forall|i: int| 0 <= i < j + 1 ==> !#[trigger] has_int_key(es@, y + 1, i),
            } by {
                assert(old_slots[y] == slots@[y] || y == slot);
                match old_slots[y] {
                    Some(p) => {},
                    None => {
                        if y != slot {
                            assert(!has_int_key(es@, y + 1, j as int));
                        }
                    },
                }
            }
        }
        j += 1;
    }
    let mut out: Vec<usize> = Vec::new();
    let mut y: usize = 0;
    while y < n
        invariant
            n == es@.len(),
            slots@.len() == n,
            y <= n,
            out@.len() == y,
            forall|z: int|
                0 <= z < n ==> match #[trigger] slots@[z] {
                    Some(p) => is_first_int_key(es@, z + 1, p as int),
                    None => forall|i: int| 0 <= i < n ==> !#[trigger] has_int_key(es@, z + 1, i),
                },
            forall|z: int| 0 <= z < y ==> slots@[z] == Some(#[trigger] out@[z]),
        decreases n - y,
    {
        match slots[y] {
            Some(p) => {
                out.push(p);
            },
            None => {
                proof {
                    assert(!key_present(es@, y + 1));
                }
                return None;
            },
        }
        y += 1;
    }
    proof {
        assert forall|i: int| 0 <= i < out@.len() implies is_first_int_key(
            es@,
            i + 1,
            #[trigger] out@[i] as int,
        ) by {
            assert(slots@[i] == Some(out@[i]));
        }
        assert forall|k: int| 1 <= k <= n implies #[trigger] key_present(es@, k) by {
            assert(slots@[k - 1] == Some(out@[k - 1]));
            assert(has_int_key(es@, k, out@[k - 1] as int));
        }
    }
    Some(out)
}

/// The document values of a table keyed 1..N, in key order; see
/// `sequence_values`.
#[verifier::loop_isolation(false)]
fn convert_sequence_values(es: &Vec<(LuaNode, LuaNode)>, Ghost(parent): Ghost<LuaTable>) -> (r: Result<
    Vec<Value>,
    BridgeError,
>)
    requires
        decreases_to!(parent => *es),
    ensures
        match r {
            Ok(vs) => sequence_values(es@) == Some(models(vs@)),
            Err(_) => sequence_values(es@) is None,
        },
    decreases parent, 0int,
{
    let positions = match sequence_positions(es) {
        Some(p) => p,
        None => {
            return Err(BridgeError::Unsupported);
        },
    };
    let n = positions.len();
    let mut out: Vec<Value> = Vec::new();
    let mut i: usize = 0;
    while i < n
        invariant
            i <= n,
            values_by_key(es@, i as int) == Some(models(out@)),
        decreases n - i,
    {
        let p = positions[i];
        proof {
            assert(is_first_int_key(es@, i + 1, p as int));
            lemma_key_position(es@, i + 1, p as int);
            assert(decreases_to!(*es => es[p as int]));
        }
        let v = match node_to_value(&es[p].1) {
            Ok(v) => v,
            Err(e) => {
                proof {
                    lemma_values_by_key_none(es@, i + 1, n as int);
                }
                return Err(e);
            },
        };
        out.push(v);
        proof {
            assert(models(out@) =~= models(out@).drop_last().push(v@));
        }
        i += 1;
    }
    Ok(out)
}

/// The document value of a runtime value; see `node_value`.
pub fn node_to_value(n: &LuaNode) -> (r: Result<Value, BridgeError>)
    ensures
        match r {
            Ok(v) => node_value(*n) == Some(v@),
            Err(_) => node_value(*n) is None,
        },
    decreases n, 1int,
{
    match n {
        LuaNode::Nil => Ok(Value::Nil),
        LuaNode::Boolean(b) => Ok(Value::Boolean(*b)),
        LuaNode::Integer(i) => Ok(Value::Integer(*i)),
        LuaNode::Number(f) => Ok(Value::Float(f.clone())),
        LuaNode::Str(s) => Ok(Value::String(s.clone())),
        LuaNode::Table(t) => from_lua_table(t),
        LuaNode::Other => Err(BridgeError::Unsupported),
    }
}

/// The fields of a table whose keys must be strings; see `string_fields`.
#[verifier::loop_isolation(false)]
fn convert_string_fields(es: &Vec<(LuaNode, LuaNode)>, Ghost(parent): Ghost<LuaTable>) -> (r: Result<
    Vec<(String, Value)>,
    BridgeError,
>)
    requires
        decreases_to!(parent => *es),
    ensures
        match r {
            Ok(fs) => string_fields(es@) == Some(entry_models(fs@)),
            Err(_) => string_fields(es@) is None,
        },
    decreases parent, 0int,
{
    let mut out: Vec<(String, Value)> = Vec::new();
    let mut i: usize = 0;
    while i < es.len()
        invariant
            i <= es@.len(),
            string_fields(es@.subrange(0, i as int)) == Some(entry_models(out@)),
        decreases es@.len() - i,
    {
        proof {
            assert(es@.subrange(0, i + 1).drop_last() =~= es@.subrange(0, i as int));
            assert(es@.subrange(0, i + 1).last() == es@[i as int]);
            assert(decreases_to!(*es => es[i as int]));
        }
        let key = match &es[i].0 {
            LuaNode::Str(k) => k.clone(),
            _ => {
                proof {
                    lemma_string_fields_none(es@, i + 1);
                }
                return Err(BridgeError::Unsupported);
            },
        };
        let v = match node_to_value(&es[i].1) {
            Ok(v) => v,
            Err(e) => {
                proof {
                    lemma_string_fields_none(es@, i + 1);
                }
                return Err(e);
            },
        };
        let ghost old_out = entry_models(out@);
        out.push((key, v));
        proof {
            assert(entry_models(out@) =~= old_out.push((key@, v@)));
        }
        i += 1;
    }
    proof {
        assert(es@.subrange(0, es@.len() as int) =~= es@);
    }
    Ok(out)
}

/// The fields of an ordered object; see `object_fields`.
#[verifier::loop_isolation(false)]
fn convert_ordered_fields(
    keys: &Vec<(LuaNode, LuaNode)>,
    vals: &Vec<(LuaNode, LuaNode)>,
    Ghost(parent): Ghost<LuaTable>,
) -> (r: Result<Vec<(String, Value)>, BridgeError>)
    requires
        decreases_to!(parent => *vals),
    ensures
        match r {
            Ok(fs) => object_fields(keys@, vals@) == Some(entry_models(fs@)),
            Err(_) => object_fields(keys@, vals@) is None,
        },
    decreases parent, 0int,
{
    let positions = match sequence_positions(keys) {
        Some(p) => p,
        None => {
            return Err(BridgeError::Unsupported);
        },
    };
    let n = positions.len();
    let mut out: Vec<(String, Value)> = Vec::new();
    let mut i: usize = 0;
    while i < n
        invariant
            i <= n,
            ordered_fields(keys@, vals@, i as int) == Some(entry_models(out@)),
        decreases n - i,
    {
        let p = positions[i];
        proof {
            assert(is_first_int_key(keys@, i + 1, p as int));
            lemma_key_position(keys@, i + 1, p as int);
        }
        let key = match &keys[p].1 {
            LuaNode::Str(k) => k.clone(),
            _ => {
                proof {
                    lemma_ordered_fields_none(keys@, vals@, i + 1, n as int);
                }
                return Err(BridgeError::Unsupported);
            },
        };
        let j = match find_str_key(vals, &key) {
            Some(j) => j,
            None => {
                proof {
                    lemma_ordered_fields_none(keys@, vals@, i + 1, n as int);
                }
                return Err(BridgeError::Unsupported);
            },
        };
        proof {
            assert(decreases_to!(*vals => vals[j as int]));
        }
        let v = match node_to_value(&vals[j].1) {
            Ok(v) => v,
            Err(e) => {
                proof {
                    lemma_ordered_fields_none(keys@, vals@, i + 1, n as int);
                }
                return Err(e);
            },
        };
        let ghost old_out = entry_models(out@);
        out.push((key, v));
        proof {
            assert(entry_models(out@) =~= old_out.push((key@, v@)));
        }
        i += 1;
    }
    Ok(out)
}

/// The table held under a string key, if any; see `table_at`.
fn find_table<'a>(es: &'a Vec<(LuaNode, LuaNode)>, key: &str) -> (r: Option<&'a LuaTable>)
    ensures
        match r {
            Some(t) => table_at(es@, key@) == Some(*t) && decreases_to!(*es => *t),
            None => table_at(es@, key@) is None,
        },
{
    match find_str_key(es, &String::from_str(key)) {
        Some(j) => match &es[j].1 {
            LuaNode::Table(t) => {
                proof {
                    assert(decreases_to!(*es => es[j as int]));
                }
                Some(t)
            },
            _ => None,
        },
        None => None,
    }
}

/// The document value of a runtime table; see `table_value`.
pub fn from_lua_table(t: &LuaTable) -> (r: Result<Value, BridgeError>)
    ensures
        match r {
            Ok(v) => table_value(*t) == Some(v@),
            Err(_) => table_value(*t) is None,
        },
    decreases t, 1int,
{
    if has_class(t, "NullClass") {
        Ok(Value::Nil)
    } else if has_class(t, "Array") {
        Ok(Value::Array(convert_sequence_values(&t.entries, Ghost(*t))?))
    } else if has_class(t, "Object") {
        match (find_table(&t.entries, "_keys"), find_table(&t.entries, "_values")) {
            (Some(kt), Some(vt)) => {
                proof {
                    assert(decreases_to!(*t => t.entries));
                    assert(decreases_to!(*vt => vt.entries));
                }
                Ok(Value::Object(convert_ordered_fields(&kt.entries, &vt.entries, Ghost(*t))?))
            },
            _ => Err(BridgeError::Unsupported),
        }
    } else if t.class.is_some() {
        Err(BridgeError::Unsupported)
    } else if sequence_positions(&t.entries).is_some() {
        Ok(Value::Array(convert_sequence_values(&t.entries, Ghost(*t))?))
    } else {
        Ok(Value::Object(convert_string_fields(&t.entries, Ghost(*t))?))
    }
}


/// The values that a script handed to `set_output`, in order: the document
/// value of the outputs table, which must be an array.
pub open spec fn outputs_spec(t: LuaTable) -> Option<Seq<ValueModel>> {
    match table_value(t) {
        Some(ValueModel::Array(a)) => Some(a),
        _ => None,
    }
}

/// Reads the values that a script handed to `set_output`, in order.
pub fn extract_outputs(outputs: &LuaTable) -> (r: Result<Vec<Value>, BridgeError>)
    ensures
        match r {
            Ok(vs) => outputs_spec(*outputs) == Some(models(vs@)),
            Err(_) => outputs_spec(*outputs) is None,
        },
{
    match from_lua_table(outputs)? {
        Value::Array(vs) => Ok(vs),
        _ => Err(BridgeError::Unsupported),
    }
}

/// The text of one rendered piece: a boolean, an integer, a string, or the
/// null marker; anything else has none.
pub open spec fn piece_text(n: LuaNode) -> Option<Seq<char>> {
    match n {
        LuaNode::Boolean(b) => Some(if b { "true"@ } else { "false"@ }),
        LuaNode::Integer(i) => Some(decimal_spec(i as int)),
        LuaNode::Str(x) => Some(x@),
        LuaNode::Table(t) => if class_is(t, "NullClass"@) {
            Some("null"@)
        } else {
            None
        },
        _ => None,
    }
}

/// The texts of the values under the integer keys 1..m, joined in key order.
pub open spec fn rendered_by_key(es: Seq<(LuaNode, LuaNode)>, m: int) -> Option<Seq<char>>
    decreases m,
{
    if m <= 0 {
        Some(Seq::empty())
    } else {
        let j = key_position(es, m);
        match rendered_by_key(es, m - 1) {
            Some(a) => if 0 <= j < es.len() {
                match piece_text(es[j].1) {
                    Some(p) => Some(a + p),
                    None => None,
                }
            } else {
                None
            },
            None => None,
        }
    }
}

/// The rendered text of a buffer table keyed 1..N: the texts of its values,
/// joined in key order; `None` where the keys are not 1..N.
pub open spec fn rendered_spec(es: Seq<(LuaNode, LuaNode)>) -> Option<Seq<char>> {
    if is_sequence(es) {
        rendered_by_key(es, es.len() as int)
    } else {
        None
    }
}

proof fn lemma_rendered_none(es: Seq<(LuaNode, LuaNode)>, m: int, n: int)
    requires
        0 <= m <= n,
        rendered_by_key(es, m) is None,
    ensures
        rendered_by_key(es, n) is None,
    decreases n - m,
{
    if m < n {
        lemma_rendered_none(es, m + 1, n);
    }
}

/// The rendered text of a template's buffer table; see `rendered_spec`.
pub fn from_processed_template(table: &LuaTable) -> (r: Result<String, BridgeError>)
    ensures
        match r {
            Ok(text) => rendered_spec(table.entries@) == Some(text@),
            Err(_) => rendered_spec(table.entries@) is None,
        },
{
    let es = &table.entries;
    let positions = match sequence_positions(es) {
        Some(p) => p,
        None => {
            return Err(BridgeError::Unsupported);
        },
    };
    let n = positions.len();
    let mut out = String::new();
    let mut i: usize = 0;
    while i < n
        invariant
            i <= n,
            n == es@.len(),
            es@ == table.entries@,
            positions@.len() == n,
            forall|k: int|
                0 <= k < n ==> is_first_int_key(es@, k + 1, #[trigger] positions@[k] as int),
            rendered_by_key(es@, i as int) == Some(out@),
        decreases n - i,
    {
        let p = positions[i];
        proof {
            assert(is_first_int_key(es@, i + 1, p as int));
            lemma_key_position(es@, i + 1, p as int);
        }
        match &es[p].1 {
            LuaNode::Boolean(b) => {
                if *b {
                    out.append("true");
                } else {
                    out.append("false");
                }
            },
            LuaNode::Integer(x) => push_decimal(&mut out, *x),
            LuaNode::Str(x) => out.append(x.as_str()),
            LuaNode::Table(t) => {
                if has_class(t, "NullClass") {
                    out.append("null");
                } else {
                    proof {
                        lemma_rendered_none(es@, i + 1, n as int);
                    }
                    return Err(BridgeError::Unsupported);
                }
            },
            _ => {
                proof {
                    lemma_rendered_none(es@, i + 1, n as int);
                }
                return Err(BridgeError::Unsupported);
            },
        }
        i += 1;
    }
    Ok(out)
}

/// Whether the node is the integer 1.
pub open spec fn is_one(n: LuaNode) -> bool {
    match n {
        LuaNode::Integer(k) => k == 1,
        _ => false,
    }
}

/// Whether `j` is the position of the first entry whose key is 1.
pub open spec fn is_first_one(es: Seq<(LuaNode, LuaNode)>, j: int) -> bool {
    &&& 0 <= j < es.len()
    &&& is_one(es[j].0)
    &&& forall|k: int| 0 <= k < j ==> !is_one(#[trigger] es[k].0)
}

/// The text that a rendering script produced: its first output, the value
/// under the key 1 of the outputs table, must be a buffer table.
pub open spec fn rendered_output_spec(es: Seq<(LuaNode, LuaNode)>) -> Option<Seq<char>> {
    if exists|j: int| is_first_one(es, j) {
        match es[choose|j: int| is_first_one(es, j)].1 {
            LuaNode::Table(t) => rendered_spec(t.entries@),
            _ => None,
        }
    } else {
        None
    }
}

/// Reads the text that a rendering script produced; see `rendered_output_spec`.
pub fn rendered_output(outputs: &LuaTable) -> (r: Result<String, BridgeError>)
    ensures
        match r {
            Ok(text) => rendered_output_spec(outputs.entries@) == Some(text@),
            Err(_) => rendered_output_spec(outputs.entries@) is None,
        },
{
    let es = &outputs.entries;
    let mut i: usize = 0;
    while i < es.len()
        invariant
            i <= es@.len(),
            es@ == outputs.entries@,
            forall|k: int| 0 <= k < i ==> !is_one(#[trigger] es@[k].0),
        decreases es@.len() - i,
    {
        let one = match &es[i].0 {
            LuaNode::Integer(k) => *k == 1,
            _ => false,
        };
        if one {
            proof {
                assert(is_first_one(es@, i as int));
                let c = choose|c: int| is_first_one(es@, c);
                assert(is_first_one(es@, c));
                if c < i {
                    assert(!is_one(es@[c].0));
                } else if i < c {
                    assert(!is_one(es@[i as int].0));
                }
            }
            return match &es[i].1 {
                LuaNode::Table(t) => from_processed_template(t),
                _ => Err(BridgeError::Unsupported),
            };
        }
        i += 1;
    }
    Err(BridgeError::Unsupported)
}

} // verus!
