use vstd::prelude::*;

use crate::lua::{decimal_spec, push_decimal};
use crate::text::{chars_of, option_view};
use crate::unit::{chars_eq_ci, eq_ci, DocumentHint};
use crate::value::{Value, ValueModel};

verus! {

broadcast use vstd::seq::group_seq_axioms;

/// The pattern of integer-shaped text.
pub const INTEGER_PATTERN: &'static str = "^[+-]?[0-9]+$";

/// The pattern of float-shaped text.
pub const FLOAT_PATTERN: &'static str = "^[+-]?([0-9]+([.][0-9]*)?|[.][0-9]+)$";

/// Whether the regular expression `pattern` compiles and matches somewhere
/// in `haystack`.
pub uninterp spec fn regex_is_match(pattern: Seq<char>, haystack: Seq<char>) -> bool;

/// Relies on `regex::Regex::new`, which compiles the pattern, and on
/// `regex::Regex::is_match`, which tells whether it matches the text; a
/// pattern that does not compile matches nothing.
#[verifier::external_body]
fn regex_matches(pattern: &str, text: &str) -> (r: bool)
    ensures
        r == regex_is_match(pattern@, text@),
{
    match regex::Regex::new(pattern) {
        Ok(re) => re.is_match(text),
        Err(_) => false,
    }
}

pub open spec fn is_digit(c: char) -> bool {
    '0' <= c && c <= '9'
}

/// The value of a run of decimal digits.
pub open spec fn digits_value(s: Seq<char>) -> int
    decreases s.len(),
{
    if s.len() == 0 {
        0
    } else {
        digits_value(s.drop_last()) * 10 + (s.last() as int - '0' as int)
    }
}

/// The 64-bit integer that a text writes: an optional `+` or `-`, then one
/// or more decimal digits and nothing else, in range.
pub open spec fn i64_text(s: Seq<char>) -> Option<i64> {
    let signed = s.len() > 0 && (s[0] == '-' || s[0] == '+');
    let ds = if signed { s.drop_first() } else { s };
    let v = if signed && s[0] == '-' { -digits_value(ds) } else { digits_value(ds) };
    if ds.len() > 0 && (forall|i: int| 0 <= i < ds.len() ==> is_digit(#[trigger] ds[i])) && i64::MIN
        <= v <= i64::MAX {
        Some(v as i64)
    } else {
        None
    }
}

/// Relies on `i64::from_str`, which accepts an optional sign followed by
/// decimal digits, and nothing else, whose value is in range.
#[verifier::external_body]
fn parse_i64(s: &str) -> (r: Option<i64>)
    ensures
        r == i64_text(s@),
{
    s.parse::<i64>().ok()
}

/// Why an inline document has no value.
#[derive(Debug, PartialEq, Eq, Clone, Copy)]
pub enum DocumentError {
    /// The text does not match its hint.
    Decode,
    /// The hint asks for a script to be run.
    NeedsScript,
}

/// The boolean that a text names, ignoring ASCII case: `true` or `on`,
/// `false` or `off`.
pub open spec fn boolean_text(s: Seq<char>) -> Option<bool> {
    if eq_ci(s, "false"@) || eq_ci(s, "off"@) {
        Some(false)
    } else if eq_ci(s, "true"@) || eq_ci(s, "on"@) {
        Some(true)
    } else {
        None
    }
}

/// The integer of a text, or a decode error.
pub open spec fn integer_document(s: Seq<char>) -> Result<ValueModel, DocumentError> {
    match i64_text(s) {
        Some(i) => Ok(ValueModel::Integer(i as int)),
        None => Err(DocumentError::Decode),
    }
}

/// The float of a text, from its decimal text where it parses, or a decode error.
pub open spec fn float_document(float_text: Option<Seq<char>>) -> Result<ValueModel, DocumentError> {
    match float_text {
        Some(t) => Ok(ValueModel::Float(t)),
        None => Err(DocumentError::Decode),
    }
}

/// The value of an inline document. `integer_shaped` and `float_shaped` tell
/// whether the text matches `INTEGER_PATTERN` and `FLOAT_PATTERN`;
/// `float_text` is the decimal text of the float that the text parses to, if
/// it parses as one.
pub open spec fn document_spec(
    hint: DocumentHint,
    s: Seq<char>,
    integer_shaped: bool,
    float_shaped: bool,
    float_text: Option<Seq<char>>,
) -> Result<ValueModel, DocumentError> {
    match hint {
        DocumentHint::Any => if s == "~"@ {
            Ok(ValueModel::Nil)
        } else if boolean_text(s) is Some {
            Ok(ValueModel::Boolean(boolean_text(s)->0))
        } else if integer_shaped {
            integer_document(s)
        } else if float_shaped {
            float_document(float_text)
        } else {
            Ok(ValueModel::Str(s))
        },
        DocumentHint::Nil => if s == "~"@ {
            Ok(ValueModel::Nil)
        } else {
            Err(DocumentError::Decode)
        },
        DocumentHint::Boolean => match boolean_text(s) {
            Some(b) => Ok(ValueModel::Boolean(b)),
            None => Err(DocumentError::Decode),
        },
        DocumentHint::Integer => integer_document(s),
        DocumentHint::Float => float_document(float_text),
        DocumentHint::String => Ok(ValueModel::Str(s)),
        DocumentHint::Lua => Err(DocumentError::NeedsScript),
    }
}

/// The view of a document result.
pub open spec fn document_result(r: Result<Value, DocumentError>) -> Result<ValueModel, DocumentError> {
    match r {
        Ok(v) => Ok(v@),
        Err(e) => Err(e),
    }
}

fn boolean_of(cs: &Vec<char>) -> (r: Option<bool>)
    ensures
        r == boolean_text(cs@),
{
    if chars_eq_ci(cs, "false") || chars_eq_ci(cs, "off") {
        Some(false)
    } else if chars_eq_ci(cs, "true") || chars_eq_ci(cs, "on") {
        Some(true)
    } else {
        None
    }
}

fn integer_of(content: &str) -> (r: Result<Value, DocumentError>)
    ensures
        document_result(r) == integer_document(content@),
{
    match parse_i64(content) {
        Some(i) => Ok(Value::Integer(i)),
        None => Err(DocumentError::Decode),
    }
}

fn float_of(float_text: &Option<String>) -> (r: Result<Value, DocumentError>)
    ensures
        document_result(r) == float_document(option_view(*float_text)),
{
    match float_text {
        Some(t) => Ok(Value::Float(t.clone())),
        None => Err(DocumentError::Decode),
    }
}

/// The value of an inline document, given what the patterns and the float
/// parse say of its text; see `document_spec`.
pub fn document_value(
    hint: DocumentHint,
    content: &str,
    integer_shaped: bool,
    float_shaped: bool,
    float_text: &Option<String>,
) -> (r: Result<Value, DocumentError>)
    ensures
        document_result(r) == document_spec(
            hint,
            content@,
            integer_shaped,
            float_shaped,
            option_view(*float_text),
        ),
{
    let cs = chars_of(content);
    let tilde = content.unicode_len() == 1 && content.get_char(0) == '~';
    proof {
        reveal_strlit("~");
        assert(tilde == (content@ =~= "~"@));
    }
    match hint {
        DocumentHint::Any => {
            if tilde {
                Ok(Value::Nil)
            } else if let Some(b) = boolean_of(&cs) {
                Ok(Value::Boolean(b))
            } else if integer_shaped {
                integer_of(content)
            } else if float_shaped {
                float_of(float_text)
            } else {
                Ok(Value::String(String::from_str(content)))
            }
        },
        DocumentHint::Nil => if tilde {
            Ok(Value::Nil)
        } else {
            Err(DocumentError::Decode)
        },
        DocumentHint::Boolean => match boolean_of(&cs) {
            Some(b) => Ok(Value::Boolean(b)),
            None => Err(DocumentError::Decode),
        },
        DocumentHint::Integer => integer_of(content),
        DocumentHint::Float => float_of(float_text),
        DocumentHint::String => Ok(Value::String(String::from_str(content))),
        DocumentHint::Lua => Err(DocumentError::NeedsScript),
    }
}

/// The value of an inline document: for `Any`, the patterns are matched
/// against the text; see `document_spec`. `float_text` is the decimal text
/// of the float that the text parses to, if it parses as one.
pub fn create_document(hint: DocumentHint, content: &str, float_text: &Option<String>) -> (r: Result<
    Value,
    DocumentError,
>)
    ensures
        document_result(r) == document_spec(
            hint,
            content@,
            regex_is_match(INTEGER_PATTERN@, content@),
            regex_is_match(FLOAT_PATTERN@, content@),
            option_view(*float_text),
        ),
{
    match hint {
        DocumentHint::Any => {
            let integer_shaped = regex_matches(INTEGER_PATTERN, content);
            let float_shaped = regex_matches(FLOAT_PATTERN, content);
            document_value(hint, content, integer_shaped, float_shaped, float_text)
        },
        _ => document_value(hint, content, false, false, float_text),
    }
}

/// The script that evaluates a document's text as an expression and hands
/// the result to the context.
pub open spec fn expression_script(s: Seq<char>) -> Seq<char> {
    "ctx:set_output("@ + s + ")\n"@
}

/// The script that evaluates a document's text as an expression and hands
/// the result to the context; see `expression_script`.
pub fn lua_document_source(content: &str) -> (r: String)
    ensures
        r@ == expression_script(content@),
{
    let mut out = String::from_str("ctx:set_output(");
    out.append(content);
    out.append(")\n");
    out
}

/// The plain text of a scalar: `~` for nil, `true` or `false`, the decimal
/// text of a number, or the string itself; arrays and objects have none.
pub open spec fn plain_spec(v: ValueModel) -> Option<Seq<char>> {
    match v {
        ValueModel::Nil => Some("~"@),
        ValueModel::Boolean(b) => Some(if b { "true"@ } else { "false"@ }),
        ValueModel::Integer(i) => Some(decimal_spec(i)),
        ValueModel::Float(f) => Some(f),
        ValueModel::Str(s) => Some(s),
        _ => None,
    }
}

/// The plain text of a scalar; see `plain_spec`.
pub fn plain_text(v: &Value) -> (r: Option<String>)
    ensures
        option_view(r) == plain_spec(v@),
{
    match v {
        Value::Nil => Some(String::from_str("~")),
        Value::Boolean(b) => Some(String::from_str(if *b { "true" } else { "false" })),
        Value::Integer(i) => {
            let mut out = String::new();
            push_decimal(&mut out, *i);
            proof {
                assert(out@ =~= decimal_spec(*i as int));
            }
            Some(out)
        },
        Value::Float(f) => Some(f.clone()),
        Value::String(s) => Some(s.clone()),
        _ => None,
    }
}

} // verus!
