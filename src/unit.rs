use vstd::prelude::*;

use crate::text::chars_of;

verus! {

broadcast use vstd::seq::group_seq_axioms;

/// The lower-case form of an ASCII letter; any other character is kept.
pub open spec fn ascii_lower(c: char) -> char {
    if 'A' <= c && c <= 'Z' {
        ((c as u32) + 32) as char
    } else {
        c
    }
}

/// Whether `s` ends with `suffix`, ignoring ASCII case (`suffix` is lower case).
pub open spec fn ends_with_ci(s: Seq<char>, suffix: Seq<char>) -> bool {
    &&& suffix.len() <= s.len()
    &&& forall|i: int|
        0 <= i < suffix.len() ==> ascii_lower(#[trigger] s[s.len() - suffix.len() + i])
            == suffix[i]
}

/// Whether `s` equals `word`, ignoring ASCII case (`word` is lower case).
pub open spec fn eq_ci(s: Seq<char>, word: Seq<char>) -> bool {
    &&& s.len() == word.len()
    &&& forall|i: int| 0 <= i < s.len() ==> ascii_lower(#[trigger] s[i]) == word[i]
}

pub fn to_ascii_lower(c: char) -> (r: char)
    ensures
        r == ascii_lower(c),
{
    if 'A' <= c && c <= 'Z' {
        ((c as u32) + 32) as u8 as char
    } else {
        c
    }
}

/// Whether the characters end with `suffix`, ignoring ASCII case.
pub fn chars_end_with_ci(cs: &Vec<char>, suffix: &str) -> (r: bool)
    ensures
        r == ends_with_ci(cs@, suffix@),
{
    let n = suffix.unicode_len();
    if n > cs.len() {
        return false;
    }
    let total = cs.len();
    let base = total - n;
    let mut i: usize = 0;
    while i < n
        invariant
            total == cs@.len(),
            n == suffix@.len(),
            base == cs@.len() - n,
            n <= cs@.len(),
            i <= n,
            forall|j: int| 0 <= j < i ==> ascii_lower(#[trigger] cs@[base + j]) == suffix@[j],
        decreases n - i,
    {
        if to_ascii_lower(cs[base + i]) != suffix.get_char(i) {
            return false;
        }
        i += 1;
    }
    true
}

/// Whether the characters equal `word`, ignoring ASCII case.
pub fn chars_eq_ci(cs: &Vec<char>, word: &str) -> (r: bool)
    ensures
        r == eq_ci(cs@, word@),
{
    let n = word.unicode_len();
    if n != cs.len() {
        return false;
    }
    let mut i: usize = 0;
    while i < n
        invariant
            n == word@.len(),
            n == cs@.len(),
            i <= n,
            forall|j: int| 0 <= j < i ==> ascii_lower(#[trigger] cs@[j]) == word@[j],
        decreases n - i,
    {
        if to_ascii_lower(cs[i]) != word.get_char(i) {
            return false;
        }
        i += 1;
    }
    true
}

/// The format of a file.
#[derive(Debug, PartialEq, Eq, Clone, Copy)]
pub enum FileFormat {
    Plain,
    Json,
    Lua,
    Toml,
    Yaml,
}

/// The format that a path's extension names, ignoring case; `Plain` for
/// any other extension.
pub open spec fn format_for_path(p: Seq<char>) -> FileFormat {
    if ends_with_ci(p, ".json"@) {
        FileFormat::Json
    } else if ends_with_ci(p, ".lua"@) {
        FileFormat::Lua
    } else if ends_with_ci(p, ".toml"@) {
        FileFormat::Toml
    } else if ends_with_ci(p, ".yaml"@) {
        FileFormat::Yaml
    } else {
        FileFormat::Plain
    }
}

/// The format that a format name gives, if it names one.
pub open spec fn format_for_name(s: Seq<char>) -> Option<FileFormat> {
    if s == "plain"@ {
        Some(FileFormat::Plain)
    } else if s == "json"@ {
        Some(FileFormat::Json)
    } else if s == "lua"@ {
        Some(FileFormat::Lua)
    } else if s == "toml"@ {
        Some(FileFormat::Toml)
    } else if s == "yaml"@ {
        Some(FileFormat::Yaml)
    } else {
        None
    }
}

impl Default for FileFormat {
    fn default() -> (r: FileFormat)
        ensures
            r == FileFormat::Plain,
    {
        FileFormat::Plain
    }
}

fn str_eq(a: &str, b: &str) -> (r: bool)
    ensures
        r == (a@ == b@),
{
    String::from_str(a) == String::from_str(b)
}

impl FileFormat {
    /// The format that a path's extension names; see `format_for_path`.
    pub fn for_path(path: &str) -> (r: FileFormat)
        ensures
            r == format_for_path(path@),
    {
        let cs = chars_of(path);
        if chars_end_with_ci(&cs, ".json") {
            FileFormat::Json
        } else if chars_end_with_ci(&cs, ".lua") {
            FileFormat::Lua
        } else if chars_end_with_ci(&cs, ".toml") {
            FileFormat::Toml
        } else if chars_end_with_ci(&cs, ".yaml") {
            FileFormat::Yaml
        } else {
            FileFormat::Plain
        }
    }

    /// The format of a format name; see `format_for_name`.
    pub fn for_str(format: &str) -> (r: Result<FileFormat, ()>)
        ensures
            match r {
                Ok(f) => format_for_name(format@) == Some(f),
                Err(_) => format_for_name(format@) is None,
            },
    {
        if str_eq(format, "plain") {
            Ok(FileFormat::Plain)
        } else if str_eq(format, "json") {
            Ok(FileFormat::Json)
        } else if str_eq(format, "lua") {
            Ok(FileFormat::Lua)
        } else if str_eq(format, "toml") {
            Ok(FileFormat::Toml)
        } else if str_eq(format, "yaml") {
            Ok(FileFormat::Yaml)
        } else {
            Err(())
        }
    }
}


/// How the text of an inline document is read.
#[derive(Debug, PartialEq, Eq, Clone, Copy)]
pub enum DocumentHint {
    Any,
    Nil,
    Boolean,
    Integer,
    Float,
    String,
    Lua,
}

/// The hint that a hint name gives: a one-letter name as it is written, a
/// longer one ignoring ASCII case.
pub open spec fn hint_for_name(h: Seq<char>) -> Option<DocumentHint> {
    if h.len() <= 1 {
        if h == "_"@ {
            Some(DocumentHint::Any)
        } else if h == "N"@ {
            Some(DocumentHint::Nil)
        } else if h == "B"@ {
            Some(DocumentHint::Boolean)
        } else if h == "I"@ {
            Some(DocumentHint::Integer)
        } else if h == "F"@ {
            Some(DocumentHint::Float)
        } else if h == "S"@ {
            Some(DocumentHint::String)
        } else if h == "L"@ {
            Some(DocumentHint::Lua)
        } else {
            None
        }
    } else if eq_ci(h, "any"@) {
        Some(DocumentHint::Any)
    } else if eq_ci(h, "nil"@) {
        Some(DocumentHint::Nil)
    } else if eq_ci(h, "boolean"@) {
        Some(DocumentHint::Boolean)
    } else if eq_ci(h, "integer"@) {
        Some(DocumentHint::Integer)
    } else if eq_ci(h, "float"@) {
        Some(DocumentHint::Float)
    } else if eq_ci(h, "string"@) {
        Some(DocumentHint::String)
    } else if eq_ci(h, "lua"@) {
        Some(DocumentHint::Lua)
    } else {
        None
    }
}

impl DocumentHint {
    /// The hint of a hint name; see `hint_for_name`.
    pub fn for_str(hint: &str) -> (r: Result<DocumentHint, ()>)
        ensures
            match r {
                Ok(h) => hint_for_name(hint@) == Some(h),
                Err(_) => hint_for_name(hint@) is None,
            },
    {
        let cs = chars_of(hint);
        if cs.len() <= 1 {
            if str_eq(hint, "_") {
                Ok(DocumentHint::Any)
            } else if str_eq(hint, "N") {
                Ok(DocumentHint::Nil)
            } else if str_eq(hint, "B") {
                Ok(DocumentHint::Boolean)
            } else if str_eq(hint, "I") {
                Ok(DocumentHint::Integer)
            } else if str_eq(hint, "F") {
                Ok(DocumentHint::Float)
            } else if str_eq(hint, "S") {
                Ok(DocumentHint::String)
            } else if str_eq(hint, "L") {
                Ok(DocumentHint::Lua)
            } else {
                Err(())
            }
        } else if chars_eq_ci(&cs, "any") {
            Ok(DocumentHint::Any)
        } else if chars_eq_ci(&cs, "nil") {
            Ok(DocumentHint::Nil)
        } else if chars_eq_ci(&cs, "boolean") {
            Ok(DocumentHint::Boolean)
        } else if chars_eq_ci(&cs, "integer") {
            Ok(DocumentHint::Integer)
        } else if chars_eq_ci(&cs, "float") {
            Ok(DocumentHint::Float)
        } else if chars_eq_ci(&cs, "string") {
            Ok(DocumentHint::String)
        } else if chars_eq_ci(&cs, "lua") {
            Ok(DocumentHint::Lua)
        } else {
            Err(())
        }
    }
}

/// An inline document: its hint and its text.
#[derive(Debug)]
pub struct UnitDocument {
    pub hint: DocumentHint,
    pub content: String,
}

impl UnitDocument {
    pub fn new(hint: DocumentHint, content: &str) -> (r: UnitDocument)
        ensures
            r.hint == hint,
            r.content@ == content@,
    {
        UnitDocument { hint, content: String::from_str(content) }
    }

    /// A document whose hint is given by name; fails where the name is no hint.
    pub fn for_hint(hint: &str, content: &str) -> (r: Result<UnitDocument, ()>)
        ensures
            match r {
                Ok(d) => hint_for_name(hint@) == Some(d.hint) && d.content@ == content@,
                Err(_) => hint_for_name(hint@) is None,
            },
    {
        let hint = DocumentHint::for_str(hint)?;
        Ok(UnitDocument::new(hint, content))
    }
}

/// A file read as input or written as output, with its format and flags.
#[derive(Debug)]
pub struct UnitFile {
    pub path: String,
    pub format: FileFormat,
    /// The closing `...` of a YAML document.
    pub dots: Option<bool>,
    /// A line break at the end of the output.
    pub eol: Option<bool>,
    /// Scalar fields before tables, for TOML.
    pub fix: Option<bool>,
    /// Pretty printing, for JSON.
    pub pretty: Option<bool>,
    /// The number of documents in the file; negative for as many as there are.
    pub stream: Option<isize>,
}

impl UnitFile {
    /// A file whose format its path's extension gives, with no flags.
    pub fn for_path(path: &str) -> (r: UnitFile)
        ensures
            r.path@ == path@,
            r.format == format_for_path(path@),
            r.dots is None && r.eol is None && r.fix is None,
            r.pretty is None && r.stream is None,
    {
        UnitFile {
            path: String::from_str(path),
            format: FileFormat::for_path(path),
            dots: None,
            eol: None,
            fix: None,
            pretty: None,
            stream: None,
        }
    }

    /// A file of the given format, with an empty path and no flags.
    pub fn for_format(format: FileFormat) -> (r: UnitFile)
        ensures
            r.path@ == Seq::<char>::empty(),
            r.format == format,
            r.dots is None && r.eol is None && r.fix is None,
            r.pretty is None && r.stream is None,
    {
        UnitFile {
            path: String::new(),
            format,
            dots: None,
            eol: None,
            fix: None,
            pretty: None,
            stream: None,
        }
    }

    pub fn has_dots(&self) -> (r: bool)
        ensures
            r == (self.dots == Some(true)),
    {
        matches!(self.dots, Some(true))
    }

    pub fn has_eol(&self) -> (r: bool)
        ensures
            r == (self.eol == Some(true)),
    {
        matches!(self.eol, Some(true))
    }

    pub fn has_fix(&self) -> (r: bool)
        ensures
            r == (self.fix == Some(true)),
    {
        matches!(self.fix, Some(true))
    }

    pub fn has_pretty(&self) -> (r: bool)
        ensures
            r == (self.pretty == Some(true)),
    {
        matches!(self.pretty, Some(true))
    }

    pub fn has_stream(&self) -> (r: bool)
        ensures
            r == (self.stream is Some),
    {
        self.stream.is_some()
    }
}

/// The argument of a command: a path for `Render` and `Transform`, a depth
/// for `Merge`.
#[derive(Debug)]
pub struct UnitCommand {
    pub path: Option<String>,
    pub depth: Option<isize>,
}

impl UnitCommand {
    pub fn for_path(path: &str) -> (r: UnitCommand)
        ensures
            r.path matches Some(p) && p@ == path@,
            r.depth is None,
    {
        UnitCommand { path: Some(String::from_str(path)), depth: None }
    }

    pub fn for_depth(depth: Option<isize>) -> (r: UnitCommand)
        ensures
            r.path is None,
            r.depth == depth,
    {
        UnitCommand { path: None, depth }
    }
}

/// One step of a pipeline: a source, or a command.
#[derive(Debug)]
pub enum Unit {
    Document(UnitDocument),
    File(UnitFile),
    Check,
    Concat,
    Copy,
    Merge(UnitCommand),
    Pack,
    Unpack,
    Render(UnitCommand),
    Transform(UnitCommand),
}

} // verus!
