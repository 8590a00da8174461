use vstd::prelude::*;

use crate::lua::{push_quoted, quote_spec};
use crate::text::{all_white_space, chars_of, is_blank, string_from, trim_spec, trim_str};

verus! {

broadcast use vstd::seq::group_seq_axioms;

/// A lexical unit of a template, as a mathematical value.
pub enum TokenModel {
    Text(Seq<char>),
    NewLine,
    Expression(Seq<char>),
    Statement(Seq<char>, bool, bool),
}

/// A lexical unit of a template: literal text, a line break, an expression
/// tag `<%= ... %>`, or a statement tag `<% ... %>` with its trim flags
/// (`<%-` trims before, `-%>` trims after).
#[derive(Debug, PartialEq)]
pub enum Token {
    Text(String),
    NewLine,
    Expression(String),
    Statement { source: String, trim_before: bool, trim_after: bool },
}

impl View for Token {
    type V = TokenModel;

    open spec fn view(&self) -> TokenModel {
        match self {
            Token::Text(t) => TokenModel::Text(t@),
            Token::NewLine => TokenModel::NewLine,
            Token::Expression(e) => TokenModel::Expression(e@),
            Token::Statement { source, trim_before, trim_after } => TokenModel::Statement(
                source@,
                *trim_before,
                *trim_after,
            ),
        }
    }
}

/// The models of a sequence of tokens.
pub open spec fn token_models(ts: Seq<Token>) -> Seq<TokenModel> {
    ts.map_values(|t: Token| t@)
}

/// Why a template cannot be compiled.
#[derive(Debug, PartialEq)]
pub enum TemplateError {
    /// A tag opened with `<%` has no closing `%>`.
    UnterminatedTag,
}

/// Whether the token is text made only of white space.
pub open spec fn is_blank_text(t: TokenModel) -> bool {
    match t {
        TokenModel::Text(x) => all_white_space(x),
        _ => false,
    }
}

/// Whether the token is a statement that trims the text before it.
pub open spec fn trims_before(t: TokenModel) -> bool {
    match t {
        TokenModel::Statement(_, tb, _) => tb,
        _ => false,
    }
}

/// Whether the token is a statement that trims the text after it.
pub open spec fn trims_after(t: TokenModel) -> bool {
    match t {
        TokenModel::Statement(_, _, ta) => ta,
        _ => false,
    }
}

/// Whether the token at `i` is blank text that a neighbouring statement trims.
pub open spec fn is_trimmed(ts: Seq<TokenModel>, i: int) -> bool {
    &&& is_blank_text(ts[i])
    &&& ((i + 1 < ts.len() && trims_before(ts[i + 1])) || (i > 0 && trims_after(ts[i - 1])))
}

/// The line break that ends a line whose kept tokens are `line`: none where
/// the line is a lone statement that trims after it.
pub open spec fn line_break(line: Seq<TokenModel>) -> Seq<TokenModel> {
    if line.len() == 1 && trims_after(line[0]) {
        Seq::empty()
    } else {
        seq![TokenModel::NewLine]
    }
}

/// The trimmed tokens from position `i` on, where `line` holds the kept
/// tokens of the current line before `i`.
pub open spec fn trim_from(ts: Seq<TokenModel>, i: int, line: Seq<TokenModel>) -> Seq<TokenModel>
    decreases ts.len() - i,
{
    if i < 0 || i >= ts.len() {
        line
    } else if ts[i] is NewLine {
        line + line_break(line) + trim_from(ts, i + 1, Seq::empty())
    } else if is_trimmed(ts, i) {
        trim_from(ts, i + 1, line)
    } else {
        trim_from(ts, i + 1, line.push(ts[i]))
    }
}

/// The tokens after the trim pass: blank text beside a trimming statement is
/// dropped, and a line that is only a statement trimming after it loses its
/// line break.
pub open spec fn trim_spec_tokens(ts: Seq<TokenModel>) -> Seq<TokenModel> {
    trim_from(ts, 0, Seq::empty())
}

/// The script source for one token.
pub open spec fn token_source(t: TokenModel) -> Seq<char> {
    match t {
        TokenModel::Text(x) => "table.insert(_sb, "@ + quote_spec(x) + ")\n"@,
        TokenModel::NewLine => "table.insert(_sb, \"\\n\")\n"@,
        TokenModel::Expression(e) => "table.insert(_sb, "@ + e + ")\n"@,
        TokenModel::Statement(src, _, _) => src + "\n"@,
    }
}

/// The script source for a sequence of tokens.
pub open spec fn tokens_source(ts: Seq<TokenModel>) -> Seq<char>
    decreases ts.len(),
{
    if ts.len() == 0 {
        Seq::empty()
    } else {
        tokens_source(ts.drop_last()) + token_source(ts.last())
    }
}

/// The program for a sequence of tokens: it fills a buffer and hands it to
/// the context as its output.
pub open spec fn program_spec(ts: Seq<TokenModel>) -> Seq<char> {
    "local _sb = {}\n"@ + tokens_source(ts) + "ctx:set_output(_sb)\n"@
}

/// The program that a template compiles to, or `None` where a tag is not closed.
pub open spec fn compile_spec(s: Seq<char>) -> Option<Seq<char>> {
    match lex_spec(s, 0) {
        Some(ts) => Some(program_spec(trim_spec_tokens(ts))),
        None => None,
    }
}

/// Whether a tag opens at position `i`.
pub open spec fn opener_at(s: Seq<char>, i: int) -> bool {
    0 <= i && i + 1 < s.len() && s[i] == '<' && s[i + 1] == '%'
}

/// Where the text that starts at `i` ends: at the next line break, the next
/// tag opener, or the end of the input.
pub open spec fn text_end(s: Seq<char>, i: int) -> int
    decreases s.len() - i,
{
    if i < 0 || i >= s.len() || s[i] == '\n' || opener_at(s, i) {
        i
    } else {
        text_end(s, i + 1)
    }
}

/// The position of the first `%>` at or after `i`, if any.
pub open spec fn close_from(s: Seq<char>, i: int) -> Option<int>
    decreases s.len() - i,
{
    if i < 0 || i + 1 >= s.len() {
        None
    } else if s[i] == '%' && s[i + 1] == '>' {
        Some(i)
    } else {
        close_from(s, i + 1)
    }
}

/// The token of a tag, from the text between `<%` and `%>`.
pub open spec fn tag_spec(b: Seq<char>) -> TokenModel {
    if b.len() > 0 && b[0] == '=' {
        TokenModel::Expression(trim_spec(b.drop_first()))
    } else {
        let tb = b.len() > 0 && b[0] == '-';
        let b1 = if tb { b.drop_first() } else { b };
        let ta = b1.len() > 0 && b1.last() == '-';
        let b2 = if ta { b1.drop_last() } else { b1 };
        TokenModel::Statement(trim_spec(b2), tb, ta)
    }
}

/// A token put in front of a lexing result.
pub open spec fn prepend(t: TokenModel, rest: Option<Seq<TokenModel>>) -> Option<Seq<TokenModel>> {
    match rest {
        Some(r) => Some(seq![t] + r),
        None => None,
    }
}

proof fn lemma_text_end(s: Seq<char>, i: int)
    requires
        0 <= i,
    ensures
        i <= text_end(s, i),
        text_end(s, i) <= s.len() || text_end(s, i) == i,
        forall|j: int|
            i <= j < text_end(s, i) ==> s[j] != '\n' && !opener_at(s, j),
    decreases s.len() - i,
{
    if !(i >= s.len() || s[i] == '\n' || opener_at(s, i)) {
        lemma_text_end(s, i + 1);
    }
}

proof fn lemma_close_from(s: Seq<char>, i: int)
    requires
        0 <= i,
    ensures
        match close_from(s, i) {
            Some(c) => i <= c && c + 1 < s.len() && s[c] == '%' && s[c + 1] == '>',
            None => true,
        },
    decreases s.len() - i,
{
    if !(i + 1 >= s.len()) && !(s[i] == '%' && s[i + 1] == '>') {
        lemma_close_from(s, i + 1);
    }
}

#[via_fn]
proof fn lex_spec_decreases(s: Seq<char>, i: int) {
    if 0 <= i < s.len() && s[i] != '\n' && !opener_at(s, i) {
        lemma_text_end(s, i + 1);
    }
    if i >= 0 {
        lemma_close_from(s, i + 2);
    }
}

/// The tokens of a template from position `i` on, or `None` where a tag is
/// not closed.
pub open spec fn lex_spec(s: Seq<char>, i: int) -> Option<Seq<TokenModel>>
    decreases s.len() - i,
    via lex_spec_decreases
{
    if i < 0 || i >= s.len() {
        Some(Seq::empty())
    } else if s[i] == '\n' {
        prepend(TokenModel::NewLine, lex_spec(s, i + 1))
    } else if opener_at(s, i) {
        match close_from(s, i + 2) {
            None => None,
            Some(c) => prepend(tag_spec(s.subrange(i + 2, c)), lex_spec(s, c + 2)),
        }
    } else {
        prepend(TokenModel::Text(s.subrange(i, text_end(s, i))), lex_spec(s, text_end(s, i)))
    }
}


fn is_opener(cs: &Vec<char>, i: usize) -> (r: bool)
    ensures
        r == opener_at(cs@, i as int),
{
    i < cs.len() && cs.len() - i > 1 && cs[i] == '<' && cs[i + 1] == '%'
}

fn find_text_end(cs: &Vec<char>, i: usize) -> (r: usize)
    requires
        i <= cs@.len(),
    ensures
        r as int == text_end(cs@, i as int),
        i <= r <= cs@.len(),
{
    let mut j = i;
    while j < cs.len() && cs[j] != '\n' && !is_opener(cs, j)
        invariant
            i <= j <= cs@.len(),
            text_end(cs@, i as int) == text_end(cs@, j as int),
        decreases cs@.len() - j,
    {
        j += 1;
    }
    j
}

fn find_close(cs: &Vec<char>, i: usize) -> (r: Option<usize>)
    requires
        i <= cs@.len(),
    ensures
        match r {
            Some(c) => close_from(cs@, i as int) == Some(c as int),
            None => close_from(cs@, i as int) is None,
        },
{
    let mut j = i;
    while cs.len() > 0 && j < cs.len() - 1
        invariant
            i <= j <= cs@.len(),
            close_from(cs@, i as int) == close_from(cs@, j as int),
        decreases cs@.len() - j,
    {
        if cs[j] == '%' && cs[j + 1] == '>' {
            return Some(j);
        }
        j += 1;
    }
    None
}

/// A string holding the trimmed characters `from..to` of `cs`.
fn trimmed(cs: &Vec<char>, from: usize, to: usize) -> (r: String)
    requires
        from <= to <= cs@.len(),
    ensures
        r@ == trim_spec(cs@.subrange(from as int, to as int)),
{
    let raw = string_from(cs, from, to);
    String::from_str(trim_str(raw.as_str()))
}

/// The token of the tag whose body is `cs[from..to]`.
fn tag_token(cs: &Vec<char>, from: usize, to: usize) -> (r: Token)
    requires
        from <= to <= cs@.len(),
    ensures
        r@ == tag_spec(cs@.subrange(from as int, to as int)),
{
    let ghost b = cs@.subrange(from as int, to as int);
    if from < to && cs[from] == '=' {
        proof {
            assert(b.drop_first() =~= cs@.subrange(from + 1, to as int));
        }
        Token::Expression(trimmed(cs, from + 1, to))
    } else {
        let trim_before = from < to && cs[from] == '-';
        let start = if trim_before { from + 1 } else { from };
        let trim_after = start < to && cs[to - 1] == '-';
        let end = if trim_after { to - 1 } else { to };
        proof {
            let b1 = if trim_before { b.drop_first() } else { b };
            assert(b1 =~= cs@.subrange(start as int, to as int));
            if trim_after {
                assert(b1.drop_last() =~= cs@.subrange(start as int, end as int));
            }
        }
        Token::Statement { source: trimmed(cs, start, end), trim_before, trim_after }
    }
}

/// Splits a template into tokens: literal text, line breaks, expression tags
/// and statement tags. Fails where a tag is not closed.
#[verifier::loop_isolation(false)]
pub fn tokenize(content: &str) -> (r: Result<Vec<Token>, TemplateError>)
    ensures
        match r {
            Ok(ts) => lex_spec(content@, 0) == Some(token_models(ts@)),
            Err(_) => lex_spec(content@, 0) is None,
        },
{
    let cs = chars_of(content);
    let ghost s = cs@;
    let mut out: Vec<Token> = Vec::new();
    let mut i: usize = 0;
    while i < cs.len()
        invariant
            s == cs@,
            i <= cs@.len(),
            lex_spec(s, 0) == match lex_spec(s, i as int) {
                Some(rest) => Some(token_models(out@) + rest),
                None => None,
            },
        decreases cs@.len() - i,
    {
        let ghost old_out = token_models(out@);
        let ghost old_i = i as int;
        if cs[i] == '\n' {
            out.push(Token::NewLine);
            i += 1;
        } else if is_opener(&cs, i) {
            match find_close(&cs, i + 2) {
                None => {
                    return Err(TemplateError::UnterminatedTag);
                },
                Some(c) => {
                    proof {
                        lemma_close_from(s, i + 2);
                    }
                    out.push(tag_token(&cs, i + 2, c));
                    i = c + 2;
                },
            }
        } else {
            let e = find_text_end(&cs, i);
            proof {
                lemma_text_end(s, i + 1);
            }
            out.push(Token::Text(string_from(&cs, i, e)));
            i = e;
        }
        proof {
            assert(token_models(out@) =~= old_out + seq![token_models(out@).last()]);
            match lex_spec(s, i as int) {
                Some(rest) => {
                    assert(token_models(out@) + rest =~= old_out + (seq![token_models(out@).last()]
                        + rest));
                },
                None => {},
            }
        }
    }
    proof {
        assert(token_models(out@) + Seq::<TokenModel>::empty() =~= token_models(out@));
    }
    Ok(out)
}


impl Token {
    /// A copy of this token.
    pub fn duplicate(&self) -> (r: Token)
        ensures
            r@ == self@,
    {
        match self {
            Token::Text(t) => Token::Text(t.clone()),
            Token::NewLine => Token::NewLine,
            Token::Expression(e) => Token::Expression(e.clone()),
            Token::Statement { source, trim_before, trim_after } => Token::Statement {
                source: source.clone(),
                trim_before: *trim_before,
                trim_after: *trim_after,
            },
        }
    }
}

fn token_is_blank_text(t: &Token) -> (r: bool)
    ensures
        r == is_blank_text(t@),
{
    match t {
        Token::Text(x) => is_blank(x.as_str()),
        _ => false,
    }
}

fn token_trims_before(t: &Token) -> (r: bool)
    ensures
        r == trims_before(t@),
{
    match t {
        Token::Statement { trim_before, .. } => *trim_before,
        _ => false,
    }
}

fn token_trims_after(t: &Token) -> (r: bool)
    ensures
        r == trims_after(t@),
{
    match t {
        Token::Statement { trim_after, .. } => *trim_after,
        _ => false,
    }
}

/// Applies the trim pass to a sequence of tokens; see `trim_spec_tokens`.
pub fn trim_tokens(ts: &Vec<Token>) -> (r: Vec<Token>)
    ensures
        token_models(r@) == trim_spec_tokens(token_models(ts@)),
{
    let ghost m = token_models(ts@);
    let mut out: Vec<Token> = Vec::new();
    let mut line: Vec<Token> = Vec::new();
    proof {
        assert(token_models(line@) =~= Seq::<TokenModel>::empty());
        assert(token_models(out@) + trim_from(m, 0, token_models(line@)) =~= trim_from(
            m,
            0,
            token_models(line@),
        ));
    }
    let mut i: usize = 0;
    while i < ts.len()
        invariant
            m == token_models(ts@),
            i <= ts@.len(),
            trim_spec_tokens(m) == token_models(out@) + trim_from(m, i as int, token_models(line@)),
        decreases ts@.len() - i,
    {
        let ghost old_out = token_models(out@);
        let ghost old_line = token_models(line@);
        let ghost rest = trim_from(m, i + 1, Seq::empty());
        match &ts[i] {
            Token::NewLine => {
                let lone = line.len() == 1 && token_trims_after(&line[0]);
                out.append(&mut line);
                if !lone {
                    out.push(Token::NewLine);
                }
                proof {
                    assert(token_models(out@) =~= old_out + old_line + line_break(old_line));
                    assert(token_models(line@) =~= Seq::<TokenModel>::empty());
                    assert(token_models(out@) + rest =~= old_out + (old_line + line_break(old_line)
                        + rest));
                }
            },
            t => {
                let trimmed = token_is_blank_text(t) && ((i + 1 < ts.len() && token_trims_before(
                    &ts[i + 1],
                )) || (i > 0 && token_trims_after(&ts[i - 1])));
                if !trimmed {
                    line.push(t.duplicate());
                    proof {
                        assert(token_models(line@) =~= old_line.push(m[i as int]));
                    }
                }
            },
        }
        i += 1;
    }
    let ghost old_out = token_models(out@);
    let ghost old_line = token_models(line@);
    out.append(&mut line);
    proof {
        assert(token_models(out@) =~= old_out + old_line);
    }
    out
}

/// Appends the script source of one token.
fn push_token_source(out: &mut String, t: &Token)
    ensures
        final(out)@ == old(out)@ + token_source(t@),
{
    match t {
        Token::Text(x) => {
            out.append("table.insert(_sb, ");
            push_quoted(out, x.as_str());
            out.append(")\n");
        },
        Token::NewLine => {
            out.append("table.insert(_sb, \"\\n\")\n");
        },
        Token::Expression(e) => {
            out.append("table.insert(_sb, ");
            out.append(e.as_str());
            out.append(")\n");
        },
        Token::Statement { source, .. } => {
            out.append(source.as_str());
            out.append("\n");
        },
    }
    proof {
        assert(final(out)@ =~= old(out)@ + token_source(t@));
    }
}

/// The program for a sequence of tokens; see `program_spec`.
pub fn generate(ts: &Vec<Token>) -> (r: String)
    ensures
        r@ == program_spec(token_models(ts@)),
{
    let ghost m = token_models(ts@);
    let mut out = String::from_str("local _sb = {}\n");
    let mut i: usize = 0;
    while i < ts.len()
        invariant
            m == token_models(ts@),
            i <= ts@.len(),
            out@ == "local _sb = {}\n"@ + tokens_source(m.subrange(0, i as int)),
        decreases ts@.len() - i,
    {
        push_token_source(&mut out, &ts[i]);
        proof {
            assert(m.subrange(0, i + 1).drop_last() =~= m.subrange(0, i as int));
        }
        i += 1;
    }
    out.append("ctx:set_output(_sb)\n");
    proof {
        assert(m.subrange(0, ts@.len() as int) =~= m);
    }
    out
}

/// A template compiled to script source.
pub struct Template {
    pub content: String,
}

impl Template {
    /// Compiles a template: tokenize, trim, then generate the program.
    pub fn compile(source: &str) -> (r: Result<Template, TemplateError>)
        ensures
            match r {
                Ok(t) => compile_spec(source@) == Some(t.content@),
                Err(_) => compile_spec(source@) is None,
            },
    {
        let tokens = tokenize(source)?;
        let trimmed = trim_tokens(&tokens);
        Ok(Template { content: generate(&trimmed) })
    }
}

} // verus!
