use rmarshal::template::{generate, tokenize, trim_tokens, Template, TemplateError, Token};

fn stmt(s: &str, trim_before: bool, trim_after: bool) -> Token {
    Token::Statement { source: s.to_owned(), trim_before, trim_after }
}

fn text(s: &str) -> Token {
    Token::Text(s.to_owned())
}

#[test]
fn tokenize_splits_text_lines_and_tags() {
    let ts = tokenize("a <%= x %>\n<% y %>b").unwrap();
    assert_eq!(
        ts,
        vec![
            text("a "),
            Token::Expression("x".to_owned()),
            Token::NewLine,
            stmt("y", false, false),
            text("b"),
        ]
    );
}

#[test]
fn tokenize_reads_trim_flags() {
    let ts = tokenize("<%- a -%><%-b%><% c-%>").unwrap();
    assert_eq!(ts, vec![stmt("a", true, true), stmt("b", true, false), stmt("c", false, true)]);
}

#[test]
fn tokenize_unterminated_tag() {
    assert_eq!(tokenize("x <% y"), Err(TemplateError::UnterminatedTag));
    assert_eq!(tokenize("<%= y %"), Err(TemplateError::UnterminatedTag));
    assert!(Template::compile("<%").is_err());
}

#[test]
fn tokenize_empty_and_plain() {
    assert_eq!(tokenize("").unwrap(), vec![]);
    assert_eq!(tokenize("a < b % c").unwrap(), vec![text("a < b % c")]);
    assert_eq!(tokenize("\n\n").unwrap(), vec![Token::NewLine, Token::NewLine]);
}

#[test]
fn template_trim() {
    let ts = tokenize("<%- if true then -%>\nkept\n<%- end -%>").unwrap();
    let trimmed = trim_tokens(&ts);
    assert_eq!(
        trimmed,
        vec![stmt("if true then", true, true), text("kept"), Token::NewLine, stmt("end", true, true)]
    );
    let t = Template::compile("<%- if true then -%>\nkept\n<%- end -%>").unwrap();
    assert_eq!(
        t.content,
        "local _sb = {}\nif true then\ntable.insert(_sb, \"kept\")\ntable.insert(_sb, \"\\n\")\nend\nctx:set_output(_sb)\n"
    );
}

#[test]
fn trim_drops_blank_text_beside_trimming_statements() {
    let ts = tokenize("  <%- a %>  \n  <% b -%>  \nx").unwrap();
    let trimmed = trim_tokens(&ts);
    assert_eq!(
        trimmed,
        vec![stmt("a", true, false), text("  "), Token::NewLine, text("  "), stmt("b", false, true), Token::NewLine, text("x")]
    );
}

#[test]
fn statement_without_trim_keeps_its_line_break() {
    let trimmed = trim_tokens(&tokenize("<% a %>\n").unwrap());
    assert_eq!(trimmed, vec![stmt("a", false, false), Token::NewLine]);
}

#[test]
fn generate_quotes_text() {
    let p = generate(&vec![text("say \"hi\"\\"), Token::Expression("1 + 1".to_owned())]);
    assert_eq!(
        p,
        "local _sb = {}\ntable.insert(_sb, \"say \\\"hi\\\"\\\\\")\ntable.insert(_sb, 1 + 1)\nctx:set_output(_sb)\n"
    );
}

#[test]
fn expression_tags_are_not_trim_flagged() {
    let ts = tokenize("<%= -x %>").unwrap();
    assert_eq!(ts, vec![Token::Expression("-x".to_owned())]);
    let trimmed = trim_tokens(&tokenize(" <%= v %> \n").unwrap());
    assert_eq!(trimmed, vec![text(" "), Token::Expression("v".to_owned()), text(" "), Token::NewLine]);
}
