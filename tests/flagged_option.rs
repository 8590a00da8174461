use rmarshal::flagged_option::{parse_pair, FlaggedOption};

#[test]
fn it_parse() {
    let (key, val) = parse_pair("foo").unwrap();
    assert_eq!(key, "foo".to_owned());
    assert_eq!(val, None);
}

#[test]
fn it_parse_value() {
    let (key, val) = parse_pair("foo=bar").unwrap();
    assert_eq!(key, "foo".to_owned());
    assert_eq!(val, Some("bar".to_owned()));
}

#[test]
fn pair_splits_at_first_equals() {
    let (key, val) = parse_pair("a=b=c").unwrap();
    assert_eq!(key, "a");
    assert_eq!(val, Some("b=c".to_owned()));
    let (key, val) = parse_pair("=").unwrap();
    assert_eq!(key, "");
    assert_eq!(val, Some(String::new()));
}

#[test]
fn it_does_not_parse() {
    let res = FlaggedOption::from_str("foo");
    assert_eq!(res, Err(()));
}

#[test]
fn it_parse_long() {
    let res = FlaggedOption::from_str("--foo").unwrap();
    assert_eq!(res.short, false);
    assert_eq!(res.option, "foo".to_owned());
    assert_eq!(res.value, None);
    assert_eq!(res.qualifiers, None);
}

#[test]
fn it_parse_long_value() {
    let res = FlaggedOption::from_str("--foo=bar").unwrap();
    assert_eq!(res.short, false);
    assert_eq!(res.option, "foo".to_owned());
    assert_eq!(res.value, Some("bar".to_owned()));
    assert_eq!(res.qualifiers, None);
}

#[test]
fn it_parse_long_qualifier() {
    let res = FlaggedOption::from_str("--foo:alfa").unwrap();
    assert_eq!(res.short, false);
    assert_eq!(res.option, "foo".to_owned());
    assert_eq!(res.value, None);
    let qualifiers = res.qualifiers.unwrap();
    assert_eq!(qualifiers.len(), 1);
    let alfa_val = qualifiers.get("alfa").unwrap().clone();
    assert_eq!(alfa_val, None);
}

#[test]
fn it_parse_long_qualifier_value() {
    let res = FlaggedOption::from_str("--foo:alfa=1").unwrap();
    assert_eq!(res.short, false);
    assert_eq!(res.option, "foo".to_owned());
    assert_eq!(res.value, None);
    let qualifiers = res.qualifiers.unwrap();
    assert_eq!(qualifiers.len(), 1);
    let alfa_val = qualifiers.get("alfa").unwrap().clone();
    assert_eq!(alfa_val, Some("1".to_owned()));
}

#[test]
fn it_parse_long_qualifiers() {
    let res = FlaggedOption::from_str("--foo:alfa:bravo").unwrap();
    assert_eq!(res.short, false);
    assert_eq!(res.option, "foo".to_owned());
    assert_eq!(res.value, None);
    let qualifiers = res.qualifiers.unwrap();
    assert_eq!(qualifiers.len(), 2);
    let alfa_val = qualifiers.get("alfa").unwrap().clone();
    assert_eq!(alfa_val, None);
    let bravo_val = qualifiers.get("bravo").unwrap().clone();
    assert_eq!(bravo_val, None);
}

#[test]
fn it_parse_long_qualifiers_value() {
    let res = FlaggedOption::from_str("--foo:alfa=1:bravo").unwrap();
    assert_eq!(res.short, false);
    assert_eq!(res.option, "foo".to_owned());
    assert_eq!(res.value, None);
    let qualifiers = res.qualifiers.unwrap();
    assert_eq!(qualifiers.len(), 2);
    let alfa_val = qualifiers.get("alfa").unwrap().clone();
    assert_eq!(alfa_val, Some("1".to_owned()));
    let bravo_val = qualifiers.get("bravo").unwrap().clone();
    assert_eq!(bravo_val, None);
}

#[test]
fn it_parse_long_qualifiers_value_value() {
    let res = FlaggedOption::from_str("--foo:alfa=1:bravo=2").unwrap();
    assert_eq!(res.short, false);
    assert_eq!(res.option, "foo".to_owned());
    assert_eq!(res.value, None);
    let qualifiers = res.qualifiers.unwrap();
    assert_eq!(qualifiers.len(), 2);
    let alfa_val = qualifiers.get("alfa").unwrap().clone();
    assert_eq!(alfa_val, Some("1".to_owned()));
    let bravo_val = qualifiers.get("bravo").unwrap().clone();
    assert_eq!(bravo_val, Some("2".to_owned()));
}

#[test]
fn it_parse_long_value_qualifier() {
    let res = FlaggedOption::from_str("--foo=bar:alfa").unwrap();
    assert_eq!(res.short, false);
    assert_eq!(res.option, "foo".to_owned());
    assert_eq!(res.value, Some("bar".to_owned()));
    let qualifiers = res.qualifiers.unwrap();
    assert_eq!(qualifiers.len(), 1);
    let alfa_val = qualifiers.get("alfa").unwrap().clone();
    assert_eq!(alfa_val, None);
}

#[test]
fn it_parse_long_value_qualifier_value() {
    let res = FlaggedOption::from_str("--foo=bar:alfa=1").unwrap();
    assert_eq!(res.short, false);
    assert_eq!(res.option, "foo".to_owned());
    assert_eq!(res.value, Some("bar".to_owned()));
    let qualifiers = res.qualifiers.unwrap();
    assert_eq!(qualifiers.len(), 1);
    let alfa_val = qualifiers.get("alfa").unwrap().clone();
    assert_eq!(alfa_val, Some("1".to_owned()));
}

#[test]
fn it_parse_long_value_qualifiers() {
    let res = FlaggedOption::from_str("--foo=bar:alfa:bravo").unwrap();
    assert_eq!(res.short, false);
    assert_eq!(res.option, "foo".to_owned());
    assert_eq!(res.value, Some("bar".to_owned()));
    let qualifiers = res.qualifiers.unwrap();
    assert_eq!(qualifiers.len(), 2);
    let alfa_val = qualifiers.get("alfa").unwrap().clone();
    assert_eq!(alfa_val, None);
    let bravo_val = qualifiers.get("bravo").unwrap().clone();
    assert_eq!(bravo_val, None);
}

#[test]
fn it_parse_long_value_qualifiers_value() {
    let res = FlaggedOption::from_str("--foo=bar:alfa=1:bravo").unwrap();
    assert_eq!(res.short, false);
    assert_eq!(res.option, "foo".to_owned());
    assert_eq!(res.value, Some("bar".to_owned()));
    let qualifiers = res.qualifiers.unwrap();
    assert_eq!(qualifiers.len(), 2);
    let alfa_val = qualifiers.get("alfa").unwrap().clone();
    assert_eq!(alfa_val, Some("1".to_owned()));
    let bravo_val = qualifiers.get("bravo").unwrap().clone();
    assert_eq!(bravo_val, None);
}

#[test]
fn it_parse_long_value_qualifiers_value_value() {
    let res = FlaggedOption::from_str("--foo=bar:alfa=1:bravo=2").unwrap();
    assert_eq!(res.short, false);
    assert_eq!(res.option, "foo".to_owned());
    assert_eq!(res.value, Some("bar".to_owned()));
    let qualifiers = res.qualifiers.unwrap();
    assert_eq!(qualifiers.len(), 2);
    let alfa_val = qualifiers.get("alfa").unwrap().clone();
    assert_eq!(alfa_val, Some("1".to_owned()));
    let bravo_val = qualifiers.get("bravo").unwrap().clone();
    assert_eq!(bravo_val, Some("2".to_owned()));
}

#[test]
fn it_parse_short() {
    let res = FlaggedOption::from_str("-f").unwrap();
    assert_eq!(res.short, true);
    assert_eq!(res.option, "f".to_owned());
    assert_eq!(res.value, None);
    assert_eq!(res.qualifiers, None);
}

#[test]
fn it_parse_short_value() {
    let res = FlaggedOption::from_str("-fbar").unwrap();
    assert_eq!(res.short, true);
    assert_eq!(res.option, "f".to_owned());
    assert_eq!(res.value, Some("bar".to_owned()));
    assert_eq!(res.qualifiers, None);
}

#[test]
fn repeated_qualifier_keeps_its_place() {
    let res = FlaggedOption::from_str("--s:a=1:b:a=3").unwrap();
    let q = res.qualifiers.unwrap();
    let keys: Vec<&String> = q.keys().collect();
    assert_eq!(keys, vec!["a", "b"]);
    assert_eq!(q.get("a").unwrap().clone(), Some("3".to_owned()));
}

#[test]
fn lone_dash_is_no_option() {
    assert_eq!(FlaggedOption::from_str("-"), Err(()));
    assert_eq!(FlaggedOption::from_str(""), Err(()));
}
