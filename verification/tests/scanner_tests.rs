use script_scan::scan_bytes;
use script_scan::script;
use script_scan::ScanError;
use script_scan::Script;

#[test]
fn whole_input_consumed() {
    let (rest, out) = script("return true;").unwrap();
    assert_eq!("return true;", out.as_str());
    assert_eq!("", rest);
}

#[test]
fn stops_at_foreign_closing_brace() {
    let (rest, out) = script("return 1; } trailing").unwrap();
    assert_eq!("return 1; ", out.as_str());
    assert_eq!("} trailing", rest);
}

#[test]
fn string_opacity_scenario() {
    let sql = r#"return { a: "text with { unbalanced {{{ brace and a \" escaped quote", b: false };"#;
    let (rest, out) = script(sql).unwrap();
    assert_eq!(sql, out.as_str());
    assert_eq!("", rest);
}

#[test]
fn escaped_quotes_do_not_close() {
    let (rest, out) = script(r#"return 'it\'s';"#).unwrap();
    assert_eq!(r#"return 'it\'s';"#, out.as_str());
    assert_eq!("", rest);

    let (rest, out) = script(r#"return "a\"b";"#).unwrap();
    assert_eq!(r#"return "a\"b";"#, out.as_str());
    assert_eq!("", rest);

    let (rest, out) = script(r#"return `a\`b`;"#).unwrap();
    assert_eq!(r#"return `a\`b`;"#, out.as_str());
    assert_eq!("", rest);
}

#[test]
fn escaped_backslash_then_close() {
    // The first backslash escapes the second; the quote after them closes.
    let (rest, out) = script(r#"return 'a\\';x"#).unwrap();
    assert_eq!(r#"return 'a\\';x"#, out.as_str());
    assert_eq!("", rest);
}

#[test]
fn deeply_nested_braces() {
    let sql = "{{{{{x}}}}}";
    let (rest, out) = script(sql).unwrap();
    assert_eq!(sql, out.as_str());
    assert_eq!("", rest);

    let sql = "{ { { deep } } } done";
    let (rest, out) = script(sql).unwrap();
    assert_eq!(sql, out.as_str());
    assert_eq!("", rest);
}

#[test]
fn unterminated_failure() {
    let res = script(r#"return { a: "unterminated"#);
    assert_eq!(res, Err(ScanError::UnterminatedLiteral));
}

#[test]
fn unterminated_variants() {
    assert_eq!(script("return {"), Err(ScanError::UnterminatedLiteral));
    assert_eq!(script("{ open"), Err(ScanError::UnterminatedLiteral));
    assert_eq!(script("return 'open"), Err(ScanError::UnterminatedLiteral));
    assert_eq!(script("return `open"), Err(ScanError::UnterminatedLiteral));
    // A trailing backslash inside a string leaves its escape unfinished.
    assert_eq!(script("return 'a\\"), Err(ScanError::UnterminatedLiteral));
}

#[test]
fn no_match_cases() {
    assert_eq!(script(""), Err(ScanError::NoMatch));
    assert_eq!(script("} right away"), Err(ScanError::NoMatch));
    // A brace group must hold at least one item.
    assert_eq!(script("{}"), Err(ScanError::NoMatch));
    assert_eq!(script("a{}b"), Err(ScanError::NoMatch));
}

#[test]
fn group_interiors() {
    // A group needs one item inside, but an empty string is an item.
    let (rest, out) = script("{''}").unwrap();
    assert_eq!("{''}", out.as_str());
    assert_eq!("", rest);

    let (rest, out) = script("{ }").unwrap();
    assert_eq!("{ }", out.as_str());
    assert_eq!("", rest);
}

#[test]
fn adjacent_groups_scan_as_one() {
    let (rest, out) = script("{a}{b}").unwrap();
    assert_eq!("{a}{b}", out.as_str());
    assert_eq!("", rest);
}

#[test]
fn backtick_template_preserved() {
    let sql = "return `template ${1+1}`;";
    let (rest, out) = script(sql).unwrap();
    assert_eq!(sql, out.as_str());
    assert_eq!("", rest);
}

#[test]
fn multibyte_text_splits_cleanly() {
    let (rest, out) = script("émile}tail").unwrap();
    assert_eq!("émile", out.as_str());
    assert_eq!("}tail", rest);

    let sql = "return 'héllo { wörld }';";
    let (rest, out) = script(sql).unwrap();
    assert_eq!(sql, out.as_str());
    assert_eq!("", rest);
}

#[test]
fn scan_bytes_matches_script() {
    assert_eq!(scan_bytes(b"return true;"), Ok(12));
    assert_eq!(scan_bytes(b"a}b"), Ok(1));
    assert_eq!(scan_bytes(b"}"), Err(ScanError::NoMatch));
    assert_eq!(scan_bytes(b"{x"), Err(ScanError::UnterminatedLiteral));
    // Bytes outside ASCII are plain content to the byte scanner.
    assert_eq!(scan_bytes(&[b'a', 0xFF, b'b']), Ok(3));
}

#[test]
fn value_semantics() {
    let a = Script::from("same");
    let b = Script::from(String::from("same"));
    assert_eq!(a, b);
    assert_eq!(a.clone(), b);
    assert_ne!(a, Script::from("other"));
    assert_eq!(a.to_text(), "same");
    assert_eq!(a.as_str(), "same");
    assert_eq!(Script::default(), Script::from(""));
    assert_eq!(Script(String::from("direct")).0, "direct");
}
