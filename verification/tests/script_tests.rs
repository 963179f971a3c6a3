use script_scan::script;
use script_scan::Script;

#[test]
fn script_basic() {
    let sql = "return true;";
    let res = script(sql);
    assert!(res.is_ok());
    let out = res.unwrap().1;
    assert_eq!("return true;", out.to_text());
    assert_eq!(out, Script::from("return true;"));
}

#[test]
fn script_object() {
    let sql = "return { test: true, something: { other: true } };";
    let res = script(sql);
    assert!(res.is_ok());
    let out = res.unwrap().1;
    assert_eq!("return { test: true, something: { other: true } };", out.to_text());
    assert_eq!(out, Script::from("return { test: true, something: { other: true } };"));
}

#[test]
fn script_closure() {
    let sql = "return this.values.map(v => `This value is ${Number(v * 3)}`);";
    let res = script(sql);
    assert!(res.is_ok());
    let out = res.unwrap().1;
    assert_eq!("return this.values.map(v => `This value is ${Number(v * 3)}`);", out.to_text());
    assert_eq!(
        out,
        Script::from("return this.values.map(v => `This value is ${Number(v * 3)}`);")
    );
}

#[test]
fn script_complex() {
    let sql = r#"return { test: true, some: { object: "some text with uneven {{{ {} \" brackets", else: false } };"#;
    let res = script(sql);
    assert!(res.is_ok());
    let out = res.unwrap().1;
    assert_eq!(
        r#"return { test: true, some: { object: "some text with uneven {{{ {} \" brackets", else: false } };"#,
        out.to_text()
    );
    assert_eq!(
        out,
        Script::from(
            r#"return { test: true, some: { object: "some text with uneven {{{ {} \" brackets", else: false } };"#
        )
    );
}
