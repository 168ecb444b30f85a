use hq_rs::parser::Field;
use hq_rs::write::WriteErrorKind;

fn edit_hcl(contents: &str) -> hcl_edit::structure::Body {
    contents.parse().expect("hcl error")
}

fn value(text: &str) -> hcl_edit::expr::Expression {
    text.parse().expect("parse error")
}

#[test]
fn attr() {
    // filter '.version'
    let fields = vec![Field::new("version")];
    let mut body = edit_hcl("version = \"test\"");
    hq_rs::write::write(fields, &mut body, &value("\"new_value\"")).expect("write error");
    assert_eq!("version = \"new_value\"", body.to_string());
}

#[test]
fn write_tests_block_attr() {
    // filter '.options.enabled'
    let fields = vec![Field::new("options"), Field::new("enabled")];
    let mut body = edit_hcl("options { enabled = false }");
    hq_rs::write::write(fields, &mut body, &value("true")).expect("write error");
    assert_eq!("options { enabled = true }", body.to_string());
}

#[test]
fn write_tests_labeled_block_attr() {
    // filter '.module{"cool-module"}.version'
    let fields = vec![
        Field::labeled("module", &["cool-module"]),
        Field::new("version"),
    ];
    let mut body = edit_hcl("module \"cool-module\" { version = \"1.0\" }");
    hq_rs::write::write(fields, &mut body, &value("\"2.0\"")).expect("write error");
    assert_eq!(
        "module \"cool-module\" { version = \"2.0\" }",
        body.to_string()
    );
}

#[test]
fn insert() {
    // filter '.options.new_attr'
    let fields = vec![Field::new("options"), Field::new("new_attr")];
    let mut body = edit_hcl("options { attr = \"value\" }");
    hq_rs::write::write(fields, &mut body, &value("\"new_value\"")).expect("write error");
    // the new attribute takes the decoration of its sibling `attr`
    assert_eq!(
        "options {\n attr = \"value\" \n new_attr = \"new_value\" \n}",
        body.to_string()
    );
}

#[test]
fn insert_at_top_level_keeps_other_text() {
    let mut body = edit_hcl("attr = \"value\"\n");
    hq_rs::write::write(vec![Field::new("new_attr")], &mut body, &value("\"x\"")).expect("write error");
    let text = body.to_string();
    assert!(text.starts_with("attr = \"value\"\n"));
    assert!(text.contains("new_attr = \"x\""));
}

#[test]
fn write_same_value_keeps_text_and_reads_back() {
    let text = "# a comment\nmodule \"m\" {\n  version   = \"1.0\" # pinned\n}\n";
    let mut body = edit_hcl(text);
    assert_eq!(text, body.to_string());
    let fields = vec![Field::labeled("module", &["m"]), Field::new("version")];
    hq_rs::write::write(fields, &mut body, &value("\"1.0\"")).expect("write error");
    assert_eq!(text, body.to_string());
    let read: hcl::Body = hcl::parse(&body.to_string()).expect("hcl error");
    let mut query_fields = vec![Field::labeled("module", &["m"]), Field::new("version")];
    let results = hq_rs::query(&mut query_fields, &read);
    assert_eq!(1, results.len());
    assert_eq!("\"1.0\"", results[0].to_string().unwrap());
}

#[test]
fn write_every_match() {
    let mut body = edit_hcl("b {\n  x = 1\n}\nb {\n  x = 2\n}\n");
    hq_rs::write::write(vec![Field::new("b"), Field::new("x")], &mut body, &value("9")).expect("write error");
    assert_eq!("b {\n  x = 9\n}\nb {\n  x = 9\n}\n", body.to_string());
}

#[test]
fn write_into_object() {
    let mut body = edit_hcl("o = { a = 1, b = 2 }\n");
    hq_rs::write::write(vec![Field::new("o"), Field::new("b")], &mut body, &value("3")).expect("write error");
    assert_eq!("o = { a = 1, b = 3 }\n", body.to_string());
}

#[test]
fn write_through_scalar_fails() {
    let text = "version = \"test\"\n";
    let mut body = edit_hcl(text);
    let err = hq_rs::write::write(vec![Field::new("version"), Field::new("x")], &mut body, &value("1"))
        .unwrap_err();
    assert_eq!(WriteErrorKind::NotTraversable, err.kind());
    assert_eq!("cannot write through non-object expression", err.reason());
    assert_eq!(text, body.to_string());
}

#[test]
fn write_over_block_fails() {
    let text = "a = 1\nlocal { var = 5 }\n";
    let mut body = edit_hcl(text);
    let err = hq_rs::write::write(vec![Field::new("local")], &mut body, &value("1")).unwrap_err();
    assert_eq!(WriteErrorKind::BlockBodyExpected, err.kind());
    assert_eq!(text, body.to_string());
}

#[test]
fn write_with_invalid_new_name_fails() {
    let text = "a = 1\n";
    let mut body = edit_hcl(text);
    let err = hq_rs::write::write(vec![Field::new("a b")], &mut body, &value("1")).unwrap_err();
    assert_eq!(WriteErrorKind::InvalidKey, err.kind());
    assert!(!err.reason().is_empty());
    assert_eq!(text, body.to_string());
}

#[test]
fn write_without_match_before_the_end_changes_nothing() {
    let text = "a = 1\n";
    let mut body = edit_hcl(text);
    hq_rs::write::write(vec![Field::new("blk"), Field::new("x")], &mut body, &value("1")).expect("write error");
    assert_eq!(text, body.to_string());
}

#[test]
fn write_adds_object_entry() {
    let mut body = edit_hcl("o = { a = 1 }\n");
    hq_rs::write::write(vec![Field::new("o"), Field::new("b")], &mut body, &value("2")).expect("write error");
    assert_eq!("o = { a = 1 ,b = 2,}\n", body.to_string());
    let read: hcl::Body = hcl::parse(&body.to_string()).expect("hcl error");
    let mut fields = vec![Field::new("o"), Field::new("b")];
    let results = hq_rs::query(&mut fields, &read);
    assert_eq!(1, results.len());
    assert_eq!("2", results[0].to_string().unwrap());
    let mut fields = vec![Field::new("o"), Field::new("a")];
    assert_eq!("1", hq_rs::query(&mut fields, &read)[0].to_string().unwrap());
}

#[test]
fn write_adds_string_keyed_entry_for_non_identifier() {
    let mut body = edit_hcl("o = { a = 1 }\n");
    hq_rs::write::write(vec![Field::new("o"), Field::new("x y")], &mut body, &value("2")).expect("write error");
    assert!(body.to_string().contains("\"x y\""));
}
