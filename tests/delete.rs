use hq_rs::delete;
use hq_rs::parser::Field;

fn edit_hcl(contents: &str) -> hcl_edit::structure::Body {
    contents.parse().expect("hcl error")
}

#[test]
fn delete_attr() {
    // filter '.version'
    let fields = vec![Field::new("version")];
    let mut body = edit_hcl("version = \"test\"");
    delete(fields, &mut body).expect("delete error");
    assert_eq!("", body.to_string());
}

#[test]
fn delete_labeled_block() {
    // filter '.module{"cool-module"}'
    let fields = vec![Field::labeled("module", &["cool-module"])];
    let mut body = edit_hcl("module \"cool-module\" { version = \"1.0\" }");
    delete(fields, &mut body).expect("delete error");
    assert_eq!("", body.to_string());
}

#[test]
fn delete_labeled_block_attr() {
    // filter '.module{"cool-module"}.version'
    let fields = vec![
        Field::labeled("module", &["cool-module"]),
        Field::new("version"),
    ];
    let mut body = edit_hcl("module \"cool-module\" { version = \"1.0\" }");
    delete(fields, &mut body).expect("delete error");
    assert_eq!("module \"cool-module\" {}", body.to_string());
}

#[test]
fn delete_block() {
    // filter '.local'
    let fields = vec![Field::new("local")];
    let mut body = edit_hcl("local { var = 5 }");
    delete(fields, &mut body).expect("delete error");
    assert_eq!("", body.to_string());
}

#[test]
fn delete_block_attr() {
    // filter '.local.var'
    let fields = vec![Field::new("local"), Field::new("var")];
    let mut body = edit_hcl("local { var = 5 }");
    delete(fields, &mut body).expect("delete error");
    assert_eq!("local {}", body.to_string());
}

#[test]
fn delete_from_object() {
    // filter '.local.obj.val'
    let fields = vec![Field::new("local"), Field::new("obj"), Field::new("val")];
    let mut body = edit_hcl("local { obj = { val = 5 } }");
    delete(fields, &mut body).expect("delete error");
    assert_eq!("local { obj = {} }", body.to_string());
}

#[test]
fn delete_from_nested_object() {
    // filter '.local.obj.obj2.val'
    let fields = vec![
        Field::new("local"),
        Field::new("obj"),
        Field::new("obj2"),
        Field::new("val"),
    ];
    let mut body = edit_hcl("local { obj = { obj2 = { val = 5 } } }");
    delete(fields, &mut body).expect("delete error");
    assert_eq!("local { obj = { obj2 = {} } }", body.to_string());
}

#[test]
fn delete_only_the_labeled_block() {
    let fields = vec![Field::labeled("module", &["b"])];
    let mut body = edit_hcl("module \"a\" {}\nmodule \"b\" {}\nmodule \"c\" {}\n");
    delete(fields, &mut body).expect("delete error");
    assert_eq!("module \"a\" {}\nmodule \"c\" {}\n", body.to_string());
}

#[test]
fn delete_every_match() {
    let fields = vec![Field::new("local"), Field::new("x")];
    let mut body = edit_hcl("local {\n  x = 1\n  y = 2\n}\nlocal {\n  x = 3\n}\n");
    delete(fields, &mut body).expect("delete error");
    assert_eq!("local {\n  y = 2\n}\nlocal {\n}\n", body.to_string());
}

#[test]
fn delete_string_keyed_entry() {
    let fields = vec![Field::new("obj"), Field::new("k")];
    let mut body = edit_hcl("obj = { \"k\" = 1, j = 2 }\n");
    delete(fields, &mut body).expect("delete error");
    assert!(!body.to_string().contains("\"k\""));
    assert!(body.to_string().contains("j = 2"));
}

#[test]
fn delete_without_match_changes_nothing() {
    let text = "a = 1\nb { c = 2 }\n";
    let mut body = edit_hcl(text);
    delete(vec![Field::new("zzz")], &mut body).expect("delete error");
    assert_eq!(text, body.to_string());
    delete(vec![Field::new("a"), Field::new("x")], &mut body).expect("delete error");
    assert_eq!(text, body.to_string());
}

#[test]
fn delete_without_segments_changes_nothing() {
    let text = "a = 1\n";
    let mut body = edit_hcl(text);
    delete(Vec::new(), &mut body).expect("delete error");
    assert_eq!(text, body.to_string());
}
