use hq_rs::parser::Field;
use hq_rs::query;

const TEST_HCL: &str = r#"
version = "test"

options = {
  verbose = true
  debug = false
}

variable "my_var" {
  default = "my_default_value"
}

variable "another_var" {
  default = "another_default_value"
}

data "a_data_block" "with_some_attrs" {
  my_attr = "my_attr_value"
  another_attr = "another_attr_value"
}

data "another_data_block" "with_some_attrs" {
  cromulent_attr = "cromulent_value"
}

module "cool-module" {
  version = "1.2.3"
}
"#;

fn read_test_hcl() -> hcl::Body {
    hcl::parse(TEST_HCL).expect("hcl error")
}

fn texts(mut fields: Vec<Field>, body: &hcl::Body) -> Vec<String> {
    query(&mut fields, body)
        .iter()
        .map(|r| r.to_string().unwrap())
        .collect()
}

#[test]
fn scalar_attr() {
    // filter '.version'
    let fields = vec![Field::new("version")];
    let body = read_test_hcl();
    let expected = vec![String::from("\"test\"")];
    assert_eq!(expected, texts(fields, &body));
}

#[test]
fn obj_attr() {
    // filter '.options'
    let fields = vec![Field::new("options")];
    let body = read_test_hcl();
    let expected = vec![String::from("{\n  verbose = true\n  debug = false\n}")];
    assert_eq!(expected, texts(fields, &body));
}

#[test]
fn query_tests_block_attr() {
    // filter '.variable.default'
    let fields = vec![Field::new("variable"), Field::new("default")];
    let body = read_test_hcl();
    let expected = vec![
        String::from("\"my_default_value\""),
        String::from("\"another_default_value\""),
    ];
    assert_eq!(expected, texts(fields, &body));
}

#[test]
fn query_tests_labeled_block_attr() {
    // filter '.variable{"my_var"}.default'
    let fields = vec![
        Field::labeled("variable", &["my_var"]),
        Field::new("default"),
    ];
    let body = read_test_hcl();
    let expected = vec![String::from("\"my_default_value\"")];
    assert_eq!(expected, texts(fields, &body));
}

#[test]
fn block() {
    // filter '.data'
    let fields = vec![Field::new("data")];
    let body = read_test_hcl();
    let expected = vec![
        String::from("data \"a_data_block\" \"with_some_attrs\" {\n  my_attr = \"my_attr_value\"\n  another_attr = \"another_attr_value\"\n}\n"),
        String::from("data \"another_data_block\" \"with_some_attrs\" {\n  cromulent_attr = \"cromulent_value\"\n}\n"),
    ];
    assert_eq!(expected, texts(fields, &body));
}

#[test]
fn labeled_block() {
    // filter '.data{"another_data_block"}'
    let fields = vec![Field::labeled("data", &["another_data_block"])];
    let body = read_test_hcl();
    let expected = vec![String::from("data \"another_data_block\" \"with_some_attrs\" {\n  cromulent_attr = \"cromulent_value\"\n}\n")];
    assert_eq!(expected, texts(fields, &body));
}

#[test]
fn dash_labeled_block() {
    // filter '.module{"cool-module"}.version'
    let fields = vec![
        Field::labeled("module", &["cool-module"]),
        Field::new("version"),
    ];
    let body = read_test_hcl();
    let expected = vec![String::from("\"1.2.3\"")];
    assert_eq!(expected, texts(fields, &body));
}

#[test]
fn query_uses_up_the_segments() {
    let mut fields = vec![Field::new("version")];
    let body = read_test_hcl();
    let results = query(&mut fields, &body);
    assert_eq!(1, results.len());
    assert!(fields.is_empty());
}

#[test]
fn fan_out_gives_one_result_per_block() {
    let body = hcl::parse("b {\n  x = 1\n}\nb {\n  x = 2\n}\nb {\n  x = 3\n}\n").expect("hcl error");
    let results = texts(vec![Field::new("b")], &body);
    assert_eq!(3, results.len());
    assert_eq!("b {\n  x = 1\n}\n", results[0]);
    assert_eq!("b {\n  x = 2\n}\n", results[1]);
    assert_eq!("b {\n  x = 3\n}\n", results[2]);
    let values = texts(vec![Field::new("b"), Field::new("x")], &body);
    assert_eq!(vec!["1", "2", "3"], values);
}

#[test]
fn labels_match_any_of_the_block_labels() {
    let body = hcl::parse("blk \"a\" \"b\" {\n  v = 1\n}\n").expect("hcl error");
    assert_eq!(1, texts(vec![Field::labeled("blk", &["b"])], &body).len());
    assert_eq!(0, texts(vec![Field::labeled("blk", &["c"])], &body).len());
    assert_eq!(1, texts(vec![Field::labeled("blk", &["c", "a"])], &body).len());
}

#[test]
fn object_entries_by_identifier_and_string_key() {
    let body = hcl::parse("o = {\n  a = 1\n  \"b\" = 2\n}\n").expect("hcl error");
    assert_eq!(vec!["1"], texts(vec![Field::new("o"), Field::new("a")], &body));
    assert_eq!(vec!["2"], texts(vec![Field::new("o"), Field::new("b")], &body));
    assert!(texts(vec![Field::new("o"), Field::new("zz")], &body).is_empty());
}

#[test]
fn scalar_is_not_traversed() {
    let body = read_test_hcl();
    assert!(texts(vec![Field::new("version"), Field::new("x")], &body).is_empty());
}

#[test]
fn attributes_come_before_blocks() {
    let body = hcl::parse("n {\n  v = 1\n}\nn = 2\n").expect("hcl error");
    let results = texts(vec![Field::new("n")], &body);
    assert_eq!(vec!["2".to_string(), "n {\n  v = 1\n}\n".to_string()], results);
}

#[test]
fn no_match_gives_no_result() {
    let body = read_test_hcl();
    assert!(texts(vec![Field::new("missing")], &body).is_empty());
}
