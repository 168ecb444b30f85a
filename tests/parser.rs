use hq_rs::parse_filter;
use hq_rs::parser::Field;

#[test]
fn name_filter() {
    let input = ".a_name";
    let expected = vec![Field::new("a_name")];
    let fields = parse_filter(input).expect("parse error");
    assert_eq!(expected, fields);
}

#[test]
fn label_filter() {
    let input = ".a_name{\"a_label\"}";
    let expected = vec![Field::labeled("a_name", &["a_label"])];
    let fields = parse_filter(input).expect("parse error");
    assert_eq!(expected, fields);
}

#[test]
fn traversal_filter() {
    let input = ".a_name{\"a_label\"}.another_name{\"another_label\"}.third_name";
    let expected = vec![
        Field::labeled("a_name", &["a_label"]),
        Field::labeled("another_name", &["another_label"]),
        Field::new("third_name"),
    ];
    let fields = parse_filter(input).expect("parse error");
    assert_eq!(expected, fields);
}

#[test]
fn quoted_name_equals_bare_name() {
    let quoted = parse_filter(".\"cool-module\"").expect("parse error");
    let bare = parse_filter(".cool-module").expect("parse error");
    assert_eq!(quoted, bare);
    assert_eq!(vec![Field::new("cool-module")], bare);
}

#[test]
fn quoted_name_with_space() {
    let fields = parse_filter(".\"a b\".c").expect("parse error");
    assert_eq!(vec![Field::new("a b"), Field::new("c")], fields);
}

#[test]
fn several_labels_in_one_segment() {
    let fields = parse_filter(".data{\"x\"}{\"y\"}").expect("parse error");
    assert_eq!(vec![Field::labeled("data", &["x", "y"])], fields);
}

#[test]
fn empty_filter_is_an_error() {
    let err = parse_filter("").unwrap_err();
    assert_eq!(0, err.position());
    assert_eq!("", err.input());
}

#[test]
fn missing_leading_dot_is_an_error() {
    let err = parse_filter("name").unwrap_err();
    assert_eq!(0, err.position());
    assert_eq!("name", err.input());
}

#[test]
fn unexpected_character_is_an_error() {
    let err = parse_filter(".a.b c").unwrap_err();
    assert_eq!(4, err.position());
}

#[test]
fn unterminated_quote_is_an_error() {
    let err = parse_filter(".\"abc").unwrap_err();
    assert_eq!(5, err.position());
}

#[test]
fn empty_quoted_name_is_an_error() {
    let err = parse_filter(".\"\"").unwrap_err();
    assert_eq!(2, err.position());
}

#[test]
fn unclosed_label_is_an_error() {
    let err = parse_filter(".a{\"x\"").unwrap_err();
    assert_eq!(6, err.position());
    let err = parse_filter(".a{x}").unwrap_err();
    assert_eq!(3, err.position());
}

#[test]
fn dot_without_name_is_an_error() {
    let err = parse_filter(".a.").unwrap_err();
    assert_eq!(3, err.position());
}
