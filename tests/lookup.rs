use hq_rs::lookup::{lookup_field, LookupResult};

fn body() -> hcl::Body {
    hcl::parse("a = 1\nb {\n  c = 3\n}\nb {\n  c = 4\n}\no = {\n  k = 5\n  \"s\" = 6\n}\n")
        .expect("hcl error")
}

fn names(list: &[&str]) -> Vec<String> {
    list.iter().map(|s| s.to_string()).collect()
}

fn expr_text(r: Option<LookupResult>) -> Option<String> {
    match r {
        Some(LookupResult::Expr(e)) => Some(hcl::format::to_string(&e).unwrap()),
        _ => None,
    }
}

#[test]
fn lookup_takes_the_first_attribute() {
    let mut fields = names(&["a"]);
    assert_eq!(Some("1".to_string()), expr_text(lookup_field(&mut fields, &body())));
    assert!(fields.is_empty());
}

#[test]
fn lookup_prefers_an_attribute_to_a_block() {
    let body = hcl::parse("n {\n  v = 1\n}\nn = 2\n").expect("hcl error");
    let mut fields = names(&["n"]);
    assert_eq!(Some("2".to_string()), expr_text(lookup_field(&mut fields, &body)));
}

#[test]
fn lookup_goes_into_the_first_block() {
    let mut fields = names(&["b", "c"]);
    assert_eq!(Some("3".to_string()), expr_text(lookup_field(&mut fields, &body())));
    let mut fields = names(&["b"]);
    assert!(matches!(lookup_field(&mut fields, &body()), Some(LookupResult::Body(_))));
}

#[test]
fn lookup_in_object_uses_identifier_keys() {
    let mut fields = names(&["o", "k"]);
    assert_eq!(Some("5".to_string()), expr_text(lookup_field(&mut fields, &body())));
    let mut fields = names(&["o", "s"]);
    assert!(lookup_field(&mut fields, &body()).is_none());
}

#[test]
fn lookup_without_match_is_none() {
    let mut fields = names(&["zz", "c"]);
    assert!(lookup_field(&mut fields, &body()).is_none());
    let mut fields = names(&["a", "c"]);
    assert!(lookup_field(&mut fields, &body()).is_none());
}
