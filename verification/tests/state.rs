use vimyc::state::call_key;

#[test]
fn a_call_without_arguments_is_keyed_by_its_name() {
    assert_eq!(call_key("cash", &[]), "cash");
}

#[test]
fn arguments_are_joined_without_spaces() {
    assert_eq!(call_key("has-role", &["barracks".to_string()]), "has-role(barracks)");
    assert_eq!(
        call_key("can-build", &["Building".to_string(), "powr".to_string()]),
        "can-build(Building,powr)"
    );
}
