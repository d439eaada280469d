use radicle_node::issue::OperationName;

#[test]
fn the_default_operation_is_list() {
    assert_eq!(OperationName::default(), OperationName::List);
}

#[test]
fn operations_on_one_issue_need_an_id() {
    assert!(!OperationName::Create.needs_id());
    assert!(!OperationName::List.needs_id());
    assert!(OperationName::Show.needs_id());
    assert!(OperationName::State.needs_id());
    assert!(OperationName::Delete.needs_id());
    assert!(OperationName::React.needs_id());
}
