use evtxgrep::grep::grep_decision;
use evtxgrep::grep::scalars_of;
use evtxgrep::grep::DataValue;

fn scalar(s: &str) -> DataValue {
    DataValue::Scalar(s.to_string())
}

#[test]
fn scalars_of_a_scalar_is_itself() {
    let v = scalar("bob");
    assert_eq!(scalars_of(&v), vec!["bob".to_string()]);
}

#[test]
fn scalars_recurse_depth_first_through_lists_and_objects() {
    let v = DataValue::Object(vec![
        ("user".to_string(), scalar("bob")),
        (
            "groups".to_string(),
            DataValue::List(vec![
                scalar("admin"),
                DataValue::Object(vec![("nested".to_string(), scalar("deep"))]),
            ]),
        ),
        ("host".to_string(), scalar("pc1")),
    ]);
    assert_eq!(
        scalars_of(&v),
        vec![
            "bob".to_string(),
            "admin".to_string(),
            "deep".to_string(),
            "pc1".to_string()
        ]
    );
}

#[test]
fn empty_containers_yield_no_scalars() {
    assert_eq!(scalars_of(&DataValue::List(Vec::new())).len(), 0);
    assert_eq!(scalars_of(&DataValue::Object(Vec::new())).len(), 0);
}

#[test]
fn grep_needs_both_expressions_to_match() {
    assert!(grep_decision(true, &vec![false, true]));
    assert!(!grep_decision(false, &vec![false, true]));
    assert!(!grep_decision(true, &vec![false, false]));
    assert!(!grep_decision(true, &Vec::new()));
    assert!(grep_decision(true, &vec![true]));
}
