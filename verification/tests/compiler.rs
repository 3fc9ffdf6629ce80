use crud_lambda::crud::update_instruction;
use crud_lambda::json::JsonValue;
use crud_lambda::plan::compile;

fn s(x: &str) -> String {
    x.to_string()
}

#[test]
fn compile_mixed_patch() {
    let patch = vec![
        (s("a"), JsonValue::Int(1)),
        (s("b"), JsonValue::Null),
        (s("c"), JsonValue::Str(s("x"))),
    ];
    let plan = compile(patch);
    assert_eq!(plan.assigns, vec![(s("#a"), s(":a")), (s("#c"), s(":c"))]);
    assert_eq!(plan.removes, vec![s("#b")]);
    assert_eq!(
        plan.names,
        vec![(s("#a"), s("a")), (s("#b"), s("b")), (s("#c"), s("c"))]
    );
    assert_eq!(
        plan.values,
        vec![
            (s(":a"), JsonValue::Int(1)),
            (s(":c"), JsonValue::Str(s("x"))),
        ]
    );
}

#[test]
fn mixed_patch_expression() {
    let patch = vec![
        (s("a"), JsonValue::Int(1)),
        (s("b"), JsonValue::Null),
        (s("c"), JsonValue::Str(s("x"))),
    ];
    let u = update_instruction(patch).expect("non-empty patch");
    assert_eq!(u.expression, "SET #a = :a, #c = :c REMOVE #b");
}

#[test]
fn all_non_null_is_pure_assignment() {
    let patch = vec![(s("a"), JsonValue::Int(1)), (s("b"), JsonValue::Bool(true))];
    let plan = compile(patch);
    assert_eq!(plan.removes.len(), 0);
    assert_eq!(plan.assigns.len(), 2);
    assert_eq!(plan.values.len(), 2);

    let patch = vec![(s("a"), JsonValue::Int(1)), (s("b"), JsonValue::Bool(true))];
    let u = update_instruction(patch).expect("non-empty patch");
    assert_eq!(u.expression, "SET #a = :a, #b = :b");
}

#[test]
fn all_null_is_pure_removal() {
    let patch = vec![(s("a"), JsonValue::Null), (s("b"), JsonValue::Null)];
    let plan = compile(patch);
    assert_eq!(plan.assigns.len(), 0);
    assert_eq!(plan.values.len(), 0);
    assert_eq!(plan.removes, vec![s("#a"), s("#b")]);

    let patch = vec![(s("a"), JsonValue::Null), (s("b"), JsonValue::Null)];
    let u = update_instruction(patch).expect("non-empty patch");
    assert_eq!(u.expression, "REMOVE #a, #b");
}

#[test]
fn empty_patch_is_noop() {
    assert!(update_instruction(Vec::new()).is_none());
}

#[test]
fn reserved_word_keys_are_aliased() {
    let patch = vec![(s("size"), JsonValue::Int(7)), (s("name"), JsonValue::Null)];
    let u = update_instruction(patch).expect("non-empty patch");
    assert_eq!(u.expression, "SET #size = :size REMOVE #name");
    assert_eq!(u.names, vec![(s("#size"), s("size")), (s("#name"), s("name"))]);
    assert_eq!(u.values, vec![(s(":size"), JsonValue::Int(7))]);
}

#[test]
fn nested_values_are_carried_through() {
    let inner = vec![(s("x"), JsonValue::Int(1))];
    let patch = vec![(s("o"), JsonValue::Obj(inner))];
    let plan = compile(patch);
    let expected_inner = vec![(s("x"), JsonValue::Int(1))];
    assert_eq!(plan.values, vec![(s(":o"), JsonValue::Obj(expected_inner))]);
}
