use schema_validation::errors::{join, LocItem, Location, ValidationError};
use schema_validation::model::ModelValidator;
use schema_validation::schema::{BoolValidator, BuildError, IntValidator, SchemaValidator, StrValidator};
use schema_validation::value::{find_key, Value};

fn s(text: &str) -> Value {
    Value::Str(text.to_string())
}

fn dict(entries: Vec<(&str, Value)>) -> Value {
    Value::Dict(entries.into_iter().map(|(k, v)| (k.to_string(), v)).collect())
}

fn typed(tag: &str) -> Value {
    dict(vec![("type", s(tag))])
}

fn model(fields: Vec<(&str, Value)>) -> Value {
    dict(vec![("type", s("model")), ("fields", dict(fields))])
}

fn required(tag: &str) -> Value {
    dict(vec![("type", s(tag)), ("required", Value::Bool(true))])
}

fn build(schema: &Value) -> SchemaValidator {
    SchemaValidator::build(schema).expect("schema compiles")
}

fn keys(loc: &Location) -> Vec<String> {
    (0..loc.len())
        .map(|i| match loc.get(i) {
            LocItem::Key(k) => k.clone(),
            LocItem::Index(i) => i.to_string(),
        })
        .collect()
}

fn errors_of(r: Result<Value, Vec<ValidationError>>) -> Vec<ValidationError> {
    match r {
        Ok(v) => panic!("expected errors, got {:?}", v),
        Err(errors) => errors,
    }
}

#[test]
fn string_field_is_copied_to_output() {
    let v = build(&model(vec![("name", typed("string"))]));
    let out = v.validate_input(&dict(vec![("name", s("Alice"))]));
    assert_eq!(out.ok(), Some(dict(vec![("name", s("Alice"))])));
}

#[test]
fn missing_required_field_is_reported() {
    let v = build(&model(vec![("age", required("int"))]));
    let errors = errors_of(v.validate_input(&dict(vec![])));
    assert_eq!(errors.len(), 1);
    assert_eq!(keys(&errors[0].location), vec!["age".to_string()]);
    assert_eq!(errors[0].message, "Missing field: age");
    assert!(errors[0].message.contains("Missing field"));
}

#[test]
fn nested_error_has_two_segment_location() {
    let inner = model(vec![("age", typed("int"))]);
    let v = build(&model(vec![("person", inner)]));
    let input = dict(vec![("person", dict(vec![("age", s("old"))]))]);
    let errors = errors_of(v.validate_input(&input));
    assert_eq!(errors.len(), 1);
    assert_eq!(keys(&errors[0].location), vec!["person".to_string(), "age".to_string()]);
    assert_eq!(
        errors[0].message,
        "Field person error: Field age error: Input should be an integer"
    );
}

#[test]
fn nested_mapping_is_validated() {
    let inner = model(vec![("age", typed("int"))]);
    let v = build(&model(vec![("person", inner)]));
    let input = dict(vec![("person", dict(vec![("age", Value::Int(30)), ("extra", Value::Null)]))]);
    let expected = dict(vec![("person", dict(vec![("age", Value::Int(30))]))]);
    assert_eq!(v.validate_input(&input).ok(), Some(expected));
}

#[test]
fn scalar_input_to_model_fails_at_once() {
    let v = build(&model(vec![("a", required("int")), ("b", required("int"))]));
    let errors = errors_of(v.validate_input(&Value::Int(3)));
    assert_eq!(errors.len(), 1);
    assert_eq!(errors[0].location.len(), 0);
    assert_eq!(errors[0].message, "Input should be a mapping");
}

#[test]
fn empty_model_accepts_any_mapping() {
    let v = build(&model(vec![]));
    let input = dict(vec![("x", Value::Int(1)), ("y", s("z"))]);
    assert_eq!(v.validate_input(&input).ok(), Some(dict(vec![])));
    assert_eq!(v.validate_input(&dict(vec![])).ok(), Some(dict(vec![])));
}

#[test]
fn model_without_fields_entry_is_empty() {
    let v = build(&typed("model"));
    let input = dict(vec![("x", Value::Int(1))]);
    assert_eq!(v.validate_input(&input).ok(), Some(dict(vec![])));
}

#[test]
fn every_missing_field_is_reported_once() {
    let v = build(&model(vec![
        ("a", required("int")),
        ("b", typed("int")),
        ("c", required("string")),
        ("d", required("bool")),
    ]));
    let errors = errors_of(v.validate_input(&dict(vec![("d", Value::Bool(false))])));
    let messages: Vec<&str> = errors.iter().map(|e| e.message.as_str()).collect();
    assert_eq!(messages, vec!["Missing field: a", "Missing field: c"]);
    assert_eq!(keys(&errors[0].location), vec!["a".to_string()]);
    assert_eq!(keys(&errors[1].location), vec!["c".to_string()]);
}

#[test]
fn optional_absent_field_is_skipped() {
    let v = build(&model(vec![("a", typed("int")), ("b", typed("string"))]));
    let out = v.validate_input(&dict(vec![("b", s("x"))]));
    assert_eq!(out.ok(), Some(dict(vec![("b", s("x"))])));
}

#[test]
fn output_follows_declaration_order() {
    let v = build(&model(vec![("b", typed("int")), ("a", typed("int"))]));
    let input = dict(vec![("a", Value::Int(1)), ("b", Value::Int(2))]);
    let expected = dict(vec![("b", Value::Int(2)), ("a", Value::Int(1))]);
    assert_eq!(v.validate_input(&input).ok(), Some(expected));
}

#[test]
fn field_order_does_not_change_which_fields_appear() {
    let first = build(&model(vec![("a", typed("int")), ("b", typed("string")), ("c", typed("bool"))]));
    let second = build(&model(vec![("c", typed("bool")), ("a", typed("int")), ("b", typed("string"))]));
    let input = dict(vec![("a", Value::Int(1)), ("c", Value::Bool(true))]);
    let mut one: Vec<(String, Value)> = match first.validate_input(&input) {
        Ok(Value::Dict(e)) => e,
        other => panic!("unexpected {:?}", other.is_ok()),
    };
    let mut two: Vec<(String, Value)> = match second.validate_input(&input) {
        Ok(Value::Dict(e)) => e,
        other => panic!("unexpected {:?}", other.is_ok()),
    };
    one.sort_by(|x, y| x.0.cmp(&y.0));
    two.sort_by(|x, y| x.0.cmp(&y.0));
    assert_eq!(one, two);
    assert_eq!(one.len(), 2);
}

#[test]
fn any_field_error_means_no_output() {
    let v = build(&model(vec![("a", typed("int")), ("b", typed("int"))]));
    let input = dict(vec![("a", Value::Int(1)), ("b", s("two"))]);
    let errors = errors_of(v.validate_input(&input));
    assert_eq!(errors.len(), 1);
    assert_eq!(keys(&errors[0].location), vec!["b".to_string()]);
    assert!(errors[0].message.contains("b"));
    assert_eq!(errors[0].message, "Field b error: Input should be an integer");
}

#[test]
fn all_field_errors_are_reported_together() {
    let v = build(&model(vec![("a", typed("int")), ("b", required("string")), ("c", typed("bool"))]));
    let input = dict(vec![("a", s("x")), ("c", Value::Int(0))]);
    let errors = errors_of(v.validate_input(&input));
    let messages: Vec<&str> = errors.iter().map(|e| e.message.as_str()).collect();
    assert_eq!(
        messages,
        vec![
            "Field a error: Input should be an integer",
            "Missing field: b",
            "Field c error: Input should be a boolean",
        ]
    );
}

#[test]
fn validation_is_repeatable() {
    let v = build(&model(vec![("a", required("int")), ("b", typed("string"))]));
    let good = dict(vec![("a", Value::Int(5)), ("b", s("x"))]);
    assert_eq!(v.validate_input(&good).ok(), v.validate_input(&good).ok());
    let bad = dict(vec![("b", Value::Int(5))]);
    let first: Vec<(Vec<String>, String)> =
        errors_of(v.validate_input(&bad)).iter().map(|e| (keys(&e.location), e.message.clone())).collect();
    let second: Vec<(Vec<String>, String)> =
        errors_of(v.validate_input(&bad)).iter().map(|e| (keys(&e.location), e.message.clone())).collect();
    assert_eq!(first, second);
    assert_eq!(first.len(), 2);
}

#[test]
fn location_is_kept_below_given_root() {
    let v = build(&model(vec![("a", required("int"))]));
    let root = Location::new().push(LocItem::Key("outer".to_string())).push(LocItem::Index(2));
    let errors = errors_of(v.validate(&dict(vec![]), &root));
    assert_eq!(keys(&errors[0].location), vec!["outer".to_string(), "2".to_string(), "a".to_string()]);
    assert_eq!(root.len(), 2);
}

#[test]
fn primitive_validators_check_kind() {
    let loc = Location::new();
    assert_eq!(StrValidator.validate(&s("a"), &loc).ok(), Some(s("a")));
    assert_eq!(IntValidator.validate(&Value::Int(-4), &loc).ok(), Some(Value::Int(-4)));
    assert_eq!(BoolValidator.validate(&Value::Bool(true), &loc).ok(), Some(Value::Bool(true)));
    assert_eq!(errors_of(StrValidator.validate(&Value::Int(1), &loc))[0].message, "Input should be a string");
    assert_eq!(errors_of(IntValidator.validate(&s("1"), &loc))[0].message, "Input should be an integer");
    assert_eq!(errors_of(BoolValidator.validate(&Value::Null, &loc))[0].message, "Input should be a boolean");
}

#[test]
fn tags_select_one_kind() {
    let schema = typed("x");
    for (tag, which) in [("model", 0), ("string", 1), ("int", 2), ("bool", 3), ("float", 4)] {
        let t = tag.to_string();
        let matches = [
            ModelValidator::is_match(&t, &schema),
            StrValidator::is_match(&t, &schema),
            IntValidator::is_match(&t, &schema),
            BoolValidator::is_match(&t, &schema),
        ];
        for (k, m) in matches.iter().enumerate() {
            assert_eq!(*m, k == which, "tag {}", tag);
        }
    }
}

#[test]
fn build_selects_validator_kind() {
    assert!(matches!(build(&typed("string")), SchemaValidator::Str(_)));
    assert!(matches!(build(&typed("int")), SchemaValidator::Int(_)));
    assert!(matches!(build(&typed("bool")), SchemaValidator::Bool(_)));
    assert!(matches!(build(&typed("model")), SchemaValidator::Model(_)));
}

#[test]
fn build_errors() {
    assert_eq!(SchemaValidator::build(&Value::Int(1)).err(), Some(BuildError::NotAMapping));
    assert_eq!(SchemaValidator::build(&dict(vec![])).err(), Some(BuildError::MissingType));
    assert_eq!(
        SchemaValidator::build(&dict(vec![("type", Value::Int(1))])).err(),
        Some(BuildError::TypeNotAString)
    );
    assert_eq!(
        SchemaValidator::build(&typed("float")).err(),
        Some(BuildError::UnknownType("float".to_string()))
    );
    assert_eq!(
        SchemaValidator::build(&dict(vec![("type", s("model")), ("fields", Value::Int(1))])).err(),
        Some(BuildError::FieldsNotAMapping)
    );
    assert_eq!(
        SchemaValidator::build(&model(vec![("a", typed("int")), ("b", s("int"))])).err(),
        Some(BuildError::FieldNotAMapping("b".to_string()))
    );
    assert_eq!(
        SchemaValidator::build(&model(vec![("a", dict(vec![("type", s("int")), ("required", s("yes"))]))])).err(),
        Some(BuildError::RequiredNotABool("a".to_string()))
    );
    assert_eq!(
        SchemaValidator::build(&model(vec![("a", model(vec![("b", typed("date"))]))])).err(),
        Some(BuildError::UnknownType("date".to_string()))
    );
}

#[test]
fn first_bad_field_definition_is_reported() {
    let schema = model(vec![("a", typed("nope")), ("b", Value::Null)]);
    assert_eq!(SchemaValidator::build(&schema).err(), Some(BuildError::UnknownType("nope".to_string())));
    assert!(ModelValidator::build(&schema).is_err());
}

#[test]
fn required_false_is_optional() {
    let field = dict(vec![("type", s("int")), ("required", Value::Bool(false))]);
    let v = build(&model(vec![("a", field)]));
    assert_eq!(v.validate_input(&dict(vec![])).ok(), Some(dict(vec![])));
}

#[test]
fn first_entry_wins_on_duplicate_keys() {
    let entries = vec![
        ("a".to_string(), Value::Int(1)),
        ("b".to_string(), Value::Int(2)),
        ("a".to_string(), Value::Int(3)),
    ];
    assert_eq!(find_key(&entries, &"a".to_string()), Some(0));
    assert_eq!(find_key(&entries, &"b".to_string()), Some(1));
    assert_eq!(find_key(&entries, &"c".to_string()), None);
    let v = build(&model(vec![("a", typed("int"))]));
    assert_eq!(v.validate_input(&Value::Dict(entries)).ok(), Some(dict(vec![("a", Value::Int(1))])));
}

#[test]
fn location_push_leaves_original_unchanged() {
    let root = Location::new();
    let deeper = root.push(LocItem::Key("k".to_string()));
    let copy = deeper.copied();
    assert_eq!(root.len(), 0);
    assert_eq!(deeper.len(), 1);
    assert_eq!(copy.get(0), &LocItem::Key("k".to_string()));
    assert_eq!(LocItem::Index(4).copied(), LocItem::Index(4));
}

#[test]
fn join_appends_text() {
    assert_eq!(join("ab", "cd"), "abcd");
    assert_eq!(join("", "x"), "x");
}
