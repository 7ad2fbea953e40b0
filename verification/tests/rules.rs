use draco::flow::{
    DataTypeItemOfCollectionRuleConfig, DataTypeNumberRangeRuleConfig, DataTypeRegexRuleConfig,
};
use draco::validator::{apply_item_of_collection, apply_number_range, apply_regex};
use draco::value::{Number, Value};
use draco::violation::DataTypeRuleViolation;

fn string_value(s: &str) -> Value {
    Value::String(s.to_string())
}

fn number_as_value(mantissa: i64) -> Value {
    Value::Number(Number { mantissa, scale: 0 })
}

#[test]
fn test_apply_item_of_collection_success() {
    let value = string_value("allowed_value");
    let items = vec![string_value("allowed_value"), string_value("another_allowed_value")];

    let rule = DataTypeItemOfCollectionRuleConfig { items };
    let result = apply_item_of_collection(rule, &value, "test_field");

    assert!(result.is_ok());
}

#[test]
fn test_apply_item_of_collection_failure() {
    let value = string_value("disallowed_value");
    let items = vec![string_value("allowed_value"), string_value("another_allowed_value")];

    let rule = DataTypeItemOfCollectionRuleConfig { items };
    let result = apply_item_of_collection(rule, &value, "test_field");

    assert!(result.is_err());
    if let Err(error) = result {
        assert_eq!(error.violations.len(), 1);
        match &error.violations[0] {
            DataTypeRuleViolation::ItemOfCollection(violation) => {
                assert_eq!(violation.collection_name, "test_field");
            }
            _ => panic!("Expected ItemOfCollection violation"),
        }
    }
}

#[test]
fn test_apply_item_of_collection_with_different_value_types() {
    let value = number_as_value(42);
    let items = vec![string_value("allowed_value"), number_as_value(42)];

    let rule = DataTypeItemOfCollectionRuleConfig { items };
    let result = apply_item_of_collection(rule, &value, "test_field");

    assert!(result.is_ok());
}

#[test]
fn test_apply_item_of_collection_with_complex_values() {
    let struct_value = Value::Struct(vec![
        ("name".to_string(), string_value("test")),
        ("age".to_string(), number_as_value(30)),
    ]);
    let list_value = Value::List(vec![string_value("one"), number_as_value(2)]);
    let null_value = Value::Null;

    let items = vec![struct_value.clone(), list_value.clone(), null_value.clone()];
    let rule = DataTypeItemOfCollectionRuleConfig { items };

    assert!(apply_item_of_collection(rule.clone(), &struct_value, "test_field").is_ok());
    assert!(apply_item_of_collection(rule.clone(), &list_value, "test_field").is_ok());
    assert!(apply_item_of_collection(rule, &null_value, "test_field").is_ok());

    let different_struct = Value::Struct(vec![("different".to_string(), Value::Bool(true))]);

    let rule_for_failure = DataTypeItemOfCollectionRuleConfig { items: vec![struct_value] };
    assert!(apply_item_of_collection(rule_for_failure, &different_struct, "test_field").is_err());
}

#[test]
fn test_apply_number_range() {
    let rule = DataTypeNumberRangeRuleConfig { from: 1, to: 10, steps: None };

    assert!(apply_number_range(rule, &number_as_value(-2), "test").is_err());
    assert!(apply_number_range(rule, &number_as_value(2), "test").is_ok());
    assert!(apply_number_range(rule, &number_as_value(3), "test").is_ok());
    assert!(apply_number_range(rule, &number_as_value(11), "test").is_err());
    assert!(apply_number_range(rule, &number_as_value(12), "test").is_err());
}

#[test]
fn test_apply_number_range_with_steps() {
    let rule = DataTypeNumberRangeRuleConfig { from: 1, to: 10, steps: Some(2) };

    assert!(apply_number_range(rule, &number_as_value(2), "test").is_ok());
    assert!(apply_number_range(rule, &number_as_value(4), "test").is_ok());
    assert!(apply_number_range(rule, &number_as_value(6), "test").is_ok());
    assert!(apply_number_range(rule, &number_as_value(8), "test").is_ok());
    assert!(apply_number_range(rule, &number_as_value(10), "test").is_ok());
    assert!(apply_number_range(rule, &number_as_value(1), "test").is_err());
    assert!(apply_number_range(rule, &number_as_value(3), "test").is_err());
    assert!(apply_number_range(rule, &number_as_value(5), "test").is_err());
    assert!(apply_number_range(rule, &number_as_value(7), "test").is_err());
    assert!(apply_number_range(rule, &number_as_value(9), "test").is_err());
    assert!(apply_number_range(rule, &number_as_value(11), "test").is_err());
    assert!(apply_number_range(rule, &number_as_value(12), "test").is_err());
    assert!(apply_number_range(rule, &number_as_value(-12), "test").is_err());
}

#[test]
fn test_apply_number_range_with_falty_steps() {
    let rule = DataTypeNumberRangeRuleConfig { from: 1, to: 10, steps: Some(0) };

    assert!(apply_number_range(rule, &number_as_value(-12), "test").is_err());
    assert!(apply_number_range(rule, &number_as_value(12), "test").is_err());
    assert!(apply_number_range(rule, &number_as_value(6), "test").is_ok());
}

#[test]
fn test_apply_regex_with_matching_string() {
    let rule = DataTypeRegexRuleConfig { pattern: String::from("^[a-z]+$") };
    let value = string_value("abcde");

    assert!(apply_regex(rule, &value).is_ok());
}

#[test]
fn test_apply_regex_with_non_matching_string() {
    let rule = DataTypeRegexRuleConfig { pattern: String::from("^[a-z]+$") };
    let value = string_value("123");

    let result = apply_regex(rule, &value);
    assert!(result.is_err());

    if let Err(error) = result {
        assert_eq!(error.violations.len(), 1);
        match &error.violations[0] {
            DataTypeRuleViolation::Regex(violation) => {
                assert_eq!(violation.missing_regex, "^[a-z]+$");
            }
            _ => panic!("Expected RegexRuleViolation"),
        }
    }
}

#[test]
fn test_apply_regex_with_matching_boolean() {
    let rule = DataTypeRegexRuleConfig { pattern: String::from("^true$") };
    let value = Value::Bool(true);

    assert!(apply_regex(rule, &value).is_ok());
}

#[test]
fn test_apply_regex_with_non_matching_boolean() {
    let rule = DataTypeRegexRuleConfig { pattern: String::from("^false$") };
    let value = Value::Bool(true);

    assert!(apply_regex(rule, &value).is_err());
}

#[test]
fn test_apply_regex_with_matching_number() {
    let rule = DataTypeRegexRuleConfig { pattern: String::from("^42$") };
    let value = number_as_value(42);

    assert!(apply_regex(rule, &value).is_ok());
}

#[test]
fn test_apply_regex_with_non_matching_number() {
    let rule = DataTypeRegexRuleConfig { pattern: String::from("^[0-9]+$") };
    let value = Value::Number(Number { mantissa: 314, scale: 2 });

    assert!(apply_regex(rule, &value).is_err());
}

#[test]
fn test_apply_regex_with_array() {
    let rule = DataTypeRegexRuleConfig { pattern: String::from(".*") };
    let value = Value::List(vec![]);

    let result = apply_regex(rule, &value);
    assert!(result.is_err());

    if let Err(error) = result {
        assert_eq!(error.violations.len(), 1);
        match &error.violations[0] {
            DataTypeRuleViolation::RegexTypeNotAccepted(violation) => {
                assert!(violation.type_not_accepted.contains("ListValue"));
            }
            _ => panic!("Expected RegexRuleTypeNotAcceptedViolation"),
        }
    }
}

#[test]
fn test_apply_regex_with_object() {
    let rule = DataTypeRegexRuleConfig { pattern: String::from(".*") };
    let value = Value::Struct(vec![]);

    let result = apply_regex(rule, &value);
    assert!(result.is_err());

    if let Err(error) = result {
        assert_eq!(error.violations.len(), 1);
        match &error.violations[0] {
            DataTypeRuleViolation::RegexTypeNotAccepted(violation) => {
                assert!(violation.type_not_accepted.contains("StructValue"));
            }
            _ => panic!("Expected RegexRuleTypeNotAcceptedViolation"),
        }
    }
}

#[test]
fn test_apply_regex_with_null_kind() {
    let rule = DataTypeRegexRuleConfig { pattern: String::from(".*") };
    let value = Value::Null;

    assert!(apply_regex(rule, &value).is_ok());
}

#[test]
fn test_apply_regex_complex_pattern() {
    let rule = DataTypeRegexRuleConfig { pattern: String::from(r"^\d{3}-\d{2}-\d{4}$") };
    let value = string_value("123-45-6789");

    assert!(apply_regex(rule.clone(), &value).is_ok());

    let invalid_value = string_value("123-456-789");

    assert!(apply_regex(rule, &invalid_value).is_err());
}

#[test]
fn test_apply_regex_email_pattern() {
    let rule = DataTypeRegexRuleConfig {
        pattern: String::from(r"^[a-zA-Z0-9._%+-]+@[a-zA-Z0-9.-]+\.[a-zA-Z]{2,}$"),
    };
    let value = string_value("test@example.com");

    assert!(apply_regex(rule.clone(), &value).is_ok());

    let invalid_value = string_value("invalid-email");

    assert!(apply_regex(rule, &invalid_value).is_err());
}
