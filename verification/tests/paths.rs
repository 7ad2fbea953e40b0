use draco::path::{exists_path, expect_kind};
use draco::value::{Number, Value};

fn sample_person() -> Value {
    Value::Struct(vec![
        ("name".to_string(), Value::String("John".to_string())),
        ("age".to_string(), Value::Number(Number { mantissa: 30, scale: 0 })),
    ])
}

#[test]
fn test_expect_none() {
    let value = sample_person();

    assert_eq!(expect_kind(".", &value), None);
    assert_eq!(expect_kind("", &value), None);
}

#[test]
fn test_expect_kind() {
    let value = sample_person();

    assert_eq!(expect_kind("name", &value), Some(&Value::String("John".to_string())));
    assert_eq!(
        expect_kind("age", &value),
        Some(&Value::Number(Number { mantissa: 30, scale: 0 }))
    );
    assert_eq!(expect_kind("address", &value), None);
}

#[test]
fn test_expect_kind_nested() {
    let value = Value::Struct(vec![
        ("name".to_string(), Value::String("John".to_string())),
        (
            "address".to_string(),
            Value::Struct(vec![
                ("street".to_string(), Value::String("123 Main St".to_string())),
                ("city".to_string(), Value::String("Anytown".to_string())),
                ("zipcode".to_string(), Value::Number(Number { mantissa: 12345, scale: 0 })),
            ]),
        ),
    ]);

    assert_eq!(expect_kind("name", &value), Some(&Value::String("John".to_string())));

    assert_eq!(
        expect_kind("address.street", &value),
        Some(&Value::String("123 Main St".to_string()))
    );
    assert_eq!(
        expect_kind("address.city", &value),
        Some(&Value::String("Anytown".to_string()))
    );
    assert_eq!(
        expect_kind("address.zipcode", &value),
        Some(&Value::Number(Number { mantissa: 12345, scale: 0 }))
    );

    assert_eq!(expect_kind("address.country", &value), None);
    assert_eq!(expect_kind("phone", &value), None);
    assert_eq!(expect_kind("address.street.number", &value), None);

    assert!(exists_path("address.city", &value));
    assert!(!exists_path("address.street.number", &value));
}
