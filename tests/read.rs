use toml_query::error::ErrorKind;
use toml_query::read::{GetResultAsType, TomlValueReadExt, TomlValueReadTypeExt};
use toml_query::value::{Type, Value};

fn table(entries: Vec<(&str, Value)>) -> Value {
    Value::Table(entries.into_iter().map(|(k, v)| (String::from(k), v)).collect())
}

// `[table]`
fn empty_table_doc() -> Value {
    table(vec![("table", table(vec![]))])
}

// `[table]\na = 1`
fn table_with_value_doc() -> Value {
    table(vec![("table", table(vec![("a", Value::Integer(1))]))])
}

#[test]
fn test_read_empty() {
    let toml: Value = table(vec![]);

    let val = toml.read_with_seperator(&String::from("a"), '.');

    assert!(val.is_ok());
    let val = val.unwrap();

    assert!(val.is_none());
}

#[test]
fn test_read_table() {
    let toml: Value = empty_table_doc();

    let val = toml.read_with_seperator(&String::from("table"), '.');

    assert!(val.is_ok());
    let val = val.unwrap();

    assert!(val.is_some());
    let val = val.unwrap();

    assert!(matches!(val, &Value::Table(_)));
    match val {
        &Value::Table(ref t) => assert!(t.is_empty()),
        _ => panic!("What just happened?"),
    }
}

#[test]
fn read_test_read_table_value() {
    let toml: Value = table_with_value_doc();

    let val = toml.read_with_seperator(&String::from("table.a"), '.');

    assert!(val.is_ok());
    let val = val.unwrap();

    assert!(val.is_some());
    let val = val.unwrap();

    assert!(matches!(val, &Value::Integer(1)));

    let val = toml.read_int(&String::from("table.a"));

    assert!(val.is_ok());
    assert_eq!(val.unwrap(), 1);
}

#[test]
fn test_read_empty_table_value() {
    let toml: Value = empty_table_doc();

    let val = toml.read_with_seperator(&String::from("table.a"), '.');
    assert!(val.is_ok());
    let val = val.unwrap();

    assert!(val.is_none());
}

#[test]
fn test_read_table_index() {
    let toml: Value = empty_table_doc();

    let val = toml.read_with_seperator(&String::from("table.[0]"), '.');
    assert!(val.is_err());
    let err = val.unwrap_err();

    assert!(matches!(err, ErrorKind::NoIndexInTable(_)));
}

#[test]
fn test_read_empty_without_seperator() {
    let toml: Value = table(vec![]);

    let val = toml.read(&String::from("a"));
    assert!(val.is_ok());
    let val = val.unwrap();

    assert!(val.is_none());
}

#[test]
fn test_read_table_without_seperator() {
    let toml: Value = empty_table_doc();

    let val = toml.read(&String::from("table"));

    assert!(val.is_ok());
    let val = val.unwrap();

    assert!(val.is_some());
    let val = val.unwrap();

    assert!(matches!(val, &Value::Table(_)));
    match val {
        &Value::Table(ref t) => assert!(t.is_empty()),
        _ => panic!("What just happened?"),
    }
}

#[test]
fn test_read_table_value_without_seperator() {
    let toml: Value = table_with_value_doc();

    let val = toml.read(&String::from("table.a"));

    assert!(val.is_ok());
    let val = val.unwrap();

    assert!(val.is_some());
    let val = val.unwrap();

    assert!(matches!(val, &Value::Integer(1)));
}

#[test]
fn test_read_empty_table_value_without_seperator() {
    let toml: Value = empty_table_doc();

    let val = toml.read(&String::from("table.a"));
    assert!(val.is_ok());
    let val = val.unwrap();

    assert!(val.is_none());
}

#[test]
fn test_read_table_index_without_seperator() {
    let toml: Value = empty_table_doc();

    let val = toml.read(&String::from("table.[0]"));
    assert!(val.is_err());
    let err = val.unwrap_err();

    assert!(matches!(err, ErrorKind::NoIndexInTable(_)));
}

#[test]
fn read_test_read_table_value_result_ext() {
    let toml: Value = table_with_value_doc();

    let val = toml.read(&String::from("table.a")).as_type(Type::Integer);

    assert!(val.is_ok());
    assert_eq!(*val.unwrap().unwrap(), Value::Integer(1));

    assert!(toml.read(&String::from("table.a")).as_type(Type::String).is_err());
    assert!(toml.read(&String::from("table.a")).as_type(Type::Float).is_err());
    assert!(toml.read(&String::from("table.a")).as_type(Type::Boolean).is_err());
    assert!(toml.read(&String::from("table.a")).as_type(Type::Datetime).is_err());
    assert!(toml.read(&String::from("table.a")).as_type(Type::Array).is_err());
    assert!(toml.read(&String::from("table.a")).as_type(Type::Table).is_err());
}

// A document with one value of each kind, and nesting.
fn mixed_doc() -> Value {
    table(vec![
        ("s", Value::String(String::from("text"))),
        ("i", Value::Integer(-7)),
        ("f", Value::Float(2.5f64.to_bits())),
        ("b", Value::Boolean(true)),
        ("d", Value::Datetime(String::from("1979-05-27T07:32:00Z"))),
        ("arr", Value::Array(vec![Value::Integer(10), table(vec![("x", Value::Integer(11))])])),
        ("t", table(vec![("inner", table(vec![("leaf", Value::Boolean(false))]))])),
    ])
}

#[test]
fn read_scenario_empty_table() {
    let doc = empty_table_doc();
    assert_eq!(doc.read("table").unwrap(), Some(&table(vec![])));
    assert_eq!(doc.read("table.a").unwrap(), None);
    assert_eq!(doc.read("table.[0]"), Err(ErrorKind::NoIndexInTable(0)));
}

#[test]
fn read_into_arrays() {
    let doc = mixed_doc();
    assert_eq!(doc.read("arr.[0]").unwrap(), Some(&Value::Integer(10)));
    assert_eq!(doc.read("arr.[1].x").unwrap(), Some(&Value::Integer(11)));
    assert_eq!(doc.read("arr.[2]").unwrap(), None);
    assert_eq!(doc.read("arr.[-1]").unwrap(), None);
    assert_eq!(doc.read("t.inner.leaf").unwrap(), Some(&Value::Boolean(false)));
}

#[test]
fn read_structural_errors() {
    let doc = mixed_doc();
    assert_eq!(doc.read("arr.x"), Err(ErrorKind::NoIdentifierInArray(String::from("x"))));
    assert_eq!(doc.read("i.x"), Err(ErrorKind::QueryingValueAsTable(String::from("x"))));
    assert_eq!(doc.read("s.[0]"), Err(ErrorKind::QueryingValueAsArray(0)));
    assert_eq!(doc.read("t.[3]"), Err(ErrorKind::NoIndexInTable(3)));
    assert_eq!(doc.read(""), Err(ErrorKind::EmptyQueryError));
    assert_eq!(doc.read("t..inner"), Err(ErrorKind::EmptyIdentifier));
}

#[test]
fn read_absent_before_mismatch() {
    let doc = mixed_doc();
    // the walk stops at the absent key and never meets the index
    assert_eq!(doc.read("missing.[0].x").unwrap(), None);
}

#[test]
fn read_with_custom_separator() {
    let doc = mixed_doc();
    assert_eq!(doc.read_with_seperator("t/inner/leaf", '/').unwrap(), Some(&Value::Boolean(false)));
    assert_eq!(doc.read_with_seperator("arr/[1]/x", '/').unwrap(), Some(&Value::Integer(11)));
    assert_eq!(doc.read_with_seperator("t.inner", '/').unwrap(), None);
}

#[test]
fn read_mut_changes_the_document() {
    let mut doc = mixed_doc();
    {
        let v = doc.read_mut("t.inner.leaf").unwrap().unwrap();
        *v = Value::Integer(5);
    }
    assert_eq!(doc.read("t.inner.leaf").unwrap(), Some(&Value::Integer(5)));
    {
        let v = doc.read_mut_with_seperator("arr:[0]", ':').unwrap().unwrap();
        *v = Value::String(String::from("zero"));
    }
    assert_eq!(doc.read("arr.[0]").unwrap(), Some(&Value::String(String::from("zero"))));
    assert!(doc.read_mut("nothing.here").unwrap().is_none());
    assert_eq!(doc.read_mut("i.[0]").unwrap_err(), ErrorKind::QueryingValueAsArray(0));
}

#[test]
fn typed_getters() {
    let doc = mixed_doc();
    assert_eq!(doc.read_string("s").unwrap(), "text");
    assert_eq!(doc.read_int("i").unwrap(), -7);
    assert_eq!(f64::from_bits(doc.read_float("f").unwrap()), 2.5);
    assert!(doc.read_bool("b").unwrap());
    assert_eq!(doc.read_int("s"), Err(ErrorKind::TypeError(Type::Integer, Type::String)));
    assert_eq!(doc.read_string("i"), Err(ErrorKind::TypeError(Type::String, Type::Integer)));
    assert_eq!(doc.read_float("b"), Err(ErrorKind::TypeError(Type::Float, Type::Boolean)));
    assert_eq!(doc.read_bool("t"), Err(ErrorKind::TypeError(Type::Boolean, Type::Table)));
    assert_eq!(doc.read_int("nope"), Err(ErrorKind::NotAvailable(String::from("nope"))));
    assert_eq!(doc.read_bool(""), Err(ErrorKind::EmptyQueryError));
}

#[test]
fn as_type_on_every_tag() {
    let values = vec![
        (Type::String, Value::String(String::from("x"))),
        (Type::Integer, Value::Integer(1)),
        (Type::Float, Value::Float(1.0f64.to_bits())),
        (Type::Boolean, Value::Boolean(false)),
        (Type::Datetime, Value::Datetime(String::from("2020-01-01"))),
        (Type::Array, Value::Array(vec![])),
        (Type::Table, table(vec![])),
    ];
    for (t, v) in values.iter() {
        for (u, _) in values.iter() {
            let r: Result<Value, ErrorKind> = Ok(v.clone());
            if t == u {
                assert_eq!(r.as_type(*u), Ok(v.clone()));
            } else {
                assert_eq!(r.as_type(*u), Err(ErrorKind::TypeError(*u, *t)));
            }
        }
    }
}

#[test]
fn as_type_on_the_four_shapes() {
    let v = Value::Integer(3);
    let owned: Result<Value, ErrorKind> = Ok(v.clone());
    assert_eq!(owned.as_type(Type::Integer), Ok(Value::Integer(3)));
    let borrowed: Result<&Value, ErrorKind> = Ok(&v);
    assert_eq!(borrowed.as_type(Type::Table), Err(ErrorKind::TypeError(Type::Table, Type::Integer)));
    let absent: Result<Option<Value>, ErrorKind> = Ok(None);
    assert_eq!(absent.as_type(Type::String), Ok(None));
    let absent_ref: Result<Option<&Value>, ErrorKind> = Ok(None);
    assert_eq!(absent_ref.as_type(Type::String), Ok(None));
    let present_ref: Result<Option<&Value>, ErrorKind> = Ok(Some(&v));
    assert_eq!(present_ref.as_type(Type::Integer), Ok(Some(&v)));
    let failed: Result<Option<Value>, ErrorKind> = Err(ErrorKind::EmptyIdentifier);
    assert_eq!(failed.as_type(Type::Integer), Err(ErrorKind::EmptyIdentifier));
}
