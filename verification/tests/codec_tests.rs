use scuttle_db::null_bitmap::NullBitmap;
use scuttle_db::{ColumnDef, DataType, DatabaseError, Row, Schema, TableDef, Value};

fn users_schema() -> Schema {
    Schema::new(vec![
        ColumnDef::new("id", DataType::Int64, false),
        ColumnDef::new("name", DataType::VarChar(255), false),
        ColumnDef::new("age", DataType::Int64, true),
        ColumnDef::new("is_active", DataType::Bool, true),
    ])
}

fn user(id: i64, name: &str, age: Option<i64>, is_active: Option<bool>) -> Row {
    Row::new(vec![
        Value::Int64(id),
        Value::Text(name.to_string()),
        age.map(Value::Int64).unwrap_or(Value::Null),
        is_active.map(Value::Bool).unwrap_or(Value::Null),
    ])
}

#[test]
fn encoding_has_bitmap_then_payloads() {
    let schema = users_schema();
    let bytes = schema.encode(&user(1, "Al", None, Some(true))).unwrap();
    let mut expected = vec![0b0000_0100u8];
    expected.extend_from_slice(&1i64.to_le_bytes());
    expected.extend_from_slice(&2u32.to_le_bytes());
    expected.extend_from_slice(b"Al");
    expected.push(1);
    assert_eq!(bytes, expected);

    let bytes = schema.encode(&user(-2, "", Some(-1), None)).unwrap();
    let mut expected = vec![0b0000_1000u8];
    expected.extend_from_slice(&(-2i64).to_le_bytes());
    expected.extend_from_slice(&0u32.to_le_bytes());
    expected.extend_from_slice(&(-1i64).to_le_bytes());
    assert_eq!(bytes, expected);
}

#[test]
fn float_is_stored_as_its_ieee_bits() {
    let schema = Schema::new(vec![ColumnDef::new("x", DataType::Float64, false)]);
    let row = Row::new(vec![Value::Float64(1.5f64.to_bits())]);
    let bytes = schema.encode(&row).unwrap();
    let mut expected = vec![0u8];
    expected.extend_from_slice(&1.5f64.to_le_bytes());
    assert_eq!(bytes, expected);
    assert_eq!(schema.decode(&bytes).unwrap(), row);
}

#[test]
fn row_round_trip() {
    let schema = users_schema();
    let rows = vec![
        user(1, "Alice", Some(30), None),
        user(2, "Bob", None, Some(false)),
        user(3, "Charlie", Some(35), Some(true)),
        user(4, "Dana", Some(17), Some(true)),
        user(i64::MIN, "żółć ♥ 日本語", Some(i64::MAX), None),
        user(0, &"x".repeat(255), None, None),
    ];
    for row in rows {
        let bytes = schema.encode(&row).unwrap();
        assert_eq!(schema.decode(&bytes).unwrap(), row);
    }
}

#[test]
fn round_trip_over_many_columns() {
    let mut columns = Vec::new();
    let mut values = Vec::new();
    for i in 0..19 {
        match i % 4 {
            0 => {
                columns.push(ColumnDef::new(&format!("c{i}"), DataType::Int64, true));
                values.push(if i % 3 == 0 { Value::Null } else { Value::Int64(i) });
            }
            1 => {
                columns.push(ColumnDef::new(&format!("c{i}"), DataType::Text, true));
                values.push(Value::Text(format!("text {i}")));
            }
            2 => {
                columns.push(ColumnDef::new(&format!("c{i}"), DataType::Bool, true));
                values.push(if i % 3 == 0 { Value::Null } else { Value::Bool(i % 8 == 2) });
            }
            _ => {
                columns.push(ColumnDef::new(&format!("c{i}"), DataType::Float64, true));
                values.push(Value::Float64((i as f64 / 7.0).to_bits()));
            }
        }
    }
    columns.push(ColumnDef::new("stamp", DataType::Timestamp, true));
    values.push(Value::Null);
    let schema = Schema::new(columns);
    let row = Row::new(values);
    let bytes = schema.encode(&row).unwrap();
    assert_eq!(bytes.len() >= 3, true);
    let bitmap = NullBitmap::from_bytes(&bytes, 20).unwrap();
    assert_eq!(bitmap.bytes.len(), 3);
    for (i, value) in row.values.iter().enumerate() {
        assert_eq!(bitmap.is_null(i), *value == Value::Null);
    }
    assert!(!bitmap.is_null(20));
    assert!(!bitmap.is_null(1000));
    assert_eq!(schema.decode(&bytes).unwrap(), row);
}

#[test]
fn null_bitmap_sets_and_reads_bits() {
    let mut bitmap = NullBitmap::new(10);
    assert_eq!(bitmap.bytes, vec![0, 0]);
    bitmap.set_null(0);
    bitmap.set_null(3);
    bitmap.set_null(9);
    assert_eq!(bitmap.bytes, vec![0b0000_1001, 0b0000_0010]);
    for i in 0..16 {
        assert_eq!(bitmap.is_null(i), i == 0 || i == 3 || i == 9);
    }
    bitmap.set_null(3);
    assert_eq!(bitmap.bytes, vec![0b0000_1001, 0b0000_0010]);
    assert_eq!(NullBitmap::new(0).bytes, Vec::<u8>::new());
    assert_eq!(NullBitmap::new(8).bytes.len(), 1);
    assert_eq!(NullBitmap::new(9).bytes.len(), 2);
}

#[test]
fn null_bitmap_from_bytes() {
    let bitmap = NullBitmap::from_bytes(&[0xff, 0x01, 0x55], 9).unwrap();
    assert_eq!(bitmap.bytes, vec![0xff, 0x01]);
    assert!(matches!(
        NullBitmap::from_bytes(&[0xff], 9),
        Err(DatabaseError::SerializationError(_))
    ));
    assert!(NullBitmap::from_bytes(&[], 0).is_ok());
}

#[test]
fn encode_rejects_what_cannot_be_stored() {
    let schema = users_schema();
    let cases = vec![
        Row::new(vec![Value::Int64(1)]),
        Row::new(vec![
            Value::Int64(1),
            Value::Text("a".to_string()),
            Value::Null,
            Value::Null,
            Value::Null,
        ]),
        Row::new(vec![
            Value::Text("1".to_string()),
            Value::Text("a".to_string()),
            Value::Null,
            Value::Null,
        ]),
        Row::new(vec![
            Value::Int64(1),
            Value::Int64(2),
            Value::Null,
            Value::Null,
        ]),
        Row::new(vec![
            Value::Int64(1),
            Value::Text("a".to_string()),
            Value::Float64(0),
            Value::Null,
        ]),
        user(1, &"x".repeat(256), None, None),
    ];
    for row in cases {
        assert!(matches!(
            schema.encode(&row),
            Err(DatabaseError::TypeMismatch(_))
        ));
    }
    let stamp = Schema::new(vec![ColumnDef::new("at", DataType::Timestamp, true)]);
    assert!(stamp.encode(&Row::new(vec![Value::Int64(1)])).is_err());
    assert_eq!(stamp.encode(&Row::new(vec![Value::Null])).unwrap(), vec![1u8]);
}

#[test]
fn varchar_limit_counts_bytes() {
    let schema = Schema::new(vec![ColumnDef::new("s", DataType::VarChar(4), false)]);
    assert!(schema
        .encode(&Row::new(vec![Value::Text("abcd".to_string())]))
        .is_ok());
    assert!(schema
        .encode(&Row::new(vec![Value::Text("éé".to_string())]))
        .is_ok());
    assert!(schema
        .encode(&Row::new(vec![Value::Text("ééé".to_string())]))
        .is_err());
    assert!(Value::Text("éé".to_string())
        .is_compatible_with(&DataType::VarChar(4))
        .is_ok());
    assert!(Value::Text("ééé".to_string())
        .is_compatible_with(&DataType::VarChar(4))
        .is_err());
}

#[test]
fn decode_rejects_truncated_and_malformed_bytes() {
    let schema = users_schema();
    let bytes = schema.encode(&user(1, "Alice", Some(30), Some(true))).unwrap();
    for cut in 0..bytes.len() {
        assert!(
            matches!(
                schema.decode(&bytes[..cut]),
                Err(DatabaseError::SerializationError(_))
            ),
            "expected a failure at {cut} of {} bytes",
            bytes.len()
        );
    }
    let mut longer = bytes.clone();
    longer.extend_from_slice(&[9, 9, 9]);
    assert_eq!(
        schema.decode(&longer).unwrap(),
        user(1, "Alice", Some(30), Some(true))
    );

    let mut bad_utf8 = bytes.clone();
    bad_utf8[13] = 0xff;
    assert!(matches!(
        schema.decode(&bad_utf8),
        Err(DatabaseError::SerializationError(_))
    ));

    let stamp = Schema::new(vec![ColumnDef::new("at", DataType::Timestamp, true)]);
    assert!(stamp.decode(&[0, 1, 2, 3]).is_err());
    assert_eq!(
        stamp.decode(&[1]).unwrap(),
        Row::new(vec![Value::Null])
    );
}

#[test]
fn decode_reads_any_nonzero_byte_as_true() {
    let schema = Schema::new(vec![ColumnDef::new("b", DataType::Bool, false)]);
    assert_eq!(
        schema.decode(&[0, 0]).unwrap(),
        Row::new(vec![Value::Bool(false)])
    );
    assert_eq!(
        schema.decode(&[0, 7]).unwrap(),
        Row::new(vec![Value::Bool(true)])
    );
}

#[test]
fn validation_checks_length_nulls_and_types() {
    let schema = users_schema();
    assert!(schema.validate(&user(1, "Alice", Some(30), None)).is_ok());
    assert!(schema.validate(&user(1, "Alice", None, None)).is_ok());
    let bad = vec![
        Row::new(vec![]),
        Row::new(vec![
            Value::Null,
            Value::Text("a".to_string()),
            Value::Null,
            Value::Null,
        ]),
        Row::new(vec![
            Value::Int64(1),
            Value::Null,
            Value::Null,
            Value::Null,
        ]),
        Row::new(vec![
            Value::Int64(1),
            Value::Text("a".to_string()),
            Value::Bool(true),
            Value::Null,
        ]),
        user(1, &"x".repeat(256), None, None),
    ];
    for row in bad {
        assert!(matches!(
            schema.validate(&row),
            Err(DatabaseError::TypeMismatch(_))
        ));
    }
    let mut table = TableDef::new("users".to_string(), users_schema());
    assert_eq!(table.name(), "users");
    assert_eq!(table.schema(), &users_schema());
    assert!(table.insert_row(user(1, "Alice", Some(30), None)).is_ok());
    assert!(table.insert_row(Row::new(vec![])).is_err());
}

#[test]
fn schema_and_row_accessors() {
    let schema = users_schema();
    assert_eq!(schema.get_column_index("id"), Some(0));
    assert_eq!(schema.get_column_index("is_active"), Some(3));
    assert_eq!(schema.get_column_index("ID"), None);
    assert_eq!(schema.get_column_index(""), None);
    let twice = Schema::new(vec![
        ColumnDef::new("a", DataType::Int64, false),
        ColumnDef::new("b", DataType::Int64, false),
        ColumnDef::new("a", DataType::Text, false),
    ]);
    assert_eq!(twice.get_column_index("a"), Some(0));

    let row = user(1, "Alice", None, None);
    assert_eq!(row.get_value(0), Some(&Value::Int64(1)));
    assert_eq!(row.get_value(2), Some(&Value::Null));
    assert_eq!(row.get_value(4), None);
    assert_eq!(row.duplicate(), row);
}

#[test]
fn data_types_and_values() {
    assert!(DataType::can_coerce(DataType::Int64, DataType::Int64));
    assert!(DataType::can_coerce(DataType::Int64, DataType::Float64));
    assert!(!DataType::can_coerce(DataType::Float64, DataType::Int64));
    assert!(DataType::can_coerce(DataType::Text, DataType::VarChar(3)));
    assert!(DataType::can_coerce(DataType::VarChar(3), DataType::Text));
    assert!(DataType::can_coerce(DataType::VarChar(3), DataType::VarChar(9)));
    assert!(!DataType::can_coerce(DataType::Text, DataType::Int64));
    assert!(!DataType::can_coerce(DataType::Bool, DataType::Int64));
    assert!(DataType::can_coerce(DataType::Timestamp, DataType::Timestamp));

    assert_eq!(Value::Int64(1).data_type(), Some(DataType::Int64));
    assert_eq!(Value::Float64(0).data_type(), Some(DataType::Float64));
    assert_eq!(Value::Text(String::new()).data_type(), Some(DataType::Text));
    assert_eq!(Value::Bool(true).data_type(), Some(DataType::Bool));
    assert_eq!(Value::Null.data_type(), None);

    assert!(Value::Null.is_compatible_with(&DataType::Int64).is_ok());
    assert!(Value::Int64(1).is_compatible_with(&DataType::Float64).is_err());
    assert!(Value::Bool(true).is_truthy());
    assert!(!Value::Bool(false).is_truthy());
    assert!(!Value::Null.is_truthy());
    assert!(!Value::Int64(1).is_truthy());
    assert!(Value::Text("a".to_string()).same_as(&Value::Text("a".to_string())));
    assert!(!Value::Int64(1).same_as(&Value::Float64(1)));
}

#[test]
fn error_messages() {
    assert_eq!(
        DatabaseError::TableNotFound("users".to_string()).to_string(),
        "Table not found: users"
    );
    assert_eq!(
        DatabaseError::ColumnNotFound("age".to_string()).to_string(),
        "Column not found: age"
    );
    assert_eq!(
        DatabaseError::TypeMismatch("x".to_string()).to_string(),
        "Type mismatch: x"
    );
    assert_eq!(
        DatabaseError::InvalidQuery("y".to_string()).to_string(),
        "Invalid query: y"
    );
    assert_eq!(
        DatabaseError::IoError("disk".to_string()).to_string(),
        "IO Error: disk"
    );
    assert_eq!(
        DatabaseError::SerializationError("bad".to_string()).to_string(),
        "Serialization Error: bad"
    );
    assert_eq!(DatabaseError::DivisionByZero.to_string(), "Division by zero");
    assert_eq!(DatabaseError::ItemNotFound.to_string(), "Item not found.");
    assert_eq!(
        DatabaseError::NoFreePage.to_string(),
        "No free page available."
    );
}
