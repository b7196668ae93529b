use metrics_core::schema::{get_value_schema, ColumnType};

#[test]
fn value_schema_is_the_fixed_four_column_layout() {
    let schema = get_value_schema();
    assert_eq!(schema.len(), 4);

    assert_eq!(schema[0].name, "__name__");
    assert!(matches!(schema[0].column_type, ColumnType::Utf8));
    assert!(!schema[0].nullable);

    assert_eq!(schema[1].name, "__hash__");
    assert!(matches!(schema[1].column_type, ColumnType::Utf8));
    assert!(!schema[1].nullable);

    assert_eq!(schema[2].name, "_timestamp");
    assert!(matches!(schema[2].column_type, ColumnType::Int64));
    assert!(!schema[2].nullable);

    assert_eq!(schema[3].name, "value");
    assert!(matches!(schema[3].column_type, ColumnType::Float64));
    assert!(!schema[3].nullable);
}

#[test]
fn value_schema_is_rebuilt_fresh_on_each_request() {
    let a = get_value_schema();
    let b = get_value_schema();
    assert_eq!(a.len(), b.len());
    for (ca, cb) in a.iter().zip(b.iter()) {
        assert_eq!(ca.name, cb.name);
        assert_eq!(ca.nullable, cb.nullable);
    }
}
