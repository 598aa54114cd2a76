use mysql_rust::storage::{format_decimal, ColumnType, Value};

#[test]
fn column_type_recognizes_synonyms_case_insensitively() {
    for name in [
        "int",
        "INT",
        "Integer",
        "bigint",
        "SMALLINT",
        "tinyint",
        "mediumint",
        "boolean",
        "BOOL",
    ] {
        assert_eq!(ColumnType::from_name(name), Some(ColumnType::Int));
    }
    for name in ["varchar", "VARCHAR", "char", "text", "longtext", "TinyText"] {
        assert_eq!(ColumnType::from_name(name), Some(ColumnType::Varchar));
    }
    assert_eq!(ColumnType::from_name("date"), Some(ColumnType::Date));
    assert_eq!(ColumnType::from_name("bogus"), None);
}

#[test]
fn column_type_ignores_a_size_suffix() {
    assert_eq!(
        ColumnType::from_name("VARCHAR(255)"),
        Some(ColumnType::Varchar)
    );
    assert_eq!(ColumnType::from_name("INT(11)"), Some(ColumnType::Int));
}

#[test]
fn decimal_scale_is_parsed_from_the_second_argument() {
    assert_eq!(
        ColumnType::from_name("DECIMAL"),
        Some(ColumnType::Decimal(0))
    );
    assert_eq!(
        ColumnType::from_name("DECIMAL(10)"),
        Some(ColumnType::Decimal(0))
    );
    assert_eq!(
        ColumnType::from_name("DECIMAL(10,2)"),
        Some(ColumnType::Decimal(2))
    );
    assert_eq!(
        ColumnType::from_name("numeric(8, 4)"),
        Some(ColumnType::Decimal(4))
    );
    assert_eq!(
        ColumnType::from_name("DEC(5,1)"),
        Some(ColumnType::Decimal(1))
    );
}

#[test]
fn null_has_no_display_string() {
    assert_eq!(Value::Null.to_display_string(), None);
    assert_eq!(Value::Int(5).to_display_string(), Some("5".to_string()));
}

#[test]
fn format_decimal_places_the_decimal_point() {
    assert_eq!(format_decimal(12345, 2), "123.45");
    assert_eq!(format_decimal(100, 2), "1.00");
    assert_eq!(format_decimal(5, 2), "0.05");
    assert_eq!(format_decimal(0, 2), "0.00");
    assert_eq!(format_decimal(-1550, 2), "-15.50");
    assert_eq!(format_decimal(42, 0), "42");
}

#[test]
fn decimal_value_to_display_string_matches_format_decimal() {
    assert_eq!(
        Value::Decimal(12345, 2).to_display_string(),
        Some("123.45".to_string())
    );
}

#[test]
fn date_value_to_display_string_is_the_stored_text() {
    assert_eq!(
        Value::Date("2024-01-15".to_string()).to_display_string(),
        Some("2024-01-15".to_string())
    );
}

#[test]
fn every_blob_kind_is_a_string() {
    for name in ["BLOB", "TinyBlob", "mediumblob", "LONGBLOB", "blob(16)"] {
        assert_eq!(ColumnType::from_name(name), Some(ColumnType::Varchar));
    }
    assert_eq!(ColumnType::from_name("BLOBS"), None);
}
