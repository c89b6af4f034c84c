use sim_platform::sqlite::{
    index_info_pragma, index_list_pragma, is_schema_index, quote_identifier, sqlite_column,
    table_info_pragma, ColumnAffinity, SqliteColumn,
};

#[test]
fn identifiers_are_quoted_with_doubled_quotes() {
    assert_eq!(quote_identifier("item"), "\"item\"");
    assert_eq!(quote_identifier("we\"ird"), "\"we\"\"ird\"");
    assert_eq!(quote_identifier(""), "\"\"");
    assert_eq!(quote_identifier("\"\""), "\"\"\"\"\"\"");
    assert_eq!(quote_identifier("grüße"), "\"grüße\"");
}

#[test]
fn catalog_pragmas_name_their_object_quoted() {
    assert_eq!(table_info_pragma("item"), "PRAGMA table_info(\"item\")");
    assert_eq!(table_info_pragma("t\"x"), "PRAGMA table_info(\"t\"\"x\")");
    assert_eq!(index_list_pragma("item"), "PRAGMA index_list(\"item\")");
    assert_eq!(index_info_pragma("item_by_label"), "PRAGMA index_info(\"item_by_label\")");
}

#[test]
fn internal_indexes_are_skipped() {
    assert!(!is_schema_index("sqlite_autoindex_item_1"));
    assert!(!is_schema_index("sqlite_"));
    assert!(is_schema_index("item_by_label"));
    assert!(is_schema_index("sqlite"));
    assert!(is_schema_index("SQLITE_upper"));
}

#[test]
fn table_info_rows_become_columns() {
    assert_eq!(
        sqlite_column(0, "id".into(), "INTEGER", 1),
        Some(SqliteColumn { name: "id".into(), affinity: ColumnAffinity::I64, nullable: false, ordinal: 0 })
    );
    assert_eq!(
        sqlite_column(3, "label".into(), "varchar(20)", 0),
        Some(SqliteColumn { name: "label".into(), affinity: ColumnAffinity::Text, nullable: true, ordinal: 3 })
    );
    assert_eq!(sqlite_column(-1, "x".into(), "BLOB", 0), None);
    assert_eq!(sqlite_column(1 << 40, "x".into(), "BLOB", 0), None);
    assert!(sqlite_column(u32::MAX as i64, "x".into(), "BLOB", 0).is_some());
}
