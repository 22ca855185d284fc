use delta::actions::Action;
use delta::error::DeltaError;
use delta::metadata::{DeltaTableFormat, DeltaTableMetadata};
use delta::schema::{DeltaTableColumnDefinition, DeltaTableSchema, DeltaTableStructType, DeltaTableType};

fn add_action() -> Action {
    Action::Add {
        path: "00000000000000000000.parquet".to_string(),
        partition_values: Vec::new(),
        size: 1024,
        modification_time: 1700000000000,
        data_change: true,
    }
}

fn sample_metadata() -> DeltaTableMetadata {
    DeltaTableMetadata::new(
        "67e55044-10b1-426f-9247-bb680e5fe0c8".to_string(),
        "t".to_string(),
        DeltaTableFormat::new("parquet".to_string(), Vec::new()),
        "{\"fields\":[],\"type\":\"struct\"}".to_string(),
        Vec::new(),
        Vec::new(),
    )
}

#[test]
fn add_encodes_exactly() {
    let line = add_action().encode();
    assert_eq!(
        line,
        "{\"add\":{\"path\":\"00000000000000000000.parquet\",\"partitionValues\":{},\"size\":1024,\"modificationTime\":1700000000000,\"dataChange\":true}}"
    );
}

#[test]
fn remove_encodes_exactly() {
    let line = Action::Remove { path: "a.parquet".to_string(), data_change: true }.encode();
    assert_eq!(line, "{\"remove\":{\"path\":\"a.parquet\",\"dataChange\":true}}");
}

#[test]
fn metadata_encodes_exactly() {
    let line = Action::Metadata(sample_metadata()).encode();
    assert_eq!(
        line,
        "{\"metaData\":{\"id\":\"67e55044-10b1-426f-9247-bb680e5fe0c8\",\"name\":\"t\",\"format\":{\"provider\":\"parquet\",\"options\":{}},\"schemaString\":\"{\\\"fields\\\":[],\\\"type\\\":\\\"struct\\\"}\",\"partitionColumns\":[],\"configuration\":{}}}"
    );
}

#[test]
fn round_trip_add() {
    let a = add_action();
    assert_eq!(Action::decode(&a.encode()).unwrap(), a);
}

#[test]
fn round_trip_remove() {
    let a = Action::Remove { path: "x.parquet".to_string(), data_change: true };
    assert_eq!(Action::decode(&a.encode()).unwrap(), a);
}

#[test]
fn round_trip_metadata() {
    let a = Action::Metadata(sample_metadata());
    assert_eq!(Action::decode(&a.encode()).unwrap(), a);
}

#[test]
fn round_trip_escaped_path() {
    let a = Action::Remove {
        path: "we\"ird\\name\nwith\tcontrol\u{1}.parquet".to_string(),
        data_change: false,
    };
    assert_eq!(Action::decode(&a.encode()).unwrap(), a);
}

#[test]
fn round_trip_extreme_numbers() {
    let a = Action::Add {
        path: "p".to_string(),
        partition_values: Vec::new(),
        size: u64::MAX,
        modification_time: u128::MAX,
        data_change: false,
    };
    assert_eq!(Action::decode(&a.encode()).unwrap(), a);
}

#[test]
fn decode_rejects_garbage() {
    assert!(matches!(Action::decode("junk"), Err(DeltaError::SerializationFailure)));
    assert!(matches!(Action::decode(""), Err(DeltaError::SerializationFailure)));
    assert!(matches!(
        Action::decode("{\"add\":{\"path\":\"p\",\"partitionValues\":{},\"size\":-4,\"modificationTime\":1,\"dataChange\":true}}"),
        Err(DeltaError::SerializationFailure)
    ));
}

#[test]
fn decode_rejects_trailing_text() {
    let mut line = add_action().encode();
    line.push(' ');
    assert!(matches!(Action::decode(&line), Err(DeltaError::SerializationFailure)));
}

#[test]
fn schema_string_round_trip() {
    let schema = DeltaTableSchema::from_sql(vec![
        ("foo".to_string(), "INT".to_string()),
        ("bar".to_string(), "TEXT".to_string()),
    ])
    .unwrap();
    let m = DeltaTableMetadata::new(
        "id".to_string(),
        "t".to_string(),
        DeltaTableFormat::new("parquet".to_string(), Vec::new()),
        delta::schema::encode_schema(&schema),
        Vec::new(),
        Vec::new(),
    );
    let back = m.schema().unwrap();
    assert_eq!(back, schema);
}

#[test]
fn schema_encodes_exactly() {
    let schema = DeltaTableSchema::from_sql(vec![("foo".to_string(), "INT".to_string())]).unwrap();
    assert_eq!(
        delta::schema::encode_schema(&schema),
        "{\"fields\":[{\"name\":\"foo\",\"type\":\"integer\",\"nullable\":false,\"metadata\":{}}],\"type\":\"struct\"}"
    );
}

#[test]
fn empty_schema_round_trip() {
    let schema = DeltaTableSchema::from_sql(Vec::new()).unwrap();
    assert_eq!(delta::schema::encode_schema(&schema), "{\"fields\":[],\"type\":\"struct\"}");
    assert_eq!(delta::schema::decode_schema("{\"fields\":[],\"type\":\"struct\"}").unwrap(), schema);
}

#[test]
fn keyword_map_is_exact_and_case_insensitive() {
    let cases = [
        ("TEXT", DeltaTableType::String),
        ("BIGINT", DeltaTableType::Long),
        ("INT", DeltaTableType::Integer),
        ("SMALLINT", DeltaTableType::Short),
        ("TINYINT", DeltaTableType::Byte),
        ("FLOAT", DeltaTableType::Float),
        ("DOUBLE", DeltaTableType::Double),
        ("BOOL", DeltaTableType::Boolean),
        ("DATE", DeltaTableType::Date),
        ("TIMESTAMP", DeltaTableType::Timestamp),
    ];
    for (kw, t) in cases {
        assert_eq!(DeltaTableType::from_sql_type(kw).unwrap(), t);
        assert_eq!(DeltaTableType::from_sql_type(&kw.to_lowercase()).unwrap(), t);
    }
    assert_eq!(DeltaTableType::from_sql_type("InT").unwrap(), DeltaTableType::Integer);
    assert!(matches!(
        DeltaTableType::from_sql_type("NOT_A_TYPE"),
        Err(DeltaError::InvalidColumnType)
    ));
}

#[test]
fn nullable_field_is_invalid() {
    let schema = DeltaTableSchema {
        fields: vec![DeltaTableColumnDefinition {
            name: "x".to_string(),
            typ: DeltaTableType::Integer,
            nullable: true,
            metadata: Vec::new(),
        }],
        typ: DeltaTableStructType::Struct,
    };
    assert!(!schema.is_valid());
}

#[test]
fn format_validity() {
    assert!(DeltaTableFormat::new("parquet".to_string(), Vec::new()).is_valid());
    assert!(!DeltaTableFormat::new("csv".to_string(), Vec::new()).is_valid());
    assert!(!DeltaTableFormat::new(
        "parquet".to_string(),
        vec![("k".to_string(), "v".to_string())]
    )
    .is_valid());
}

#[test]
fn metadata_validity() {
    let m = sample_metadata();
    assert!(m.is_valid());
    let bad = DeltaTableMetadata::new(
        "id".to_string(),
        "t".to_string(),
        DeltaTableFormat::new("parquet".to_string(), Vec::new()),
        "{}".to_string(),
        vec!["part".to_string()],
        Vec::new(),
    );
    assert!(!bad.is_valid());
}

#[test]
fn bad_schema_string_is_serialization_failure() {
    let m = DeltaTableMetadata::new(
        "id".to_string(),
        "t".to_string(),
        DeltaTableFormat::new("parquet".to_string(), Vec::new()),
        "not json".to_string(),
        Vec::new(),
        Vec::new(),
    );
    assert!(matches!(m.schema(), Err(DeltaError::SerializationFailure)));
}
