use ancymon::add;
use ancymon::errors::{AncymonError, BuildError, ConfigError, RuntimeError};
use ancymon::handlers::sql::{SqlArguments, SqlBuilder, SqlHandler};
use ancymon::handlers::{DebugBuilder, DebugHandler};
use ancymon::values::Value;

fn table(entries: Vec<(&str, Value)>) -> Value {
    Value::Table(
        entries
            .into_iter()
            .map(|(k, v)| (k.to_string(), v))
            .collect(),
    )
}

#[test]
fn counters_add_up() {
    assert_eq!(add(2, 2), 4);
    assert_eq!(add(0, u64::MAX), u64::MAX);
}

#[test]
fn the_debug_handler_returns_nothing() {
    let handler: DebugHandler = DebugBuilder.build().unwrap();
    let outcome = handler.execute(&Value::Integer(5), &Value::Null).unwrap();
    assert_eq!(outcome, Value::Null);
}

#[test]
fn sql_arguments_are_read_from_a_table() {
    let arguments = SqlArguments::try_from(table(vec![
        ("query", Value::String("SELECT 1;".to_string())),
        ("fetch-many", Value::Bool(true)),
        ("bind-many", Value::Bool(true)),
    ]))
    .unwrap();
    assert_eq!(arguments.query, "SELECT 1;");
    assert!(arguments.fetch_many);
    assert!(!arguments.bind_one);
    assert!(arguments.bind_many);
}

#[test]
fn flags_that_are_absent_are_false() {
    let arguments =
        SqlArguments::try_from(table(vec![("query", Value::String("q".to_string()))])).unwrap();
    assert!(!arguments.fetch_many);
    assert!(!arguments.bind_one);
    assert!(!arguments.bind_many);
}

fn config_error(value: Value) -> ConfigError {
    match SqlArguments::try_from(value) {
        Err(AncymonError::ConfigError(e)) => e,
        other => panic!("unexpected: {other:?}"),
    }
}

#[test]
fn arguments_that_are_no_table_are_rejected() {
    assert!(matches!(
        config_error(Value::String("SELECT 1;".to_string())),
        ConfigError::InvalidValueType(text) if text == "Expected map"
    ));
}

#[test]
fn arguments_without_a_query_are_rejected() {
    assert!(matches!(
        config_error(table(vec![("fetch-many", Value::Bool(true))])),
        ConfigError::MissingValue(text) if text == "Field `query` is required"
    ));
}

#[test]
fn a_query_that_is_no_string_is_rejected() {
    assert!(matches!(
        config_error(table(vec![("query", Value::Integer(1))])),
        ConfigError::InvalidValueType(text) if text == "Expected string"
    ));
}

#[test]
fn a_flag_that_is_no_boolean_is_rejected() {
    for flag in ["fetch-many", "bind-one", "bind-many"] {
        assert!(matches!(
            config_error(table(vec![
                ("query", Value::String("q".to_string())),
                (flag, Value::Integer(1)),
            ])),
            ConfigError::InvalidValueType(text) if text == "Expected bool"
        ));
    }
}

#[test]
fn the_sql_handler_takes_its_connection_string_from_its_table() {
    let mut handler: SqlHandler = SqlBuilder.build().unwrap();
    handler
        .init(&table(vec![(
            "connection-string",
            Value::String("sqlite::memory:".to_string()),
        )]))
        .unwrap();
    let request = handler
        .request(&table(vec![
            ("query", Value::String("SELECT 1;".to_string())),
            ("fetch-many", Value::Bool(true)),
        ]))
        .unwrap();
    assert_eq!(request.connection_string, "sqlite::memory:");
    assert_eq!(request.query, "SELECT 1;");
    assert!(request.fetch_many);
}

#[test]
fn a_table_without_a_connection_string_is_a_build_error() {
    let mut handler = SqlHandler::default();
    for config in [
        table(vec![]),
        table(vec![("connection-string", Value::Integer(1))]),
        Value::Null,
    ] {
        match handler.init(&config) {
            Err(AncymonError::BuildError(BuildError::Handler(text))) => {
                assert_eq!(text, "missing or invalid field `connection-string`")
            }
            other => panic!("unexpected: {other:?}"),
        }
    }
}

#[test]
fn a_request_fails_as_its_arguments_do() {
    let handler = SqlHandler::default();
    assert!(matches!(
        handler.request(&Value::Null),
        Err(AncymonError::ConfigError(ConfigError::InvalidValueType(_)))
    ));
}

#[test]
fn an_error_is_rendered_as_the_text_it_carries() {
    assert_eq!(
        AncymonError::RuntimeError(RuntimeError::Handler("timeout".to_string())).message(),
        "timeout"
    );
    assert_eq!(
        AncymonError::BuildError(BuildError::Source("no source".to_string())).message(),
        "no source"
    );
    assert_eq!(
        AncymonError::ConfigError(ConfigError::MissingConfig("cron".to_string())).message(),
        "cron"
    );
    assert_eq!(
        AncymonError::ConversionError("expected map".to_string()).message(),
        "expected map"
    );
    assert_eq!(
        AncymonError::ConfigError(ConfigError::ParsingError).message(),
        "configuration could not be parsed"
    );
    assert_eq!(RuntimeError::Bot("bus closed".to_string()).message(), "bus closed");
}

#[test]
fn each_kind_of_error_becomes_the_general_error() {
    assert!(matches!(
        AncymonError::from(ConfigError::ParsingError),
        AncymonError::ConfigError(ConfigError::ParsingError)
    ));
    assert!(matches!(
        AncymonError::from(BuildError::Handler("h".to_string())),
        AncymonError::BuildError(BuildError::Handler(text)) if text == "h"
    ));
    assert!(matches!(
        AncymonError::from(RuntimeError::InvalidArguments("a".to_string())),
        AncymonError::RuntimeError(RuntimeError::InvalidArguments(text)) if text == "a"
    ));
    let converted: AncymonError = RuntimeError::Source("s".to_string()).into();
    assert!(matches!(
        converted,
        AncymonError::RuntimeError(RuntimeError::Source(_))
    ));
}

use ancymon::handlers::sql::{decimal_text, map_db_value, map_row, map_rows, Cell, ColumnKind};

fn cell(kind: ColumnKind, value: Value) -> Cell {
    Cell {
        kind,
        content: Ok(value),
    }
}

#[test]
fn numbers_are_written_in_decimal() {
    assert_eq!(decimal_text(0), "0");
    assert_eq!(decimal_text(7), "7");
    assert_eq!(decimal_text(10), "10");
    assert_eq!(decimal_text(1_234_567_890), "1234567890");
    assert_eq!(decimal_text(usize::MAX), usize::MAX.to_string());
}

#[test]
fn a_row_without_columns_is_null() {
    assert_eq!(map_row(&vec![]).unwrap(), Value::Null);
}

#[test]
fn a_row_with_one_column_is_that_cell_s_value() {
    assert_eq!(
        map_row(&vec![cell(ColumnKind::Integer, Value::Integer(7))]).unwrap(),
        Value::Integer(7)
    );
}

#[test]
fn a_row_with_several_columns_is_the_array_of_its_cells() {
    let row = vec![
        cell(ColumnKind::Text, Value::String("temp".to_string())),
        cell(ColumnKind::Integer, Value::Integer(1771072386)),
        cell(ColumnKind::Real, Value::Float(23.75f64.to_bits())),
        cell(ColumnKind::Integer, Value::Null),
    ];
    assert_eq!(
        map_row(&row).unwrap(),
        Value::Array(vec![
            Value::String("temp".to_string()),
            Value::Integer(1771072386),
            Value::Float(23.75f64.to_bits()),
            Value::Null,
        ])
    );
}

#[test]
fn several_rows_are_the_array_of_their_values() {
    let rows: Vec<Vec<Cell>> = [7, 5, 3]
        .into_iter()
        .map(|n| {
            vec![
                cell(ColumnKind::Text, Value::String("temp".to_string())),
                cell(ColumnKind::BigInt, Value::Integer(n)),
            ]
        })
        .collect();
    let value = map_rows(&rows).unwrap();
    let array = value.as_array().unwrap();
    assert_eq!(
        array[0],
        Value::Array(vec![Value::String("temp".to_string()), Value::Integer(7)])
    );
    assert_eq!(
        array[1],
        Value::Array(vec![Value::String("temp".to_string()), Value::Integer(5)])
    );
    assert_eq!(
        array[2],
        Value::Array(vec![Value::String("temp".to_string()), Value::Integer(3)])
    );
    let scalars: Vec<Vec<Cell>> = [7, 5, 3]
        .into_iter()
        .map(|n| vec![cell(ColumnKind::SmallInt, Value::Integer(n))])
        .collect();
    assert_eq!(
        map_rows(&scalars).unwrap(),
        Value::Array(vec![Value::Integer(7), Value::Integer(5), Value::Integer(3)])
    );
    assert_eq!(map_rows(&vec![]).unwrap(), Value::Array(vec![]));
}

#[test]
fn every_kind_of_column_holds_its_own_kind_of_value() {
    let row = vec![
        cell(ColumnKind::Null, Value::Integer(1)),
        cell(ColumnKind::Bool, Value::Bool(true)),
        cell(ColumnKind::SmallInt, Value::Integer(1)),
        cell(ColumnKind::Integer, Value::Integer(2)),
        cell(ColumnKind::BigInt, Value::Integer(3)),
        cell(ColumnKind::Real, Value::Float(1.5f64.to_bits())),
        cell(ColumnKind::Double, Value::Float(2.5f64.to_bits())),
        cell(ColumnKind::Text, Value::String("t".to_string())),
    ];
    assert_eq!(map_db_value(&row, 0).unwrap(), Value::Null);
    assert_eq!(map_db_value(&row, 1).unwrap(), Value::Bool(true));
    assert_eq!(map_db_value(&row, 4).unwrap(), Value::Integer(3));
    assert_eq!(map_db_value(&row, 6).unwrap(), Value::Float(2.5f64.to_bits()));
    assert_eq!(map_db_value(&row, 7).unwrap(), Value::String("t".to_string()));
}

#[test]
fn a_position_outside_the_row_is_reported() {
    match map_db_value(&vec![cell(ColumnKind::Bool, Value::Bool(true))], 12) {
        Err(AncymonError::RuntimeError(RuntimeError::Handler(text))) => {
            assert_eq!(text, "Column at index 12 not found")
        }
        other => panic!("unexpected: {other:?}"),
    }
}

#[test]
fn binary_data_is_not_supported() {
    match map_row(&vec![cell(ColumnKind::Blob, Value::Null)]) {
        Err(AncymonError::RuntimeError(RuntimeError::InvalidArgumentType(text))) => {
            assert_eq!(text, "Blobs are not supported")
        }
        other => panic!("unexpected: {other:?}"),
    }
}

#[test]
fn a_cell_that_could_not_be_read_is_reported_with_its_position() {
    let row = vec![
        cell(ColumnKind::Integer, Value::Integer(1)),
        Cell {
            kind: ColumnKind::Integer,
            content: Err("not an integer".to_string()),
        },
    ];
    match map_row(&row) {
        Err(AncymonError::RuntimeError(RuntimeError::Handler(text))) => {
            assert_eq!(
                text,
                "Invalid type for column at index 1. not an integer"
            )
        }
        other => panic!("unexpected: {other:?}"),
    }
}

#[test]
fn a_value_of_another_kind_than_its_column_is_reported() {
    let row = vec![cell(ColumnKind::Text, Value::Integer(1))];
    match map_row(&row) {
        Err(AncymonError::RuntimeError(RuntimeError::Handler(text))) => {
            assert_eq!(text, "Invalid type for column at index 0. mismatched types")
        }
        other => panic!("unexpected: {other:?}"),
    }
}

#[test]
fn the_first_row_that_fails_gives_the_error() {
    let rows = vec![
        vec![cell(ColumnKind::Integer, Value::Integer(1))],
        vec![cell(ColumnKind::Blob, Value::Null)],
        vec![cell(ColumnKind::Text, Value::Integer(1))],
    ];
    assert!(matches!(
        map_rows(&rows),
        Err(AncymonError::RuntimeError(RuntimeError::InvalidArgumentType(_)))
    ));
}

#[test]
fn the_default_value_is_null() {
    assert_eq!(Value::default(), Value::Null);
}
