use ruroonga_client::result_parser::ResultParser;
use ruroonga_client::value::Value;

/// The decoded form of the engine response
/// `[[0,1452348610.39281,0.000101566314697266],
///   [[[9],
///     [["_id","UInt32"],["_key","ShortText"],["title","ShortText"]],
///     [1,"http://example.org/","This is test record 1!"], ... ]]]`
/// with nine data rows.
fn response_value() -> Value {
    let header = Value::Array(vec![
        Value::Integer(0),
        Value::Float(1452348610.39281f64.to_bits()),
        Value::Float(0.000101566314697266f64.to_bits()),
    ]);
    let count_wrapper = Value::Array(vec![Value::Integer(9)]);
    let column_header_row = Value::Array(vec![
        pair("_id", "UInt32"),
        pair("_key", "ShortText"),
        pair("title", "ShortText"),
    ]);
    let rows = vec![
        row(1, "http://example.org/", "This is test record 1!"),
        row(2, "http://example.net/", "test record 2."),
        row(3, "http://example.com/", "test test record three."),
        row(4, "http://example.net/afr", "test record four."),
        row(5, "http://example.org/aba", "test test test record five."),
        row(6, "http://example.com/rab", "test test test test record six."),
        row(7, "http://example.net/atv", "test test test record seven."),
        row(8, "http://example.org/gat", "test test record eight."),
        row(9, "http://example.com/vdw", "test test record nine."),
    ];
    let mut result_set = vec![count_wrapper, column_header_row];
    result_set.extend(rows);
    Value::Array(vec![header, Value::Array(vec![Value::Array(result_set)])])
}

fn pair(a: &str, b: &str) -> Value {
    Value::Array(vec![Value::Str(a.to_string()), Value::Str(b.to_string())])
}

fn row(id: i64, key: &str, title: &str) -> Value {
    Value::Array(vec![
        Value::Integer(id),
        Value::Str(key.to_string()),
        Value::Str(title.to_string()),
    ])
}

/// `[[1, 1234.0, 0.01, "some error detail"]]`: an error response with no
/// second top-level element.
fn error_value() -> Value {
    Value::Array(vec![Value::Array(vec![
        Value::Integer(1),
        Value::Float(1234.0f64.to_bits()),
        Value::Float(0.01f64.to_bits()),
        Value::Str("some error detail".to_string()),
    ])])
}

#[test]
fn parse_result() {
    let decode = ResultParser::new(response_value());
    assert_eq!(0, decode.status().unwrap());
    assert_eq!(1452348610.39281, f64::from_bits(decode.start_time().unwrap()));
    assert_eq!(
        0.000101566314697266,
        f64::from_bits(decode.elapsed_time().unwrap())
    );
    assert_eq!(9, decode.matched_columns().unwrap());
    let result = decode.result().unwrap();
    let vec = result.last().unwrap().into_vec().unwrap();
    let expected =
        r#"Array([Integer(1), Str("http://example.org/"), Str("This is test record 1!")])"#
            .to_owned();
    assert_eq!(expected, format!("{:?}", vec[2]))
}

#[test]
fn row_columns() {
    let decode = ResultParser::new(response_value());
    let vec = decode.into_row().columns().unwrap();
    let expected =
        r#"Array([Integer(1), Str("http://example.org/"), Str("This is test record 1!")])"#
            .to_owned();
    assert_eq!(expected, format!("{:?}", vec[2]))
}

#[test]
fn success_scenario_reads_every_field() {
    let decode = ResultParser::new(response_value());
    assert_eq!(Some(0), decode.status());
    assert_eq!(1452348610.39281, f64::from_bits(decode.start_time().unwrap()));
    assert_eq!(
        0.000101566314697266,
        f64::from_bits(decode.elapsed_time().unwrap())
    );
    assert_eq!(Some(9), decode.matched_columns());
    let rows = decode.into_row();
    let cols = rows.columns().unwrap();
    assert_eq!(
        cols[2],
        Value::Array(vec![
            Value::Integer(1),
            Value::Str("http://example.org/".to_string()),
            Value::Str("This is test record 1!".to_string()),
        ])
    );
}

#[test]
fn error_scenario_result_is_error_detail() {
    let decode = ResultParser::new(error_value());
    assert_eq!(Some(1), decode.status());
    let result = decode.result().unwrap();
    assert_eq!(1, result.len());
    assert_eq!(*result[0], Value::Str("some error detail".to_string()));
    assert_eq!(None, decode.matched_columns());
}

#[test]
fn error_without_detail_has_no_result() {
    let decode = ResultParser::new(Value::Array(vec![Value::Array(vec![
        Value::Integer(42),
        Value::Float(1.0f64.to_bits()),
        Value::Float(2.0f64.to_bits()),
    ])]));
    assert_eq!(Some(42), decode.status());
    assert!(decode.result().is_none());
    assert_eq!(None, decode.matched_columns());
}

#[test]
fn matched_columns_takes_last_of_count_wrapper() {
    // A Count Wrapper with two elements: only the last one is the count.
    let root = Value::Array(vec![
        Value::Array(vec![
            Value::Integer(0),
            Value::Float(1.0f64.to_bits()),
            Value::Float(2.0f64.to_bits()),
        ]),
        Value::Array(vec![Value::Array(vec![
            Value::Array(vec![Value::Integer(7), Value::Integer(9)]),
            Value::Array(vec![]),
        ])]),
    ]);
    let decode = ResultParser::new(root);
    assert_eq!(Some(9), decode.matched_columns());
}

#[test]
fn zero_data_rows_is_not_a_failure() {
    // Result Set holding only the Count Wrapper and the Column Header Row.
    let root = Value::Array(vec![
        Value::Array(vec![
            Value::Integer(0),
            Value::Float(1.0f64.to_bits()),
            Value::Float(2.0f64.to_bits()),
        ]),
        Value::Array(vec![Value::Array(vec![
            Value::Array(vec![Value::Integer(0)]),
            Value::Array(vec![pair("_id", "UInt32")]),
        ])]),
    ]);
    let decode = ResultParser::new(root);
    assert_eq!(Some(0), decode.matched_columns());
    let rows = decode.into_row();
    assert_eq!(2, rows.columns().unwrap().len());
    let data = rows.data_rows().unwrap();
    assert!(data.is_empty());
    assert_eq!(
        rows.column_header_row().unwrap(),
        &Value::Array(vec![pair("_id", "UInt32")])
    );
}

#[test]
fn matched_columns_is_none_on_error_status() {
    // Even with a well-shaped Result Set present, a non-zero status hides it.
    let root = Value::Array(vec![
        Value::Array(vec![
            Value::Integer(5),
            Value::Float(1.0f64.to_bits()),
            Value::Float(2.0f64.to_bits()),
            Value::Str("detail".to_string()),
        ]),
        Value::Array(vec![Value::Array(vec![Value::Array(vec![Value::Integer(3)])])]),
    ]);
    let decode = ResultParser::new(root);
    assert_eq!(None, decode.matched_columns());
    let result = decode.result().unwrap();
    assert_eq!(*result[0], Value::Str("detail".to_string()));
}

#[test]
fn success_status_with_missing_body_answers_absence() {
    // Status zero but no second top-level element: a corrupted response.
    let decode = ResultParser::new(Value::Array(vec![Value::Array(vec![
        Value::Integer(0),
        Value::Float(1.0f64.to_bits()),
        Value::Float(2.0f64.to_bits()),
    ])]));
    assert_eq!(Some(0), decode.status());
    assert!(decode.result().is_none());
    assert_eq!(None, decode.matched_columns());
    assert!(decode.into_row().columns().is_none());
}

#[test]
fn count_wrapper_last_element_must_be_an_integer() {
    let root = Value::Array(vec![
        Value::Array(vec![
            Value::Integer(0),
            Value::Float(1.0f64.to_bits()),
            Value::Float(2.0f64.to_bits()),
        ]),
        Value::Array(vec![Value::Array(vec![Value::Array(vec![
            Value::Integer(4),
            Value::Str("nine".to_string()),
        ])])]),
    ]);
    let decode = ResultParser::new(root);
    assert_eq!(None, decode.matched_columns());
}

#[test]
fn malformed_root_answers_absence() {
    let decode = ResultParser::new(Value::Null);
    assert_eq!(None, decode.status());
    assert!(decode.get_header().is_none());
    assert!(decode.start_time().is_none());
    assert!(decode.elapsed_time().is_none());
    assert!(decode.result().is_none());
    assert_eq!(None, decode.matched_columns());
    assert!(decode.into_row().columns().is_none());
}

#[test]
fn status_requires_an_integer() {
    let decode = ResultParser::new(Value::Array(vec![Value::Array(vec![Value::Str(
        "0".to_string(),
    )])]));
    assert_eq!(None, decode.status());
    assert!(decode.result().is_none());
}

#[test]
fn get_raw_object_returns_the_tree() {
    let decode = ResultParser::new(error_value());
    assert_eq!(*decode.get_raw_object(), error_value());
    let header = decode.get_header().unwrap();
    assert_eq!(header.at(0).unwrap(), &Value::Integer(1));
}

#[test]
fn value_accessors() {
    let v = Value::Array(vec![Value::Integer(3), Value::Str("x".to_string())]);
    assert!(v.is_array());
    assert_eq!(v.at(0).unwrap(), &Value::Integer(3));
    assert!(v.at(2).is_none());
    assert_eq!(v.at(0).unwrap().into_i64(), Some(3));
    assert_eq!(v.at(1).unwrap().into_string(), Some(&"x".to_string()));
    assert!(v.at(1).unwrap().into_i64().is_none());
    assert_eq!(v.into_vec().unwrap().len(), 2);
    let f = Value::Float(2.5f64.to_bits());
    assert_eq!(2.5, f64::from_bits(f.into_f64_bits().unwrap()));
    assert!(Value::Null.into_vec().is_none());
}
