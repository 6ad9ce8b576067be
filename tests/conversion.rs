use parquet2sql::convert::{is_null, signed_text, to_sql_value, unsigned_text, Column, ConvertError, TimeUnit};
use parquet2sql::insert::{assemble, column_names, record_batch_to_sql_inserts, RowBlock};

fn lit(c: &Column, i: usize) -> String {
    to_sql_value(c, i).unwrap()
}

fn s(t: &str) -> Option<String> {
    Some(t.to_string())
}

#[test]
fn null_is_null_for_every_numeric_type() {
    let cols = vec![
        Column::Int8(vec![None]),
        Column::Int16(vec![None]),
        Column::Int32(vec![None]),
        Column::Int64(vec![None]),
        Column::UInt8(vec![None]),
        Column::UInt16(vec![None]),
        Column::UInt32(vec![None]),
        Column::UInt64(vec![None]),
        Column::FloatText(vec![None]),
        Column::Timestamp(TimeUnit::Second, vec![None]),
        Column::Boolean(vec![None]),
        Column::Utf8(vec![None]),
    ];
    for c in &cols {
        assert!(is_null(c, 0));
        assert_eq!(lit(c, 0), "NULL");
    }
}

#[test]
fn booleans_are_keywords() {
    let c = Column::Boolean(vec![Some(true), Some(false)]);
    assert_eq!(lit(&c, 0), "TRUE");
    assert_eq!(lit(&c, 1), "FALSE");
}

#[test]
fn integers_are_decimal() {
    assert_eq!(lit(&Column::Int8(vec![Some(-128)]), 0), "-128");
    assert_eq!(lit(&Column::Int16(vec![Some(300)]), 0), "300");
    assert_eq!(lit(&Column::Int32(vec![Some(0)]), 0), "0");
    assert_eq!(lit(&Column::Int64(vec![Some(i64::MIN)]), 0), "-9223372036854775808");
    assert_eq!(lit(&Column::UInt8(vec![Some(255)]), 0), "255");
    assert_eq!(lit(&Column::UInt16(vec![Some(10)]), 0), "10");
    assert_eq!(lit(&Column::UInt32(vec![Some(4_000_000_000)]), 0), "4000000000");
    assert_eq!(lit(&Column::UInt64(vec![Some(u64::MAX)]), 0), "18446744073709551615");
    assert_eq!(signed_text(-7), "-7");
    assert_eq!(unsigned_text(1234567890), "1234567890");
}

#[test]
fn float_text_is_kept() {
    let c = Column::FloatText(vec![Some(format!("{}", 1.5f64)), Some(format!("{}", 0.1f32))]);
    assert_eq!(lit(&c, 0), "1.5");
    assert_eq!(lit(&c, 1), "0.1");
}

#[test]
fn strings_are_quoted_and_escaped() {
    let c = Column::Utf8(vec![s("hello"), s("it's"), s("a\\b"), s(""), s("line\nbreak\t")]);
    assert_eq!(lit(&c, 0), "'hello'");
    assert_eq!(lit(&c, 1), "'it''s'");
    assert_eq!(lit(&c, 2), "'a\\\\b'");
    assert_eq!(lit(&c, 3), "''");
    assert_eq!(lit(&c, 4), "'line\nbreak\t'");
    let l = Column::LargeUtf8(vec![s("''\\")]);
    assert_eq!(lit(&l, 0), "'''''\\\\'");
}

#[test]
fn millisecond_timestamp_drops_sub_second() {
    let c = Column::Timestamp(TimeUnit::Millisecond, vec![Some(1_700_000_000_500)]);
    assert_eq!(lit(&c, 0), "'2023-11-14 22:13:20'");
}

#[test]
fn timestamps_of_every_unit() {
    let sec = Column::Timestamp(TimeUnit::Second, vec![Some(1_700_000_000), Some(0)]);
    assert_eq!(lit(&sec, 0), "'2023-11-14 22:13:20'");
    assert_eq!(lit(&sec, 1), "'1970-01-01 00:00:00'");
    let us = Column::Timestamp(TimeUnit::Microsecond, vec![Some(1_700_000_000_999_999)]);
    assert_eq!(lit(&us, 0), "'2023-11-14 22:13:20'");
    let ns = Column::Timestamp(TimeUnit::Nanosecond, vec![Some(1_700_000_000_000_000_001)]);
    assert_eq!(lit(&ns, 0), "'2023-11-14 22:13:20'");
    let neg = Column::Timestamp(TimeUnit::Millisecond, vec![Some(-1)]);
    assert_eq!(lit(&neg, 0), "'1969-12-31 23:59:59'");
}

#[test]
fn out_of_range_timestamp_fails() {
    let c = Column::Timestamp(TimeUnit::Second, vec![Some(i64::MAX)]);
    assert!(matches!(to_sql_value(&c, 0), Err(ConvertError::TimestampOutOfRange(t)) if t == i64::MAX));
}

#[test]
fn unsupported_type_fails() {
    let c = Column::Unsupported("List".to_string(), vec![true, false]);
    match to_sql_value(&c, 0) {
        Err(ConvertError::UnsupportedType(name)) => assert_eq!(name, "List"),
        other => panic!("expected an unsupported-type error, got {:?}", other),
    }
    assert_eq!(lit(&c, 1), "NULL");
}

fn numbered(n: usize) -> RowBlock {
    let ids: Vec<Option<i64>> = (0..n as i64).map(Some).collect();
    RowBlock { columns: vec![Column::Int64(ids)], num_rows: n }
}

#[test]
fn batches_of_one_hundred() {
    let block = numbered(250);
    let out = assemble(&block, "t", None, 100).unwrap();
    assert_eq!(out.len(), 3);
    let counts: Vec<usize> = out.iter().map(|st| st.matches('(').count()).collect();
    assert_eq!(counts, vec![100, 100, 50]);
    let first: Vec<String> = (0..100).map(|i| format!("({i})")).collect();
    assert_eq!(out[0], format!("INSERT INTO `t` VALUES {};", first.join(",")));
    let last: Vec<String> = (200..250).map(|i| format!("({i})")).collect();
    assert_eq!(out[2], format!("INSERT INTO `t` VALUES {};", last.join(",")));
}

#[test]
fn statements_without_column_list() {
    let block = RowBlock {
        columns: vec![Column::Int32(vec![Some(1), None]), Column::Utf8(vec![s("x"), s("y")])],
        num_rows: 2,
    };
    let out = assemble(&block, "table", None, 100).unwrap();
    assert_eq!(out, vec!["INSERT INTO `table` VALUES (1,'x'),(NULL,'y');".to_string()]);
}

#[test]
fn statements_with_column_list() {
    let block = RowBlock {
        columns: vec![Column::Int32(vec![Some(1), Some(2)]), Column::Boolean(vec![Some(true), None])],
        num_rows: 2,
    };
    let names = column_names(&vec!["a".to_string(), "b".to_string()]);
    assert_eq!(names, "`a`,`b`");
    let out = assemble(&block, "t", Some(&names), 1).unwrap();
    assert_eq!(
        out,
        vec![
            "INSERT INTO `t` (`a`,`b`) VALUES (1,TRUE);".to_string(),
            "INSERT INTO `t` (`a`,`b`) VALUES (2,NULL);".to_string(),
        ]
    );
}

#[test]
fn same_input_same_output() {
    let block = numbered(7);
    let a = assemble(&block, "t", Some("`id`"), 3).unwrap();
    let b = assemble(&block, "t", Some("`id`"), 3).unwrap();
    assert_eq!(a, b);
    let c = Column::Utf8(vec![s("o'k")]);
    assert_eq!(lit(&c, 0), lit(&c, 0));
}

#[test]
fn zero_batch_size_fails() {
    let block = numbered(3);
    assert!(matches!(assemble(&block, "t", None, 0), Err(ConvertError::InvalidBatchSize)));
}

#[test]
fn failure_in_a_row_fails_the_block() {
    let block = RowBlock {
        columns: vec![
            Column::Int8(vec![Some(1), Some(2)]),
            Column::Unsupported("Struct".to_string(), vec![false, true]),
        ],
        num_rows: 2,
    };
    assert!(matches!(assemble(&block, "t", None, 10), Err(ConvertError::UnsupportedType(n)) if n == "Struct"));
}

#[test]
fn joined_statements_and_empty_blocks() {
    let block = numbered(3);
    let text = record_batch_to_sql_inserts(&block, "t", None, 2).unwrap();
    assert_eq!(text, "INSERT INTO `t` VALUES (0),(1);\nINSERT INTO `t` VALUES (2);");
    let empty = numbered(0);
    assert_eq!(assemble(&empty, "t", None, 5).unwrap(), Vec::<String>::new());
    assert_eq!(column_names(&vec![]), "");
}

#[test]
fn blocks_need_columns_of_equal_length() {
    let ok = RowBlock::new(vec![Column::Int8(vec![Some(1), None]), Column::Boolean(vec![None, None])], 2);
    assert!(ok.is_some());
    let bad = RowBlock::new(vec![Column::Int8(vec![Some(1)]), Column::Boolean(vec![None, None])], 2);
    assert!(bad.is_none());
    assert_eq!(Column::Utf8(vec![None, None, None]).len(), 3);
}
