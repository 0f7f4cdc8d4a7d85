use sqlgen::crud::{delete_by_column, delete_by_column_batch, delete_in_column, delete_where,
    insert, insert_batch, select_all, select_by_column, select_in_column, update_by_column,
    update_by_column_batch, update_by_column_value, update_where};
use sqlgen::error::{DecodeErr, Error, EvalErr, PolicyErr};
use sqlgen::eval::Env;
use sqlgen::page::{select_page, PageRequest};
use sqlgen::parse::compile;
use sqlgen::timestamptz::{PgValue, Timestamptz};
use sqlgen::value::Value;

fn record(fields: Vec<(&str, Value)>) -> Value {
    Value::Object(fields.into_iter().map(|(k, v)| (k.to_string(), v)).collect())
}

#[test]
fn insert_skips_null_primary_key() {
    let rec = record(vec![("id", Value::Null), ("name", Value::Str("a".to_string()))]);
    let out = insert(&rec, "t").unwrap();
    assert_eq!(out.len(), 1);
    let (sql, binds, is_count) = &out[0];
    assert_eq!(sql, "insert into t (name) VALUES (?)");
    assert_eq!(binds.len(), 1);
    assert!(matches!(&binds[0], Value::Str(s) if s == "a"));
    assert!(!is_count);
}

#[test]
fn insert_keeps_non_null_primary_key() {
    let rec = record(vec![("id", Value::I64(9)), ("name", Value::Str("a".to_string()))]);
    let out = insert(&rec, "t").unwrap();
    let (sql, binds, _) = &out[0];
    assert_eq!(sql, "insert into t (id,name) VALUES (?,?)");
    assert_eq!(binds.len(), 2);
    assert!(matches!(&binds[0], Value::I64(9)));
}

#[test]
fn insert_batch_chunks_records() {
    let recs: Vec<Value> = (0..3)
        .map(|i| record(vec![("name", Value::I64(i))]))
        .collect();
    let out = insert_batch(&recs, 2, "t").unwrap();
    assert_eq!(out.len(), 2);
    assert_eq!(out[0].0, "insert into t (name) VALUES (?),(?)");
    assert_eq!(out[0].1.len(), 2);
    assert_eq!(out[1].0, "insert into t (name) VALUES (?)");
    assert_eq!(out[1].1.len(), 1);
}

#[test]
fn insert_empty_batch_is_a_policy_error() {
    let recs: Vec<Value> = Vec::new();
    assert!(matches!(
        insert_batch(&recs, 2, "t"),
        Err(Error::Policy(PolicyErr::EmptyBatch))
    ));
}

#[test]
fn insert_zero_batch_size_is_an_error() {
    let recs = vec![record(vec![("name", Value::Null)])];
    assert!(matches!(
        insert_batch(&recs, 0, "t"),
        Err(Error::Eval(EvalErr::ZeroBatchSize))
    ));
}

#[test]
fn select_forms() {
    let shape = record(vec![("id", Value::Null), ("name", Value::Null)]);
    let (sql, binds, _) = select_all(&shape, "t").unwrap();
    assert_eq!(sql, "select id,name from t ");
    assert_eq!(binds.len(), 0);

    let (sql, binds, _) = select_by_column(&shape, "t", "id", &Value::I64(7)).unwrap();
    assert_eq!(sql, "select id,name from t  where id = ?");
    assert_eq!(binds.len(), 1);
    assert!(matches!(&binds[0], Value::I64(7)));

    let vals = vec![Value::I64(1), Value::I64(2)];
    let (sql, binds, _) = select_in_column(&shape, "t", "id", &vals).unwrap();
    assert_eq!(sql, "select id,name from t  where id in (?,?)");
    assert_eq!(binds.len(), 2);
}

#[test]
fn update_partial_semantics() {
    let rec = record(vec![
        ("id", Value::I64(1)),
        ("name", Value::Null),
        ("age", Value::I64(5)),
    ]);
    let (sql, binds, _) = update_by_column(&rec, "t", "id").unwrap();
    assert_eq!(sql, "update t set age=? where id = ?");
    assert_eq!(binds.len(), 2);
    assert!(matches!(&binds[0], Value::I64(5)));
    assert!(matches!(&binds[1], Value::I64(1)));
}

#[test]
fn update_by_column_value_uses_given_filter_value() {
    let rec = record(vec![("id", Value::Null), ("age", Value::I64(5))]);
    let (sql, binds, _) = update_by_column_value(&rec, "t", "id", &Value::I64(42)).unwrap();
    assert_eq!(sql, "update t set age=? where id = ?");
    assert!(matches!(&binds[1], Value::I64(42)));
}

#[test]
fn update_batch_one_statement_per_record() {
    let recs = vec![
        record(vec![("id", Value::I64(1)), ("age", Value::I64(10))]),
        record(vec![("id", Value::I64(2)), ("age", Value::I64(20))]),
    ];
    let out = update_by_column_batch(&recs, "t", "id", 1).unwrap();
    assert_eq!(out.len(), 2);
    assert_eq!(out[0].0, "update t set age=? where id = ?");
    assert!(matches!(&out[1].1[0], Value::I64(20)));
}

#[test]
fn update_empty_where_is_a_policy_error() {
    let rec = record(vec![("age", Value::I64(5))]);
    let empty = compile("").unwrap();
    assert!(matches!(
        update_where(&rec, "t", empty, &Env::new()),
        Err(Error::Policy(PolicyErr::EmptyWhere))
    ));
}

#[test]
fn update_where_with_custom_clause() {
    let rec = record(vec![("age", Value::I64(5))]);
    let wher = compile("`where age > #{min_age}`").unwrap();
    let mut params = Env::new();
    params.bind("min_age".to_string(), Value::I64(3));
    params.bind("column".to_string(), Value::Str("none".to_string()));
    let (sql, binds, _) = update_where(&rec, "t", wher, &params).unwrap();
    assert_eq!(sql, "update t set age=? where age > ?");
    assert_eq!(binds.len(), 2);
}

#[test]
fn delete_forms() {
    let (sql, binds, _) = delete_by_column("t", "id", &Value::I64(3)).unwrap();
    assert_eq!(sql, "delete from t where id = ?");
    assert_eq!(binds.len(), 1);

    let vals = vec![Value::I64(1), Value::I64(2), Value::I64(3)];
    let (sql, binds, _) = delete_in_column("t", "id", &vals).unwrap();
    assert_eq!(sql, "delete from t where id in (?,?,?)");
    assert_eq!(binds.len(), 3);
}

#[test]
fn delete_batch_one_statement_per_chunk() {
    let vals = vec![Value::I64(1), Value::I64(2), Value::I64(3)];
    let out = delete_by_column_batch("t", "id", &vals, 2).unwrap();
    assert_eq!(out.len(), 2);
    assert_eq!(out[0].0, "delete from t where id in (?,?)");
    assert_eq!(out[1].0, "delete from t where id in (?)");
    assert!(matches!(&out[1].1[0], Value::I64(3)));
}

#[test]
fn delete_empty_where_is_a_policy_error() {
    let empty = compile("").unwrap();
    assert!(matches!(
        delete_where("t", empty, &Env::new()),
        Err(Error::Policy(PolicyErr::EmptyWhere))
    ));
}

#[test]
fn pagination_two_phases() {
    let pr = PageRequest::new(2, 10);
    assert!(pr.do_count);
    assert_eq!(pr.offset(), 10);
    let shape = record(vec![("id", Value::Null), ("name", Value::Null)]);
    let wher = compile("").unwrap();
    let out = select_page(&pr, &shape, "t", wher, &Env::new()).unwrap();
    assert_eq!(out.len(), 2);
    assert!(out[0].2);
    assert!(!out[1].2);
    assert_eq!(out[0].0, "select count(1) as count from t ");
    assert_eq!(out[1].0, "select id,name from t  limit 10,10");
}

#[test]
fn pagination_without_count_phase() {
    let pr = PageRequest { page_no: 1, page_size: 5, total: 0, do_count: false };
    let shape = record(vec![("id", Value::Null)]);
    let wher = compile("`where id > #{min}`").unwrap();
    let mut params = Env::new();
    params.bind("min".to_string(), Value::I64(0));
    let out = select_page(&pr, &shape, "t", wher, &params).unwrap();
    assert_eq!(out.len(), 1);
    assert!(!out[0].2);
    assert_eq!(out[0].0, "select id from t where id > ? limit 0,5");
    assert_eq!(out[0].1.len(), 1);
}

#[test]
fn decode_binary_timestamp() {
    // one second past 2000-01-01 UTC: 1_000_000 microseconds, big-endian
    let data = vec![0u8, 0, 0, 0, 0, 0x0F, 0x42, 0x40];
    let t = Timestamptz::decode(&PgValue::Binary(data)).unwrap();
    assert_eq!(t, Timestamptz(946_684_801_000, 0));
}

#[test]
fn decode_binary_negative_micros() {
    // -1_000_000 microseconds: one second before 2000-01-01 UTC
    let data = vec![0xFFu8, 0xFF, 0xFF, 0xFF, 0xFF, 0xF0, 0xBD, 0xC0];
    let t = Timestamptz::decode(&PgValue::Binary(data)).unwrap();
    assert_eq!(t, Timestamptz(946_684_799_000, 0));
}

#[test]
fn decode_short_binary_is_an_error() {
    let data = vec![0u8, 1, 2];
    assert!(matches!(
        Timestamptz::decode(&PgValue::Binary(data)),
        Err(Error::Decode(DecodeErr::ShortPayload))
    ));
}

#[test]
fn decode_text_timestamp() {
    let t = Timestamptz::decode(&PgValue::Text("2019-10-12T07:20:50.52Z".to_string())).unwrap();
    assert_eq!(t.0, 1_570_864_850_520);
    assert_eq!(t.1, 0);
}

#[test]
fn decode_bad_text_is_an_error() {
    assert!(matches!(
        Timestamptz::decode(&PgValue::Text("not a date".to_string())),
        Err(Error::Decode(DecodeErr::BadText))
    ));
}

#[test]
fn decode_non_ascii_text_is_an_error_not_a_panic() {
    // twelve bytes of multi-byte characters: the date library's parser
    // would slice such text off a character boundary
    assert!(matches!(
        Timestamptz::decode(&PgValue::Text("€€€€".to_string())),
        Err(Error::Decode(DecodeErr::BadText))
    ));
    assert!(matches!(
        Timestamptz::decode(&PgValue::Text("2019-10-12é07:20:50Z".to_string())),
        Err(Error::Decode(DecodeErr::BadText))
    ));
}

#[test]
fn encode_big_endian_millis() {
    assert_eq!(
        Timestamptz(1_000_000, 0).encode(),
        vec![0u8, 0, 0, 0, 0, 0x0F, 0x42, 0x40]
    );
    assert_eq!(
        Timestamptz(-1, 3600).encode(),
        vec![0xFFu8, 0xFF, 0xFF, 0xFF, 0xFF, 0xFF, 0xFF, 0xFF]
    );
    assert_eq!(
        Timestamptz(i64::MIN, 0).encode(),
        vec![0x80u8, 0, 0, 0, 0, 0, 0, 0]
    );
}

#[test]
fn timestamp_to_value_shape() {
    let v = Timestamptz(1, 0).to_value();
    match v {
        Value::Ext(tag, inner) => {
            assert_eq!(tag, "Timestamptz");
            match *inner {
                Value::Array(items) => {
                    assert_eq!(items.len(), 2);
                    assert!(matches!(items[0], Value::I64(1)));
                    assert!(matches!(items[1], Value::I32(0)));
                },
                other => panic!("expected an array, got {:?}", other),
            }
        },
        other => panic!("expected an extension value, got {:?}", other),
    }
}
