use sqlgen::crud::eval_sql;
use sqlgen::error::{CompileErr, Error, EvalErr};
use sqlgen::eval::Env;
use sqlgen::parse::compile;
use sqlgen::ranges::make_ranges;
use sqlgen::value::Value;

fn env_with(binds: Vec<(&str, Value)>) -> Env {
    let mut env = Env::new();
    for (k, v) in binds {
        env.bind(k.to_string(), v);
    }
    env
}

fn arr_of_strs(items: &[&str]) -> Value {
    Value::Array(items.iter().map(|s| Value::Str(s.to_string())).collect())
}

#[test]
fn ranges_exact() {
    let r = make_ranges(10, 3).unwrap();
    assert_eq!(r, vec![(0, 3), (3, 6), (6, 9), (9, 10)]);
    let r = make_ranges(3, 10).unwrap();
    assert_eq!(r, vec![(0, 3)]);
    let r = make_ranges(9, 3).unwrap();
    assert_eq!(r, vec![(0, 3), (3, 6), (6, 9)]);
}

#[test]
fn ranges_empty_total() {
    assert_eq!(make_ranges(0, 7).unwrap(), vec![]);
    assert_eq!(make_ranges(0, 1).unwrap(), vec![]);
}

#[test]
fn ranges_zero_batch_is_error() {
    assert!(matches!(
        make_ranges(10, 0),
        Err(Error::Eval(EvalErr::ZeroBatchSize))
    ));
    assert!(matches!(
        make_ranges(0, 0),
        Err(Error::Eval(EvalErr::ZeroBatchSize))
    ));
}

#[test]
fn trim_removes_one_trailing_separator() {
    let src = "trim ',':\n for x in xs:\n  `${x},`";
    let env = env_with(vec![("xs", arr_of_strs(&["a", "b", "c"]))]);
    let (sql, binds) = eval_sql(src, &env).unwrap();
    assert_eq!(sql, "a,b,c");
    assert_eq!(binds.len(), 0);
}

#[test]
fn trim_of_empty_iteration_is_empty() {
    let src = "trim ',':\n for x in xs:\n  `${x},`";
    let env = env_with(vec![("xs", arr_of_strs(&[]))]);
    let (sql, binds) = eval_sql(src, &env).unwrap();
    assert_eq!(sql, "");
    assert_eq!(binds.len(), 0);
}

#[test]
fn if_false_emits_nothing() {
    let src = "if false:\n `text `\n #{x}";
    let env = env_with(vec![("x", Value::Str("secret".to_string()))]);
    let (sql, binds) = eval_sql(src, &env).unwrap();
    assert_eq!(sql, "");
    assert_eq!(binds.len(), 0);
}

#[test]
fn bound_value_never_appears_in_sql_text() {
    let src = "`select * from t where name = `#{name}";
    let injected = "x' or '1'='1";
    let env = env_with(vec![("name", Value::Str(injected.to_string()))]);
    let (sql, binds) = eval_sql(src, &env).unwrap();
    assert_eq!(sql, "select * from t where name = ?");
    assert!(!sql.contains(injected));
    assert_eq!(binds.len(), 1);
    assert!(matches!(&binds[0], Value::Str(s) if s == injected));
}

#[test]
fn compile_twice_identical_results() {
    let src = "`select `\nif x == 1:\n `one `\ntrim ',':\n for k,v in rec:\n  `${k}=#{v},`";
    let t1 = compile(src).unwrap();
    let t2 = compile(src).unwrap();
    let mut rec = Vec::new();
    rec.push(("a".to_string(), Value::I32(1)));
    rec.push(("b".to_string(), Value::U64(2)));
    let env = env_with(vec![("x", Value::I64(1)), ("rec", Value::Object(rec))]);
    let r1 = sqlgen::eval::evaluate(&t1, &env).unwrap();
    let r2 = sqlgen::eval::evaluate(&t2, &env).unwrap();
    assert_eq!(r1.0, r2.0);
    assert_eq!(r1.1.len(), r2.1.len());
    assert_eq!(r1.0, "select one a=?,b=?");
}

#[test]
fn continue_abandons_iteration() {
    let src = "trim ',':\n for x in xs:\n  if x == 2:\n   continue:\n  `${x},`";
    let env = env_with(vec![(
        "xs",
        Value::Array(vec![Value::I64(1), Value::I64(2), Value::I64(3)]),
    )]);
    let (sql, _) = eval_sql(src, &env).unwrap();
    assert_eq!(sql, "1,3");
}

#[test]
fn continue_discards_binds_of_abandoned_iteration() {
    let src = "for x in xs:\n #{x}\n if x == 2:\n  continue:\n `,`";
    let env = env_with(vec![(
        "xs",
        Value::Array(vec![Value::I64(1), Value::I64(2), Value::I64(3)]),
    )]);
    let (sql, binds) = eval_sql(src, &env).unwrap();
    // the iteration for 2 is abandoned entirely: no text, no bind
    assert_eq!(sql, "?,?,");
    assert_eq!(binds.len(), 2);
    assert!(matches!(&binds[0], Value::I64(1)));
    assert!(matches!(&binds[1], Value::I64(3)));
}

#[test]
fn map_iteration_keeps_field_order() {
    let src = "trim ',':\n for k,v in rec:\n  `${k},`";
    let mut rec = Vec::new();
    rec.push(("zeta".to_string(), Value::I32(1)));
    rec.push(("alpha".to_string(), Value::I32(2)));
    rec.push(("mid".to_string(), Value::I32(3)));
    let env = env_with(vec![("rec", Value::Object(rec))]);
    let (sql, _) = eval_sql(src, &env).unwrap();
    assert_eq!(sql, "zeta,alpha,mid");
}

#[test]
fn raw_substitution_renders_numbers() {
    let env = env_with(vec![
        ("n", Value::I64(-5)),
        ("u", Value::U64(12345)),
        ("b", Value::Bool(true)),
    ]);
    let (sql, binds) = eval_sql("`v=`${n}`,`${u}`,`${b}", &env).unwrap();
    assert_eq!(sql, "v=-5,12345,true");
    assert_eq!(binds.len(), 0);
}

#[test]
fn expression_arithmetic_and_logic() {
    let env = env_with(vec![("a", Value::I64(7)), ("b", Value::I64(2))]);
    let (sql, _) = eval_sql("${a + b}` `${a - b}` `${a * b}` `${a / b}", &env).unwrap();
    assert_eq!(sql, "9 5 14 3");
    let (sql, _) = eval_sql("if a == 7 && b != 3:\n `yes`", &env).unwrap();
    assert_eq!(sql, "yes");
    let (sql, _) = eval_sql("if a == 0 || b == 2:\n `yes`", &env).unwrap();
    assert_eq!(sql, "yes");
}

#[test]
fn division_by_zero_is_an_evaluation_error() {
    let env = env_with(vec![("a", Value::I64(1)), ("z", Value::I64(0))]);
    assert!(matches!(
        eval_sql("${a / z}", &env),
        Err(Error::Eval(EvalErr::DivByZero))
    ));
}

#[test]
fn undeclared_name_is_an_evaluation_error() {
    let env = Env::new();
    assert!(matches!(
        eval_sql("#{missing}", &env),
        Err(Error::Eval(EvalErr::Undeclared))
    ));
}

#[test]
fn kind_mismatch_is_an_evaluation_error() {
    let env = env_with(vec![("name", Value::Str("x".to_string()))]);
    assert!(matches!(
        eval_sql("if name:\n `y`", &env),
        Err(Error::Eval(EvalErr::KindMismatch))
    ));
    assert!(matches!(
        eval_sql("${name + 1}", &env),
        Err(Error::Eval(EvalErr::KindMismatch))
    ));
}

#[test]
fn arithmetic_overflow_is_an_evaluation_error() {
    let env = env_with(vec![("big", Value::I64(i64::MAX))]);
    assert!(matches!(
        eval_sql("${big + 1}", &env),
        Err(Error::Eval(EvalErr::NumOverflow))
    ));
    let env2 = env_with(vec![("huge", Value::U64(u64::MAX))]);
    assert!(matches!(
        eval_sql("${huge + 0}", &env2),
        Err(Error::Eval(EvalErr::NumOverflow))
    ));
}

#[test]
fn null_compares_only_to_null() {
    let env = env_with(vec![("v", Value::Null), ("s", Value::Str("x".to_string()))]);
    let (sql, _) = eval_sql("if v == null:\n `n`\nif s != null:\n `s`", &env).unwrap();
    assert_eq!(sql, "ns");
}

#[test]
fn numbers_compare_across_kinds() {
    let env = env_with(vec![("a", Value::U32(5)), ("b", Value::I64(5))]);
    let (sql, _) = eval_sql("if a == b:\n `same`", &env).unwrap();
    assert_eq!(sql, "same");
}

#[test]
fn compile_rejects_unclosed_backtick() {
    assert!(matches!(compile("`abc"), Err(CompileErr::UnclosedBacktick)));
}

#[test]
fn compile_rejects_unclosed_brace() {
    assert!(matches!(compile("${x"), Err(CompileErr::UnclosedBrace)));
}

#[test]
fn compile_rejects_unclosed_quote() {
    assert!(matches!(
        compile("if x == 'a:\n `t`"),
        Err(CompileErr::UnclosedQuote)
    ));
}

#[test]
fn compile_rejects_bad_header() {
    assert!(matches!(compile("if x\n `t`"), Err(CompileErr::BadHeader)));
    assert!(matches!(compile("for x xs:\n `t`"), Err(CompileErr::BadHeader)));
}

#[test]
fn compile_rejects_empty_trim_separator() {
    assert!(matches!(
        compile("trim '':\n `t`"),
        Err(CompileErr::EmptySeparator)
    ));
}

#[test]
fn compile_rejects_bad_tokens_and_expressions() {
    assert!(matches!(compile("#{x ~ y}"), Err(CompileErr::BadToken)));
    assert!(matches!(compile("#{x ==}"), Err(CompileErr::BadExpr)));
}

#[test]
fn string_literals_and_parentheses_in_expressions() {
    let env = env_with(vec![("k", Value::Str("id".to_string()))]);
    let (sql, _) = eval_sql("if k == 'id':\n `pk`", &env).unwrap();
    assert_eq!(sql, "pk");
    let env2 = env_with(vec![("a", Value::I64(2)), ("b", Value::I64(3))]);
    let (sql2, _) = eval_sql("${(a + b) * 2}", &env2).unwrap();
    assert_eq!(sql2, "10");
}
