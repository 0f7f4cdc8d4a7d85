use std::time::Instant;
use sqlgen::value::RBON;

pub struct A {
    pub name: String,
    pub age: i32,
}

#[test]
fn test_bench_ser() {
    let a = A {
        name: "1".to_string(),
        age: 2,
    };
    let _ = (a.name, a.age);
    let now = Instant::now();
    for _ in 0..100000 {
        let a = A {
            name: "1".to_string(),
            age: 2,
        };
        let b = RBON::Struct(
            "A".to_string(),
            vec![
                ("name".to_string(), RBON::String("1".to_string())),
                ("age".to_string(), RBON::I32(2)),
            ],
        );
        let _ = (a, b);
    }
    let time = now.elapsed();
    println!("use Time: {:?} ,each:{} ns/op", &time, time.as_nanos() / 100000u128);
}
