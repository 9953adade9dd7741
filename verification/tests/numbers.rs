use kohonen::num::Num;

fn num(x: f64) -> Num {
    Num::from_bits(x.to_bits())
}

#[test]
fn order_agrees_with_the_machine() {
    let values = [
        0.0,
        -0.0,
        1.0,
        -1.0,
        0.5,
        2.0,
        -2.5,
        1e-310,
        -1e-310,
        f64::MIN_POSITIVE,
        f64::MAX,
        f64::MIN,
        f64::INFINITY,
        f64::NEG_INFINITY,
        f64::NAN,
        -f64::NAN,
        3.0,
        1e300,
        -1e300,
    ];
    for a in values.iter() {
        assert_eq!(num(*a).is_nan(), a.is_nan());
        for b in values.iter() {
            assert_eq!(num(*a).lt(num(*b)), a < b, "{} < {}", a, b);
            assert_eq!(num(*a).le(num(*b)), a <= b, "{} <= {}", a, b);
            assert_eq!(num(*a).gt(num(*b)), a > b, "{} > {}", a, b);
            assert_eq!(num(*a).ge(num(*b)), a >= b, "{} >= {}", a, b);
            assert_eq!(num(*a).same(num(*b)), a == b, "{} == {}", a, b);
        }
    }
}
