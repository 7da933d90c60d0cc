//! The behavior of the correlation vector operations on concrete values.

use cvlib::{
    CorrelationVector, SpinCounterInterval, SpinCounterPeriodicity, SpinEntropy, SpinParams,
};

#[test]
fn generate_cv() {
    let cv = CorrelationVector::new();
    let cv_string = cv.to_string();
    assert_eq!(cv_string.split('.').count(), 2);
}

#[test]
fn parse_cv_works() {
    let cv = CorrelationVector::new();
    let cv_string = cv.to_string();
    let cv_parsed = CorrelationVector::parse(&cv_string);
    assert_eq!(cv, cv_parsed.expect("Failed to parse cV"));
}

#[test]
fn increment_cv() {
    let mut cv = CorrelationVector::new();
    cv.increment();
    let cv_string = cv.to_string();
    assert!(cv_string.ends_with('1'));
}

#[test]
fn extend_cv() {
    let mut cv = CorrelationVector::new();
    cv.extend();
    let cv_string = cv.to_string();
    assert_eq!(cv_string.split('.').count(), 3);
}

#[test]
fn spin_cv() {
    let mut cv = CorrelationVector::new();
    cv.spin(SpinParams {
        spin_entropy: SpinEntropy::Two,
        spin_counter_interval: SpinCounterInterval::Fine,
        spin_counter_periodicity: SpinCounterPeriodicity::Short,
    });

    let cv_string = cv.to_string();
    assert!(cv_string.ends_with('0'));
}

#[test]
fn extend_stops_when_oversize() {
    let mut cv = CorrelationVector::new();
    for _ in 0..128 {
        cv.extend();
    }
    let cv_string = cv.to_string();
    assert!(cv_string.len() <= 128);
    assert!(cv_string.ends_with("!"));
}

#[test]
fn spin_stops_when_oversize() {
    let mut cv = CorrelationVector::new();
    for _ in 0..128 {
        cv.spin(SpinParams {
            spin_entropy: SpinEntropy::Two,
            spin_counter_interval: SpinCounterInterval::Fine,
            spin_counter_periodicity: SpinCounterPeriodicity::Short,
        });
    }
    let cv_string = cv.to_string();
    assert!(cv_string.len() <= 128, "{}", cv_string.len());
    assert!(cv_string.ends_with("!"));
    println!("{}", cv_string);
}

#[test]
fn increment_stops_when_oversize() {
    let mut cv = CorrelationVector::parse(
        "P9v1ltK2S7qTS77z0lWtKg.0.386394219.0.386383989.0.386344389.0.386372594.0.386391233.0.386360320.0.386386342.0.386341105.12344459"
    ).unwrap();

    cv.increment();

    let cv_string = cv.to_string();
    assert_eq!(cv_string.len(), 128);
    assert!(cv_string.ends_with("!"));
}

#[test]
fn parse_terminated() {
    let res = CorrelationVector::parse("base.0!");
    assert!(res.is_ok(), "{:?}", res);
}
