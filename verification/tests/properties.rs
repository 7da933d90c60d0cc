//! Scenario and edge-case tests: exact strings, exact lengths, every error
//! variant, and the budget boundary.

use cvlib::{
    CorrelationVector, CorrelationVectorParseError, CounterParseError, SpinCounterInterval,
    SpinCounterPeriodicity, SpinEntropy, SpinParams,
};

fn fine_short_no_entropy() -> SpinParams {
    SpinParams {
        spin_counter_interval: SpinCounterInterval::Fine,
        spin_counter_periodicity: SpinCounterPeriodicity::Short,
        spin_entropy: SpinEntropy::Zero,
    }
}

#[test]
fn parse_terminated_fields() {
    let cv = CorrelationVector::parse("base.0!").unwrap();
    assert_eq!(cv.base(), "base");
    assert_eq!(cv.vector(), &vec![0u32]);
    assert!(cv.is_immutable());
    assert_eq!(cv.serialized_length(), 7);
    assert_eq!(cv.to_string(), "base.0!");
}

#[test]
fn parse_error_variants() {
    assert_eq!(
        CorrelationVector::parse("").unwrap_err(),
        CorrelationVectorParseError::Empty
    );
    assert_eq!(
        CorrelationVector::parse("onlybase").unwrap_err(),
        CorrelationVectorParseError::MissingVector
    );
    assert!(matches!(
        CorrelationVector::parse("base.abc").unwrap_err(),
        CorrelationVectorParseError::ParseError {
            source: CounterParseError::InvalidDigit
        }
    ));
    assert!(matches!(
        CorrelationVector::parse("base.4294967296").unwrap_err(),
        CorrelationVectorParseError::ParseError {
            source: CounterParseError::Overflow
        }
    ));
    assert!(matches!(
        CorrelationVector::parse("base.").unwrap_err(),
        CorrelationVectorParseError::ParseError {
            source: CounterParseError::EmptySegment
        }
    ));
    assert!(matches!(
        CorrelationVector::parse("base..7").unwrap_err(),
        CorrelationVectorParseError::ParseError {
            source: CounterParseError::EmptySegment
        }
    ));
}

#[test]
fn parse_length_ceiling() {
    let too_long = "a".repeat(129);
    assert_eq!(
        CorrelationVector::parse(&too_long).unwrap_err(),
        CorrelationVectorParseError::StringTooLongError
    );
    let unterminated_128 = format!("{}.0", "a".repeat(126));
    assert_eq!(unterminated_128.len(), 128);
    assert_eq!(
        CorrelationVector::parse(&unterminated_128).unwrap_err(),
        CorrelationVectorParseError::StringTooLongError
    );
    let terminated_128 = format!("{}.12345!", "a".repeat(121));
    assert_eq!(terminated_128.len(), 128);
    let cv = CorrelationVector::parse(&terminated_128).unwrap();
    assert!(cv.is_immutable());
    assert_eq!(cv.serialized_length(), 128);
    assert_eq!(cv.to_string(), terminated_128);
}

#[test]
fn parse_largest_counter() {
    let cv = CorrelationVector::parse("b.4294967295").unwrap();
    assert_eq!(cv.vector(), &vec![4294967295u32]);
    assert_eq!(cv.to_string(), "b.4294967295");
}

#[test]
fn fresh_vector_exact_length() {
    let cv = CorrelationVector::new();
    assert_eq!(cv.serialized_length(), 24);
    assert_eq!(cv.to_string().len(), 24);
    let mut cv = cv;
    cv.extend();
    assert_eq!(cv.serialized_length(), 26);
    assert_eq!(cv.to_string().len(), 26);
}

#[test]
fn known_identity_encodes_to_known_base() {
    let cv = CorrelationVector::new_from_uuid([0u8; 16]);
    assert_eq!(cv.base(), "AAAAAAAAAAAAAAAAAAAAAA");
    assert_eq!(cv.to_string(), "AAAAAAAAAAAAAAAAAAAAAA.0");

    let bytes: [u8; 16] = [0, 1, 2, 3, 4, 5, 6, 7, 8, 9, 10, 11, 12, 13, 14, 15];
    let cv = CorrelationVector::new_from_uuid(bytes);
    assert_eq!(cv.base(), "AAECAwQFBgcICQoLDA0ODw");
    assert_eq!(cv.serialized_length(), 24);
}

#[test]
fn increment_digit_carry() {
    let mut cv = CorrelationVector::parse("b.9").unwrap();
    cv.increment();
    assert_eq!(cv.to_string(), "b.10");
    assert_eq!(cv.serialized_length(), 4);

    let mut cv = CorrelationVector::parse("b.5").unwrap();
    cv.increment();
    assert_eq!(cv.to_string(), "b.6");
    assert_eq!(cv.serialized_length(), 3);
}

#[test]
fn increment_over_reserves_without_digit_growth() {
    // 19 ends in 9 but 20 has no extra digit: the accounting keeps the spare
    // byte, so the claimed length runs one ahead of the string.
    let mut cv = CorrelationVector::parse("b.19").unwrap();
    cv.increment();
    assert_eq!(cv.to_string(), "b.20");
    assert_eq!(cv.serialized_length(), 5);
}

#[test]
fn increment_at_counter_maximum_is_a_no_op() {
    let mut cv = CorrelationVector::parse("b.4294967295").unwrap();
    cv.increment();
    assert_eq!(cv.to_string(), "b.4294967295");
    assert!(!cv.is_immutable());
}

#[test]
fn terminated_vector_ignores_mutations() {
    let mut cv = CorrelationVector::parse("base.7!").unwrap();
    cv.increment();
    cv.extend();
    cv.spin(fine_short_no_entropy());
    assert_eq!(cv.to_string(), "base.7!");
    assert_eq!(cv.serialized_length(), 7);
}

#[test]
fn extend_idempotent_once_immutable() {
    let mut cv = CorrelationVector::new();
    for _ in 0..64 {
        cv.extend();
    }
    assert!(cv.is_immutable());
    let frozen = cv.to_string();
    assert!(frozen.len() <= 128);
    cv.extend();
    assert_eq!(cv.to_string(), frozen);
}

#[test]
fn spin_with_known_draw() {
    let mut cv = CorrelationVector::parse("b.1").unwrap();
    // Fine drops 16 bits; 5 << 16 leaves exactly 5; Short with no entropy
    // keeps 16 bits, so 5 survives the mask and no high half is appended.
    cv.spin_with(5u64 << 16, &Vec::new(), fine_short_no_entropy());
    assert_eq!(cv.to_string(), "b.1.5.0");
    assert_eq!(cv.serialized_length(), 7);
}

#[test]
fn spin_with_wide_draw_appends_both_halves() {
    let mut cv = CorrelationVector::parse("b.1").unwrap();
    let params = SpinParams {
        spin_counter_interval: SpinCounterInterval::Coarse,
        spin_counter_periodicity: SpinCounterPeriodicity::Long,
        spin_entropy: SpinEntropy::Four,
    };
    // Coarse drops 24 bits, leaving 43981; four entropy bytes shift it into
    // the high half and contribute 1 to the low half; the 64-bit width means
    // no mask, so both halves are appended, then the fresh zero.
    cv.spin_with(43981u64 << 24, &vec![0u8, 0, 0, 1], params);
    assert_eq!(cv.to_string(), "b.1.1.43981.0");
}

#[test]
fn spin_aborts_mid_append_at_the_budget() {
    // 125 data bytes: the low half (".7") fits, the trailing ".0" does not,
    // so the vector keeps the half-applied spin and turns immutable.
    let input = format!("{}.0", "a".repeat(123));
    assert_eq!(input.len(), 125);
    let mut cv = CorrelationVector::parse(&input).unwrap();
    cv.spin_with(7u64 << 16, &Vec::new(), fine_short_no_entropy());
    let out = cv.to_string();
    assert!(cv.is_immutable());
    assert!(out.ends_with(".7!"));
    assert_eq!(out.len(), 128);
}

#[test]
fn spin_first_append_over_budget_changes_nothing_but_the_marker() {
    let input = format!("{}.0", "a".repeat(125));
    assert_eq!(input.len(), 127);
    let mut cv = CorrelationVector::parse(&input).unwrap();
    cv.spin_with(7u64 << 16, &Vec::new(), fine_short_no_entropy());
    let out = cv.to_string();
    assert!(cv.is_immutable());
    assert_eq!(out, format!("{}!", input));
    assert_eq!(out.len(), 128);
}

#[test]
fn round_trip_preserves_every_field() {
    let mut cv = CorrelationVector::new();
    cv.extend();
    cv.increment();
    cv.increment();
    let reparsed = CorrelationVector::parse(&cv.to_string()).unwrap();
    assert_eq!(cv, reparsed);

    let terminated = CorrelationVector::parse("base.0!").unwrap();
    let reparsed = CorrelationVector::parse(&terminated.to_string()).unwrap();
    assert_eq!(terminated, reparsed);
}

#[test]
fn distinct_vectors_compare_unequal() {
    let mutable = CorrelationVector::parse("base.0").unwrap();
    let terminated = CorrelationVector::parse("base.0!").unwrap();
    assert_ne!(mutable, terminated);
    assert_ne!(
        CorrelationVector::parse("base.0").unwrap(),
        CorrelationVector::parse("base.1").unwrap()
    );
}
