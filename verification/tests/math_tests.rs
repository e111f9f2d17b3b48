use peregrine::math::{IDivModResult, UDivModResult, __aeabi_idivmod, __aeabi_uidivmod, uceil};

#[test]
fn udivmod_stops_at_divisor() {
    // The subtraction loop runs only while the value exceeds the divisor, so
    // an exact multiple keeps one divisor's worth in the remainder.
    let r = __aeabi_uidivmod(8, 4);
    assert_eq!(1, r.quot);
    assert_eq!(4, r.rem);
}

#[test]
fn udivmod_with_remainder() {
    let r = __aeabi_uidivmod(9, 4);
    assert_eq!(2, r.quot);
    assert_eq!(1, r.rem);
}

#[test]
fn udivmod_small_value() {
    let r = __aeabi_uidivmod(3, 7);
    assert_eq!(0, r.quot);
    assert_eq!(3, r.rem);
}

#[test]
fn udivmod_round_up_is_ceiling() {
    for lhs in 0..100usize {
        for rhs in 1..20usize {
            let d = __aeabi_uidivmod(lhs, rhs);
            assert_eq!(uceil(lhs, rhs), d.round_up(), "lhs {} rhs {}", lhs, rhs);
        }
    }
}

#[test]
fn idivmod_matches_unsigned_for_positive() {
    let r = __aeabi_idivmod(9, 4);
    assert_eq!(2, r.quot);
    assert_eq!(1, r.rem);
}

#[test]
fn idivmod_negative_passes_through() {
    let r = __aeabi_idivmod(-5, 2);
    assert_eq!(0, r.quot);
    assert_eq!(-5, r.rem);
}

#[test]
fn round_up_structs() {
    assert_eq!(3, UDivModResult { quot: 2, rem: 1 }.round_up());
    assert_eq!(2, UDivModResult { quot: 2, rem: 0 }.round_up());
    assert_eq!(3, IDivModResult { quot: 2, rem: 1 }.round_up());
    assert_eq!(2, IDivModResult { quot: 2, rem: 0 }.round_up());
    assert_eq!(2, IDivModResult { quot: 2, rem: -1 }.round_up());
}

#[test]
fn uceil_values() {
    assert_eq!(0, uceil(0, 8));
    assert_eq!(1, uceil(1, 8));
    assert_eq!(1, uceil(8, 8));
    assert_eq!(2, uceil(9, 8));
    assert_eq!(1, uceil(1, 1024));
    assert_eq!(5, uceil(4100, 1024));
}
