use struct_abi::layout::{
    align_shift, is_power_of_two, layout, pad, padded_size, AggregateType, LayoutError,
    ScalarType, STACK_ARGUMENT_GRANULARITY,
};

#[test]
fn pad_rounds_up_to_the_granularity() {
    assert_eq!(pad(4, 16), Ok(16));
    assert_eq!(pad(16, 16), Ok(16));
    assert_eq!(pad(17, 16), Ok(32));
    assert_eq!(pad(1, 1), Ok(1));
    assert_eq!(pad(5, 4), Ok(8));
    assert_eq!(pad(0, 16), Ok(0));
    assert_eq!(pad(4, STACK_ARGUMENT_GRANULARITY), Ok(16));
}

#[test]
fn pad_is_the_mask_formula() {
    for s in 0u32..200 {
        for k in 0u32..8 {
            let g = 1u32 << k;
            assert_eq!(pad(s, g), Ok((s + g - 1) & !(g - 1)));
        }
    }
}

#[test]
fn pad_is_not_below_the_size_and_exceeds_it_by_less_than_a_granule() {
    for s in [0u32, 1, 3, 4, 15, 16, 17, 255, 4096, 1_000_003] {
        for k in 0u32..12 {
            let g = 1u32 << k;
            let p = pad(s, g).unwrap();
            assert!(p >= s);
            assert_eq!(p % g, 0);
            assert!(p - s < g);
        }
    }
}

#[test]
fn pad_refuses_a_granularity_that_is_no_power_of_two() {
    assert_eq!(pad(4, 0), Err(LayoutError::NotPowerOfTwo));
    assert_eq!(pad(4, 3), Err(LayoutError::NotPowerOfTwo));
    assert_eq!(pad(4, 24), Err(LayoutError::NotPowerOfTwo));
    assert_eq!(pad(0, 6), Err(LayoutError::NotPowerOfTwo));
}

#[test]
fn pad_reports_a_result_that_does_not_fit() {
    assert_eq!(pad(u32::MAX, 16), Err(LayoutError::Overflow));
    assert_eq!(pad(u32::MAX - 14, 16), Err(LayoutError::Overflow));
    assert_eq!(pad(u32::MAX - 15, 16), Ok(u32::MAX - 15));
    assert_eq!(pad(u32::MAX, 1), Ok(u32::MAX));
    assert_eq!(pad(0x8000_0001, 0x8000_0000), Err(LayoutError::Overflow));
}

#[test]
fn padded_size_of_an_empty_aggregate_is_one_granule() {
    assert_eq!(padded_size(0, 16), Ok(16));
    assert_eq!(padded_size(0, 1), Ok(1));
    assert_eq!(padded_size(0, 0x8000_0000), Ok(0x8000_0000));
    assert_eq!(padded_size(0, 12), Err(LayoutError::NotPowerOfTwo));
}

#[test]
fn padded_size_is_never_below_the_granularity() {
    for s in 0u32..100 {
        let p = padded_size(s, 16).unwrap();
        assert!(p >= 16);
        assert!(p >= s);
        assert_eq!(p % 16, 0);
    }
    assert_eq!(padded_size(4, 16), Ok(16));
    assert_eq!(padded_size(33, 16), Ok(48));
    assert_eq!(padded_size(u32::MAX, 16), Err(LayoutError::Overflow));
}

#[test]
fn powers_of_two_are_recognised() {
    assert!(is_power_of_two(1));
    assert!(is_power_of_two(2));
    assert!(is_power_of_two(16));
    assert!(is_power_of_two(0x8000_0000));
    assert!(!is_power_of_two(0));
    assert!(!is_power_of_two(3));
    assert!(!is_power_of_two(u32::MAX));
}

#[test]
fn scalar_sizes() {
    assert_eq!(ScalarType::I8.bytes(), 1);
    assert_eq!(ScalarType::I16.bytes(), 2);
    assert_eq!(ScalarType::I32.bytes(), 4);
    assert_eq!(ScalarType::I64.bytes(), 8);
    assert_eq!(ScalarType::I32.bits(), 32);
    assert_eq!(ScalarType::I64.bits(), 64);
}

#[test]
fn aggregate_needs_an_alignment_that_divides_its_size() {
    let a = AggregateType::new(4, 4).unwrap();
    assert_eq!(a.size(), 4);
    assert_eq!(a.align(), 4);
    assert!(AggregateType::new(0, 1).is_some());
    assert!(AggregateType::new(4, 3).is_none());
    assert!(AggregateType::new(6, 4).is_none());
    assert!(AggregateType::new(4, 0).is_none());
}

#[test]
fn layout_of_one_field_is_the_field() {
    let l = layout(&vec![ScalarType::I32]).unwrap();
    assert_eq!(l.aggregate().size(), 4);
    assert_eq!(l.aggregate().align(), 4);
    assert_eq!(l.field_count(), 1);
    assert_eq!(l.field_offset(0), 0);
    assert_eq!(l.field_type(0), ScalarType::I32);
}

#[test]
fn layout_places_each_field_at_its_alignment() {
    let l = layout(&vec![ScalarType::I8, ScalarType::I32, ScalarType::I16]).unwrap();
    assert_eq!(l.field_offset(0), 0);
    assert_eq!(l.field_offset(1), 4);
    assert_eq!(l.field_offset(2), 8);
    assert_eq!(l.aggregate().size(), 12);
    assert_eq!(l.aggregate().align(), 4);

    let m = layout(&vec![ScalarType::I64, ScalarType::I8]).unwrap();
    assert_eq!(m.field_offset(1), 8);
    assert_eq!(m.aggregate().size(), 16);
    assert_eq!(m.aggregate().align(), 8);
}

#[test]
fn layout_of_no_field_is_empty() {
    let l = layout(&vec![]).unwrap();
    assert_eq!(l.field_count(), 0);
    assert_eq!(l.aggregate().size(), 0);
    assert_eq!(l.aggregate().align(), 1);
}

#[test]
fn align_shift_is_the_exponent() {
    assert_eq!(align_shift(1), Some(0));
    assert_eq!(align_shift(4), Some(2));
    assert_eq!(align_shift(16), Some(4));
    assert_eq!(align_shift(0x8000_0000), Some(31));
    assert_eq!(align_shift(0), None);
    assert_eq!(align_shift(12), None);
}
