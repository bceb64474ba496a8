use struct_abi::layout::{AggregateType, LayoutError, ScalarType};
use struct_abi::signature::{
    class_agrees, make_parameter_class, shared_padded_size, CallConv, CallSignature,
    ParameterClass, ParameterType,
};

#[test]
fn scalar_is_plain() {
    assert_eq!(
        make_parameter_class(ParameterType::Scalar(ScalarType::I32)),
        Ok(ParameterClass::Plain(ScalarType::I32))
    );
}

#[test]
fn aggregate_goes_by_pointer_with_its_padded_size() {
    let four = AggregateType::new(4, 4).unwrap();
    assert_eq!(
        make_parameter_class(ParameterType::Aggregate(four)),
        Ok(ParameterClass::StructByPointer(16))
    );
    let big = AggregateType::new(40, 8).unwrap();
    assert_eq!(
        make_parameter_class(ParameterType::Aggregate(big)),
        Ok(ParameterClass::StructByPointer(48))
    );
}

#[test]
fn empty_aggregate_takes_one_granule() {
    let empty = AggregateType::new(0, 1).unwrap();
    assert_eq!(
        make_parameter_class(ParameterType::Aggregate(empty)),
        Ok(ParameterClass::StructByPointer(16))
    );
}

#[test]
fn aggregate_too_large_to_pad_is_refused() {
    let huge = AggregateType::new(u32::MAX, 1).unwrap();
    assert_eq!(
        make_parameter_class(ParameterType::Aggregate(huge)),
        Err(LayoutError::Overflow)
    );
    assert_eq!(shared_padded_size(u32::MAX), Err(LayoutError::Overflow));
}

#[test]
fn shared_padded_size_uses_sixteen_bytes() {
    assert_eq!(shared_padded_size(0), Ok(16));
    assert_eq!(shared_padded_size(4), Ok(16));
    assert_eq!(shared_padded_size(16), Ok(16));
    assert_eq!(shared_padded_size(17), Ok(32));
}

#[test]
fn a_class_with_the_raw_size_disagrees() {
    let four = AggregateType::new(4, 4).unwrap();
    let ty = ParameterType::Aggregate(four);
    assert!(class_agrees(ParameterClass::StructByPointer(16), ty));
    assert!(!class_agrees(ParameterClass::StructByPointer(4), ty));
    assert!(!class_agrees(ParameterClass::Plain(ScalarType::I32), ty));
    assert!(class_agrees(
        ParameterClass::Plain(ScalarType::I64),
        ParameterType::Scalar(ScalarType::I64)
    ));
    assert!(!class_agrees(
        ParameterClass::Plain(ScalarType::I32),
        ParameterType::Scalar(ScalarType::I64)
    ));
}

#[test]
fn signature_keeps_what_it_was_made_with() {
    let s = CallSignature::new(
        vec![ParameterClass::StructByPointer(16), ParameterClass::Plain(ScalarType::I8)],
        vec![ScalarType::I32],
        CallConv::SystemV,
    );
    assert_eq!(s.param_count(), 2);
    assert_eq!(s.param(0), ParameterClass::StructByPointer(16));
    assert_eq!(s.param(1), ParameterClass::Plain(ScalarType::I8));
    assert_eq!(s.result_count(), 1);
    assert_eq!(s.result_type(0), ScalarType::I32);
    assert_eq!(s.call_conv(), CallConv::SystemV);
}

#[test]
fn signatures_compare_by_what_they_hold() {
    let a = CallSignature::new(
        vec![ParameterClass::StructByPointer(16)],
        vec![ScalarType::I32],
        CallConv::SystemV,
    );
    let b = a.duplicate();
    assert!(a.equals(&b));
    let other_size = CallSignature::new(
        vec![ParameterClass::StructByPointer(32)],
        vec![ScalarType::I32],
        CallConv::SystemV,
    );
    assert!(!a.equals(&other_size));
    let other_conv = CallSignature::new(
        vec![ParameterClass::StructByPointer(16)],
        vec![ScalarType::I32],
        CallConv::WindowsFastcall,
    );
    assert!(!a.equals(&other_conv));
    let other_result = CallSignature::new(
        vec![ParameterClass::StructByPointer(16)],
        vec![ScalarType::I64],
        CallConv::SystemV,
    );
    assert!(!a.equals(&other_result));
    let no_params = CallSignature::new(vec![], vec![ScalarType::I32], CallConv::SystemV);
    assert!(!a.equals(&no_params));
}
