//! Parameter classes and function signatures.

use vstd::prelude::*;
use vstd::arithmetic::power2::is_pow2;
use crate::layout::{
    lemma_pow2_single_bit, padded_size, padded_size_spec, AggregateType, LayoutError,
    STACK_ARGUMENT_GRANULARITY, ScalarType,
};

verus! {

/// How one parameter travels.
#[derive(Clone, Copy, Debug, PartialEq, Eq, Structural)]
pub enum ParameterClass {
    /// A scalar, passed as it is.
    Plain(ScalarType),
    /// An aggregate, passed as a pointer to storage of the caller. The
    /// number is its padded size.
    StructByPointer(u32),
}

/// What a parameter is before it is classified.
#[derive(Clone, Copy, Debug, PartialEq, Eq, Structural)]
pub enum ParameterType {
    Scalar(ScalarType),
    Aggregate(AggregateType),
}

/// The calling conventions that a host can have by default.
#[derive(Clone, Copy, Debug, PartialEq, Eq, Structural)]
pub enum CallConv {
    SystemV,
    WindowsFastcall,
    AppleAarch64,
}

/// The padded size recorded for an aggregate of `size` bytes.
pub open spec fn aggregate_padded_size(size: u32) -> int {
    padded_size_spec(size as int, STACK_ARGUMENT_GRANULARITY as int)
}

/// The granularity of the stack-argument area is a power of two.
pub proof fn lemma_granularity_pow2()
    ensures
        is_pow2(STACK_ARGUMENT_GRANULARITY as int),
{
    lemma_pow2_single_bit(STACK_ARGUMENT_GRANULARITY);
    assert(16u32 & ((16u32 - 1) as u32) == 0) by (bit_vector);
}

/// The padded size of an aggregate of `size` bytes, the one computation that
/// both the signature and the call site use.
pub fn shared_padded_size(size: u32) -> (r: Result<u32, LayoutError>)
    ensures
        aggregate_padded_size(size) <= u32::MAX ==> r == Ok::<u32, LayoutError>(
            aggregate_padded_size(size) as u32,
        ),
        aggregate_padded_size(size) > u32::MAX ==> r == Err::<u32, LayoutError>(
            LayoutError::Overflow,
        ),
{
    proof {
        lemma_granularity_pow2();
    }
    padded_size(size, STACK_ARGUMENT_GRANULARITY)
}

/// The class of a parameter: a scalar is plain, an aggregate goes by
/// pointer with its padded size.
pub fn make_parameter_class(ty: ParameterType) -> (r: Result<ParameterClass, LayoutError>)
    ensures
        match ty {
            ParameterType::Scalar(s) => r == Ok::<ParameterClass, LayoutError>(
                ParameterClass::Plain(s),
            ),
            ParameterType::Aggregate(a) => if aggregate_padded_size(a.size_spec()) <= u32::MAX {
                r == Ok::<ParameterClass, LayoutError>(
                    ParameterClass::StructByPointer(aggregate_padded_size(a.size_spec()) as u32),
                )
            } else {
                r == Err::<ParameterClass, LayoutError>(LayoutError::Overflow)
            },
        },
{
    match ty {
        ParameterType::Scalar(s) => Ok(ParameterClass::Plain(s)),
        ParameterType::Aggregate(a) => {
            match shared_padded_size(a.size()) {
                Ok(p) => Ok(ParameterClass::StructByPointer(p)),
                Err(e) => Err(e),
            }
        },
    }
}

/// Whether a declared class is the class of `ty`.
pub fn class_agrees(declared: ParameterClass, ty: ParameterType) -> (r: bool)
    ensures
        r == match ty {
            ParameterType::Scalar(s) => declared == ParameterClass::Plain(s),
            ParameterType::Aggregate(a) => aggregate_padded_size(a.size_spec()) <= u32::MAX
                && declared == ParameterClass::StructByPointer(
                aggregate_padded_size(a.size_spec()) as u32,
            ),
        },
{
    match make_parameter_class(ty) {
        Ok(c) => c == declared,
        Err(_) => false,
    }
}

/// What a signature holds.
pub struct CallSignatureModel {
    /// The classes of the parameters, in order.
    pub params: Seq<ParameterClass>,
    /// The types of the results, in order.
    pub results: Seq<ScalarType>,
    /// The calling convention.
    pub call_conv: CallConv,
}

/// What a function takes and gives back, fixed once it is made.
#[derive(Debug)]
pub struct CallSignature {
    params: Vec<ParameterClass>,
    results: Vec<ScalarType>,
    call_conv: CallConv,
}

impl View for CallSignature {
    type V = CallSignatureModel;

    closed spec fn view(&self) -> CallSignatureModel {
        CallSignatureModel {
            params: self.params@,
            results: self.results@,
            call_conv: self.call_conv,
        }
    }
}

impl CallSignature {
    /// A signature of the given parameters and results.
    pub fn new(params: Vec<ParameterClass>, results: Vec<ScalarType>, call_conv: CallConv) -> (r:
        Self)
        ensures
            r@ == (CallSignatureModel { params: params@, results: results@, call_conv }),
    {
        CallSignature { params, results, call_conv }
    }

    /// How many parameters there are.
    pub fn param_count(&self) -> (r: usize)
        ensures
            r == self@.params.len(),
    {
        self.params.len()
    }

    /// The class of parameter `i`.
    pub fn param(&self, i: usize) -> (r: ParameterClass)
        requires
            i < self@.params.len(),
        ensures
            r == self@.params[i as int],
    {
        self.params[i]
    }

    /// How many results there are.
    pub fn result_count(&self) -> (r: usize)
        ensures
            r == self@.results.len(),
    {
        self.results.len()
    }

    /// The type of result `i`.
    pub fn result_type(&self, i: usize) -> (r: ScalarType)
        requires
            i < self@.results.len(),
        ensures
            r == self@.results[i as int],
    {
        self.results[i]
    }

    /// The calling convention.
    pub fn call_conv(&self) -> (r: CallConv)
        ensures
            r == self@.call_conv,
    {
        self.call_conv
    }

    /// A copy.
    pub fn duplicate(&self) -> (r: Self)
        ensures
            r@ == self@,
    {
        let mut params: Vec<ParameterClass> = Vec::new();
        let mut i: usize = 0;
        while i < self.params.len()
            invariant
                i <= self.params@.len(),
                params@ == self.params@.take(i as int),
            decreases self.params.len() - i,
        {
            params.push(self.params[i]);
            i += 1;
            proof {
                assert(self.params@.take(i as int) == self.params@.take(i as int - 1).push(
                    self.params@[i as int - 1],
                ));
            }
        }
        let mut results: Vec<ScalarType> = Vec::new();
        let mut j: usize = 0;
        while j < self.results.len()
            invariant
                j <= self.results@.len(),
                results@ == self.results@.take(j as int),
            decreases self.results.len() - j,
        {
            results.push(self.results[j]);
            j += 1;
            proof {
                assert(self.results@.take(j as int) == self.results@.take(j as int - 1).push(
                    self.results@[j as int - 1],
                ));
            }
        }
        proof {
            assert(self.params@.take(i as int) == self.params@);
            assert(self.results@.take(j as int) == self.results@);
        }
        CallSignature { params, results, call_conv: self.call_conv }
    }

    /// Whether two signatures are the same.
    pub fn equals(&self, other: &CallSignature) -> (r: bool)
        ensures
            r == (self@ == other@),
    {
        if self.call_conv != other.call_conv || self.params.len() != other.params.len()
            || self.results.len() != other.results.len() {
            return false;
        }
        let mut i: usize = 0;
        while i < self.params.len()
            invariant
                i <= self.params@.len(),
                self.params@.len() == other.params@.len(),
                forall|k: int| 0 <= k < i ==> self.params@[k] == other.params@[k],
            decreases self.params.len() - i,
        {
            if self.params[i] != other.params[i] {
                return false;
            }
            i += 1;
        }
        let mut j: usize = 0;
        while j < self.results.len()
            invariant
                j <= self.results@.len(),
                self.results@.len() == other.results@.len(),
                self.params@ =~= other.params@,
                forall|k: int| 0 <= k < j ==> self.results@[k] == other.results@[k],
            decreases self.results.len() - j,
        {
            if self.results[j] != other.results[j] {
                return false;
            }
            j += 1;
        }
        proof {
            assert(self.results@ =~= other.results@);
        }
        true
    }
}

} // verus!
