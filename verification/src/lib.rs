//! Struct-argument lowering for a function-call ABI.
//!
//! An aggregate that is passed by value travels as a pointer to storage in
//! the frame of the caller, together with its size rounded up to the
//! granularity of the stack-argument area.
//!
//! - `layout`: sizes, alignments, the rounding, and the layout of a struct.
//! - `signature`: parameter classes and signatures; the one computation of
//!   the padded size that both sides of a call share.
//! - `ir`: the instructions that the lowering emits, and a function under
//!   construction, which goes from declared to open to sealed to defined.
//! - `lower`: materializing a struct in the frame, lowering a call, and
//!   reading a field through the pointer in the callee.
//! - `program`: functions declared, defined and finalized together.
//! - `eval`: what the instructions mean, as a reference evaluator.
//! - `roundtrip`: a struct of one field passed and read back, with the
//!   proof that the value comes back.
//! - `backend`: Cranelift, as far as it is used; believed, not proved.
//! - `emit`: handing a lowered function to Cranelift.
//! - `readback`: reading back what Cranelift holds for a function.
//! - `jit`: the callee and the caller of the round trip as functions of a
//!   Cranelift module.

pub mod layout;
pub mod signature;
pub mod ir;
pub mod lower;
pub mod program;
pub mod eval;
pub mod roundtrip;
pub mod backend;
pub mod emit;
pub mod readback;
pub mod jit;
