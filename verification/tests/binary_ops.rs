use mun_core::hir::{
    ApplicationTy, ArithOp, BinaryOp, CmpOp, FloatBitness, FloatTy, InferTy, IntBitness, IntTy,
    LogicOp, Signedness, StructId, Target, Ty, TypeCtor,
};
use mun_core::hir::{binary_op_return_ty, binary_op_rhs_expectation};

fn i32_ty() -> Ty {
    Ty::Apply(ApplicationTy {
        ctor: TypeCtor::Int(IntTy { signedness: Signedness::Signed, bitness: IntBitness::X32 }),
    })
}

fn f64_ty() -> Ty {
    Ty::Apply(ApplicationTy { ctor: TypeCtor::Float(FloatTy { bitness: FloatBitness::X64 }) })
}

fn bool_ty() -> Ty {
    Ty::Apply(ApplicationTy { ctor: TypeCtor::Bool })
}

fn struct_ty() -> Ty {
    Ty::Apply(ApplicationTy { ctor: TypeCtor::Struct(StructId { index: 0 }) })
}

#[test]
fn logic_op_expects_bool() {
    let r = binary_op_rhs_expectation(BinaryOp::LogicOp(LogicOp::And), f64_ty());
    assert_eq!(r, bool_ty());
}

#[test]
fn cmp_op_expects_lhs_for_scalars() {
    let r = binary_op_rhs_expectation(BinaryOp::CmpOp(CmpOp::Lt), i32_ty());
    assert_eq!(r, i32_ty());
    let r = binary_op_rhs_expectation(BinaryOp::CmpOp(CmpOp::Eq), bool_ty());
    assert_eq!(r, bool_ty());
}

#[test]
fn cmp_op_rejects_struct() {
    let r = binary_op_rhs_expectation(BinaryOp::CmpOp(CmpOp::Eq), struct_ty());
    assert_eq!(r, Ty::Unknown);
}

#[test]
fn plain_assignment_accepts_struct() {
    let r = binary_op_rhs_expectation(BinaryOp::Assignment { op: None }, struct_ty());
    assert_eq!(r, struct_ty());
}

#[test]
fn bitwise_ops_reject_float() {
    let r = binary_op_rhs_expectation(BinaryOp::ArithOp(ArithOp::BitAnd), f64_ty());
    assert_eq!(r, Ty::Unknown);
    let r = binary_op_rhs_expectation(
        BinaryOp::Assignment { op: Some(ArithOp::LeftShift) },
        f64_ty(),
    );
    assert_eq!(r, Ty::Unknown);
}

#[test]
fn bitwise_ops_accept_int_and_bool() {
    let r = binary_op_rhs_expectation(BinaryOp::ArithOp(ArithOp::BitOr), i32_ty());
    assert_eq!(r, i32_ty());
    let r = binary_op_rhs_expectation(BinaryOp::ArithOp(ArithOp::BitXor), bool_ty());
    assert_eq!(r, bool_ty());
}

#[test]
fn arith_accepts_numbers_only() {
    let r = binary_op_rhs_expectation(BinaryOp::ArithOp(ArithOp::Add), f64_ty());
    assert_eq!(r, f64_ty());
    let r = binary_op_rhs_expectation(BinaryOp::ArithOp(ArithOp::Mul), bool_ty());
    assert_eq!(r, Ty::Unknown);
}

#[test]
fn infer_vars_pass_through() {
    let iv = Ty::Infer(InferTy::IntVar(0));
    let fv = Ty::Infer(InferTy::FloatVar(1));
    assert_eq!(binary_op_rhs_expectation(BinaryOp::ArithOp(ArithOp::Sub), iv), iv);
    assert_eq!(binary_op_rhs_expectation(BinaryOp::ArithOp(ArithOp::Sub), fv), fv);
    assert_eq!(binary_op_rhs_expectation(BinaryOp::ArithOp(ArithOp::BitAnd), fv), Ty::Unknown);
}

#[test]
fn return_types() {
    assert_eq!(binary_op_return_ty(BinaryOp::ArithOp(ArithOp::Add), f64_ty()), f64_ty());
    assert_eq!(binary_op_return_ty(BinaryOp::ArithOp(ArithOp::Add), struct_ty()), Ty::Unknown);
    assert_eq!(binary_op_return_ty(BinaryOp::CmpOp(CmpOp::Ge), i32_ty()), bool_ty());
    assert_eq!(binary_op_return_ty(BinaryOp::LogicOp(LogicOp::Or), bool_ty()), bool_ty());
    assert_eq!(
        binary_op_return_ty(BinaryOp::Assignment { op: Some(ArithOp::Add) }, i32_ty()),
        Ty::Empty
    );
}

#[test]
fn resolve_bitness_defaults() {
    let target = Target { pointer_width: 64 };
    let f = FloatTy { bitness: FloatBitness::Undefined }.resolve(&target);
    assert_eq!(f.bitness, FloatBitness::X64);
    let f = FloatTy { bitness: FloatBitness::X32 }.resolve(&target);
    assert_eq!(f.bitness, FloatBitness::X32);
    let i = IntTy { signedness: Signedness::Unsigned, bitness: IntBitness::Xsize }.resolve(&target);
    assert_eq!(i.bitness, IntBitness::X64);
    assert_eq!(i.signedness, Signedness::Unsigned);
    let i = IntTy { signedness: Signedness::Signed, bitness: IntBitness::X16 }.resolve(&target);
    assert_eq!(i.bitness, IntBitness::X16);
}
