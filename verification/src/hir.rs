//! Types of the language's high-level intermediate representation, and the
//! typing rules for binary operators.
//!
//! The front end infers a [`Ty`] for every expression.  For a binary
//! operation the checker asks two questions answered here: given the
//! operator and the left-hand type, which type is expected on the right
//! ([`binary_op_rhs_expectation`]); and given the operator and the
//! right-hand type, which type does the operation produce
//! ([`binary_op_return_ty`]).

use vstd::prelude::*;

verus! {

/// Width of an integer type.  `Undefined` and `Xsize` are resolved to a
/// concrete width for the compilation target by [`IntTy::resolve`].
#[derive(Clone, Copy, Debug, Eq, PartialEq, Structural)]
pub enum IntBitness {
    Undefined,
    Xsize,
    X8,
    X16,
    X32,
    X64,
}

/// Whether an integer type is signed.
#[derive(Clone, Copy, Debug, Eq, PartialEq, Structural)]
pub enum Signedness {
    Signed,
    Unsigned,
}

/// An integer type: signedness and width.
#[derive(Clone, Copy, Debug, Eq, PartialEq, Structural)]
pub struct IntTy {
    pub signedness: Signedness,
    pub bitness: IntBitness,
}

/// Width of a floating-point type.  `Undefined` is resolved by
/// [`FloatTy::resolve`].
#[derive(Clone, Copy, Debug, Eq, PartialEq, Structural)]
pub enum FloatBitness {
    Undefined,
    X32,
    X64,
}

/// A floating-point type.
#[derive(Clone, Copy, Debug, Eq, PartialEq, Structural)]
pub struct FloatTy {
    pub bitness: FloatBitness,
}

/// Identifies a struct definition of the current program.
#[derive(Clone, Copy, Debug, Eq, PartialEq, Structural)]
pub struct StructId {
    pub index: usize,
}

/// Identifies a function definition of the current program.
#[derive(Clone, Copy, Debug, Eq, PartialEq, Structural)]
pub struct FunctionId {
    pub index: usize,
}

/// A callable definition.
#[derive(Clone, Copy, Debug, Eq, PartialEq, Structural)]
pub enum CallableDef {
    Function(FunctionId),
}

/// A type constructor: the head of a fully applied type.
#[derive(Clone, Copy, Debug, Eq, PartialEq, Structural)]
pub enum TypeCtor {
    Bool,
    Int(IntTy),
    Float(FloatTy),
    Struct(StructId),
    FnDef(CallableDef),
}

/// A type constructor applied to its arguments.  The model keeps only the
/// constructor; none of the rules here read the arguments.
#[derive(Clone, Copy, Debug, Eq, PartialEq, Structural)]
pub struct ApplicationTy {
    pub ctor: TypeCtor,
}

/// An inference variable standing for a type not yet determined.
#[derive(Clone, Copy, Debug, Eq, PartialEq, Structural)]
pub enum InferTy {
    TypeVar(usize),
    IntVar(usize),
    FloatVar(usize),
}

/// A type as the inference engine sees it.
#[derive(Clone, Copy, Debug, Eq, PartialEq, Structural)]
pub enum Ty {
    /// The unit type.
    Empty,
    /// A fully applied type constructor.
    Apply(ApplicationTy),
    /// A not yet determined type.
    Infer(InferTy),
    /// A type that could not be determined.
    Unknown,
}

/// An arithmetic or bitwise operator.
#[derive(Clone, Copy, Debug, Eq, PartialEq, Structural)]
pub enum ArithOp {
    Add,
    Sub,
    Mul,
    Div,
    Rem,
    LeftShift,
    RightShift,
    BitAnd,
    BitOr,
    BitXor,
}

/// A comparison operator.
#[derive(Clone, Copy, Debug, Eq, PartialEq, Structural)]
pub enum CmpOp {
    Eq,
    Ne,
    Lt,
    Le,
    Gt,
    Ge,
}

/// A short-circuiting boolean operator.
#[derive(Clone, Copy, Debug, Eq, PartialEq, Structural)]
pub enum LogicOp {
    And,
    Or,
}

/// A binary operator, including compound assignment.
#[derive(Clone, Copy, Debug, Eq, PartialEq, Structural)]
pub enum BinaryOp {
    LogicOp(LogicOp),
    ArithOp(ArithOp),
    CmpOp(CmpOp),
    Assignment { op: Option<ArithOp> },
}

impl Ty {
    /// The type with the given constructor and no arguments.
    pub fn simple(ctor: TypeCtor) -> (r: Ty)
        ensures
            r == Ty::Apply(ApplicationTy { ctor }),
    {
        Ty::Apply(ApplicationTy { ctor })
    }
}

/// Whether `t` is an applied scalar type: an integer, float or boolean.
pub open spec fn is_scalar_apply(t: Ty) -> bool {
    match t {
        Ty::Apply(a) => matches!(a.ctor, TypeCtor::Int(_) | TypeCtor::Float(_) | TypeCtor::Bool),
        _ => false,
    }
}

/// Whether `t` is an applied numeric type: an integer or float.
pub open spec fn is_number_apply(t: Ty) -> bool {
    match t {
        Ty::Apply(a) => matches!(a.ctor, TypeCtor::Int(_) | TypeCtor::Float(_)),
        _ => false,
    }
}

/// Whether `t` is an applied type an assignment accepts on its left:
/// a scalar or a struct.
pub open spec fn is_assignable_apply(t: Ty) -> bool {
    match t {
        Ty::Apply(a) => matches!(
            a.ctor,
            TypeCtor::Int(_) | TypeCtor::Float(_) | TypeCtor::Bool | TypeCtor::Struct(_)
        ),
        _ => false,
    }
}

/// Whether `t` is an applied type a bitwise or shift operator accepts:
/// a boolean or an integer.
pub open spec fn is_bitwise_apply(t: Ty) -> bool {
    match t {
        Ty::Apply(a) => matches!(a.ctor, TypeCtor::Int(_) | TypeCtor::Bool),
        _ => false,
    }
}

/// Whether `t` is a numeric inference variable.
pub open spec fn is_number_var(t: Ty) -> bool {
    match t {
        Ty::Infer(v) => matches!(v, InferTy::IntVar(_) | InferTy::FloatVar(_)),
        _ => false,
    }
}

/// Whether `t` is an integer inference variable.
pub open spec fn is_int_var(t: Ty) -> bool {
    match t {
        Ty::Infer(v) => matches!(v, InferTy::IntVar(_)),
        _ => false,
    }
}

/// Whether `op` is a bitwise or shift operator.
pub open spec fn is_bitwise_op(op: ArithOp) -> bool {
    matches!(
        op,
        ArithOp::LeftShift | ArithOp::RightShift | ArithOp::BitAnd | ArithOp::BitOr
            | ArithOp::BitXor
    )
}

/// The type expected on the right of `op` when the left has type `lhs_ty`,
/// or `Ty::Unknown` when no right-hand type makes the operation valid.
pub open spec fn spec_binary_op_rhs_expectation(op: BinaryOp, lhs_ty: Ty) -> Ty {
    match op {
        BinaryOp::LogicOp(_) => Ty::Apply(ApplicationTy { ctor: TypeCtor::Bool }),
        BinaryOp::CmpOp(_) => if is_scalar_apply(lhs_ty) || is_number_var(lhs_ty) {
            lhs_ty
        } else {
            Ty::Unknown
        },
        BinaryOp::Assignment { op: None } => if is_assignable_apply(lhs_ty)
            || is_number_var(lhs_ty) {
            lhs_ty
        } else {
            Ty::Unknown
        },
        BinaryOp::Assignment { op: Some(a) } => if is_bitwise_op(a) {
            if is_bitwise_apply(lhs_ty) || is_int_var(lhs_ty) {
                lhs_ty
            } else {
                Ty::Unknown
            }
        } else {
            if is_number_apply(lhs_ty) || is_number_var(lhs_ty) {
                lhs_ty
            } else {
                Ty::Unknown
            }
        },
        BinaryOp::ArithOp(a) => if is_bitwise_op(a) {
            if is_bitwise_apply(lhs_ty) || is_int_var(lhs_ty) {
                lhs_ty
            } else {
                Ty::Unknown
            }
        } else {
            if is_number_apply(lhs_ty) || is_number_var(lhs_ty) {
                lhs_ty
            } else {
                Ty::Unknown
            }
        },
    }
}

/// The type a binary operation produces given the type on its right, or
/// `Ty::Unknown` when the operation is invalid there.
pub open spec fn spec_binary_op_return_ty(op: BinaryOp, rhs_ty: Ty) -> Ty {
    match op {
        BinaryOp::ArithOp(_) => if is_number_apply(rhs_ty) || is_number_var(rhs_ty) {
            rhs_ty
        } else {
            Ty::Unknown
        },
        BinaryOp::CmpOp(_) => Ty::Apply(ApplicationTy { ctor: TypeCtor::Bool }),
        BinaryOp::LogicOp(_) => Ty::Apply(ApplicationTy { ctor: TypeCtor::Bool }),
        BinaryOp::Assignment { .. } => Ty::Empty,
    }
}

/// Given a binary operation and the type on the left of that operation,
/// returns the expected type for the right hand side of the operation or
/// `Ty::Unknown` if such an operation is invalid.
pub fn binary_op_rhs_expectation(op: BinaryOp, lhs_ty: Ty) -> (r: Ty)
    ensures
        r == spec_binary_op_rhs_expectation(op, lhs_ty),
{
    match op {
        BinaryOp::LogicOp(..) => Ty::simple(TypeCtor::Bool),

        // Comparison is allowed between any two values of one scalar type.
        BinaryOp::CmpOp(..) => match lhs_ty {
            Ty::Apply(ApplicationTy { ctor }) => match ctor {
                TypeCtor::Int(_) | TypeCtor::Float(_) | TypeCtor::Bool => lhs_ty,
                _ => Ty::Unknown,
            },
            Ty::Infer(InferTy::IntVar(..)) | Ty::Infer(InferTy::FloatVar(..)) => lhs_ty,
            _ => Ty::Unknown,
        },

        BinaryOp::Assignment { op: None } => match lhs_ty {
            Ty::Apply(ApplicationTy { ctor }) => match ctor {
                TypeCtor::Int(_) | TypeCtor::Float(_) | TypeCtor::Bool | TypeCtor::Struct(_) => {
                    lhs_ty
                },
                _ => Ty::Unknown,
            },
            Ty::Infer(InferTy::IntVar(..)) | Ty::Infer(InferTy::FloatVar(..)) => lhs_ty,
            _ => Ty::Unknown,
        },
        BinaryOp::Assignment { op: Some(ArithOp::LeftShift) }
        | BinaryOp::Assignment { op: Some(ArithOp::RightShift) }
        | BinaryOp::Assignment { op: Some(ArithOp::BitAnd) }
        | BinaryOp::Assignment { op: Some(ArithOp::BitOr) }
        | BinaryOp::Assignment { op: Some(ArithOp::BitXor) }
        | BinaryOp::ArithOp(ArithOp::LeftShift)
        | BinaryOp::ArithOp(ArithOp::RightShift)
        | BinaryOp::ArithOp(ArithOp::BitAnd)
        | BinaryOp::ArithOp(ArithOp::BitOr)
        | BinaryOp::ArithOp(ArithOp::BitXor) => match lhs_ty {
            Ty::Apply(ApplicationTy { ctor }) => match ctor {
                TypeCtor::Bool | TypeCtor::Int(_) => lhs_ty,
                _ => Ty::Unknown,
            },
            Ty::Infer(InferTy::IntVar(..)) => lhs_ty,
            _ => Ty::Unknown,
        },

        // The remaining arithmetic operators take numbers only.
        BinaryOp::Assignment { op: Some(_) } | BinaryOp::ArithOp(_) => match lhs_ty {
            Ty::Apply(ApplicationTy { ctor }) => match ctor {
                TypeCtor::Int(_) | TypeCtor::Float(_) => lhs_ty,
                _ => Ty::Unknown,
            },
            Ty::Infer(InferTy::IntVar(..)) | Ty::Infer(InferTy::FloatVar(..)) => lhs_ty,
            _ => Ty::Unknown,
        },
    }
}

/// For a binary operation with the specified type on the right hand side of
/// the operation, return the return type of that operation.
pub fn binary_op_return_ty(op: BinaryOp, rhs_ty: Ty) -> (r: Ty)
    ensures
        r == spec_binary_op_return_ty(op, rhs_ty),
{
    match op {
        BinaryOp::ArithOp(_) => match rhs_ty {
            Ty::Apply(ApplicationTy { ctor }) => match ctor {
                TypeCtor::Int(_) | TypeCtor::Float(_) => rhs_ty,
                _ => Ty::Unknown,
            },
            Ty::Infer(InferTy::IntVar(..)) | Ty::Infer(InferTy::FloatVar(..)) => rhs_ty,
            _ => Ty::Unknown,
        },
        BinaryOp::CmpOp(_) | BinaryOp::LogicOp(_) => Ty::simple(TypeCtor::Bool),
        BinaryOp::Assignment { .. } => Ty::Empty,
    }
}

/// The compilation target.  The bitness rules below pick the same widths on
/// every target the code generator supports, so nothing further is read
/// from it.
#[derive(Clone, Copy, Debug, Eq, PartialEq, Structural)]
pub struct Target {
    pub pointer_width: u16,
}

impl FloatTy {
    /// Resolves an undefined float width to the default, `X64`.
    pub fn resolve(&self, _target: &Target) -> (r: FloatTy)
        ensures
            r.bitness == (if self.bitness is Undefined {
                FloatBitness::X64
            } else {
                self.bitness
            }),
    {
        let bitness = match self.bitness {
            FloatBitness::Undefined => FloatBitness::X64,
            bitness => bitness,
        };
        FloatTy { bitness }
    }
}

impl IntTy {
    /// Resolves an undefined or pointer-sized integer width to the default,
    /// `X64`; signedness is kept.
    pub fn resolve(&self, _target: &Target) -> (r: IntTy)
        ensures
            r.signedness == self.signedness,
            r.bitness == (if self.bitness is Undefined || self.bitness is Xsize {
                IntBitness::X64
            } else {
                self.bitness
            }),
    {
        let bitness = match self.bitness {
            IntBitness::Undefined => IntBitness::X64,
            IntBitness::Xsize => IntBitness::X64,
            bitness => bitness,
        };
        IntTy { bitness, signedness: self.signedness }
    }
}

} // verus!
