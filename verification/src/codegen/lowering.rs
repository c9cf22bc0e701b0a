//! The choice of machine-level instructions for the operators of the source
//! language, and of the optimization passes for each optimization level.
//!
//! The code generator asks these functions what to emit and then emits it with
//! the LLVM builder; the choices themselves are made and verified here.
use vstd::prelude::*;
use crate::ast::BinaryOperator;
use crate::codegen::OptimizationLevel;
use crate::error::{IoError, ErrorKind};

verus! {

/// A signed integer comparison.
#[derive(Debug, Clone, Copy, PartialEq, Eq, Structural)]
pub enum ComparePredicate {
    Equal,
    NotEqual,
    SignedLess,
    SignedLessOrEqual,
    SignedGreater,
    SignedGreaterOrEqual,
}

/// An integer instruction of two operands.
#[derive(Debug, Clone, Copy, PartialEq, Eq, Structural)]
pub enum IntOpcode {
    Add,
    Sub,
    Mul,
    SignedDiv,
    SignedRem,
    And,
    Or,
    Xor,
    ShiftLeft,
    /// A right shift that fills with zeros.
    LogicalShiftRight,
}

/// A floating-point instruction of two operands.
#[derive(Debug, Clone, Copy, PartialEq, Eq, Structural)]
pub enum FloatOpcode {
    Add,
    Sub,
    Mul,
    Div,
    Rem,
}

/// What to emit for a binary operation.
#[derive(Debug, Clone, Copy, PartialEq, Eq, Structural)]
pub enum Instruction {
    /// One integer instruction.
    Int(IntOpcode),
    /// An integer comparison whose one-bit result is zero-extended to 32 bits.
    CompareExtend(ComparePredicate),
    /// One floating-point instruction.
    Float(FloatOpcode),
    /// A call of the `llvm.pow` intrinsic on two floating-point operands.
    PowCall,
}

/// An instruction and the name given to its result.
#[derive(Debug, Clone, Copy)]
pub struct Lowering {
    pub instruction: Instruction,
    pub name: &'static str,
}

/// The operands' type, as far as the choice of instruction depends on it.
#[derive(Debug, Clone, Copy, PartialEq, Eq, Structural)]
pub enum OperandKind {
    Int,
    Float,
    Other,
}

/// The instruction for an operator in a statement, with the name of its result
/// (integer instructions, and the `llvm.pow` call for exponentiation); `None`
/// for the operators that have none.
pub open spec fn spec_statement_lowering(op: BinaryOperator) -> Option<(Instruction, Seq<char>)> {
    match op {
        BinaryOperator::Add => Some((Instruction::Int(IntOpcode::Add), "addtmp"@)),
        BinaryOperator::Subtract => Some((Instruction::Int(IntOpcode::Sub), "subtmp"@)),
        BinaryOperator::Multiply => Some((Instruction::Int(IntOpcode::Mul), "multmp"@)),
        BinaryOperator::Divide => Some((Instruction::Int(IntOpcode::SignedDiv), "divtmp"@)),
        BinaryOperator::Equal => Some((Instruction::CompareExtend(ComparePredicate::Equal), "cmptmp"@)),
        BinaryOperator::NotEqual => Some((Instruction::CompareExtend(ComparePredicate::NotEqual), "cmptmp"@)),
        BinaryOperator::LessThan => Some((Instruction::CompareExtend(ComparePredicate::SignedLess), "cmptmp"@)),
        BinaryOperator::LessThanEqual => Some(
            (Instruction::CompareExtend(ComparePredicate::SignedLessOrEqual), "cmptmp"@),
        ),
        BinaryOperator::GreaterThan => Some(
            (Instruction::CompareExtend(ComparePredicate::SignedGreater), "cmptmp"@),
        ),
        BinaryOperator::GreaterThanEqual => Some(
            (Instruction::CompareExtend(ComparePredicate::SignedGreaterOrEqual), "cmptmp"@),
        ),
        BinaryOperator::BitwiseAnd => Some((Instruction::Int(IntOpcode::And), "bitandtmp"@)),
        BinaryOperator::BitwiseOr => Some((Instruction::Int(IntOpcode::Or), "bitortmp"@)),
        BinaryOperator::BitwiseXor => Some((Instruction::Int(IntOpcode::Xor), "bitxortmp"@)),
        BinaryOperator::LeftShift => Some((Instruction::Int(IntOpcode::ShiftLeft), "shltmp"@)),
        BinaryOperator::RightShift => Some((Instruction::Int(IntOpcode::LogicalShiftRight), "shrtmp"@)),
        BinaryOperator::Power => Some((Instruction::PowCall, "powtmp"@)),
        _ => None,
    }
}

/// The name of the zero-extended result of a comparison.
pub open spec fn widened_name() -> Seq<char> {
    "booltmp"@
}

/// The instruction for an operator on operands of the given kind, with the name of
/// its result; `None` where the operands' kind has no instruction for it.
pub open spec fn spec_typed_lowering(op: BinaryOperator, kind: OperandKind) -> Option<(Instruction, Seq<char>)> {
    match kind {
        OperandKind::Int => match op {
            BinaryOperator::Add => Some((Instruction::Int(IntOpcode::Add), "addtmp"@)),
            BinaryOperator::Subtract => Some((Instruction::Int(IntOpcode::Sub), "subtmp"@)),
            BinaryOperator::Multiply => Some((Instruction::Int(IntOpcode::Mul), "multmp"@)),
            BinaryOperator::Divide => Some((Instruction::Int(IntOpcode::SignedDiv), "divtmp"@)),
            BinaryOperator::Modulo => Some((Instruction::Int(IntOpcode::SignedRem), "modtmp"@)),
            BinaryOperator::BitwiseAnd => Some((Instruction::Int(IntOpcode::And), "andtmp"@)),
            BinaryOperator::BitwiseOr => Some((Instruction::Int(IntOpcode::Or), "ortmp"@)),
            BinaryOperator::BitwiseXor => Some((Instruction::Int(IntOpcode::Xor), "xortmp"@)),
            BinaryOperator::LeftShift => Some((Instruction::Int(IntOpcode::ShiftLeft), "lshifttmp"@)),
            BinaryOperator::RightShift => Some((Instruction::Int(IntOpcode::LogicalShiftRight), "rshifttmp"@)),
            _ => None,
        },
        OperandKind::Float => match op {
            BinaryOperator::Add => Some((Instruction::Float(FloatOpcode::Add), "faddtmp"@)),
            BinaryOperator::Subtract => Some((Instruction::Float(FloatOpcode::Sub), "fsubtmp"@)),
            BinaryOperator::Multiply => Some((Instruction::Float(FloatOpcode::Mul), "fmultmp"@)),
            BinaryOperator::Divide => Some((Instruction::Float(FloatOpcode::Div), "fdivtmp"@)),
            BinaryOperator::Modulo => Some((Instruction::Float(FloatOpcode::Rem), "fmodtmp"@)),
            _ => None,
        },
        OperandKind::Other => None,
    }
}

/// The message when the operator has no instruction for the operands' kind.
pub open spec fn typed_lowering_error(kind: OperandKind) -> Seq<char> {
    match kind {
        OperandKind::Int => "Unsupported binary operator"@,
        OperandKind::Float => "Unsupported float operation"@,
        OperandKind::Other => "Invalid operand types for binary operator"@,
    }
}

fn lowering(instruction: Instruction, name: &'static str) -> (r: Lowering)
    ensures
        r.instruction == instruction,
        r.name@ == name@,
{
    Lowering { instruction, name }
}

/// The instruction for an operator of a statement: the arithmetic and bitwise
/// operators become one integer instruction, the comparisons a signed
/// comparison widened to 32 bits, and exponentiation a call of the `llvm.pow`
/// intrinsic on floating-point operands; the other operators are refused.
pub fn lower_binary_op(op: &BinaryOperator) -> (r: Result<Lowering, IoError>)
    ensures
        r is Ok <==> spec_statement_lowering(*op) is Some,
        r matches Ok(l) ==> spec_statement_lowering(*op) == Some((l.instruction, l.name@)),
        r matches Err(e) ==> e.spec_kind() == ErrorKind::RuntimeError
            && e.spec_message() == "Unsupported binary operator"@,
{
    match op {
        BinaryOperator::Add => Ok(lowering(Instruction::Int(IntOpcode::Add), "addtmp")),
        BinaryOperator::Subtract => Ok(lowering(Instruction::Int(IntOpcode::Sub), "subtmp")),
        BinaryOperator::Multiply => Ok(lowering(Instruction::Int(IntOpcode::Mul), "multmp")),
        BinaryOperator::Divide => Ok(lowering(Instruction::Int(IntOpcode::SignedDiv), "divtmp")),
        BinaryOperator::Equal => Ok(lowering(Instruction::CompareExtend(ComparePredicate::Equal), "cmptmp")),
        BinaryOperator::NotEqual => Ok(
            lowering(Instruction::CompareExtend(ComparePredicate::NotEqual), "cmptmp"),
        ),
        BinaryOperator::LessThan => Ok(
            lowering(Instruction::CompareExtend(ComparePredicate::SignedLess), "cmptmp"),
        ),
        BinaryOperator::LessThanEqual => Ok(
            lowering(Instruction::CompareExtend(ComparePredicate::SignedLessOrEqual), "cmptmp"),
        ),
        BinaryOperator::GreaterThan => Ok(
            lowering(Instruction::CompareExtend(ComparePredicate::SignedGreater), "cmptmp"),
        ),
        BinaryOperator::GreaterThanEqual => Ok(
            lowering(Instruction::CompareExtend(ComparePredicate::SignedGreaterOrEqual), "cmptmp"),
        ),
        BinaryOperator::BitwiseAnd => Ok(lowering(Instruction::Int(IntOpcode::And), "bitandtmp")),
        BinaryOperator::BitwiseOr => Ok(lowering(Instruction::Int(IntOpcode::Or), "bitortmp")),
        BinaryOperator::BitwiseXor => Ok(lowering(Instruction::Int(IntOpcode::Xor), "bitxortmp")),
        BinaryOperator::LeftShift => Ok(lowering(Instruction::Int(IntOpcode::ShiftLeft), "shltmp")),
        BinaryOperator::RightShift => Ok(lowering(Instruction::Int(IntOpcode::LogicalShiftRight), "shrtmp")),
        BinaryOperator::Power => Ok(lowering(Instruction::PowCall, "powtmp")),
        _ => Err(IoError::runtime_error("Unsupported binary operator")),
    }
}

/// The name of the zero-extended result of a comparison.
pub fn widened_result_name() -> (r: &'static str)
    ensures
        r@ == widened_name(),
{
    "booltmp"
}

/// The instruction for an operator on operands of the given kind: integer
/// operands take the integer instructions, floating-point operands the five
/// arithmetic ones; anything else is refused.
pub fn lower_typed_binary_op(op: &BinaryOperator, kind: OperandKind) -> (r: Result<Lowering, IoError>)
    ensures
        r is Ok <==> spec_typed_lowering(*op, kind) is Some,
        r matches Ok(l) ==> spec_typed_lowering(*op, kind) == Some((l.instruction, l.name@)),
        r matches Err(e) ==> e.spec_kind() == ErrorKind::RuntimeError
            && e.spec_message() == typed_lowering_error(kind),
{
    match kind {
        OperandKind::Int => match op {
            BinaryOperator::Add => Ok(lowering(Instruction::Int(IntOpcode::Add), "addtmp")),
            BinaryOperator::Subtract => Ok(lowering(Instruction::Int(IntOpcode::Sub), "subtmp")),
            BinaryOperator::Multiply => Ok(lowering(Instruction::Int(IntOpcode::Mul), "multmp")),
            BinaryOperator::Divide => Ok(lowering(Instruction::Int(IntOpcode::SignedDiv), "divtmp")),
            BinaryOperator::Modulo => Ok(lowering(Instruction::Int(IntOpcode::SignedRem), "modtmp")),
            BinaryOperator::BitwiseAnd => Ok(lowering(Instruction::Int(IntOpcode::And), "andtmp")),
            BinaryOperator::BitwiseOr => Ok(lowering(Instruction::Int(IntOpcode::Or), "ortmp")),
            BinaryOperator::BitwiseXor => Ok(lowering(Instruction::Int(IntOpcode::Xor), "xortmp")),
            BinaryOperator::LeftShift => Ok(lowering(Instruction::Int(IntOpcode::ShiftLeft), "lshifttmp")),
            BinaryOperator::RightShift => Ok(
                lowering(Instruction::Int(IntOpcode::LogicalShiftRight), "rshifttmp"),
            ),
            _ => Err(IoError::runtime_error("Unsupported binary operator")),
        },
        OperandKind::Float => match op {
            BinaryOperator::Add => Ok(lowering(Instruction::Float(FloatOpcode::Add), "faddtmp")),
            BinaryOperator::Subtract => Ok(lowering(Instruction::Float(FloatOpcode::Sub), "fsubtmp")),
            BinaryOperator::Multiply => Ok(lowering(Instruction::Float(FloatOpcode::Mul), "fmultmp")),
            BinaryOperator::Divide => Ok(lowering(Instruction::Float(FloatOpcode::Div), "fdivtmp")),
            BinaryOperator::Modulo => Ok(lowering(Instruction::Float(FloatOpcode::Rem), "fmodtmp")),
            _ => Err(IoError::runtime_error("Unsupported float operation")),
        },
        OperandKind::Other => Err(IoError::runtime_error("Invalid operand types for binary operator")),
    }
}

/// An optimization pass of LLVM's legacy pass manager.
#[derive(Debug, Clone, Copy, PartialEq, Eq, Structural)]
pub enum Pass {
    BasicAliasAnalysis,
    TypeBasedAliasAnalysis,
    InstructionCombining,
    AggressiveInstCombining,
    Reassociate,
    Gvn,
    NewGvn,
    CfgSimplification,
    PromoteMemoryToRegister,
    ConstantMerge,
    DeadStoreElimination,
    AggressiveDce,
    Sccp,
    LoopSimplify,
    Lcssa,
    LoopRotate,
    LoopUnroll,
    LoopVectorize,
    Licm,
    IndVarSimplify,
    MemcpyOptimize,
    FunctionInlining,
    GlobalOptimizer,
    Ipsccp,
    DeadArgElimination,
    AlwaysInline,
    PartialInlining,
    MemoryToRegister,
    JumpThreading,
    TailCallElimination,
    MergeFunctions,
    ArgumentPromotion,
    ConstantPropagation,
}

/// The passes that every optimizing level runs first.
pub open spec fn basic_passes() -> Seq<Pass> {
    seq![
        Pass::InstructionCombining,
        Pass::Reassociate,
        Pass::Gvn,
        Pass::CfgSimplification,
        Pass::BasicAliasAnalysis,
        Pass::PromoteMemoryToRegister,
    ]
}

/// The passes run at each level, in order; link-time optimization adds three
/// passes at the aggressive level only.
pub open spec fn spec_pass_plan(level: OptimizationLevel, lto: bool) -> Seq<Pass> {
    match level {
        OptimizationLevel::Disabled => seq![Pass::BasicAliasAnalysis, Pass::TypeBasedAliasAnalysis],
        OptimizationLevel::Less => basic_passes(),
        OptimizationLevel::Default => basic_passes() + seq![
            Pass::ConstantMerge,
            Pass::DeadStoreElimination,
            Pass::Sccp,
            Pass::LoopSimplify,
            Pass::Lcssa,
            Pass::LoopRotate,
            Pass::Licm,
            Pass::IndVarSimplify,
            Pass::MemcpyOptimize,
        ],
        OptimizationLevel::Aggressive => seq![
            Pass::InstructionCombining,
            Pass::AggressiveInstCombining,
            Pass::Reassociate,
            Pass::Gvn,
            Pass::NewGvn,
            Pass::CfgSimplification,
            Pass::BasicAliasAnalysis,
            Pass::PromoteMemoryToRegister,
            Pass::ConstantMerge,
            Pass::DeadStoreElimination,
            Pass::AggressiveDce,
            Pass::Sccp,
            Pass::LoopSimplify,
            Pass::Lcssa,
            Pass::LoopRotate,
            Pass::LoopUnroll,
            Pass::LoopVectorize,
            Pass::Licm,
            Pass::IndVarSimplify,
            Pass::FunctionInlining,
            Pass::GlobalOptimizer,
            Pass::Ipsccp,
            Pass::DeadArgElimination,
            Pass::AlwaysInline,
            Pass::PartialInlining,
            Pass::MemcpyOptimize,
            Pass::MemoryToRegister,
            Pass::JumpThreading,
            Pass::TailCallElimination,
        ] + (if lto {
            seq![Pass::MergeFunctions, Pass::ArgumentPromotion, Pass::ConstantPropagation]
        } else {
            Seq::empty()
        }),
    }
}

fn push_all(v: &mut Vec<Pass>, passes: &[Pass])
    ensures
        final(v)@ == old(v)@ + passes@,
{
    let mut i: usize = 0;
    while i < passes.len()
        invariant
            i <= passes@.len(),
            v@ == old(v)@ + passes@.subrange(0, i as int),
        decreases passes.len() - i,
    {
        v.push(passes[i]);
        i = i + 1;
        assert(v@ =~= old(v)@ + passes@.subrange(0, i as int));
    }
    assert(passes@.subrange(0, passes@.len() as int) =~= passes@);
}

/// The passes to run at the given level, in order.
pub fn pass_plan(level: OptimizationLevel, lto: bool) -> (r: Vec<Pass>)
    ensures
        r@ == spec_pass_plan(level, lto),
{
    let mut v: Vec<Pass> = Vec::new();
    match level {
        OptimizationLevel::Disabled => {
            push_all(&mut v, &[Pass::BasicAliasAnalysis, Pass::TypeBasedAliasAnalysis]);
        },
        OptimizationLevel::Less => {
            push_all(&mut v, &[
                Pass::InstructionCombining,
                Pass::Reassociate,
                Pass::Gvn,
                Pass::CfgSimplification,
                Pass::BasicAliasAnalysis,
                Pass::PromoteMemoryToRegister,
            ]);
        },
        OptimizationLevel::Default => {
            push_all(&mut v, &[
                Pass::InstructionCombining,
                Pass::Reassociate,
                Pass::Gvn,
                Pass::CfgSimplification,
                Pass::BasicAliasAnalysis,
                Pass::PromoteMemoryToRegister,
                Pass::ConstantMerge,
                Pass::DeadStoreElimination,
                Pass::Sccp,
                Pass::LoopSimplify,
                Pass::Lcssa,
                Pass::LoopRotate,
                Pass::Licm,
                Pass::IndVarSimplify,
                Pass::MemcpyOptimize,
            ]);
        },
        OptimizationLevel::Aggressive => {
            push_all(&mut v, &[
                Pass::InstructionCombining,
                Pass::AggressiveInstCombining,
                Pass::Reassociate,
                Pass::Gvn,
                Pass::NewGvn,
                Pass::CfgSimplification,
                Pass::BasicAliasAnalysis,
                Pass::PromoteMemoryToRegister,
                Pass::ConstantMerge,
                Pass::DeadStoreElimination,
                Pass::AggressiveDce,
                Pass::Sccp,
                Pass::LoopSimplify,
                Pass::Lcssa,
                Pass::LoopRotate,
                Pass::LoopUnroll,
                Pass::LoopVectorize,
                Pass::Licm,
                Pass::IndVarSimplify,
                Pass::FunctionInlining,
                Pass::GlobalOptimizer,
                Pass::Ipsccp,
                Pass::DeadArgElimination,
                Pass::AlwaysInline,
                Pass::PartialInlining,
                Pass::MemcpyOptimize,
                Pass::MemoryToRegister,
                Pass::JumpThreading,
                Pass::TailCallElimination,
            ]);
            if lto {
                push_all(&mut v, &[Pass::MergeFunctions, Pass::ArgumentPromotion, Pass::ConstantPropagation]);
            }
        },
    }
    proof {
        assert(v@ =~= spec_pass_plan(level, lto));
    }
    v
}

} // verus!
