//! Code generation: the types of generated code, optimization levels, and the
//! lowering of operators to machine-level instructions.
use vstd::prelude::*;
use crate::error::IoError;

pub mod types;
pub mod lowering;

verus! {

/// How hard the optimizer works.
#[derive(Debug, Clone, Copy, PartialEq, Eq, Structural)]
pub enum OptimizationLevel {
    /// No optimization.
    Disabled,
    Less,
    Default,
    Aggressive,
}

/// The steps of a code generator.
pub trait CodeGenTrait {
    /// Prepares the generator before any module is generated.
    fn initialize(&mut self) -> Result<(), IoError>;

    /// Runs the optimization passes on what was generated.
    fn optimize(&mut self) -> Result<(), IoError>;

    /// Checks what was generated.
    fn verify(&self) -> Result<(), IoError>;
}

/// A generator of code.
pub trait CodeGenerator {
    /// Generates the code.
    fn generate_code(&mut self) -> Result<(), IoError>;
}

} // verus!
