//! Typed failures produced during algorithmic conversion.

use vstd::prelude::*;
use crate::span::Span;

verus! {

/// Stable semantic category of an algorithmic-conversion failure.
#[derive(Clone, Copy, Debug, PartialEq, Eq, Structural)]
pub enum AlgoErrorKind {
    /// algorithmic conversion is not implemented
    Unsupported,
    /// type definition is undefined
    UndefinedType,
    /// inconsistent dimensions for multiple bindings
    InconsistentDimensions,
    /// invalid binding position in a non-invertible construct
    NonInvertibleBinding(Construct),
    /// empty iteration
    EmptyIteration,
    /// cannot determine the dimension of binding-only identifiers
    UndeterminedBindingDimension,
    /// pattern arity mismatch
    PatternArityMismatch { expected: usize, actual: usize },
    /// type argument arity mismatch
    TypeArgumentArityMismatch { expected: usize, actual: usize },
    /// a type operation failed
    Type,
    /// cannot anti-unify expressions
    AntiUnification,
    /// expression arity mismatch
    ExpressionArityMismatch { expected: usize, actual: usize },
    /// invalid relation input hint
    InputHint,
    /// expression contains unbound identifiers
    FreeBindings,
    /// bindings are not shallow
    BindingsNotShallow,
    /// shallow bindings generated repeated-binding side conditions
    ShallowSideConditions,
    /// cannot bind on both sides of an equality
    BindingOnBothEqualitySides,
    /// let premise is invalid before binding analysis
    UnexpectedLetPremise,
    /// iterated premise has binding variables before binding analysis
    UnexpectedIterationBindings,
    /// otherwise branch contains an impure premise
    ImpureElsePremises,
    /// table pattern type is not a defined variant
    NonVariantPatternType,
    /// table row contains an unsupported pattern expression
    InvalidTablePattern,
    /// table declaration contains a non-expression parameter
    InvalidTableParameter,
    /// a table row's patterns overlap those of the `earlier` row
    OverlappingTablePatterns { earlier: Span },
    /// table rows are missing patterns
    MissingTablePatterns,
}

/// The non-invertible construct under which a binder was found.
#[derive(Clone, Copy, Debug, PartialEq, Eq, Structural)]
pub enum Construct {
    UnaryOperator,
    BinaryOperator,
    ComparisonOperator,
    DowncastOperator,
    SubtypeCheckOperator,
    MatchCheckOperator,
    ConcatenationOperator,
    SetMembershipOperator,
    LengthOperator,
    DotOperator,
    IndexingOperator,
    SlicingOperator,
    UpdateOperator,
    CallOperator,
}

/// An algorithmic-conversion failure paired with its source span.
#[derive(Clone, Copy, Debug, PartialEq, Eq, Structural)]
pub struct AlgoError {
    pub kind: AlgoErrorKind,
    pub span: Span,
}

impl AlgoError {
    pub open spec fn new_spec(kind: AlgoErrorKind, span: Span) -> AlgoError {
        AlgoError { kind, span }
    }

    pub fn new(kind: AlgoErrorKind, span: Span) -> (e: Self)
        ensures
            e.kind == kind,
            e.span == span,
    {
        AlgoError { kind, span }
    }
}

} // verus!
