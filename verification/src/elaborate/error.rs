//! Typed failures produced while elaborating surface-language syntax.

use vstd::prelude::*;
use vstd::string::StringExecFns;
use crate::span::Span;

verus! {

/// Namespace or definition family involved in a lookup failure.
#[derive(Clone, Copy, Debug, PartialEq, Eq, Structural)]
pub enum EntityKind {
    Type,
    MetaVariable,
    Relation,
    DefinedRelation,
    RuleGroup,
    Function,
    DefinedFunction,
    TableFunction,
    ElseGroup,
    ElseClause,
}

/// How an entity family is named in messages.
pub open spec fn entity_text(e: EntityKind) -> Seq<char> {
    match e {
        EntityKind::Type => "type"@,
        EntityKind::MetaVariable => "meta-variable"@,
        EntityKind::Relation => "relation"@,
        EntityKind::DefinedRelation => "defined relation"@,
        EntityKind::RuleGroup => "rule group"@,
        EntityKind::Function => "function"@,
        EntityKind::DefinedFunction => "defined function"@,
        EntityKind::TableFunction => "table function"@,
        EntityKind::ElseGroup => "otherwise group"@,
        EntityKind::ElseClause => "otherwise clause"@,
    }
}

impl EntityKind {
    /// The name of the entity family, as messages print it.
    pub fn text(&self) -> (s: String)
        ensures
            s@ == entity_text(*self),
    {
        match self {
            EntityKind::Type => String::from_str("type"),
            EntityKind::MetaVariable => String::from_str("meta-variable"),
            EntityKind::Relation => String::from_str("relation"),
            EntityKind::DefinedRelation => String::from_str("defined relation"),
            EntityKind::RuleGroup => String::from_str("rule group"),
            EntityKind::Function => String::from_str("function"),
            EntityKind::DefinedFunction => String::from_str("defined function"),
            EntityKind::TableFunction => String::from_str("table function"),
            EntityKind::ElseGroup => String::from_str("otherwise group"),
            EntityKind::ElseClause => String::from_str("otherwise clause"),
        }
    }
}

/// Structural type expected by a failed elaboration alternative.
#[derive(Clone, Copy, Debug, PartialEq, Eq, Structural)]
pub enum TypeShape {
    Text,
    Iteration,
    Tuple,
    List,
    Struct,
}

/// How a type shape is named in messages.
pub open spec fn shape_text(s: TypeShape) -> Seq<char> {
    match s {
        TypeShape::Text => "text"@,
        TypeShape::Iteration => "iteration"@,
        TypeShape::Tuple => "tuple"@,
        TypeShape::List => "list"@,
        TypeShape::Struct => "struct"@,
    }
}

impl TypeShape {
    /// The name of the shape, as messages print it.
    pub fn text(&self) -> (s: String)
        ensures
            s@ == shape_text(*self),
    {
        match self {
            TypeShape::Text => String::from_str("text"),
            TypeShape::Iteration => String::from_str("iteration"),
            TypeShape::Tuple => String::from_str("tuple"),
            TypeShape::List => String::from_str("list"),
            TypeShape::Struct => String::from_str("struct"),
        }
    }
}

/// Stable semantic category of an elaboration failure.
#[derive(Clone, Copy, Debug, PartialEq, Eq, Structural)]
pub enum ElabErrorKind {
    Undefined(EntityKind),
    Duplicate(EntityKind),
    /// A type operation failed.
    Type,
    CannotDestructure(TypeShape),
    CannotInfer,
    OperatorNotDefined,
    TypeMismatch,
    DimensionMismatch,
    InvalidIteration,
    MisplacedConstruct,
    ArityMismatch,
    InvalidIdentifier,
    AmbiguousVariant,
    InvalidTypeExtension,
    InvalidCast,
    InvalidArgument,
    InvalidPremise,
    InvalidRule,
    InvalidDefinition,
    InvalidInputHint,
    AlreadyPopulated,
    NoMatchingAlternative,
}

/// How a failure category is described in messages.
pub open spec fn kind_text(k: ElabErrorKind) -> Seq<char> {
    match k {
        ElabErrorKind::Undefined(e) => "undefined "@ + entity_text(e),
        ElabErrorKind::Duplicate(e) => "duplicate "@ + entity_text(e),
        ElabErrorKind::Type => "type operation failed"@,
        ElabErrorKind::CannotDestructure(s) => "cannot destruct type as "@ + shape_text(s),
        ElabErrorKind::CannotInfer => "cannot infer expression type"@,
        ElabErrorKind::OperatorNotDefined => "operator is not defined for the operand types"@,
        ElabErrorKind::TypeMismatch => "types do not match"@,
        ElabErrorKind::DimensionMismatch => "iteration dimensions do not match"@,
        ElabErrorKind::InvalidIteration => "invalid or empty iteration"@,
        ElabErrorKind::MisplacedConstruct => "construct is not valid at this elaboration stage"@,
        ElabErrorKind::ArityMismatch => "argument or parameter arity does not match"@,
        ElabErrorKind::InvalidIdentifier => "identifier is invalid in this role"@,
        ElabErrorKind::AmbiguousVariant => "variant cases are ambiguous"@,
        ElabErrorKind::InvalidTypeExtension => "type extension target is invalid"@,
        ElabErrorKind::InvalidCast => "expression cannot be cast to the expected type"@,
        ElabErrorKind::InvalidArgument => "argument does not match its parameter"@,
        ElabErrorKind::InvalidPremise => "premise is invalid"@,
        ElabErrorKind::InvalidRule => "rule is invalid"@,
        ElabErrorKind::InvalidDefinition => "definition is invalid"@,
        ElabErrorKind::InvalidInputHint => "input hint is invalid"@,
        ElabErrorKind::AlreadyPopulated => "definition was already populated"@,
        ElabErrorKind::NoMatchingAlternative => "no elaboration alternative matched"@,
    }
}

impl ElabErrorKind {
    /// The description of the category, as messages print it.
    pub fn text(&self) -> (s: String)
        ensures
            s@ == kind_text(*self),
    {
        match self {
            ElabErrorKind::Undefined(e) => {
                let mut s = String::from_str("undefined ");
                let t = e.text();
                s.append(t.as_str());
                s
            },
            ElabErrorKind::Duplicate(e) => {
                let mut s = String::from_str("duplicate ");
                let t = e.text();
                s.append(t.as_str());
                s
            },
            ElabErrorKind::Type => String::from_str("type operation failed"),
            ElabErrorKind::CannotDestructure(shape) => {
                let mut s = String::from_str("cannot destruct type as ");
                let t = shape.text();
                s.append(t.as_str());
                s
            },
            ElabErrorKind::CannotInfer => String::from_str("cannot infer expression type"),
            ElabErrorKind::OperatorNotDefined => String::from_str("operator is not defined for the operand types"),
            ElabErrorKind::TypeMismatch => String::from_str("types do not match"),
            ElabErrorKind::DimensionMismatch => String::from_str("iteration dimensions do not match"),
            ElabErrorKind::InvalidIteration => String::from_str("invalid or empty iteration"),
            ElabErrorKind::MisplacedConstruct => String::from_str("construct is not valid at this elaboration stage"),
            ElabErrorKind::ArityMismatch => String::from_str("argument or parameter arity does not match"),
            ElabErrorKind::InvalidIdentifier => String::from_str("identifier is invalid in this role"),
            ElabErrorKind::AmbiguousVariant => String::from_str("variant cases are ambiguous"),
            ElabErrorKind::InvalidTypeExtension => String::from_str("type extension target is invalid"),
            ElabErrorKind::InvalidCast => String::from_str("expression cannot be cast to the expected type"),
            ElabErrorKind::InvalidArgument => String::from_str("argument does not match its parameter"),
            ElabErrorKind::InvalidPremise => String::from_str("premise is invalid"),
            ElabErrorKind::InvalidRule => String::from_str("rule is invalid"),
            ElabErrorKind::InvalidDefinition => String::from_str("definition is invalid"),
            ElabErrorKind::InvalidInputHint => String::from_str("input hint is invalid"),
            ElabErrorKind::AlreadyPopulated => String::from_str("definition was already populated"),
            ElabErrorKind::NoMatchingAlternative => String::from_str("no elaboration alternative matched"),
        }
    }
}

/// An elaboration failure paired with the source span that caused it.
pub struct ElabError {
    pub kind: ElabErrorKind,
    pub span: Span,
    pub diagnostic: String,
}

impl ElabError {
    pub fn new(kind: ElabErrorKind, span: Span, diagnostic: String) -> (e: ElabError)
        ensures
            e.kind == kind,
            e.span == span,
            e.diagnostic == diagnostic,
    {
        ElabError { kind, span, diagnostic }
    }

    /// `entity `name` is undefined`.
    pub fn undefined(entity: EntityKind, name: &str, span: Span) -> (e: ElabError)
        ensures
            e.kind == ElabErrorKind::Undefined(entity),
            e.span == span,
            e.diagnostic@ == entity_text(entity) + " `"@ + name@ + "` is undefined"@,
    {
        let mut d = entity.text();
        d.append(" `");
        d.append(name);
        d.append("` is undefined");
        ElabError::new(ElabErrorKind::Undefined(entity), span, d)
    }

    /// `entity `name` was already defined`.
    pub fn duplicate(entity: EntityKind, name: &str, span: Span) -> (e: ElabError)
        ensures
            e.kind == ElabErrorKind::Duplicate(entity),
            e.span == span,
            e.diagnostic@ == entity_text(entity) + " `"@ + name@ + "` was already defined"@,
    {
        let mut d = entity.text();
        d.append(" `");
        d.append(name);
        d.append("` was already defined");
        ElabError::new(ElabErrorKind::Duplicate(entity), span, d)
    }
}

} // verus!
