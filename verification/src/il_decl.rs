//! Declarations of relations and functions of the internal language, as the
//! elaboration environment stores them.

use vstd::prelude::*;
use crate::span::Span;
use crate::il::{Clause, Id, NotTyp, Param, Rule, TableRow, Typ};

verus! {

/// The positions of a relation's arguments that are its inputs.
pub struct InputHint {
    pub positions: Vec<usize>,
}

/// A group of rules of a relation, under the group's name.
pub struct RuleGroup {
    pub id: Id,
    pub rules: Vec<Rule>,
    pub span: Span,
}

/// The `otherwise` group of a relation: its name and its single rule.
pub struct ElseGroup {
    pub id: Id,
    pub rule: Rule,
    pub span: Span,
}

/// A relation declared outside the specification.
pub struct ExternRel {
    pub id: Id,
    pub not_typ: NotTyp,
    pub input_hint: InputHint,
}

/// A relation defined by rule groups and at most one `otherwise` group.
pub struct DefinedRel {
    pub id: Id,
    pub not_typ: NotTyp,
    pub input_hint: InputHint,
    pub rule_groups: Vec<RuleGroup>,
    pub else_group: Option<ElseGroup>,
}

/// Relation declarations.
pub enum RelDef {
    Extern(ExternRel),
    Defined(DefinedRel),
}

/// A function declared outside the specification.
pub struct ExternFunc {
    pub id: Id,
    pub tparams: Vec<Id>,
    pub params: Vec<Param>,
    pub typ: Typ,
}

/// A function provided by the interpreter.
pub struct BuiltinFunc {
    pub id: Id,
    pub tparams: Vec<Id>,
    pub params: Vec<Param>,
    pub typ: Typ,
}

/// A function defined by a decision table.
pub struct TableFunc {
    pub id: Id,
    pub params: Vec<Param>,
    pub typ: Typ,
    pub rows: Vec<TableRow>,
}

/// A function defined by clauses and at most one `otherwise` clause.
pub struct DefinedFunc {
    pub id: Id,
    pub tparams: Vec<Id>,
    pub params: Vec<Param>,
    pub typ: Typ,
    pub clauses: Vec<Clause>,
    pub else_clause: Option<Clause>,
}

/// Function declarations.
pub enum MetaFuncDef {
    Extern(ExternFunc),
    Builtin(BuiltinFunc),
    Table(TableFunc),
    Defined(DefinedFunc),
}

impl View for RelDef {
    type V = RelDef;

    open spec fn view(&self) -> RelDef {
        *self
    }
}

impl View for MetaFuncDef {
    type V = MetaFuncDef;

    open spec fn view(&self) -> MetaFuncDef {
        *self
    }
}

} // verus!
