//! Type and meta-variable definitions.

use vstd::prelude::*;
use crate::span::Span;
use crate::il::{Id, Typ, NotTyp, TypV, NotTypV, typ_view, typs_view, not_typ_view};

verus! {

/// The body of a defined type.
pub struct DefTyp {
    pub node: DefTypKind,
    pub span: Span,
}

/// Defined types: an alias, a record, or a variant of notation cases.
pub enum DefTypKind {
    Plain(Typ),
    Struct(Vec<(String, Typ)>),
    Variant(Vec<NotTyp>),
}

/// A type definition.
pub enum TypDef {
    Extern(Id),
    Defined { id: Id, tparams: Vec<Id>, def_typ: DefTyp },
}

/// A meta-variable declaration.
pub struct VarDef {
    pub id: Id,
    pub typ: Typ,
}

/// A definition of a specification.
pub struct Def {
    pub node: DefKind,
    pub span: Span,
}

/// Definitions; the ones not read by the environments are kept by name.
pub enum DefKind {
    Typ(TypDef),
    Var(VarDef),
    Other(Id),
}

/// What the type environment stores for a type name: an external type, a
/// defined type with its parameters, or a type parameter in scope.
pub enum TypeDef {
    Extern,
    Defined(Vec<Id>, Box<DefTyp>),
    Parameter,
}

/// Defined-type bodies without locations.
pub enum DefTypV {
    Plain(TypV),
    Struct(Seq<Seq<char>>, Seq<TypV>),
    Variant(Seq<NotTypV>),
}

/// Stored type definitions without locations.
pub enum TypeDefV {
    Extern,
    Defined(Seq<Seq<char>>, DefTypV),
    Parameter,
}

pub open spec fn def_typ_view(d: DefTyp) -> DefTypV {
    match d.node {
        DefTypKind::Plain(t) => DefTypV::Plain(typ_view(t)),
        DefTypKind::Struct(fs) => DefTypV::Struct(
            Seq::new(fs@.len(), |i: int| fs@[i].0@),
            Seq::new(fs@.len(), |i: int| typ_view(fs@[i].1)),
        ),
        DefTypKind::Variant(cs) => DefTypV::Variant(Seq::new(cs@.len(), |i: int| not_typ_view(cs@[i]))),
    }
}

impl View for TypeDef {
    type V = TypeDefV;

    open spec fn view(&self) -> TypeDefV {
        match self {
            TypeDef::Extern => TypeDefV::Extern,
            TypeDef::Defined(ps, d) => TypeDefV::Defined(Seq::new(ps@.len(), |i: int| ps@[i]@), def_typ_view(**d)),
            TypeDef::Parameter => TypeDefV::Parameter,
        }
    }
}

} // verus!
