//! The environments of elaboration: type definitions, meta-variable types,
//! relation and function declarations, and the free identifiers of the rule
//! or clause under elaboration.
//!
//! A declaration registers a definition without a body; later definitions
//! attach bodies to it, and population takes the completed definition back
//! out. Lookups come as `find_*_opt`, which returns an option, and `find_*`,
//! which reports a located error.

use vstd::prelude::*;
use vstd::string::StringExecFns;
use crate::span::Span;
use crate::ids::IdSet;
use crate::idmap::IdMap;
use crate::il::{Clause, Id, NotTyp, NumTyp, Param, TableRow, Typ, TypKind, TypV};
use crate::il_def::{TypeDef, TypeDefV};
use crate::il_decl::{BuiltinFunc, DefinedFunc, DefinedRel, ElseGroup, ExternFunc, ExternRel, InputHint, MetaFuncDef, RelDef, RuleGroup, TableFunc};
use crate::elaborate::report::{Report, Severity, is_diagnostic, primary_v, related_v};
use crate::elaborate::diagnostics;

verus! {

/// `r` is an error report under `code` with `message`, labelling `span`.
pub open spec fn reports_at(r: Report, code: Seq<char>, message: Seq<char>, span: Span) -> bool {
    is_diagnostic(r, "elab"@, Severity::Error, code, message, seq![primary_v(span)], Seq::empty())
}

/// `r` is an error report under `code` with `message`, labelling `span`
/// and relating `previous` with `note`.
pub open spec fn reports_related(r: Report, code: Seq<char>, message: Seq<char>, span: Span, previous: Span, note: Seq<char>) -> bool {
    is_diagnostic(r, "elab"@, Severity::Error, code, message, seq![primary_v(span), related_v(previous, note)], Seq::empty())
}

/// The defined relation named `n`, if `n` names one.
pub open spec fn defined_rel_of(renv: Map<Seq<char>, RelDef>, n: Seq<char>) -> Option<DefinedRel> {
    if renv.contains_key(n) {
        match renv[n] {
            RelDef::Defined(d) => Some(d),
            RelDef::Extern(_) => None,
        }
    } else {
        None
    }
}

/// The table function named `n`, if `n` names one.
pub open spec fn table_func_of(fenv: Map<Seq<char>, MetaFuncDef>, n: Seq<char>) -> Option<TableFunc> {
    if fenv.contains_key(n) {
        match fenv[n] {
            MetaFuncDef::Table(t) => Some(t),
            _ => None,
        }
    } else {
        None
    }
}

/// The function defined by clauses named `n`, if `n` names one.
pub open spec fn defined_func_of(fenv: Map<Seq<char>, MetaFuncDef>, n: Seq<char>) -> Option<DefinedFunc> {
    if fenv.contains_key(n) {
        match fenv[n] {
            MetaFuncDef::Defined(d) => Some(d),
            _ => None,
        }
    } else {
        None
    }
}

/// The notation type and input hint of a relation declaration.
pub open spec fn rel_signature(d: RelDef) -> (NotTyp, InputHint) {
    match d {
        RelDef::Extern(x) => (x.not_typ, x.input_hint),
        RelDef::Defined(x) => (x.not_typ, x.input_hint),
    }
}

/// The names of a defined relation's groups, in order: its rule groups,
/// then its `otherwise` group.
pub open spec fn group_ids(d: DefinedRel) -> Seq<Id> {
    let rs = Seq::new(d.rule_groups@.len(), |i: int| d.rule_groups@[i].id);
    match d.else_group {
        Some(g) => rs.push(g.id),
        None => rs,
    }
}

/// `r` is the defined relation `d` with the rule group `g` appended.
pub open spec fn grouped(d: DefinedRel, r: RelDef, g: RuleGroup) -> bool {
    &&& r matches RelDef::Defined(d2)
    &&& d2.rule_groups@ == d.rule_groups@.push(g)
    &&& d2.id == d.id && d2.not_typ == d.not_typ && d2.input_hint == d.input_hint && d2.else_group == d.else_group
}

/// `r` is the defined relation `d` with the `otherwise` group `g`.
pub open spec fn else_grouped(d: DefinedRel, r: RelDef, g: ElseGroup) -> bool {
    &&& r matches RelDef::Defined(d2)
    &&& d2.else_group == Some(g)
    &&& d2.id == d.id && d2.not_typ == d.not_typ && d2.input_hint == d.input_hint && d2.rule_groups == d.rule_groups
}

/// `f` is the table function `t` with the rows `rows`.
pub open spec fn with_rows(t: TableFunc, f: MetaFuncDef, rows: Seq<TableRow>) -> bool {
    &&& f matches MetaFuncDef::Table(t2)
    &&& t2.rows@ == rows
    &&& t2.id == t.id && t2.params == t.params && t2.typ == t.typ
}

/// `f` is the function `d` with the clause `c` appended.
pub open spec fn with_clause(d: DefinedFunc, f: MetaFuncDef, c: Clause) -> bool {
    &&& f matches MetaFuncDef::Defined(d2)
    &&& d2.clauses@ == d.clauses@.push(c)
    &&& d2.id == d.id && d2.tparams == d.tparams && d2.params == d.params && d2.typ == d.typ && d2.else_clause == d.else_clause
}

/// `f` is the function `d` with the `otherwise` clause `c`.
pub open spec fn with_else_clause(d: DefinedFunc, f: MetaFuncDef, c: Clause) -> bool {
    &&& f matches MetaFuncDef::Defined(d2)
    &&& d2.else_clause == Some(c)
    &&& d2.id == d.id && d2.tparams == d.tparams && d2.params == d.params && d2.typ == d.typ && d2.clauses == d.clauses
}

/// `s[i]` is the first identifier of `s` named `n`.
pub open spec fn first_named(s: Seq<Id>, n: Seq<char>, i: int) -> bool {
    0 <= i < s.len() && s[i]@ == n && forall|j: int| 0 <= j < i ==> (#[trigger] s[j])@ != n
}

/// The type parameters, parameters and return type of a function
/// declaration; a table function has no type parameters.
pub open spec fn func_signature(f: MetaFuncDef) -> (Seq<Id>, Seq<Param>, Typ) {
    match f {
        MetaFuncDef::Extern(x) => (x.tparams@, x.params@, x.typ),
        MetaFuncDef::Builtin(x) => (x.tparams@, x.params@, x.typ),
        MetaFuncDef::Table(x) => (Seq::empty(), x.params@, x.typ),
        MetaFuncDef::Defined(x) => (x.tparams@, x.params@, x.typ),
    }
}

/// A function declaration's identifier and signature, borrowed from the
/// environment.
pub struct FuncSignature<'a> {
    pub id: &'a Id,
    pub tparams: &'a [Id],
    pub params: &'a [Param],
    pub typ_ret: &'a Typ,
}

/// The bindings and fresh state of one elaboration operation.
pub struct Context {
    /// Free identifiers of the rule or clause under elaboration.
    pub frees: IdSet,
    /// Type definitions.
    pub tdenv: IdMap<TypeDef>,
    /// Meta-variable types.
    pub menv: IdMap<Typ>,
    /// Relation declarations.
    pub renv: IdMap<RelDef>,
    /// Function declarations.
    pub fenv: IdMap<MetaFuncDef>,
}

fn prim_id(name: &str) -> (id: Id)
    ensures
        id@ == name@,
{
    Id { node: String::from_str(name), span: Span::none() }
}

impl Context {
    /// Every environment binds each name at most once.
    pub open spec fn wf(&self) -> bool {
        self.tdenv.wf() && self.menv.wf() && self.renv.wf() && self.fenv.wf()
    }

    /// The context in which the primitive meta-variables `bool`, `nat`,
    /// `int` and `text` are bound to their types, and nothing else is bound.
    pub fn new() -> (c: Context)
        ensures
            c.wf(),
            c.frees@ == Set::<Seq<char>>::empty(),
            c.tdenv@ == Map::<Seq<char>, TypeDefV>::empty(),
            c.renv@ == Map::<Seq<char>, RelDef>::empty(),
            c.fenv@ == Map::<Seq<char>, MetaFuncDef>::empty(),
            c.menv@.dom() == set!["bool"@, "nat"@, "int"@, "text"@],
            c.menv@["bool"@] == TypV::Bool,
            c.menv@["nat"@] == TypV::Num(NumTyp::Nat),
            c.menv@["int"@] == TypV::Num(NumTyp::Int),
            c.menv@["text"@] == TypV::Text,
    {
        proof {
            reveal_strlit("bool");
            reveal_strlit("nat");
            reveal_strlit("int");
            reveal_strlit("text");
            assert("bool"@.len() == 4);
            assert("nat"@[0] == 'n');
            assert("int"@[0] == 'i');
            assert("text"@.len() == 4 && "text"@[0] == 't' && "bool"@[0] == 'b');
            assert("bool"@ != "nat"@ && "bool"@ != "int"@ && "bool"@ != "text"@);
            assert("nat"@ != "int"@ && "nat"@ != "text"@ && "int"@ != "text"@);
        }
        let mut menv: IdMap<Typ> = IdMap::new();
        menv.insert(prim_id("bool"), Typ { node: TypKind::Bool, span: Span::none() });
        menv.insert(prim_id("nat"), Typ { node: TypKind::Num(NumTyp::Nat), span: Span::none() });
        menv.insert(prim_id("int"), Typ { node: TypKind::Num(NumTyp::Int), span: Span::none() });
        menv.insert(prim_id("text"), Typ { node: TypKind::Text, span: Span::none() });
        let c = Context { frees: IdSet::new(), tdenv: IdMap::new(), menv, renv: IdMap::new(), fenv: IdMap::new() };
        assert(c.menv@.dom() =~= set!["bool"@, "nat"@, "int"@, "text"@]);
        c
    }

    // == Finders

    /// The definition of the type `id`, if any.
    pub fn find_typdef_opt(&self, id: &Id) -> (r: Option<&TypeDef>)
        requires
            self.wf(),
        ensures
            match r {
                Some(d) => self.tdenv@.contains_key(id@) && self.tdenv@[id@] == d@,
                None => !self.tdenv@.contains_key(id@),
            },
    {
        self.tdenv.get(id)
    }

    /// The definition of the type `id`, or a report of it as undefined.
    pub fn find_typdef(&self, id: &Id) -> (r: Result<&TypeDef, Report>)
        requires
            self.wf(),
        ensures
            r is Ok <==> self.tdenv@.contains_key(id@),
            r matches Ok(d) ==> self.tdenv@[id@] == d@,
            r matches Err(e) ==> reports_at(e, "elab/type-undefined"@, "type `"@ + id@ + "` is undefined"@, id.span),
    {
        match self.find_typdef_opt(id) {
            Some(d) => Ok(d),
            None => Err(diagnostics::type_undefined(id)),
        }
    }

    /// The type of the meta-variable `id`, if any.
    pub fn find_metavar_opt(&self, id: &Id) -> (r: Option<&Typ>)
        requires
            self.wf(),
        ensures
            match r {
                Some(t) => self.menv@.contains_key(id@) && self.menv@[id@] == t@,
                None => !self.menv@.contains_key(id@),
            },
    {
        self.menv.get(id)
    }

    /// The relation `id` when it is defined rather than extern.
    pub fn find_defined_rel_opt(&self, id: &Id) -> (r: Option<&DefinedRel>)
        requires
            self.wf(),
        ensures
            match r {
                Some(d) => defined_rel_of(self.renv@, id@) == Some(*d),
                None => defined_rel_of(self.renv@, id@) is None,
            },
    {
        match self.renv.get(id) {
            Some(RelDef::Defined(d)) => Some(d),
            _ => None,
        }
    }

    /// The defined relation `id`, to which rules attach: an extern relation
    /// is reported as taking no rules, relating its declaration; a missing
    /// one as undefined.
    pub fn find_defined_rel(&self, id: &Id) -> (r: Result<&DefinedRel, Report>)
        requires
            self.wf(),
        ensures
            r is Ok <==> defined_rel_of(self.renv@, id@) is Some,
            r matches Ok(d) ==> defined_rel_of(self.renv@, id@) == Some(*d),
            r matches Err(e) ==> if self.renv@.contains_key(id@) {
                self.renv@[id@] matches RelDef::Extern(x) && reports_related(e, "elab/relation-extern-rule-unsupported"@,
                    "extern relation `"@ + id@ + "` does not allow rules"@, id.span, x.id.span, "extern relation declared here"@)
            } else {
                reports_at(e, "elab/relation-rule-undefined"@, "relation `"@ + id@ + "` is undefined"@, id.span)
            },
    {
        match self.renv.get(id) {
            Some(RelDef::Defined(d)) => Ok(d),
            Some(RelDef::Extern(x)) => Err(diagnostics::relation_extern_rule_unsupported(id, x.id.span)),
            None => Err(diagnostics::relation_rule_undefined(id)),
        }
    }

    /// The notation type and input hint of the relation `id`, if declared.
    pub fn find_rel_signature_opt(&self, id: &Id) -> (r: Option<(&NotTyp, &InputHint)>)
        requires
            self.wf(),
        ensures
            match r {
                Some((n, h)) => self.renv@.contains_key(id@) && rel_signature(self.renv@[id@]) == (*n, *h),
                None => !self.renv@.contains_key(id@),
            },
    {
        match self.renv.get(id) {
            Some(RelDef::Extern(x)) => Some((&x.not_typ, &x.input_hint)),
            Some(RelDef::Defined(x)) => Some((&x.not_typ, &x.input_hint)),
            None => None,
        }
    }

    /// The signature of the relation `id`, or a report of it as undefined.
    pub fn find_rel_signature(&self, id: &Id) -> (r: Result<(&NotTyp, &InputHint), Report>)
        requires
            self.wf(),
        ensures
            r is Ok <==> self.renv@.contains_key(id@),
            r matches Ok((n, h)) ==> rel_signature(self.renv@[id@]) == (*n, *h),
            r matches Err(e) ==> reports_at(e, "elab/relation-undefined"@, "relation `"@ + id@ + "` is undefined"@, id.span),
    {
        match self.find_rel_signature_opt(id) {
            Some(s) => Ok(s),
            None => Err(diagnostics::relation_undefined(id)),
        }
    }

    /// The function `id` when it is a table function.
    pub fn find_table_func_opt(&self, id: &Id) -> (r: Option<&TableFunc>)
        requires
            self.wf(),
        ensures
            match r {
                Some(t) => table_func_of(self.fenv@, id@) == Some(*t),
                None => table_func_of(self.fenv@, id@) is None,
            },
    {
        match self.fenv.get(id) {
            Some(MetaFuncDef::Table(t)) => Some(t),
            _ => None,
        }
    }

    /// The table function `id`: a function of another kind is reported as
    /// not a table, relating its declaration; a missing one as undefined.
    pub fn find_table_func(&self, id: &Id) -> (r: Result<&TableFunc, Report>)
        requires
            self.wf(),
        ensures
            r is Ok <==> table_func_of(self.fenv@, id@) is Some,
            r matches Ok(t) ==> table_func_of(self.fenv@, id@) == Some(*t),
            r matches Err(e) ==> if self.fenv@.contains_key(id@) {
                reports_related(e, "elab/function-table-required"@, "non-table function `"@ + id@ + "` does not allow table rows"@,
                    id.span, self.fenv.key_span(id@), "function declared here"@)
            } else {
                reports_at(e, "elab/function-table-undefined"@, "table function `"@ + id@ + "` is undefined"@, id.span)
            },
    {
        match self.fenv.get_key_value(id) {
            Some((_, MetaFuncDef::Table(t))) => Ok(t),
            Some((k, _)) => Err(diagnostics::function_table_required(id, k.span)),
            None => Err(diagnostics::function_table_undefined(id)),
        }
    }

    /// The function `id` when it is defined by clauses.
    pub fn find_defined_func_opt(&self, id: &Id) -> (r: Option<&DefinedFunc>)
        requires
            self.wf(),
        ensures
            match r {
                Some(d) => defined_func_of(self.fenv@, id@) == Some(*d),
                None => defined_func_of(self.fenv@, id@) is None,
            },
    {
        match self.fenv.get(id) {
            Some(MetaFuncDef::Defined(d)) => Some(d),
            _ => None,
        }
    }

    /// The function `id` defined by clauses, or a report that its
    /// definition needs a declaration.
    pub fn find_defined_func(&self, id: &Id) -> (r: Result<&DefinedFunc, Report>)
        requires
            self.wf(),
        ensures
            r is Ok <==> defined_func_of(self.fenv@, id@) is Some,
            r matches Ok(d) ==> defined_func_of(self.fenv@, id@) == Some(*d),
            r matches Err(e) ==> reports_at(e, "elab/function-declaration-required"@,
                "a definition of function `"@ + id@ + "` requires a preceding matching `dec` declaration"@, id.span),
    {
        match self.find_defined_func_opt(id) {
            Some(d) => Ok(d),
            None => Err(diagnostics::function_declaration_required(id)),
        }
    }

    /// The declaration identifier and signature of the function `id`, of
    /// any kind, if declared.
    pub fn find_func_signature_opt(&self, id: &Id) -> (r: Option<FuncSignature<'_>>)
        requires
            self.wf(),
        ensures
            match r {
                Some(sig) => self.fenv@.contains_key(id@) && sig.id@ == id@ && sig.id.span == self.fenv.key_span(id@)
                    && func_signature(self.fenv@[id@]) == (sig.tparams@, sig.params@, *sig.typ_ret),
                None => !self.fenv@.contains_key(id@),
            },
    {
        match self.fenv.get_key_value(id) {
            Some((k, f)) => {
                let sig = match f {
                    MetaFuncDef::Extern(x) => FuncSignature { id: k, tparams: x.tparams.as_slice(), params: x.params.as_slice(), typ_ret: &x.typ },
                    MetaFuncDef::Builtin(x) => FuncSignature { id: k, tparams: x.tparams.as_slice(), params: x.params.as_slice(), typ_ret: &x.typ },
                    MetaFuncDef::Table(x) => FuncSignature { id: k, tparams: &[], params: x.params.as_slice(), typ_ret: &x.typ },
                    MetaFuncDef::Defined(x) => FuncSignature { id: k, tparams: x.tparams.as_slice(), params: x.params.as_slice(), typ_ret: &x.typ },
                };
                proof {
                    assert(sig.tparams@ == func_signature(*f).0);
                }
                Some(sig)
            },
            None => None,
        }
    }

    /// The signature of the function `id`, or a report of it as undefined.
    pub fn find_func_signature(&self, id: &Id) -> (r: Result<FuncSignature<'_>, Report>)
        requires
            self.wf(),
        ensures
            r is Ok <==> self.fenv@.contains_key(id@),
            r matches Ok(sig) ==> sig.id@ == id@ && sig.id.span == self.fenv.key_span(id@)
                && func_signature(self.fenv@[id@]) == (sig.tparams@, sig.params@, *sig.typ_ret),
            r matches Err(e) ==> reports_at(e, "elab/function-undefined"@, "function `"@ + id@ + "` is undefined"@, id.span),
    {
        match self.find_func_signature_opt(id) {
            Some(sig) => Ok(sig),
            None => Err(diagnostics::function_undefined(id)),
        }
    }

    // == Adders

    pub fn add_free(&mut self, id: Id)
        ensures
            final(self).frees@ == old(self).frees@.insert(id@),
            final(self).tdenv == old(self).tdenv,
            final(self).menv == old(self).menv,
            final(self).renv == old(self).renv,
            final(self).fenv == old(self).fenv,
    {
        self.frees.insert(id);
    }

    pub fn add_frees(&mut self, ids: &IdSet)
        ensures
            final(self).frees@ == old(self).frees@.union(ids@),
            final(self).tdenv == old(self).tdenv,
            final(self).menv == old(self).menv,
            final(self).renv == old(self).renv,
            final(self).fenv == old(self).fenv,
    {
        self.frees.insert_all(ids);
    }

    /// Forgets the free identifiers.
    pub fn reset_frees(&mut self)
        ensures
            final(self).frees@ == Set::<Seq<char>>::empty(),
            final(self).tdenv == old(self).tdenv,
            final(self).menv == old(self).menv,
            final(self).renv == old(self).renv,
            final(self).fenv == old(self).fenv,
    {
        self.frees = IdSet::new();
    }

    /// Binds the meta-variable `id` to `typ`; a name bound already is
    /// reported, relating its first declaration, and nothing changes.
    pub fn add_metavar(&mut self, id: Id, typ: Typ) -> (r: Result<(), Report>)
        requires
            old(self).wf(),
        ensures
            final(self).wf(),
            r is Ok <==> !old(self).menv@.contains_key(id@),
            r is Ok ==> final(self).menv@ == old(self).menv@.insert(id@, typ@),
            r matches Err(e) ==> *final(self) == *old(self) && reports_related(e, "elab/meta-variable-repeated"@,
                "meta-variable `"@ + id@ + "` was already defined"@, id.span, old(self).menv.key_span(id@), "first declaration"@),
            final(self).frees == old(self).frees,
            final(self).tdenv == old(self).tdenv,
            final(self).renv == old(self).renv,
            final(self).fenv == old(self).fenv,
    {
        match self.menv.get_key_value(&id) {
            Some((k, _)) => {
                let sp = k.span;
                return Err(diagnostics::meta_variable_repeated(&id, sp));
            },
            None => {},
        }
        self.menv.insert(id, typ);
        Ok(())
    }

    /// Declares the type `id` as `typdef`; a type declared already is
    /// reported, relating its first declaration, and nothing changes.
    pub fn add_typdef(&mut self, id: Id, typdef: TypeDef) -> (r: Result<(), Report>)
        requires
            old(self).wf(),
        ensures
            final(self).wf(),
            r is Ok <==> !old(self).tdenv@.contains_key(id@),
            r is Ok ==> final(self).tdenv@ == old(self).tdenv@.insert(id@, typdef@),
            r matches Err(e) ==> *final(self) == *old(self) && reports_related(e, "elab/type-declaration-repeated"@,
                "type `"@ + id@ + "` was already declared"@, id.span, old(self).tdenv.key_span(id@), "first declared here"@),
            final(self).frees == old(self).frees,
            final(self).menv == old(self).menv,
            final(self).renv == old(self).renv,
            final(self).fenv == old(self).fenv,
    {
        match self.tdenv.get_key_value(&id) {
            Some((k, _)) => {
                let sp = k.span;
                return Err(diagnostics::type_declaration_repeated(&id, sp));
            },
            None => {},
        }
        self.tdenv.insert(id, typdef);
        Ok(())
    }

    /// Binds a type parameter as a type and as a meta-variable of that type;
    /// a name bound already as either is reported, relating that binding,
    /// and nothing changes.
    pub fn add_tparam(&mut self, tparam: Id) -> (r: Result<(), Report>)
        requires
            old(self).wf(),
        ensures
            final(self).wf(),
            r is Ok <==> !old(self).tdenv@.contains_key(tparam@) && !old(self).menv@.contains_key(tparam@),
            r is Ok ==> final(self).tdenv@ == old(self).tdenv@.insert(tparam@, TypeDefV::Parameter)
                && final(self).menv@ == old(self).menv@.insert(tparam@, TypV::Var(tparam@, Seq::empty())),
            r matches Err(e) ==> *final(self) == *old(self) && reports_related(e, "elab/type-parameter-repeated"@,
                "type parameter `"@ + tparam@ + "` is repeated"@, tparam.span,
                if old(self).tdenv@.contains_key(tparam@) { old(self).tdenv.key_span(tparam@) } else { old(self).menv.key_span(tparam@) },
                "first declared here"@),
            final(self).frees == old(self).frees,
            final(self).renv == old(self).renv,
            final(self).fenv == old(self).fenv,
    {
        match self.tdenv.get_key_value(&tparam) {
            Some((k, _)) => {
                let sp = k.span;
                return Err(diagnostics::type_parameter_repeated(&tparam, sp));
            },
            None => {},
        }
        match self.menv.get_key_value(&tparam) {
            Some((k, _)) => {
                let sp = k.span;
                return Err(diagnostics::type_parameter_repeated(&tparam, sp));
            },
            None => {},
        }
        let typ = Typ { node: TypKind::Var(crate::il_typ::clone_id(&tparam), Vec::new()), span: tparam.span };
        proof {
            assert(typ@ == TypV::Var(tparam@, Seq::empty())) by {
                assert(typ@ == crate::il::typ_view(typ));
                assert(crate::il::typs_view(Seq::<Typ>::empty()) =~= Seq::<TypV>::empty());
            }
        }
        self.tdenv.insert(crate::il_typ::clone_id(&tparam), TypeDef::Parameter);
        self.menv.insert(tparam, typ);
        Ok(())
    }

    /// Declares the extern relation `rel`; a relation declared already is
    /// reported, relating its first declaration, and nothing changes.
    pub fn add_extern_rel(&mut self, rel: ExternRel) -> (r: Result<(), Report>)
        requires
            old(self).wf(),
        ensures
            final(self).wf(),
            r is Ok <==> !old(self).renv@.contains_key(rel.id@),
            r is Ok ==> final(self).renv@ == old(self).renv@.insert(rel.id@, RelDef::Extern(rel)),
            r matches Err(e) ==> *final(self) == *old(self) && reports_related(e, "elab/relation-extern-repeated"@,
                "extern relation `"@ + rel.id@ + "` was already defined"@, rel.id.span, old(self).renv.key_span(rel.id@), "first declaration"@),
            final(self).frees == old(self).frees,
            final(self).tdenv == old(self).tdenv,
            final(self).menv == old(self).menv,
            final(self).fenv == old(self).fenv,
    {
        let id = crate::il_typ::clone_id(&rel.id);
        match self.renv.get_key_value(&id) {
            Some((k, _)) => {
                let sp = k.span;
                return Err(diagnostics::relation_extern_repeated(&id, sp));
            },
            None => {},
        }
        self.renv.insert(id, RelDef::Extern(rel));
        Ok(())
    }

    /// Declares the defined relation `rel`; a relation declared already is
    /// reported, relating its first declaration, and nothing changes.
    pub fn add_defined_rel(&mut self, rel: DefinedRel) -> (r: Result<(), Report>)
        requires
            old(self).wf(),
        ensures
            final(self).wf(),
            r is Ok <==> !old(self).renv@.contains_key(rel.id@),
            r is Ok ==> final(self).renv@ == old(self).renv@.insert(rel.id@, RelDef::Defined(rel)),
            r matches Err(e) ==> *final(self) == *old(self) && reports_related(e, "elab/relation-repeated"@,
                "relation `"@ + rel.id@ + "` was already defined"@, rel.id.span, old(self).renv.key_span(rel.id@), "first declaration"@),
            final(self).frees == old(self).frees,
            final(self).tdenv == old(self).tdenv,
            final(self).menv == old(self).menv,
            final(self).fenv == old(self).fenv,
    {
        let id = crate::il_typ::clone_id(&rel.id);
        match self.renv.get_key_value(&id) {
            Some((k, _)) => {
                let sp = k.span;
                return Err(diagnostics::relation_repeated(&id, sp));
            },
            None => {},
        }
        self.renv.insert(id, RelDef::Defined(rel));
        Ok(())
    }

    /// Declares the extern function `func`; a function of any kind declared
    /// already is reported, relating its first declaration, and nothing
    /// changes.
    pub fn add_extern_func(&mut self, func: ExternFunc) -> (r: Result<(), Report>)
        requires
            old(self).wf(),
        ensures
            final(self).wf(),
            r is Ok <==> !old(self).fenv@.contains_key(func.id@),
            r is Ok ==> final(self).fenv@ == old(self).fenv@.insert(func.id@, MetaFuncDef::Extern(func)),
            r matches Err(e) ==> *final(self) == *old(self) && reports_related(e, "elab/function-extern-repeated"@,
                "extern function `"@ + func.id@ + "` was already defined"@, func.id.span, old(self).fenv.key_span(func.id@), "first declaration"@),
            final(self).frees == old(self).frees,
            final(self).tdenv == old(self).tdenv,
            final(self).menv == old(self).menv,
            final(self).renv == old(self).renv,
    {
        let id = crate::il_typ::clone_id(&func.id);
        match self.fenv.get_key_value(&id) {
            Some((k, _)) => {
                let sp = k.span;
                return Err(diagnostics::function_extern_repeated(&id, sp));
            },
            None => {},
        }
        self.fenv.insert(id, MetaFuncDef::Extern(func));
        Ok(())
    }

    /// Declares the builtin function `func`, as `add_extern_func` does.
    pub fn add_builtin_func(&mut self, func: BuiltinFunc) -> (r: Result<(), Report>)
        requires
            old(self).wf(),
        ensures
            final(self).wf(),
            r is Ok <==> !old(self).fenv@.contains_key(func.id@),
            r is Ok ==> final(self).fenv@ == old(self).fenv@.insert(func.id@, MetaFuncDef::Builtin(func)),
            r matches Err(e) ==> *final(self) == *old(self) && reports_related(e, "elab/function-builtin-repeated"@,
                "builtin function `"@ + func.id@ + "` was already defined"@, func.id.span, old(self).fenv.key_span(func.id@), "first declaration"@),
            final(self).frees == old(self).frees,
            final(self).tdenv == old(self).tdenv,
            final(self).menv == old(self).menv,
            final(self).renv == old(self).renv,
    {
        let id = crate::il_typ::clone_id(&func.id);
        match self.fenv.get_key_value(&id) {
            Some((k, _)) => {
                let sp = k.span;
                return Err(diagnostics::function_builtin_repeated(&id, sp));
            },
            None => {},
        }
        self.fenv.insert(id, MetaFuncDef::Builtin(func));
        Ok(())
    }

    /// Declares the table function `func`, as `add_extern_func` does.
    pub fn add_table_func(&mut self, func: TableFunc) -> (r: Result<(), Report>)
        requires
            old(self).wf(),
        ensures
            final(self).wf(),
            r is Ok <==> !old(self).fenv@.contains_key(func.id@),
            r is Ok ==> final(self).fenv@ == old(self).fenv@.insert(func.id@, MetaFuncDef::Table(func)),
            r matches Err(e) ==> *final(self) == *old(self) && reports_related(e, "elab/function-table-repeated"@,
                "table function `"@ + func.id@ + "` was already defined"@, func.id.span, old(self).fenv.key_span(func.id@), "first declaration"@),
            final(self).frees == old(self).frees,
            final(self).tdenv == old(self).tdenv,
            final(self).menv == old(self).menv,
            final(self).renv == old(self).renv,
    {
        let id = crate::il_typ::clone_id(&func.id);
        match self.fenv.get_key_value(&id) {
            Some((k, _)) => {
                let sp = k.span;
                return Err(diagnostics::function_table_repeated(&id, sp));
            },
            None => {},
        }
        self.fenv.insert(id, MetaFuncDef::Table(func));
        Ok(())
    }

    /// Declares the function `func` defined by clauses, as
    /// `add_extern_func` does.
    pub fn add_defined_func(&mut self, func: DefinedFunc) -> (r: Result<(), Report>)
        requires
            old(self).wf(),
        ensures
            final(self).wf(),
            r is Ok <==> !old(self).fenv@.contains_key(func.id@),
            r is Ok ==> final(self).fenv@ == old(self).fenv@.insert(func.id@, MetaFuncDef::Defined(func)),
            r matches Err(e) ==> *final(self) == *old(self) && reports_related(e, "elab/function-repeated"@,
                "function `"@ + func.id@ + "` was already defined"@, func.id.span, old(self).fenv.key_span(func.id@), "first declaration"@),
            final(self).frees == old(self).frees,
            final(self).tdenv == old(self).tdenv,
            final(self).menv == old(self).menv,
            final(self).renv == old(self).renv,
    {
        let id = crate::il_typ::clone_id(&func.id);
        match self.fenv.get_key_value(&id) {
            Some((k, _)) => {
                let sp = k.span;
                return Err(diagnostics::function_repeated(&id, sp));
            },
            None => {},
        }
        self.fenv.insert(id, MetaFuncDef::Defined(func));
        Ok(())
    }

    /// The first group of the defined relation `relid` named like `groupid`.
    fn find_rule_group_id(&self, relid: &Id, groupid: &Id) -> (r: Option<Id>)
        requires
            self.wf(),
            defined_rel_of(self.renv@, relid@) is Some,
        ensures
            match r {
                Some(k) => exists|i: int| first_named(group_ids(defined_rel_of(self.renv@, relid@)->Some_0), groupid@, i)
                    && group_ids(defined_rel_of(self.renv@, relid@)->Some_0)[i] == k,
                None => forall|i: int| 0 <= i < group_ids(defined_rel_of(self.renv@, relid@)->Some_0).len()
                    ==> (#[trigger] group_ids(defined_rel_of(self.renv@, relid@)->Some_0)[i])@ != groupid@,
            },
    {
        let d = match self.find_defined_rel_opt(relid) {
            Some(d) => d,
            None => return vstd::pervasive::unreached(),
        };
        let ghost ids = group_ids(*d);
        proof {
            assert(ids == group_ids(defined_rel_of(self.renv@, relid@)->Some_0));
        }
        for i in 0..d.rule_groups.len()
            invariant
                ids == group_ids(*d),
                ids == group_ids(defined_rel_of(self.renv@, relid@)->Some_0),
                forall|j: int| 0 <= j < i ==> (#[trigger] ids[j])@ != groupid@,
        {
            assert(ids[i as int] == d.rule_groups@[i as int].id);
            if d.rule_groups[i].id.node == groupid.node {
                proof {
                    assert(first_named(ids, groupid@, i as int));
                }
                return Some(crate::il_typ::clone_id(&d.rule_groups[i].id));
            }
        }
        match &d.else_group {
            Some(g) => {
                let n = d.rule_groups.len();
                assert(ids[n as int] == g.id);
                if g.id.node == groupid.node {
                    proof {
                        assert(first_named(ids, groupid@, n as int));
                    }
                    return Some(crate::il_typ::clone_id(&g.id));
                }
                None
            },
            None => None,
        }
    }

    /// Attaches a rule group to the defined relation `relid`, registered
    /// already; a group named like an earlier one is reported, relating it,
    /// and nothing changes.
    pub fn add_defined_rule_group(&mut self, relid: &Id, group: RuleGroup) -> (r: Result<(), Report>)
        requires
            old(self).wf(),
            defined_rel_of(old(self).renv@, relid@) is Some,
        ensures
            final(self).wf(),
            ({
                let d = defined_rel_of(old(self).renv@, relid@)->Some_0;
                &&& r is Ok <==> forall|i: int| 0 <= i < group_ids(d).len() ==> (#[trigger] group_ids(d)[i])@ != group.id@
                &&& r is Ok ==> final(self).renv@ == old(self).renv@.insert(relid@, final(self).renv@[relid@])
                    && grouped(d, final(self).renv@[relid@], group)
                &&& r matches Err(e) ==> *final(self) == *old(self) && exists|i: int| first_named(group_ids(d), group.id@, i)
                        && reports_related(e, "elab/relation-rule-group-repeated"@, "rule group `"@ + group.id@ + "` was already defined"@,
                            group.id.span, group_ids(d)[i].span, "first declaration"@)
            }),
            final(self).frees == old(self).frees,
            final(self).tdenv == old(self).tdenv,
            final(self).menv == old(self).menv,
            final(self).fenv == old(self).fenv,
    {
        match self.find_rule_group_id(relid, &group.id) {
            Some(k) => return Err(diagnostics::relation_rule_group_repeated(&group.id, k.span)),
            None => {},
        }
        match self.renv.remove_entry(relid) {
            Some((k, RelDef::Defined(mut d))) => {
                d.rule_groups.push(group);
                self.renv.insert(k, RelDef::Defined(d));
                Ok(())
            },
            _ => vstd::pervasive::unreached(),
        }
    }

    /// Attaches the single `otherwise` group to the defined relation
    /// `relid`, registered already: a group named like an earlier one is
    /// reported, relating it; a second `otherwise` group is reported at the
    /// group, relating the first; either way nothing changes.
    pub fn add_defined_else_group(&mut self, relid: &Id, group: ElseGroup) -> (r: Result<(), Report>)
        requires
            old(self).wf(),
            defined_rel_of(old(self).renv@, relid@) is Some,
        ensures
            final(self).wf(),
            ({
                let d = defined_rel_of(old(self).renv@, relid@)->Some_0;
                let fresh = forall|i: int| 0 <= i < group_ids(d).len() ==> (#[trigger] group_ids(d)[i])@ != group.id@;
                &&& r is Ok <==> fresh && d.else_group is None
                &&& r is Ok ==> final(self).renv@ == old(self).renv@.insert(relid@, final(self).renv@[relid@])
                    && else_grouped(d, final(self).renv@[relid@], group)
                &&& r matches Err(e) ==> *final(self) == *old(self) && if !fresh {
                        exists|i: int| first_named(group_ids(d), group.id@, i)
                            && reports_related(e, "elab/relation-rule-group-repeated"@, "rule group `"@ + group.id@ + "` was already defined"@,
                                group.id.span, group_ids(d)[i].span, "first declaration"@)
                    } else {
                        reports_related(e, "elab/relation-otherwise-repeated"@,
                            "an `otherwise` rule for relation `"@ + relid@ + "` was already defined"@,
                            group.span, d.else_group->Some_0.span, "first otherwise rule"@)
                    }
            }),
            final(self).frees == old(self).frees,
            final(self).tdenv == old(self).tdenv,
            final(self).menv == old(self).menv,
            final(self).fenv == old(self).fenv,
    {
        match self.find_rule_group_id(relid, &group.id) {
            Some(k) => return Err(diagnostics::relation_rule_group_repeated(&group.id, k.span)),
            None => {},
        }
        let previous = match self.find_defined_rel_opt(relid) {
            Some(d) => match &d.else_group {
                Some(g) => Some(g.span),
                None => None,
            },
            None => vstd::pervasive::unreached(),
        };
        match previous {
            Some(sp) => return Err(diagnostics::relation_otherwise_repeated(relid, group.span, sp)),
            None => {},
        }
        match self.renv.remove_entry(relid) {
            Some((k, RelDef::Defined(mut d))) => {
                d.else_group = Some(group);
                self.renv.insert(k, RelDef::Defined(d));
                Ok(())
            },
            _ => vstd::pervasive::unreached(),
        }
    }

    /// Stores the rows of the table function `id`, registered already, which
    /// must have none yet: otherwise the table is reported, relating its
    /// first row, and nothing changes.
    pub fn add_table_func_rows(&mut self, id: &Id, rows: Vec<TableRow>) -> (r: Result<(), Report>)
        requires
            old(self).wf(),
            table_func_of(old(self).fenv@, id@) is Some,
        ensures
            final(self).wf(),
            ({
                let t = table_func_of(old(self).fenv@, id@)->Some_0;
                &&& r is Ok <==> t.rows@.len() == 0
                &&& r is Ok ==> final(self).fenv@ == old(self).fenv@.insert(id@, final(self).fenv@[id@])
                    && with_rows(t, final(self).fenv@[id@], rows@)
                &&& r matches Err(e) ==> *final(self) == *old(self) && reports_related(e, "elab/table-row-repeated"@,
                        "table `"@ + id@ + "` was already defined"@, id.span, t.rows@[0].span, "first table definition"@)
            }),
            final(self).frees == old(self).frees,
            final(self).tdenv == old(self).tdenv,
            final(self).menv == old(self).menv,
            final(self).renv == old(self).renv,
    {
        let previous = match self.find_table_func_opt(id) {
            Some(t) => if t.rows.len() > 0 {
                Some(t.rows[0].span)
            } else {
                None
            },
            None => vstd::pervasive::unreached(),
        };
        match previous {
            Some(sp) => return Err(diagnostics::table_row_repeated(id, sp)),
            None => {},
        }
        match self.fenv.remove_entry(id) {
            Some((k, MetaFuncDef::Table(mut t))) => {
                t.rows = rows;
                self.fenv.insert(k, MetaFuncDef::Table(t));
                Ok(())
            },
            _ => vstd::pervasive::unreached(),
        }
    }

    /// Appends a clause to the function `id` defined by clauses, registered
    /// already.
    pub fn add_defined_func_clause(&mut self, id: &Id, clause: Clause)
        requires
            old(self).wf(),
            defined_func_of(old(self).fenv@, id@) is Some,
        ensures
            final(self).wf(),
            final(self).fenv@ == old(self).fenv@.insert(id@, final(self).fenv@[id@]),
            with_clause(defined_func_of(old(self).fenv@, id@)->Some_0, final(self).fenv@[id@], clause),
            final(self).frees == old(self).frees,
            final(self).tdenv == old(self).tdenv,
            final(self).menv == old(self).menv,
            final(self).renv == old(self).renv,
    {
        match self.fenv.remove_entry(id) {
            Some((k, MetaFuncDef::Defined(mut d))) => {
                d.clauses.push(clause);
                self.fenv.insert(k, MetaFuncDef::Defined(d));
            },
            _ => vstd::pervasive::unreached(),
        }
    }

    /// Sets the single `otherwise` clause of the function `id` defined by
    /// clauses, registered already: a second one is reported at the clause,
    /// relating the first, and nothing changes.
    pub fn add_defined_func_else_clause(&mut self, id: &Id, else_clause: Clause) -> (r: Result<(), Report>)
        requires
            old(self).wf(),
            defined_func_of(old(self).fenv@, id@) is Some,
        ensures
            final(self).wf(),
            ({
                let d = defined_func_of(old(self).fenv@, id@)->Some_0;
                &&& r is Ok <==> d.else_clause is None
                &&& r is Ok ==> final(self).fenv@ == old(self).fenv@.insert(id@, final(self).fenv@[id@])
                    && with_else_clause(d, final(self).fenv@[id@], else_clause)
                &&& r matches Err(e) ==> *final(self) == *old(self) && reports_related(e, "elab/function-otherwise-repeated"@,
                        "an `otherwise` clause for function `"@ + id@ + "` was already defined"@,
                        else_clause.span, d.else_clause->Some_0.span, "first otherwise clause"@)
            }),
            final(self).frees == old(self).frees,
            final(self).tdenv == old(self).tdenv,
            final(self).menv == old(self).menv,
            final(self).renv == old(self).renv,
    {
        let previous = match self.find_defined_func_opt(id) {
            Some(d) => match &d.else_clause {
                Some(c) => Some(c.span),
                None => None,
            },
            None => vstd::pervasive::unreached(),
        };
        match previous {
            Some(sp) => return Err(diagnostics::function_otherwise_repeated(id, else_clause.span, sp)),
            None => {},
        }
        match self.fenv.remove_entry(id) {
            Some((k, MetaFuncDef::Defined(mut d))) => {
                d.else_clause = Some(else_clause);
                self.fenv.insert(k, MetaFuncDef::Defined(d));
                Ok(())
            },
            _ => vstd::pervasive::unreached(),
        }
    }

    // == Definition extraction

    /// Removes the defined relation `id`, registered already, and returns it
    /// with its rule groups.
    pub fn take_defined_rel(&mut self, id: &Id) -> (r: DefinedRel)
        requires
            old(self).wf(),
            defined_rel_of(old(self).renv@, id@) is Some,
        ensures
            final(self).wf(),
            defined_rel_of(old(self).renv@, id@) == Some(r),
            final(self).renv@ == old(self).renv@.remove(id@),
            final(self).frees == old(self).frees,
            final(self).tdenv == old(self).tdenv,
            final(self).menv == old(self).menv,
            final(self).fenv == old(self).fenv,
    {
        match self.renv.remove_entry(id) {
            Some((_, RelDef::Defined(d))) => d,
            _ => vstd::pervasive::unreached(),
        }
    }

    /// Removes the table function `id`, registered already, and returns it
    /// with its rows.
    pub fn take_table_func(&mut self, id: &Id) -> (r: TableFunc)
        requires
            old(self).wf(),
            table_func_of(old(self).fenv@, id@) is Some,
        ensures
            final(self).wf(),
            table_func_of(old(self).fenv@, id@) == Some(r),
            final(self).fenv@ == old(self).fenv@.remove(id@),
            final(self).frees == old(self).frees,
            final(self).tdenv == old(self).tdenv,
            final(self).menv == old(self).menv,
            final(self).renv == old(self).renv,
    {
        match self.fenv.remove_entry(id) {
            Some((_, MetaFuncDef::Table(t))) => t,
            _ => vstd::pervasive::unreached(),
        }
    }

    /// Removes the function `id` defined by clauses, registered already, and
    /// returns it with its clauses.
    pub fn take_defined_func(&mut self, id: &Id) -> (r: DefinedFunc)
        requires
            old(self).wf(),
            defined_func_of(old(self).fenv@, id@) is Some,
        ensures
            final(self).wf(),
            defined_func_of(old(self).fenv@, id@) == Some(r),
            final(self).fenv@ == old(self).fenv@.remove(id@),
            final(self).frees == old(self).frees,
            final(self).tdenv == old(self).tdenv,
            final(self).menv == old(self).menv,
            final(self).renv == old(self).renv,
    {
        match self.fenv.remove_entry(id) {
            Some((_, MetaFuncDef::Defined(d))) => d,
            _ => vstd::pervasive::unreached(),
        }
    }

    // == Updaters

    /// Replaces the definition of the type `id`, declared already.
    pub fn update_typdef(&mut self, id: &Id, typdef: TypeDef)
        requires
            old(self).wf(),
            old(self).tdenv@.contains_key(id@),
        ensures
            final(self).wf(),
            final(self).tdenv@ == old(self).tdenv@.insert(id@, typdef@),
            final(self).frees == old(self).frees,
            final(self).menv == old(self).menv,
            final(self).renv == old(self).renv,
            final(self).fenv == old(self).fenv,
    {
        self.tdenv.insert(crate::il_typ::clone_id(id), typdef);
    }
}

} // verus!
