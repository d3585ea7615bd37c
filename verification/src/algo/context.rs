//! State accumulated while analyzing bindings.
//!
//! `Context` carries the free identifiers of the construct under analysis, the
//! variables already bound (`venv`) with their dimensions, and the type and
//! meta-variable environments loaded from the specification. Premises bind
//! variables in order, so `venv` grows as a premise list is analyzed.

use vstd::prelude::*;
use vstd::string::StringExecFns;
use crate::span::Span;
use crate::il::{Id, Typ, TypKind, NumTyp, TypV, typ_view};
use crate::il_typ::{clone_id, clone_typ, clone_typs};
use crate::il_def::{Def, DefKind, TypDef, TypeDef, TypeDefV, DefTyp, DefTypKind};
use crate::ids::IdSet;
use crate::idmap::IdMap;
use crate::algo::dim::{Dim, DimV, VEnv, venv_entries};
use crate::algo::error::{AlgoError, AlgoErrorKind};

verus! {

/// Bindings and environments threaded through one binding analysis.
pub struct Context {
    /// Free identifiers of the construct under analysis.
    pub frees: IdSet,
    /// Variables bound so far, with their dimensions.
    pub venv: VEnv,
    /// Type definitions.
    pub tdenv: IdMap<TypeDef>,
    /// Meta-variable types.
    pub menv: IdMap<Typ>,
}

impl Context {
    /// The environments are well formed.
    pub open spec fn wf(&self) -> bool {
        self.venv.wf() && self.tdenv.wf() && self.menv.wf()
    }

    /// Creates a context with the primitive meta-variables bound.
    pub fn new() -> (c: Context)
        ensures
            c.wf(),
            c.frees@ == Set::<Seq<char>>::empty(),
            c.venv@ == Map::<Seq<char>, DimV>::empty(),
            c.tdenv@ == Map::<Seq<char>, TypeDefV>::empty(),
            c.menv@.dom() == set!["bool"@, "nat"@, "int"@, "text"@],
            c.menv@["bool"@] == TypV::Bool,
            c.menv@["nat"@] == TypV::Num(NumTyp::Nat),
            c.menv@["int"@] == TypV::Num(NumTyp::Int),
            c.menv@["text"@] == TypV::Text,
    {
        proof {
            reveal_strlit("bool");
            reveal_strlit("nat");
            reveal_strlit("int");
            reveal_strlit("text");
            assert("bool"@.len() == 4);
            assert("nat"@[0] == 'n');
            assert("int"@[0] == 'i');
            assert("text"@.len() == 4 && "text"@[0] == 't' && "bool"@[0] == 'b');
            assert("bool"@ != "nat"@ && "bool"@ != "int"@ && "bool"@ != "text"@);
            assert("nat"@ != "int"@ && "nat"@ != "text"@ && "int"@ != "text"@);
        }
        let mut menv: IdMap<Typ> = IdMap::new();
        menv.insert(prim_id("bool"), Typ { node: TypKind::Bool, span: Span::none() });
        menv.insert(prim_id("nat"), Typ { node: TypKind::Num(NumTyp::Nat), span: Span::none() });
        menv.insert(prim_id("int"), Typ { node: TypKind::Num(NumTyp::Int), span: Span::none() });
        menv.insert(prim_id("text"), Typ { node: TypKind::Text, span: Span::none() });
        let c = Context { frees: IdSet::new(), venv: VEnv::new(), tdenv: IdMap::new(), menv };
        assert(c.menv@.dom() =~= set!["bool"@, "nat"@, "int"@, "text"@]);
        c
    }

    pub fn add_free(&mut self, id: Id)
        ensures
            final(self).frees@ == old(self).frees@.insert(id@),
            final(self).venv == old(self).venv,
            final(self).tdenv == old(self).tdenv,
            final(self).menv == old(self).menv,
    {
        self.frees.insert(id);
    }

    pub fn add_frees(&mut self, ids: &IdSet)
        ensures
            final(self).frees@ == old(self).frees@.union(ids@),
            final(self).venv == old(self).venv,
            final(self).tdenv == old(self).tdenv,
            final(self).menv == old(self).menv,
    {
        self.frees.insert_all(ids);
    }

    /// Records newly bound variables, keeping the first dimension seen.
    pub fn add_bounds(&mut self, venv: &VEnv)
        requires
            old(self).wf(),
            venv.wf(),
        ensures
            final(self).wf(),
            final(self).venv@ == venv@.union_prefer_right(old(self).venv@),
            final(self).frees == old(self).frees,
            final(self).tdenv == old(self).tdenv,
            final(self).menv == old(self).menv,
    {
        let ghost v0 = self.venv@;
        for i in 0..venv.entries.len()
            invariant
                self.wf(),
                venv.wf(),
                self.frees == old(self).frees,
                self.tdenv == old(self).tdenv,
                self.menv == old(self).menv,
                self.venv@ == crate::assoc::assoc_map(venv_entries(venv.entries@.take(i as int))).union_prefer_right(v0),
        {
            proof {
                let es = venv_entries(venv.entries@);
                crate::assoc::lemma_assoc_dom(venv_entries(venv.entries@.take(i as int)));
                assert(venv_entries(venv.entries@.take(i + 1)) =~= venv_entries(venv.entries@.take(i as int)).push(
                    (venv.entries@[i as int].0@, venv.entries@[i as int].1@)));
                assert forall|j: int| 0 <= j < i implies venv_entries(venv.entries@.take(i as int))[j].0 != venv.entries@[i as int].0@ by {
                    assert(es[j].0 != es[i as int].0);
                }
                assert(!crate::assoc::assoc_map(venv_entries(venv.entries@.take(i as int))).contains_key(venv.entries@[i as int].0@));
                assert(venv_entries(venv.entries@.take(i + 1)).drop_last() =~= venv_entries(venv.entries@.take(i as int)));
                assert(venv_entries(venv.entries@.take(i + 1)).last() == (venv.entries@[i as int].0@, venv.entries@[i as int].1@));
                assert(crate::assoc::assoc_map(venv_entries(venv.entries@.take(i + 1))) == crate::assoc::assoc_map(venv_entries(venv.entries@.take(i as int))).insert(
                    venv.entries@[i as int].0@, venv.entries@[i as int].1@));
            }
            let id = &venv.entries[i].0;
            if !self.venv.contains_key(id) {
                self.venv.insert(clone_id(id), venv.entries[i].1.clone_dim());
            }
            proof {
                assert(self.venv@ =~= crate::assoc::assoc_map(venv_entries(venv.entries@.take(i + 1))).union_prefer_right(v0));
            }
        }
        proof {
            assert(venv.entries@.take(venv.entries@.len() as int) =~= venv.entries@);
        }
    }

    pub fn find_typdef_opt(&self, id: &Id) -> (r: Option<&TypeDef>)
        requires
            self.wf(),
        ensures
            match r {
                Some(d) => self.tdenv@.contains_key(id@) && self.tdenv@[id@] == d@,
                None => !self.tdenv@.contains_key(id@),
            },
    {
        self.tdenv.get(id)
    }

    /// The definition of a type; fails at the identifier when it is undefined.
    pub fn find_typdef(&self, id: &Id) -> (r: Result<&TypeDef, AlgoError>)
        requires
            self.wf(),
        ensures
            match r {
                Ok(d) => self.tdenv@.contains_key(id@) && self.tdenv@[id@] == d@,
                Err(e) => !self.tdenv@.contains_key(id@) && e == AlgoError::new_spec(AlgoErrorKind::UndefinedType, id.span),
            },
    {
        match self.find_typdef_opt(id) {
            Some(d) => Ok(d),
            None => Err(AlgoError::new(AlgoErrorKind::UndefinedType, id.span)),
        }
    }

    /// Loads a type or meta-variable definition into the environments.
    pub fn load_def(&mut self, def: &Def)
        requires
            old(self).wf(),
        ensures
            final(self).wf(),
            final(self).frees == old(self).frees,
            final(self).venv == old(self).venv,
            final(self).tdenv@ == load_tdenv(old(self).tdenv@, *def),
            final(self).menv@ == load_menv(old(self).menv@, *def),
    {
        match &def.node {
            DefKind::Typ(typ_def) => self.load_typ_def(typ_def),
            DefKind::Var(var_def) => {
                self.menv.insert(clone_id(&var_def.id), clone_typ(&var_def.typ));
            },
            DefKind::Other(_) => {},
        }
    }

    /// Stores an extern or defined type under its id.
    fn load_typ_def(&mut self, typ_def: &TypDef)
        requires
            old(self).wf(),
        ensures
            final(self).wf(),
            final(self).frees == old(self).frees,
            final(self).venv == old(self).venv,
            final(self).menv == old(self).menv,
            final(self).tdenv@ == old(self).tdenv@.insert(typ_def_id(*typ_def), typ_def_entry(*typ_def)),
    {
        match typ_def {
            TypDef::Extern(id) => {
                self.tdenv.insert(clone_id(id), TypeDef::Extern);
            },
            TypDef::Defined { id, tparams, def_typ } => {
                let mut ps: Vec<Id> = Vec::new();
                for i in 0..tparams.len()
                    invariant
                        ps@ == tparams@.take(i as int),
                {
                    ps.push(clone_id(&tparams[i]));
                    assert(ps@ =~= tparams@.take(i + 1));
                }
                assert(ps@ =~= tparams@);
                let d = TypeDef::Defined(ps, Box::new(clone_def_typ(def_typ)));
                self.tdenv.insert(clone_id(id), d);
            },
        }
    }

    /// Loads every type and meta-variable definition of the specification.
    pub fn load(&mut self, spec: &Vec<Def>)
        requires
            old(self).wf(),
        ensures
            final(self).wf(),
            final(self).frees == old(self).frees,
            final(self).venv == old(self).venv,
            final(self).tdenv@ == load_tdenv_all(old(self).tdenv@, spec@),
            final(self).menv@ == load_menv_all(old(self).menv@, spec@),
    {
        for i in 0..spec.len()
            invariant
                self.wf(),
                self.frees == old(self).frees,
                self.venv == old(self).venv,
                self.tdenv@ == load_tdenv_all(old(self).tdenv@, spec@.take(i as int)),
                self.menv@ == load_menv_all(old(self).menv@, spec@.take(i as int)),
        {
            proof {
                assert(spec@.take(i + 1).drop_last() =~= spec@.take(i as int));
            }
            self.load_def(&spec[i]);
        }
        assert(spec@.take(spec@.len() as int) =~= spec@);
    }
}

/// An identifier of a primitive meta-variable.
fn prim_id(name: &str) -> (id: Id)
    ensures
        id@ == name@,
{
    Id { node: String::from_str(name), span: Span::none() }
}

/// Copies the body of a defined type.
pub fn clone_def_typ(d: &DefTyp) -> (r: DefTyp)
    ensures
        crate::il_def::def_typ_view(r) == crate::il_def::def_typ_view(*d),
{
    let node = match &d.node {
        DefTypKind::Plain(t) => DefTypKind::Plain(clone_typ(t)),
        DefTypKind::Struct(fs) => {
            let mut v: Vec<(String, Typ)> = Vec::new();
            for i in 0..fs.len()
                invariant
                    v@.len() == i,
                    forall|j: int| 0 <= j < i ==> v@[j].0@ == fs@[j].0@,
                    forall|j: int| 0 <= j < i ==> typ_view(v@[j].1) == typ_view(fs@[j].1),
            {
                let a = fs[i].0.clone();
                let t = clone_typ(&fs[i].1);
                v.push((a, t));
            }
            let r = DefTypKind::Struct(v);
            assert(Seq::new(v@.len(), |i: int| v@[i].0@) =~= Seq::new(fs@.len(), |i: int| fs@[i].0@));
            assert(Seq::new(v@.len(), |i: int| typ_view(v@[i].1)) =~= Seq::new(fs@.len(), |i: int| typ_view(fs@[i].1)));
            r
        },
        DefTypKind::Variant(cs) => {
            let mut v: Vec<crate::il::NotTyp> = Vec::new();
            for i in 0..cs.len()
                invariant
                    v@.len() == i,
                    forall|j: int| 0 <= j < i ==> #[trigger] crate::il::not_typ_view(v@[j]) == crate::il::not_typ_view(cs@[j]),
            {
                v.push(crate::il_typ::clone_not_typ(&cs[i]));
            }
            assert(Seq::new(v@.len(), |i: int| crate::il::not_typ_view(v@[i])) =~= Seq::new(cs@.len(), |i: int| crate::il::not_typ_view(cs@[i])));
            DefTypKind::Variant(v)
        },
    };
    DefTyp { node, span: d.span }
}

/// The name a type definition is stored under.
pub open spec fn typ_def_id(d: TypDef) -> Seq<char> {
    match d {
        TypDef::Extern(id) => id@,
        TypDef::Defined { id, .. } => id@,
    }
}

/// What a type definition stores.
pub open spec fn typ_def_entry(d: TypDef) -> TypeDefV {
    match d {
        TypDef::Extern(_) => TypeDefV::Extern,
        TypDef::Defined { tparams, def_typ, .. } => TypeDefV::Defined(
            Seq::new(tparams@.len(), |i: int| tparams@[i]@),
            crate::il_def::def_typ_view(def_typ),
        ),
    }
}

/// The type environment after loading one definition.
pub open spec fn load_tdenv(t: Map<Seq<char>, TypeDefV>, d: Def) -> Map<Seq<char>, TypeDefV> {
    match d.node {
        DefKind::Typ(td) => t.insert(typ_def_id(td), typ_def_entry(td)),
        _ => t,
    }
}

/// The meta-variable environment after loading one definition.
pub open spec fn load_menv(m: Map<Seq<char>, TypV>, d: Def) -> Map<Seq<char>, TypV> {
    match d.node {
        DefKind::Var(v) => m.insert(v.id@, typ_view(v.typ)),
        _ => m,
    }
}

pub open spec fn load_tdenv_all(t: Map<Seq<char>, TypeDefV>, ds: Seq<Def>) -> Map<Seq<char>, TypeDefV>
    decreases ds.len(),
{
    if ds.len() == 0 {
        t
    } else {
        load_tdenv(load_tdenv_all(t, ds.drop_last()), ds.last())
    }
}

pub open spec fn load_menv_all(m: Map<Seq<char>, TypV>, ds: Seq<Def>) -> Map<Seq<char>, TypV>
    decreases ds.len(),
{
    if ds.len() == 0 {
        m
    } else {
        load_menv(load_menv_all(m, ds.drop_last()), ds.last())
    }
}

/// Recording the bindings of a premise never drops or changes a binding
/// made before: the bound variables only grow as premises are analyzed.
pub proof fn lemma_bounds_grow(before: Map<Seq<char>, DimV>, added: Map<Seq<char>, DimV>)
    ensures
        before.dom().subset_of(added.union_prefer_right(before).dom()),
        added.dom().subset_of(added.union_prefer_right(before).dom()),
        forall|k: Seq<char>| #[trigger] before.contains_key(k) ==> added.union_prefer_right(before)[k] == before[k],
{
}

} // verus!
