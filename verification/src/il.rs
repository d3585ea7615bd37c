//! The internal language: typed expressions, types and binders, with their
//! syntactic views (the same trees without source locations).

use vstd::prelude::*;
use crate::span::Span;

verus! {

// == Identifiers

/// An identifier with the location of its occurrence.
pub struct Id {
    pub node: String,
    pub span: Span,
}

impl Clone for Id {
    fn clone(&self) -> (res: Self)
        ensures
            res.node@ == self.node@,
            res.span == self.span,
    {
        Id { node: self.node.clone(), span: self.span }
    }
}

// == Iterations and primitive operators

/// An iteration: optional (`?`) or list (`*`).
#[derive(Clone, Copy, Debug, PartialEq, Eq, Structural)]
pub enum Iter {
    Opt,
    List,
}

/// Numeric types.
#[derive(Clone, Copy, Debug, PartialEq, Eq, Structural)]
pub enum NumTyp {
    Nat,
    Int,
}

/// Unary operators.
#[derive(Clone, Copy, Debug, PartialEq, Eq, Structural)]
pub enum UnOp {
    Not,
    Plus,
    Minus,
}

/// Binary operators.
#[derive(Clone, Copy, Debug, PartialEq, Eq, Structural)]
pub enum BinOp {
    And,
    Or,
    Impl,
    Equiv,
    Add,
    Sub,
    Mul,
    Div,
    Mod,
    Pow,
}

/// Comparison operators.
#[derive(Clone, Copy, Debug, PartialEq, Eq, Structural)]
pub enum CmpOp {
    Eq,
    Ne,
    Lt,
    Gt,
    Le,
    Ge,
}

/// Operand type of an operator.
#[derive(Clone, Copy, Debug, PartialEq, Eq, Structural)]
pub enum OpTyp {
    Bool,
    Num(NumTyp),
}

/// Optional patterns.
#[derive(Clone, Copy, Debug, PartialEq, Eq, Structural)]
pub enum OptPattern {
    IsSome,
    IsNone,
}

/// List patterns: cons, a fixed length, or the empty list.
#[derive(Clone, Copy, Debug, PartialEq, Eq, Structural)]
pub enum ListPattern {
    Cons,
    Fixed(u64),
    Nil,
}

// == Types

/// A type with its location.
pub struct Typ {
    pub node: TypKind,
    pub span: Span,
}

/// Types of the internal language.
pub enum TypKind {
    Bool,
    Num(NumTyp),
    Text,
    /// A named type applied to type arguments.
    Var(Id, Vec<Typ>),
    Tuple(Vec<Typ>),
    Iter(Box<Typ>, Iter),
}

/// A mixfix operator: the atom groups around and between the holes.
pub struct Mixop {
    pub phrases: Vec<Vec<String>>,
}

/// A notation type: a mixfix operator with the types of its holes.
pub struct NotTyp {
    pub mixop: Mixop,
    pub typs: Vec<Typ>,
    pub span: Span,
}

/// A binder of a given type under the given iterations (innermost first).
pub struct Var {
    pub id: Id,
    pub typ: Typ,
    pub iters: Vec<Iter>,
}

// == Expressions

/// A typed expression: its node, the type it was given, and its location.
pub struct Exp {
    pub node: ExpKind,
    pub note: TypKind,
    pub span: Span,
}

/// A notation expression: a mixfix operator with its arguments.
pub struct NotExp {
    pub mixop: Mixop,
    pub args: Vec<Exp>,
}

/// A record field.
pub struct ExpField {
    pub atom: String,
    pub exp: Exp,
}

/// The iteration annotation of an iterated expression.
pub struct ExpIter {
    pub iter: Iter,
    pub vars: Vec<Var>,
}

/// Patterns tested by a match expression.
pub enum Pattern {
    Case(Mixop),
    Opt(OptPattern),
    List(ListPattern),
}

/// Expressions of the internal language.
pub enum ExpKind {
    Bool(bool),
    Num(i64),
    Text(String),
    Var(Id),
    Un(UnOp, OpTyp, Box<Exp>),
    Bin(BinOp, OpTyp, Box<Exp>, Box<Exp>),
    Cmp(CmpOp, OpTyp, Box<Exp>, Box<Exp>),
    UpCast(Typ, Box<Exp>),
    DownCast(Typ, Box<Exp>),
    Sub(Box<Exp>, Typ),
    Match(Box<Exp>, Pattern),
    Tuple(Vec<Exp>),
    Case(NotExp),
    Str(Vec<ExpField>),
    Opt(Option<Box<Exp>>),
    List(Vec<Exp>),
    Cons(Box<Exp>, Box<Exp>),
    Cat(Box<Exp>, Box<Exp>),
    Mem(Box<Exp>, Box<Exp>),
    Len(Box<Exp>),
    Dot(Box<Exp>, String),
    Idx(Box<Exp>, Box<Exp>),
    Slice(Box<Exp>, Box<Exp>, Box<Exp>),
    Upd(Box<Exp>, Path, Box<Exp>),
    Call(Id, Vec<Typ>, Vec<Arg>),
    Iter(Box<Exp>, ExpIter),
}

/// An update path.
pub struct Path {
    pub node: PathKind,
    pub span: Span,
}

/// Update paths.
pub enum PathKind {
    Root,
    Idx(Box<Path>, Box<Exp>),
    Slice(Box<Path>, Box<Exp>, Box<Exp>),
    Dot(Box<Path>, String),
}

/// A call argument: an expression or a function name.
pub struct Arg {
    pub node: ArgKind,
    pub span: Span,
}

/// Call arguments.
pub enum ArgKind {
    Exp(Box<Exp>),
    Def(Id),
}

/// A parameter of a declaration.
pub struct Param {
    pub node: ParamKind,
    pub span: Span,
}

/// Parameters: a value of a type, or a function passed by name.
pub enum ParamKind {
    Exp(Typ),
    Def(Id),
}

/// The iteration of an iterated premise: the variables it ranges over and
/// those it binds.
pub struct PremIter {
    pub iter: Iter,
    pub vars_bound: Vec<Var>,
    pub vars_bind: Vec<Var>,
}

/// A premise naming a relation: the relation and its notation expression.
pub struct RulePrem {
    pub id: Id,
    pub not_exp: NotExp,
}

/// A premise applying a relation: the relation, its notation expression,
/// and the argument positions that are its inputs.
pub struct RelPrem {
    pub id: Id,
    pub not_exp: NotExp,
    pub input_hint: crate::il_decl::InputHint,
}

/// A premise on an expression.
pub struct IfPrem {
    pub exp: Exp,
}

/// An iterated premise.
pub struct IterPrem {
    pub prem: Box<Prem>,
    pub prem_iter: PremIter,
}

/// Premises of the internal language.
pub enum PremKind {
    Rule(RelPrem),
    If(IfPrem),
    IfHold(RulePrem),
    IfNotHold(RulePrem),
    Iter(IterPrem),
    Debug(IfPrem),
}

/// A premise with its location.
pub struct Prem {
    pub node: PremKind,
    pub span: Span,
}

/// A rule: its name, the notation expression it concludes, and its premises.
pub struct Rule {
    pub id: Id,
    pub not_exp: NotExp,
    pub prems: Vec<Prem>,
    pub span: Span,
}

/// A function clause: its argument patterns, its premises and its result.
pub struct Clause {
    pub args: Vec<Arg>,
    pub premises: Vec<Prem>,
    pub expression: Exp,
    pub span: Span,
}

/// A row of a decision table: the argument patterns it matches and its result.
pub struct TableRow {
    pub args: Vec<Arg>,
    pub exp: Exp,
    pub span: Span,
}

// == Syntactic views

/// Types without locations.
pub enum TypV {
    Bool,
    Num(NumTyp),
    Text,
    Var(Seq<char>, Seq<TypV>),
    Tuple(Seq<TypV>),
    Iter(Box<TypV>, Iter),
}

/// Notation types without locations.
pub struct NotTypV {
    pub mixop: Seq<Seq<Seq<char>>>,
    pub typs: Seq<TypV>,
}

/// Binders without locations.
pub struct VarV {
    pub id: Seq<char>,
    pub typ: TypV,
    pub iters: Seq<Iter>,
}

/// Patterns without locations.
pub enum PatternV {
    Case(Seq<Seq<Seq<char>>>),
    Opt(OptPattern),
    List(ListPattern),
}

/// Expressions without locations.
pub struct ExpV {
    pub node: ExpKindV,
    pub note: TypV,
}

/// Expression nodes without locations.
pub enum ExpKindV {
    Bool(bool),
    Num(i64),
    Text(Seq<char>),
    Var(Seq<char>),
    Un(UnOp, OpTyp, Box<ExpV>),
    Bin(BinOp, OpTyp, Box<ExpV>, Box<ExpV>),
    Cmp(CmpOp, OpTyp, Box<ExpV>, Box<ExpV>),
    UpCast(TypV, Box<ExpV>),
    DownCast(TypV, Box<ExpV>),
    Sub(Box<ExpV>, TypV),
    Match(Box<ExpV>, PatternV),
    Tuple(Seq<ExpV>),
    Case(Seq<Seq<Seq<char>>>, Seq<ExpV>),
    Str(Seq<Seq<char>>, Seq<ExpV>),
    Opt(Option<Box<ExpV>>),
    List(Seq<ExpV>),
    Cons(Box<ExpV>, Box<ExpV>),
    Cat(Box<ExpV>, Box<ExpV>),
    Mem(Box<ExpV>, Box<ExpV>),
    Len(Box<ExpV>),
    Dot(Box<ExpV>, Seq<char>),
    Idx(Box<ExpV>, Box<ExpV>),
    Slice(Box<ExpV>, Box<ExpV>, Box<ExpV>),
    Upd(Box<ExpV>, PathV, Box<ExpV>),
    Call(Seq<char>, Seq<TypV>, Seq<ArgV>),
    Iter(Box<ExpV>, Iter, Seq<VarV>),
}

/// Paths without locations.
pub enum PathV {
    Root,
    Idx(Box<PathV>, Box<ExpV>),
    Slice(Box<PathV>, Box<ExpV>, Box<ExpV>),
    Dot(Box<PathV>, Seq<char>),
}

/// Arguments without locations.
pub enum ArgV {
    Exp(Box<ExpV>),
    Def(Seq<char>),
}

/// Premises without locations.
pub enum PremV {
    Rule(Seq<char>, Seq<Seq<Seq<char>>>, Seq<ExpV>),
    If(ExpV),
    IfHold(Seq<char>, Seq<Seq<Seq<char>>>, Seq<ExpV>),
    IfNotHold(Seq<char>, Seq<Seq<Seq<char>>>, Seq<ExpV>),
    Iter(Box<PremV>, Iter, Seq<VarV>, Seq<VarV>),
    Debug(ExpV),
}

pub open spec fn strs_view(s: Seq<String>) -> Seq<Seq<char>> {
    Seq::new(s.len(), |i: int| s[i]@)
}

pub open spec fn mixop_view(m: Mixop) -> Seq<Seq<Seq<char>>> {
    Seq::new(m.phrases@.len(), |i: int| strs_view(m.phrases@[i]@))
}

pub open spec fn typ_view(t: Typ) -> TypV
    decreases t,
{
    typ_kind_view(t.node)
}

pub open spec fn typ_kind_view(k: TypKind) -> TypV
    decreases k,
{
    match k {
        TypKind::Bool => TypV::Bool,
        TypKind::Num(n) => TypV::Num(n),
        TypKind::Text => TypV::Text,
        TypKind::Var(id, targs) => TypV::Var(id.node@, typs_view(targs@)),
        TypKind::Tuple(ts) => TypV::Tuple(typs_view(ts@)),
        TypKind::Iter(t, it) => TypV::Iter(Box::new(typ_view(*t)), it),
    }
}

pub open spec fn typs_view(ts: Seq<Typ>) -> Seq<TypV>
    decreases ts,
{
    if ts.len() == 0 {
        Seq::empty()
    } else {
        typs_view(ts.drop_last()).push(typ_view(ts.last()))
    }
}

pub open spec fn var_view(v: Var) -> VarV {
    VarV { id: v.id.node@, typ: typ_view(v.typ), iters: v.iters@ }
}

pub open spec fn vars_view(vs: Seq<Var>) -> Seq<VarV> {
    Seq::new(vs.len(), |i: int| var_view(vs[i]))
}

pub open spec fn pattern_view(p: Pattern) -> PatternV {
    match p {
        Pattern::Case(m) => PatternV::Case(mixop_view(m)),
        Pattern::Opt(o) => PatternV::Opt(o),
        Pattern::List(l) => PatternV::List(l),
    }
}

pub open spec fn not_typ_view(n: NotTyp) -> NotTypV {
    NotTypV { mixop: mixop_view(n.mixop), typs: typs_view(n.typs@) }
}

pub open spec fn exp_view(e: Exp) -> ExpV
    decreases e,
{
    ExpV { node: exp_kind_view(e.node), note: typ_kind_view(e.note) }
}

pub open spec fn exp_kind_view(k: ExpKind) -> ExpKindV
    decreases k,
{
    match k {
        ExpKind::Bool(b) => ExpKindV::Bool(b),
        ExpKind::Num(n) => ExpKindV::Num(n),
        ExpKind::Text(t) => ExpKindV::Text(t@),
        ExpKind::Var(id) => ExpKindV::Var(id.node@),
        ExpKind::Un(op, ot, e) => ExpKindV::Un(op, ot, Box::new(exp_view(*e))),
        ExpKind::Bin(op, ot, l, r) => ExpKindV::Bin(op, ot, Box::new(exp_view(*l)), Box::new(exp_view(*r))),
        ExpKind::Cmp(op, ot, l, r) => ExpKindV::Cmp(op, ot, Box::new(exp_view(*l)), Box::new(exp_view(*r))),
        ExpKind::UpCast(t, e) => ExpKindV::UpCast(typ_view(t), Box::new(exp_view(*e))),
        ExpKind::DownCast(t, e) => ExpKindV::DownCast(typ_view(t), Box::new(exp_view(*e))),
        ExpKind::Sub(e, t) => ExpKindV::Sub(Box::new(exp_view(*e)), typ_view(t)),
        ExpKind::Match(e, p) => ExpKindV::Match(Box::new(exp_view(*e)), pattern_view(p)),
        ExpKind::Tuple(es) => ExpKindV::Tuple(exps_view(es@)),
        ExpKind::Case(n) => ExpKindV::Case(mixop_view(n.mixop), exps_view(n.args@)),
        ExpKind::Str(fs) => ExpKindV::Str(fields_atoms(fs@), fields_view(fs@)),
        ExpKind::Opt(o) => ExpKindV::Opt(
            match o {
                Some(e) => Some(Box::new(exp_view(*e))),
                None => None,
            },
        ),
        ExpKind::List(es) => ExpKindV::List(exps_view(es@)),
        ExpKind::Cons(l, r) => ExpKindV::Cons(Box::new(exp_view(*l)), Box::new(exp_view(*r))),
        ExpKind::Cat(l, r) => ExpKindV::Cat(Box::new(exp_view(*l)), Box::new(exp_view(*r))),
        ExpKind::Mem(l, r) => ExpKindV::Mem(Box::new(exp_view(*l)), Box::new(exp_view(*r))),
        ExpKind::Len(e) => ExpKindV::Len(Box::new(exp_view(*e))),
        ExpKind::Dot(e, a) => ExpKindV::Dot(Box::new(exp_view(*e)), a@),
        ExpKind::Idx(l, r) => ExpKindV::Idx(Box::new(exp_view(*l)), Box::new(exp_view(*r))),
        ExpKind::Slice(b, l, h) => ExpKindV::Slice(
            Box::new(exp_view(*b)),
            Box::new(exp_view(*l)),
            Box::new(exp_view(*h)),
        ),
        ExpKind::Upd(b, p, f) => ExpKindV::Upd(
            Box::new(exp_view(*b)),
            path_view(p),
            Box::new(exp_view(*f)),
        ),
        ExpKind::Call(id, targs, args) => ExpKindV::Call(id.node@, typs_view(targs@), args_view(args@)),
        ExpKind::Iter(e, it) => ExpKindV::Iter(Box::new(exp_view(*e)), it.iter, vars_view(it.vars@)),
    }
}

pub open spec fn exps_view(es: Seq<Exp>) -> Seq<ExpV>
    decreases es,
{
    if es.len() == 0 {
        Seq::empty()
    } else {
        exps_view(es.drop_last()).push(exp_view(es.last()))
    }
}

pub open spec fn fields_atoms(fs: Seq<ExpField>) -> Seq<Seq<char>> {
    Seq::new(fs.len(), |i: int| fs[i].atom@)
}

pub open spec fn fields_view(fs: Seq<ExpField>) -> Seq<ExpV>
    decreases fs,
{
    if fs.len() == 0 {
        Seq::empty()
    } else {
        fields_view(fs.drop_last()).push(exp_view(fs.last().exp))
    }
}

pub open spec fn path_view(p: Path) -> PathV
    decreases p,
{
    match p.node {
        PathKind::Root => PathV::Root,
        PathKind::Idx(q, e) => PathV::Idx(Box::new(path_view(*q)), Box::new(exp_view(*e))),
        PathKind::Slice(q, l, h) => PathV::Slice(
            Box::new(path_view(*q)),
            Box::new(exp_view(*l)),
            Box::new(exp_view(*h)),
        ),
        PathKind::Dot(q, a) => PathV::Dot(Box::new(path_view(*q)), a@),
    }
}

pub open spec fn arg_view(a: Arg) -> ArgV
    decreases a,
{
    match a.node {
        ArgKind::Exp(e) => ArgV::Exp(Box::new(exp_view(*e))),
        ArgKind::Def(id) => ArgV::Def(id.node@),
    }
}

pub open spec fn args_view(args: Seq<Arg>) -> Seq<ArgV>
    decreases args,
{
    if args.len() == 0 {
        Seq::empty()
    } else {
        args_view(args.drop_last()).push(arg_view(args.last()))
    }
}

pub open spec fn prem_view(p: Prem) -> PremV
    decreases p,
{
    match p.node {
        PremKind::Rule(r) => PremV::Rule(r.id@, mixop_view(r.not_exp.mixop), exps_view(r.not_exp.args@)),
        PremKind::If(i) => PremV::If(exp_view(i.exp)),
        PremKind::IfHold(r) => PremV::IfHold(r.id@, mixop_view(r.not_exp.mixop), exps_view(r.not_exp.args@)),
        PremKind::IfNotHold(r) => PremV::IfNotHold(r.id@, mixop_view(r.not_exp.mixop), exps_view(r.not_exp.args@)),
        PremKind::Iter(ip) => PremV::Iter(
            Box::new(prem_view(*ip.prem)),
            ip.prem_iter.iter,
            vars_view(ip.prem_iter.vars_bound@),
            vars_view(ip.prem_iter.vars_bind@),
        ),
        PremKind::Debug(i) => PremV::Debug(exp_view(i.exp)),
    }
}

pub open spec fn prems_view(ps: Seq<Prem>) -> Seq<PremV>
    decreases ps,
{
    if ps.len() == 0 {
        Seq::empty()
    } else {
        prems_view(ps.drop_last()).push(prem_view(ps.last()))
    }
}
} // verus!
