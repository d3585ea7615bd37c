use p4spec::elaborate::context::Context;
use p4spec::elaborate::report::{Report, ReportKind};
use p4spec::il::{Id, Mixop, NotTyp, Typ, TypKind};
use p4spec::il_def::TypeDef;
use p4spec::il_decl::{BuiltinFunc, DefinedRel, ElseGroup, ExternFunc, ExternRel, InputHint, RuleGroup, TableFunc};
use p4spec::il::Rule;
use p4spec::span::Span;

fn at(lo: u64) -> Span {
    Span { lo, hi: lo + 1 }
}

fn id(name: &str, lo: u64) -> Id {
    Id { node: name.to_string(), span: at(lo) }
}

fn code(r: &Report) -> String {
    match &r.kind {
        ReportKind::Cause(d) => d.code.clone().unwrap(),
        _ => panic!("not a cause"),
    }
}

fn message(r: &Report) -> String {
    match &r.kind {
        ReportKind::Cause(d) => d.message.clone(),
        _ => panic!("not a cause"),
    }
}

fn not_typ() -> NotTyp {
    NotTyp { mixop: Mixop { phrases: vec![vec!["R".to_string()]] }, typs: vec![], span: at(0) }
}

fn defined_rel(name: &str, lo: u64) -> DefinedRel {
    DefinedRel { id: id(name, lo), not_typ: not_typ(), input_hint: InputHint { positions: vec![] }, rule_groups: vec![], else_group: None }
}

fn rule(lo: u64) -> Rule {
    Rule { id: id("r", lo), not_exp: p4spec::il::NotExp { mixop: Mixop { phrases: vec![] }, args: vec![] }, prems: vec![], span: at(lo) }
}

#[test]
fn a_new_context_binds_the_primitive_meta_variables() {
    let ctx = Context::new();
    assert!(matches!(ctx.find_metavar_opt(&id("int", 1)).unwrap().node, TypKind::Num(_)));
    assert!(ctx.find_metavar_opt(&id("bool", 1)).is_some());
    assert!(ctx.find_metavar_opt(&id("float", 1)).is_none());
    let e = ctx.find_typdef(&id("t", 4)).err().unwrap();
    assert_eq!(code(&e), "elab/type-undefined");
    assert_eq!(message(&e), "type `t` is undefined");
}

#[test]
fn a_repeated_type_declaration_is_reported() {
    let mut ctx = Context::new();
    assert!(ctx.add_typdef(id("t", 1), TypeDef::Extern).is_ok());
    let e = ctx.add_typdef(id("t", 5), TypeDef::Extern).err().unwrap();
    assert_eq!(code(&e), "elab/type-declaration-repeated");
    assert!(ctx.find_typdef(&id("t", 9)).is_ok());
}

#[test]
fn a_type_parameter_is_a_type_and_a_meta_variable() {
    let mut ctx = Context::new();
    assert!(ctx.add_tparam(id("a", 1)).is_ok());
    assert!(matches!(ctx.find_typdef_opt(&id("a", 2)), Some(TypeDef::Parameter)));
    assert!(matches!(&ctx.find_metavar_opt(&id("a", 2)).unwrap().node, TypKind::Var(v, args) if v.node == "a" && args.is_empty()));
    let e = ctx.add_tparam(id("int", 3)).err().unwrap();
    assert_eq!(code(&e), "elab/type-parameter-repeated");
}

#[test]
fn rules_attach_only_to_defined_relations() {
    let mut ctx = Context::new();
    assert!(ctx.add_extern_rel(ExternRel { id: id("E", 1), not_typ: not_typ(), input_hint: InputHint { positions: vec![] } }).is_ok());
    assert!(ctx.add_defined_rel(defined_rel("D", 2)).is_ok());
    let e = ctx.find_defined_rel(&id("E", 7)).err().unwrap();
    assert_eq!(code(&e), "elab/relation-extern-rule-unsupported");
    let e = ctx.find_defined_rel(&id("X", 8)).err().unwrap();
    assert_eq!(code(&e), "elab/relation-rule-undefined");
    assert!(ctx.find_defined_rel(&id("D", 9)).is_ok());
    assert!(ctx.find_rel_signature(&id("E", 9)).is_ok());
    let e = ctx.add_defined_rel(defined_rel("E", 10)).err().unwrap();
    assert_eq!(code(&e), "elab/relation-repeated");
}

#[test]
fn rule_groups_and_the_otherwise_group_are_attached_once() {
    let mut ctx = Context::new();
    assert!(ctx.add_defined_rel(defined_rel("D", 2)).is_ok());
    let g = RuleGroup { id: id("g", 3), rules: vec![], span: at(3) };
    assert!(ctx.add_defined_rule_group(&id("D", 4), g).is_ok());
    let e = ctx.add_defined_rule_group(&id("D", 4), RuleGroup { id: id("g", 5), rules: vec![], span: at(5) }).err().unwrap();
    assert_eq!(code(&e), "elab/relation-rule-group-repeated");
    assert!(ctx.add_defined_else_group(&id("D", 4), ElseGroup { id: id("o", 6), rule: rule(6), span: at(6) }).is_ok());
    let e = ctx.add_defined_else_group(&id("D", 4), ElseGroup { id: id("p", 7), rule: rule(7), span: at(7) }).err().unwrap();
    assert_eq!(code(&e), "elab/relation-otherwise-repeated");
    let d = ctx.take_defined_rel(&id("D", 8));
    assert_eq!(d.rule_groups.len(), 1);
    assert!(d.else_group.is_some());
    assert!(ctx.find_rel_signature_opt(&id("D", 8)).is_none());
    assert!(ctx.renv.get(&id("D", 8)).is_none());
}

#[test]
fn an_unknown_table_is_reported() {
    let ctx = Context::new();
    let e = ctx.find_table_func(&id("T", 3)).err().unwrap();
    assert_eq!(code(&e), "elab/function-table-undefined");
    let e = ctx.find_defined_func(&id("f", 3)).err().unwrap();
    assert_eq!(code(&e), "elab/function-declaration-required");
    let _ = Typ { node: TypKind::Bool, span: at(0) };
}

#[test]
fn a_table_function_signature_has_no_type_parameters() {
    let mut ctx = Context::new();
    let t = TableFunc { id: id("T", 1), params: vec![], typ: Typ { node: TypKind::Bool, span: at(1) }, rows: vec![] };
    assert!(ctx.add_table_func(t).is_ok());
    let f = ExternFunc { id: id("f", 2), tparams: vec![id("a", 2)], params: vec![], typ: Typ { node: TypKind::Bool, span: at(2) } };
    assert!(ctx.add_extern_func(f).is_ok());
    let sig = ctx.find_func_signature(&id("T", 5)).ok().unwrap();
    assert!(sig.tparams.is_empty());
    assert_eq!(sig.id.span, at(1));
    let sig = ctx.find_func_signature(&id("f", 5)).ok().unwrap();
    assert_eq!(sig.tparams.len(), 1);
    let e = ctx.find_func_signature(&id("g", 5)).err().unwrap();
    assert_eq!(code(&e), "elab/function-undefined");
    let e = ctx.find_table_func(&id("f", 6)).err().unwrap();
    assert_eq!(code(&e), "elab/function-table-required");
    assert!(ctx.add_table_func_rows(&id("T", 7), vec![]).is_ok());
    let e = ctx.add_builtin_func(BuiltinFunc { id: id("T", 8), tparams: vec![], params: vec![], typ: Typ { node: TypKind::Bool, span: at(8) } }).err().unwrap();
    assert_eq!(code(&e), "elab/function-builtin-repeated");
    let t = ctx.take_table_func(&id("T", 9));
    assert_eq!(t.id.span, at(1));
}
