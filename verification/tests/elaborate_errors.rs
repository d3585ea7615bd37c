use p4spec::elaborate::error::{ElabError, ElabErrorKind, EntityKind, TypeShape};
use p4spec::span::Span;

#[test]
fn undefined_names_the_entity_and_the_name() {
    let e = ElabError::undefined(EntityKind::Relation, "Step", Span { lo: 3, hi: 7 });
    assert_eq!(e.kind, ElabErrorKind::Undefined(EntityKind::Relation));
    assert_eq!(e.span, Span { lo: 3, hi: 7 });
    assert_eq!(e.diagnostic, "relation `Step` is undefined");
}

#[test]
fn duplicate_names_the_entity_and_the_name() {
    let e = ElabError::duplicate(EntityKind::Type, "nat", Span::none());
    assert_eq!(e.kind, ElabErrorKind::Duplicate(EntityKind::Type));
    assert_eq!(e.diagnostic, "type `nat` was already defined");
}

#[test]
fn kind_texts() {
    assert_eq!(ElabErrorKind::CannotDestructure(TypeShape::Tuple).text(), "cannot destruct type as tuple");
    assert_eq!(ElabErrorKind::Undefined(EntityKind::ElseClause).text(), "undefined otherwise clause");
    assert_eq!(ElabErrorKind::NoMatchingAlternative.text(), "no elaboration alternative matched");
}
