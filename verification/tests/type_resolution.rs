use leo_asg::ast;
use leo_asg::ast::{parse_array_size, ArrayDimensions, Identifier, IntegerType, PositiveNumber};
use leo_asg::errors::AsgError;
use leo_asg::scope::{Alias, Arena, Circuit};
use leo_asg::span::{Span, Symbol};
use leo_asg::types::Type;

fn number(digits: &str) -> ArrayDimensions {
    ArrayDimensions::Number(PositiveNumber {
        value: digits.to_string(),
    })
}

#[test]
fn parse_array_size_exact_values() {
    assert_eq!(parse_array_size("0"), Some(0));
    assert_eq!(parse_array_size("7"), Some(7));
    assert_eq!(parse_array_size("007"), Some(7));
    assert_eq!(parse_array_size("4294967295"), Some(u32::MAX));
    assert_eq!(parse_array_size("4294967296"), None);
    assert_eq!(parse_array_size("99999999999999999999"), None);
    assert_eq!(parse_array_size(""), None);
    assert_eq!(parse_array_size("12a"), None);
    assert_eq!(parse_array_size("-3"), None);
}

#[test]
fn primitives_map_one_to_one() {
    let mut arena = Arena::new();
    let root = arena.make_root_scope();
    let span = Span::new(1, 2);
    assert_eq!(
        arena.resolve_ast_type(root, &ast::Type::Address, &span),
        Ok(Type::Address)
    );
    assert_eq!(
        arena.resolve_ast_type(root, &ast::Type::Boolean, &span),
        Ok(Type::Boolean)
    );
    assert_eq!(
        arena.resolve_ast_type(root, &ast::Type::Char, &span),
        Ok(Type::Char)
    );
    assert_eq!(
        arena.resolve_ast_type(root, &ast::Type::Field, &span),
        Ok(Type::Field)
    );
    assert_eq!(
        arena.resolve_ast_type(root, &ast::Type::Group, &span),
        Ok(Type::Group)
    );
    assert_eq!(
        arena.resolve_ast_type(root, &ast::Type::ErrType, &span),
        Ok(Type::ErrType)
    );
    assert_eq!(
        arena.resolve_ast_type(root, &ast::Type::IntegerType(IntegerType::U32), &span),
        Ok(Type::Integer(IntegerType::U32))
    );
}

#[test]
fn unspecified_array_of_field_is_size_unknown() {
    // An array type with unspecified dimension resolves to the
    // "size unknown" array-of-field variant.
    let mut arena = Arena::new();
    let root = arena.make_root_scope();
    let span = Span::new(3, 9);
    let ty = ast::Type::Array(Box::new(ast::Type::Field), ArrayDimensions::Unspecified);
    assert_eq!(
        arena.resolve_ast_type(root, &ty, &span),
        Ok(Type::ArrayWithoutSize(Box::new(Type::Field)))
    );
}

#[test]
fn fixed_array_parses_its_size() {
    let mut arena = Arena::new();
    let root = arena.make_root_scope();
    let span = Span::new(0, 5);
    let ty = ast::Type::Array(Box::new(ast::Type::Boolean), number("4"));
    assert_eq!(
        arena.resolve_ast_type(root, &ty, &span),
        Ok(Type::Array(Box::new(Type::Boolean), 4))
    );
}

#[test]
fn malformed_array_size_is_reported_with_span() {
    let mut arena = Arena::new();
    let root = arena.make_root_scope();
    let span = Span::new(11, 17);
    let ty = ast::Type::Array(Box::new(ast::Type::Boolean), number("4294967296"));
    assert_eq!(
        arena.resolve_ast_type(root, &ty, &span),
        Err(AsgError::MalformedArraySize(span))
    );
}

#[test]
fn multi_dimensional_marker_is_internal_error() {
    let mut arena = Arena::new();
    let root = arena.make_root_scope();
    let span = Span::new(2, 8);
    let dims = ArrayDimensions::Multi(vec![
        PositiveNumber {
            value: "2".to_string(),
        },
        PositiveNumber {
            value: "3".to_string(),
        },
    ]);
    let ty = ast::Type::Array(Box::new(ast::Type::Field), dims);
    assert_eq!(
        arena.resolve_ast_type(root, &ty, &span),
        Err(AsgError::InternalError(span))
    );
}

#[test]
fn self_type_outside_circuit_fails() {
    let mut arena = Arena::new();
    let root = arena.make_root_scope();
    let span = Span::new(20, 24);
    assert_eq!(
        arena.resolve_ast_type(root, &ast::Type::SelfType, &span),
        Err(AsgError::InvalidSelfReference(span))
    );
}

#[test]
fn tuple_preserves_order_and_first_error_wins() {
    let mut arena = Arena::new();
    let root = arena.make_root_scope();
    let span = Span::new(0, 1);
    let ty = ast::Type::Tuple(vec![ast::Type::Boolean, ast::Type::Char]);
    assert_eq!(
        arena.resolve_ast_type(root, &ty, &span),
        Ok(Type::Tuple(vec![Type::Boolean, Type::Char]))
    );
    let bad = ast::Type::Tuple(vec![
        ast::Type::Boolean,
        ast::Type::SelfType,
        ast::Type::Identifier(Identifier {
            name: Symbol(99),
            span: Span::new(5, 6),
        }),
    ]);
    assert_eq!(
        arena.resolve_ast_type(root, &bad, &span),
        Err(AsgError::InvalidSelfReference(span))
    );
}

#[test]
fn circuit_reference_scenario() {
    // Scope chain root -> a -> b; root binds circuit C; b resolves the
    // type name C to a circuit reference, and an unknown name D to an
    // unresolved-name failure carrying D's own span.
    let mut arena = Arena::new();
    let root = arena.make_root_scope();
    let a = arena.make_subscope(root);
    let b = arena.make_subscope(a);
    let c_name = Symbol(1);
    let c = arena.alloc_circuit(Circuit { name: c_name });
    arena.insert_circuit(root, c_name, c);
    let span = Span::new(0, 1);
    let ident = ast::Type::Identifier(Identifier {
        name: c_name,
        span: Span::new(30, 31),
    });
    assert_eq!(
        arena.resolve_ast_type(b, &ident, &span),
        Ok(Type::Circuit(c))
    );
    let d_span = Span::new(40, 41);
    let unknown = ast::Type::Identifier(Identifier {
        name: Symbol(2),
        span: d_span,
    });
    assert_eq!(
        arena.resolve_ast_type(b, &unknown, &span),
        Err(AsgError::UnresolvedName(Symbol(2), d_span))
    );
}

#[test]
fn alias_resolves_to_stored_type_idempotently() {
    let mut arena = Arena::new();
    let root = arena.make_root_scope();
    let name = Symbol(12);
    let stored = Type::Array(Box::new(Type::Field), 8);
    let a = arena.alloc_alias(Alias {
        name,
        represents: stored,
    });
    arena.insert_alias(root, name, a);
    let span = Span::new(0, 1);
    let ident = ast::Type::Identifier(Identifier {
        name,
        span: Span::new(1, 2),
    });
    let first = arena.resolve_ast_type(root, &ident, &span);
    assert_eq!(first, Ok(Type::Array(Box::new(Type::Field), 8)));
    let second = arena.resolve_ast_type(root, &ident, &span);
    let third = arena.resolve_ast_type(root, &ident, &span);
    assert_eq!(first, second);
    assert_eq!(second, third);
}

#[test]
fn circuit_wins_over_alias_of_same_name() {
    let mut arena = Arena::new();
    let root = arena.make_root_scope();
    let name = Symbol(77);
    let c = arena.alloc_circuit(Circuit { name });
    let a = arena.alloc_alias(Alias {
        name,
        represents: Type::Boolean,
    });
    arena.insert_circuit(root, name, c);
    arena.insert_alias(root, name, a);
    let span = Span::new(0, 1);
    let ident = ast::Type::Identifier(Identifier {
        name,
        span: Span::new(1, 2),
    });
    assert_eq!(
        arena.resolve_ast_type(root, &ident, &span),
        Ok(Type::Circuit(c))
    );
}

#[test]
fn nested_array_element_error_surfaces_first() {
    let mut arena = Arena::new();
    let root = arena.make_root_scope();
    let span = Span::new(0, 9);
    let inner = ast::Type::Identifier(Identifier {
        name: Symbol(55),
        span: Span::new(4, 5),
    });
    let ty = ast::Type::Array(Box::new(inner), number("4294967296"));
    assert_eq!(
        arena.resolve_ast_type(root, &ty, &span),
        Err(AsgError::UnresolvedName(Symbol(55), Span::new(4, 5)))
    );
}

#[test]
fn alias_binding_resolves_from_a_subscope() {
    let mut arena = Arena::new();
    let root = arena.make_root_scope();
    let name = Symbol(4);
    let a = arena.alloc_alias(Alias {
        name,
        represents: Type::Char,
    });
    arena.insert_alias(root, name, a);
    let sub = arena.make_subscope(root);
    assert_eq!(arena.resolve_alias(sub, name), Some(a));
    let span = Span::new(0, 1);
    let ident = ast::Type::Identifier(Identifier {
        name,
        span: Span::new(1, 2),
    });
    assert_eq!(arena.resolve_ast_type(sub, &ident, &span), Ok(Type::Char));
}
