use tootvm::stage1::{FunctionType, Type};

fn function(args: Vec<Type>, ret: Type) -> Type {
    Type::Function(Box::new(FunctionType { args, ret }))
}

#[test]
fn type_without_parameters_is_concrete() {
    assert!(Type::Integer.is_concrete());
    assert!(Type::Alias(3).is_concrete());
    assert!(Type::Tuple(vec![Type::Bool, Type::List(Box::new(Type::Real))]).is_concrete());
    assert!(Type::Tuple(vec![]).is_concrete());
    assert!(function(vec![Type::Buffer], Type::Table).is_concrete());
    assert!(Type::GenericAlias(1, vec![Type::Unknown]).is_concrete());
}

#[test]
fn type_with_a_parameter_anywhere_is_not_concrete() {
    assert!(!Type::Parameter(0).is_concrete());
    assert!(!Type::Optional(Box::new(Type::Parameter(0))).is_concrete());
    assert!(!Type::Weak(Box::new(Type::List(Box::new(Type::Parameter(2))))).is_concrete());
    assert!(!Type::Tuple(vec![Type::Bool, Type::Parameter(1)]).is_concrete());
    assert!(!Type::GenericAlias(1, vec![Type::Parameter(1)]).is_concrete());
    assert!(!function(vec![Type::Parameter(0)], Type::Table).is_concrete());
    assert!(!function(vec![Type::Integer], Type::Parameter(0)).is_concrete());
    assert!(!Type::NativeFn(Box::new(FunctionType { args: vec![], ret: Type::Parameter(0) }))
        .is_concrete());
    assert!(!FunctionType { args: vec![Type::Integer, Type::Parameter(0)], ret: Type::Bool }
        .is_concrete());
    assert!(FunctionType { args: vec![Type::Integer], ret: Type::Bool }.is_concrete());
}

#[test]
fn parameters_are_replaced_by_the_types_given_for_them() {
    let params = [Type::Integer, Type::List(Box::new(Type::Real))];
    assert_eq!(Type::Parameter(0).resolve_params(&params), Some(Type::Integer));
    assert_eq!(
        Type::Parameter(1).resolve_params(&params),
        Some(Type::List(Box::new(Type::Real)))
    );
    assert_eq!(
        Type::Tuple(vec![Type::Parameter(1), Type::Bool, Type::Parameter(0)])
            .resolve_params(&params),
        Some(Type::Tuple(vec![Type::List(Box::new(Type::Real)), Type::Bool, Type::Integer]))
    );
    assert_eq!(
        function(vec![Type::Parameter(0)], Type::Optional(Box::new(Type::Parameter(0))))
            .resolve_params(&params),
        Some(function(vec![Type::Integer], Type::Optional(Box::new(Type::Integer))))
    );
    assert_eq!(
        Type::GenericAlias(7, vec![Type::Weak(Box::new(Type::Parameter(0)))])
            .resolve_params(&params),
        Some(Type::GenericAlias(7, vec![Type::Weak(Box::new(Type::Integer))]))
    );
    assert_eq!(Type::Table.resolve_params(&params), Some(Type::Table));
    assert_eq!(Type::Alias(9).resolve_params(&[]), Some(Type::Alias(9)));
}

#[test]
fn parameter_without_a_type_for_it_resolves_to_nothing() {
    let params = [Type::Integer];
    assert_eq!(Type::Parameter(1).resolve_params(&params), None);
    assert_eq!(Type::Parameter(0).resolve_params(&[]), None);
    assert_eq!(Type::Tuple(vec![Type::Parameter(0), Type::Parameter(1)]).resolve_params(&params), None);
    assert_eq!(function(vec![], Type::Parameter(5)).resolve_params(&params), None);
    assert_eq!(
        FunctionType { args: vec![Type::Parameter(5)], ret: Type::Bool }.resolve_params(&params),
        None
    );
    assert_eq!(
        FunctionType { args: vec![Type::Parameter(0)], ret: Type::Bool }.resolve_params(&params),
        Some(FunctionType { args: vec![Type::Integer], ret: Type::Bool })
    );
}

#[test]
fn copy_of_a_type_equals_the_type() {
    let t = function(
        vec![Type::Parameter(0), Type::Tuple(vec![Type::Buffer])],
        Type::NativeFn(Box::new(FunctionType { args: vec![], ret: Type::Unknown })),
    );
    assert_eq!(t.duplicate(), t);
}
