use config_to_rs::types::{type_eq, Ast, Error, Type, Yaml};

fn key(text: &str) -> Yaml {
    Yaml::String(text.to_string())
}

#[test]
fn heterogeneous_array_is_rejected() {
    let doc = Yaml::Hash(vec![(
        key("arr"),
        Yaml::Array(vec![
            Yaml::Hash(vec![(key("a"), Yaml::Integer(1))]),
            Yaml::Hash(vec![(key("a"), Yaml::String("x".to_string()))]),
        ]),
    )]);
    let err = Ast::from_yaml("Config".to_string(), doc).unwrap_err();
    match err {
        Error::HeterogeneousArray { path, expected, found } => {
            assert_eq!(path, "ConfigArr");
            let want_expected = Type::Record {
                name: "ConfigArr".to_string(),
                fields: vec![("a".to_string(), Type::Integer)],
            };
            let want_found = Type::Record {
                name: "ConfigArr".to_string(),
                fields: vec![("a".to_string(), Type::String)],
            };
            assert!(type_eq(&expected, &want_expected));
            assert!(type_eq(&found, &want_found));
        },
        other => panic!("expected HeterogeneousArray, got {:?}", other),
    }
}

#[test]
fn mixed_scalar_array_is_rejected() {
    let doc = Yaml::Hash(vec![(
        key("arr"),
        Yaml::Array(vec![Yaml::Integer(1), Yaml::String("x".to_string())]),
    )]);
    let err = Ast::from_yaml("Config".to_string(), doc).unwrap_err();
    assert!(matches!(err, Error::HeterogeneousArray { .. }));
}

#[test]
fn unsupported_scalar_is_rejected() {
    let doc = Yaml::Hash(vec![(key("nothing"), Yaml::Unsupported)]);
    let err = Ast::from_yaml("Config".to_string(), doc).unwrap_err();
    match err {
        Error::UnsupportedScalarKind { path } => assert_eq!(path, "ConfigNothing"),
        other => panic!("expected UnsupportedScalarKind, got {:?}", other),
    }
}

#[test]
fn non_string_key_is_rejected() {
    let doc = Yaml::Hash(vec![(Yaml::Integer(3), Yaml::Integer(1))]);
    let err = Ast::from_yaml("Config".to_string(), doc).unwrap_err();
    match err {
        Error::UnsupportedScalarKind { path } => assert_eq!(path, "Config"),
        other => panic!("expected UnsupportedScalarKind, got {:?}", other),
    }
}

#[test]
fn reserved_field_name_is_rejected() {
    let doc = Yaml::Hash(vec![(key("type"), Yaml::Integer(1))]);
    let err = Ast::from_yaml("Config".to_string(), doc).unwrap_err();
    match err {
        Error::ReservedIdentifierConflict { path, name } => {
            assert_eq!(path, "Config");
            assert_eq!(name, "type");
        },
        other => panic!("expected ReservedIdentifierConflict, got {:?}", other),
    }
}

#[test]
fn non_mapping_root_is_rejected() {
    let err = Ast::from_yaml("Config".to_string(), Yaml::Integer(5)).unwrap_err();
    assert!(matches!(err, Error::NonMappingRoot));
}

#[test]
fn first_failure_wins() {
    // the reserved key of the first entry is reported, not the unsupported
    // scalar further right
    let doc = Yaml::Hash(vec![
        (key("type"), Yaml::Integer(1)),
        (key("nothing"), Yaml::Unsupported),
    ]);
    let err = Ast::from_yaml("Config".to_string(), doc).unwrap_err();
    assert!(matches!(err, Error::ReservedIdentifierConflict { .. }));
}
