use config_to_rs::semantic_analysis::capitalise_first;
use config_to_rs::types::{clone_type, type_eq, Ast, Type, Yaml};
use config_to_rs::utils::is_terminal_type;
use config_to_rs::values::{i64_to_dec, parse_terminal_value, quote_string, u64_to_dec, usize_to_dec};

#[test]
fn capitalise_first_uppercases_only_the_first_character() {
    assert_eq!(capitalise_first(""), "");
    assert_eq!(capitalise_first("config"), "Config");
    assert_eq!(capitalise_first("Config"), "Config");
    assert_eq!(capitalise_first("array_of_objects"), "Array_of_objects");
    assert_eq!(capitalise_first("a"), "A");
    assert_eq!(capitalise_first("über"), "Über");
}

#[test]
fn decimal_text_of_unsigned_numbers() {
    assert_eq!(u64_to_dec(0), "0");
    assert_eq!(u64_to_dec(7), "7");
    assert_eq!(u64_to_dec(10), "10");
    assert_eq!(u64_to_dec(1234567890), "1234567890");
    assert_eq!(u64_to_dec(u64::MAX), "18446744073709551615");
    assert_eq!(usize_to_dec(42), "42");
}

#[test]
fn decimal_text_of_signed_numbers() {
    assert_eq!(i64_to_dec(0), "0");
    assert_eq!(i64_to_dec(22), "22");
    assert_eq!(i64_to_dec(-1), "-1");
    assert_eq!(i64_to_dec(-987), "-987");
    assert_eq!(i64_to_dec(i64::MAX), "9223372036854775807");
    assert_eq!(i64_to_dec(i64::MIN), "-9223372036854775808");
}

#[test]
fn quoting_escapes_backslash_and_quote() {
    assert_eq!(quote_string("working"), "\"working\"");
    assert_eq!(quote_string(""), "\"\"");
    assert_eq!(quote_string("a\"b"), "\"a\\\"b\"");
    assert_eq!(quote_string("a\\b"), "\"a\\\\b\"");
}

#[test]
fn terminal_nodes_are_recognised() {
    assert!(is_terminal_type(&Yaml::String("x".to_string())));
    assert!(is_terminal_type(&Yaml::Real("1.5".to_string())));
    assert!(is_terminal_type(&Yaml::Integer(3)));
    assert!(is_terminal_type(&Yaml::Boolean(false)));
    assert!(!is_terminal_type(&Yaml::Array(vec![])));
    assert!(!is_terminal_type(&Yaml::Hash(vec![])));
    assert!(!is_terminal_type(&Yaml::Unsupported));
}

#[test]
fn terminal_values_emit_their_field_text() {
    assert_eq!(
        parse_terminal_value("parsing", Yaml::String("working".to_string())),
        "parsing: \"working\""
    );
    assert_eq!(parse_terminal_value("age", Yaml::Integer(22)), "age: 22");
    assert_eq!(parse_terminal_value("enabled", Yaml::Boolean(true)), "enabled: true");
    assert_eq!(parse_terminal_value("off", Yaml::Boolean(false)), "off: false");
    assert_eq!(parse_terminal_value("time", Yaml::Real("22.34".to_string())), "time: 22.34");
}

#[test]
fn type_syntax_references() {
    assert_eq!(Type::Empty.to_syn_type(), "()");
    assert_eq!(Type::String.to_syn_type(), "&'static str");
    assert_eq!(Type::Real.to_syn_type(), "f64");
    assert_eq!(Type::Integer.to_syn_type(), "i64");
    assert_eq!(Type::Boolean.to_syn_type(), "bool");
    assert_eq!(
        Type::List(Box::new(Type::List(Box::new(Type::Integer), 3)), 2).to_syn_type(),
        "[[i64; 3]; 2]"
    );
    let rec = Type::Record {
        name: "ConfigRecurse".to_string(),
        fields: vec![("thing".to_string(), Type::Integer)],
    };
    assert_eq!(rec.to_syn_type(), "ConfigRecurse");
}

#[test]
fn structural_type_equality() {
    let a = Type::Record {
        name: "A".to_string(),
        fields: vec![
            ("x".to_string(), Type::Integer),
            ("y".to_string(), Type::List(Box::new(Type::String), 2)),
        ],
    };
    let b = Type::Record {
        name: "A".to_string(),
        fields: vec![
            ("x".to_string(), Type::Integer),
            ("y".to_string(), Type::List(Box::new(Type::String), 2)),
        ],
    };
    let c = Type::Record {
        name: "A".to_string(),
        fields: vec![
            ("x".to_string(), Type::Integer),
            ("y".to_string(), Type::List(Box::new(Type::String), 3)),
        ],
    };
    assert!(type_eq(&a, &b));
    assert!(!type_eq(&a, &c));
    assert!(!type_eq(&a, &Type::Integer));
    let copy = clone_type(&a);
    assert!(type_eq(&a, &copy));
}

#[test]
fn node_accessors() {
    let doc = Yaml::Hash(vec![
        (Yaml::String("age".to_string()), Yaml::Integer(22)),
    ]);
    let tree = Ast::from_yaml("Config".to_string(), doc).unwrap();
    assert_eq!(tree.get_key(), "Config");
    assert_eq!(tree.get_type_name(), "Config");
    let root_type = tree.get_type();
    assert!(type_eq(
        &root_type,
        &Type::Record {
            name: "Config".to_string(),
            fields: vec![("age".to_string(), Type::Integer)],
        },
    ));
    match &tree {
        Ast::HashTable { children, .. } => {
            assert_eq!(children[0].get_key(), "age");
            assert_eq!(children[0].get_value(), "22");
            assert!(type_eq(&children[0].get_type(), &Type::Integer));
        },
        _ => panic!("root should be a record"),
    }
}
