use config_to_rs::code_generation::{create_struct, create_types};
use config_to_rs::types::{Ast, Type, Yaml};

fn s(text: &str) -> Yaml {
    Yaml::String(text.to_string())
}

fn key(text: &str) -> Yaml {
    Yaml::String(text.to_string())
}

#[test]
fn flat_record() {
    let doc = Yaml::Hash(vec![
        (key("parsing"), s("working")),
        (key("age"), Yaml::Integer(22)),
        (key("enabled"), Yaml::Boolean(true)),
        (key("time"), Yaml::Real("22.34".to_string())),
    ]);
    let tree = Ast::from_yaml("Config".to_string(), doc).unwrap();
    assert_eq!(
        create_types(&tree),
        "pub struct Config { pub parsing: &'static str, pub age: i64, pub enabled: bool, pub time: f64 }\n"
    );
    assert_eq!(
        create_struct(&tree),
        "pub const CONFIG: Config = Config { parsing: \"working\", age: 22, enabled: true, time: 22.34 };\n"
    );
}

#[test]
fn nested_record() {
    let doc = Yaml::Hash(vec![(
        key("recurse"),
        Yaml::Hash(vec![
            (key("thing"), Yaml::Integer(1)),
            (
                key("recurse"),
                Yaml::Hash(vec![(key("thing"), Yaml::Integer(3))]),
            ),
        ]),
    )]);
    let tree = Ast::from_yaml("Config".to_string(), doc).unwrap();
    let mut expected = String::new();
    expected.push_str("pub struct Config { pub recurse: ConfigRecurse }\n");
    expected.push_str("pub struct ConfigRecurse { pub thing: i64, pub recurse: ConfigRecurseRecurse }\n");
    expected.push_str("pub struct ConfigRecurseRecurse { pub thing: i64 }\n");
    assert_eq!(create_types(&tree), expected);
    assert_eq!(
        create_struct(&tree),
        "pub const CONFIG: Config = Config { recurse: ConfigRecurse { thing: 1, recurse: ConfigRecurseRecurse { thing: 3 } } };\n"
    );
}

#[test]
fn array_of_records_unifies() {
    let doc = Yaml::Hash(vec![(
        key("array_of_objects"),
        Yaml::Array(vec![
            Yaml::Hash(vec![(key("name"), s("a")), (key("age"), Yaml::Integer(1))]),
            Yaml::Hash(vec![(key("name"), s("b")), (key("age"), Yaml::Integer(2))]),
        ]),
    )]);
    let tree = Ast::from_yaml("Config".to_string(), doc).unwrap();
    let mut expected = String::new();
    expected.push_str("pub struct Config { pub array_of_objects: [ConfigArray_of_objects; 2] }\n");
    expected.push_str("pub struct ConfigArray_of_objects { pub name: &'static str, pub age: i64 }\n");
    assert_eq!(create_types(&tree), expected);
    assert_eq!(
        create_struct(&tree),
        "pub const CONFIG: Config = Config { array_of_objects: [ConfigArray_of_objects { name: \"a\", age: 1 }, ConfigArray_of_objects { name: \"b\", age: 2 }] };\n"
    );
}

#[test]
fn empty_array_emits_empty_literal() {
    let doc = Yaml::Hash(vec![
        (key("empty_array"), Yaml::Array(vec![])),
        (key("age"), Yaml::Integer(7)),
    ]);
    let tree = Ast::from_yaml("Config".to_string(), doc).unwrap();
    assert_eq!(
        create_types(&tree),
        "pub struct Config { pub empty_array: [(); 0], pub age: i64 }\n"
    );
    assert_eq!(
        create_struct(&tree),
        "pub const CONFIG: Config = Config { empty_array: [], age: 7 };\n"
    );
}

#[test]
fn empty_array_type_is_empty_list() {
    let doc = Yaml::Hash(vec![(key("xs"), Yaml::Array(vec![]))]);
    let tree = Ast::from_yaml("Config".to_string(), doc).unwrap();
    let field = match &tree {
        Ast::HashTable { children, .. } => children[0].get_type(),
        _ => panic!("root should be a record"),
    };
    assert!(matches!(field, Type::List(ref elem, 0) if matches!(**elem, Type::Empty)));
}

#[test]
fn lowercase_root_name_is_capitalised() {
    let doc = Yaml::Hash(vec![(key("age"), Yaml::Integer(1))]);
    let tree = Ast::from_yaml("config".to_string(), doc).unwrap();
    assert_eq!(create_types(&tree), "pub struct Config { pub age: i64 }\n");
    assert_eq!(
        create_struct(&tree),
        "pub const CONFIG: Config = Config { age: 1 };\n"
    );
}
