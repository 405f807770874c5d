use config_to_rs::types::{Ast, Yaml};

fn s(text: &str) -> Yaml {
    Yaml::String(text.to_string())
}

fn key(text: &str) -> Yaml {
    Yaml::String(text.to_string())
}

fn test_document() -> Yaml {
    Yaml::Hash(vec![
        (key("parsing"), s("working")),
        (key("age"), Yaml::Integer(22)),
        (key("enabled"), Yaml::Boolean(true)),
        (key("time"), Yaml::Real("22.34".to_string())),
        (
            key("recurse"),
            Yaml::Hash(vec![
                (key("thing"), Yaml::Integer(1)),
                (
                    key("recurse"),
                    Yaml::Hash(vec![(key("thing"), Yaml::Integer(3))]),
                ),
            ]),
        ),
        (key("array"), Yaml::Array(vec![s("a"), s("b"), s("c")])),
        (key("empty_array"), Yaml::Array(vec![])),
        (
            key("array_of_arrays"),
            Yaml::Array(vec![
                Yaml::Array(vec![s("a"), s("b"), s("c")]),
                Yaml::Array(vec![s("d"), s("e"), s("f")]),
            ]),
        ),
        (
            key("array_of_objects"),
            Yaml::Array(vec![
                Yaml::Hash(vec![(key("name"), s("a")), (key("age"), Yaml::Integer(1))]),
                Yaml::Hash(vec![(key("name"), s("b")), (key("age"), Yaml::Integer(2))]),
                Yaml::Hash(vec![(key("name"), s("c")), (key("age"), Yaml::Integer(3))]),
            ]),
        ),
    ])
}

#[test]
fn test_config() {
    let tree = Ast::from_yaml("Config".to_string(), test_document()).unwrap();
    let out = tree.to_rust();

    assert!(out.contains("parsing: \"working\""));
    assert!(out.contains("age: 22"));
    assert!(out.contains("enabled: true"));
    assert!(out.contains("time: 22.34"));
    assert!(out.contains("recurse: ConfigRecurse { thing: 1, recurse: ConfigRecurseRecurse { thing: 3 } }"));
    assert!(out.contains("array: [\"a\", \"b\", \"c\"]"));
    assert!(out.contains("empty_array: []"));
    assert!(out.contains("array_of_arrays: [[\"a\", \"b\", \"c\"], [\"d\", \"e\", \"f\"]]"));
    assert!(out.contains("ConfigArray_of_objects { name: \"a\", age: 1 }"));
    assert!(out.contains("ConfigArray_of_objects { name: \"b\", age: 2 }"));
    assert!(out.contains("ConfigArray_of_objects { name: \"c\", age: 3 }"));

    let mut expected = String::new();
    expected.push_str("pub struct Config { pub parsing: &'static str, pub age: i64, pub enabled: bool, ");
    expected.push_str("pub time: f64, pub recurse: ConfigRecurse, pub array: [&'static str; 3], ");
    expected.push_str("pub empty_array: [(); 0], pub array_of_arrays: [[&'static str; 3]; 2], ");
    expected.push_str("pub array_of_objects: [ConfigArray_of_objects; 3] }\n");
    expected.push_str("pub struct ConfigRecurse { pub thing: i64, pub recurse: ConfigRecurseRecurse }\n");
    expected.push_str("pub struct ConfigRecurseRecurse { pub thing: i64 }\n");
    expected.push_str("pub struct ConfigArray_of_objects { pub name: &'static str, pub age: i64 }\n");
    expected.push_str("pub const CONFIG: Config = Config { parsing: \"working\", age: 22, enabled: true, ");
    expected.push_str("time: 22.34, recurse: ConfigRecurse { thing: 1, recurse: ConfigRecurseRecurse { thing: 3 } }, ");
    expected.push_str("array: [\"a\", \"b\", \"c\"], empty_array: [], ");
    expected.push_str("array_of_arrays: [[\"a\", \"b\", \"c\"], [\"d\", \"e\", \"f\"]], ");
    expected.push_str("array_of_objects: [ConfigArray_of_objects { name: \"a\", age: 1 }, ");
    expected.push_str("ConfigArray_of_objects { name: \"b\", age: 2 }, ");
    expected.push_str("ConfigArray_of_objects { name: \"c\", age: 3 }] };\n");
    assert_eq!(out, expected);
}
