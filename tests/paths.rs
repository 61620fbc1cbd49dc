use bindoc::model::TypeInfo;
use bindoc::modpath::ModulePath;
use bindoc::rename_rule::RenameRule;

#[test]
fn module_path_operations() {
    let root = ModulePath::new();
    assert_eq!(root.element(), None);
    let p = root.join("a").join("b");
    assert_eq!(p.element(), Some("b"));
    assert_eq!(p.len(), 2);
    assert_eq!(p.parent(), root.join("a"));
    assert_eq!(root.parent(), root);
    let mut q = p.clone_path();
    q.pop();
    assert!(q.same_as(&root.join("a")));
    q.push("c".to_string());
    assert_eq!(q, ModulePath::parse("a::c"));
    assert_eq!(ModulePath::parse("x").len(), 1);
}

#[test]
fn module_files_follow_both_conventions() {
    let root = ModulePath::new();
    assert_eq!(root.as_path("src", "lib.rs", false), "src/lib.rs");
    assert_eq!(root.as_path("/p/src", "main.rs", true), "/p/src/main.rs");
    let p = ModulePath::parse("net::r#type");
    assert_eq!(p.as_path("src", "lib.rs", false), "src/net/type.rs");
    assert_eq!(p.index_path("src"), "src/net/r#type/mod.rs");
    assert_eq!(p.as_path("src", "lib.rs", true), "src/net/r#type/mod.rs");
}

#[test]
fn type_strings() {
    let t = TypeInfo {
        name: "Box".to_string(),
        generics: vec![TypeInfo {
            name: "Vec".to_string(),
            generics: vec![TypeInfo {
                name: "str".to_string(),
                generics: vec![],
            }],
        }],
    };
    assert_eq!(t.to_doc_string(false), "Box<Vec<str>>");
    assert_eq!(t.to_doc_string(true), "Vec");
    let s = TypeInfo {
        name: "str".to_string(),
        generics: vec![],
    };
    assert_eq!(s.to_doc_string(true), "String");
}

#[test]
fn rename_rules() {
    assert_eq!(RenameRule::from_str("snake_case"), RenameRule::SnakeCase);
    assert_eq!(RenameRule::from_str("nope"), RenameRule::Unchanged);
    assert_eq!(RenameRule::SnakeCase.apply_to_variant("VeryTasty"), "very_tasty");
    assert_eq!(RenameRule::CamelCase.apply_to_variant("VeryTasty"), "veryTasty");
    assert_eq!(RenameRule::ScreamingKebabCase.apply_to_variant("VeryTasty"), "VERY-TASTY");
    assert_eq!(RenameRule::LowerCase.apply_to_variant("VeryTasty"), "verytasty");
    assert_eq!(RenameRule::PascalCase.apply_to_field("very_tasty"), "VeryTasty");
    assert_eq!(RenameRule::CamelCase.apply_to_field("very_tasty"), "veryTasty");
    assert_eq!(RenameRule::KebabCase.apply_to_field("very_tasty"), "very-tasty");
    assert_eq!(RenameRule::ScreamingSnakeCase.apply_to_field("very_tasty"), "VERY_TASTY");
}

#[test]
fn module_path_text_round_trips() {
    let p = ModulePath::new().join("shapes").join("Circle");
    assert_eq!(p.to_string(), "shapes::Circle");
    assert_eq!(ModulePath::parse(&p.to_string()), p);
    assert_eq!(ModulePath::new().to_string(), "");
    assert_eq!(ModulePath::parse("a:::b").element(), Some(":b"));
}
