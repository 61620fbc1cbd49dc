use bindoc::model::{ElementInfo, FileInfo, Info, StructInfo};
use bindoc::source::{module_items, SourceItem};
use bindoc::modpath::ModulePath;
use bindoc::resolver::{ResolveWalk, Resolver};

fn empty_file(name: &str) -> FileInfo {
    FileInfo {
        name: name.to_string(),
        path: format!("src/{name}.rs"),
        elements: vec![],
    }
}

#[test]
fn walk_is_depth_first_and_visits_each_module_once() {
    let mut r = Resolver::new("src".to_string(), "lib.rs".to_string());
    let mut walk = ResolveWalk::new();
    let root = ModulePath::new();

    let first = walk.next(&r).unwrap();
    assert_eq!(first, root);
    walk.record(
        &mut r,
        first,
        empty_file("lib"),
        vec![root.join("a"), root.join("b")],
    );

    let second = walk.next(&r).unwrap();
    assert_eq!(second, root.join("a"));
    walk.record(
        &mut r,
        second,
        empty_file("a"),
        vec![root.join("a").join("c"), root.join("b")],
    );

    let third = walk.next(&r).unwrap();
    assert_eq!(third, root.join("a").join("c"));
    walk.record(&mut r, third, empty_file("c"), vec![]);

    let fourth = walk.next(&r).unwrap();
    assert_eq!(fourth, root.join("b"));
    walk.record(&mut r, fourth, empty_file("b"), vec![root.join("a")]);

    assert!(walk.next(&r).is_none());
    assert!(r.contains(&root));
    assert!(r.contains(&ModulePath::parse("a::c")));
    assert!(r.contains(&ModulePath::parse("b")));
    assert!(!r.contains(&ModulePath::parse("c")));
}

#[test]
fn module_files_come_from_the_entry_directory() {
    let r = Resolver::new("proj/src".to_string(), "main.rs".to_string());
    assert_eq!(r.entry_path(), "proj/src");
    assert_eq!(r.entry_file(), "main.rs");
    assert_eq!(
        r.module_file_path(&ModulePath::new(), false),
        "proj/src/main.rs"
    );
    assert_eq!(
        r.module_file_path(&ModulePath::parse("shapes"), true),
        "proj/src/shapes/mod.rs"
    );
    assert_eq!(
        r.module_file_path(&ModulePath::parse("shapes::circle"), false),
        "proj/src/shapes/circle.rs"
    );
}

fn decl(name: &str) -> SourceItem {
    SourceItem::Declaration(Info {
        name: name.to_string(),
        description: String::new(),
        element: ElementInfo::Struct(StructInfo { fields: vec![] }),
    })
}

#[test]
fn module_items_sort_in_source_order() {
    let parent = ModulePath::parse("shapes");
    let items = vec![
        decl("A"),
        SourceItem::ExternalModule("circle".to_string()),
        SourceItem::InlineModule(vec![
            decl("B"),
            SourceItem::ExternalModule("square".to_string()),
            SourceItem::Other,
        ]),
        SourceItem::Other,
        decl("C"),
    ];
    let sorted = module_items(items, &parent);
    let names: Vec<String> = sorted.elements.iter().map(|e| e.name.clone()).collect();
    assert_eq!(names, vec!["A", "B", "C"]);
    assert_eq!(
        sorted.modules,
        vec![
            ModulePath::parse("shapes::circle"),
            ModulePath::parse("shapes::square")
        ]
    );
}
