use bindoc::markdown::{render_document, MarkdownRenderer};
use bindoc::model::{
    ElementInfo, EnumInfo, FieldInfo, FileInfo, Info, StructInfo, TypeInfo, VariantInfo,
};
use bindoc::modpath::ModulePath;
use bindoc::renderer::{RenderOptions, Renderer};
use bindoc::replacer::{OptionValue, ReplaceOptions, Replacer};
use bindoc::resolver::Resolver;

fn ty(name: &str, generics: Vec<TypeInfo>) -> TypeInfo {
    TypeInfo {
        name: name.to_string(),
        generics,
    }
}

fn field(name: &str, description: &str, t: TypeInfo) -> FieldInfo {
    FieldInfo {
        name: name.to_string(),
        description: description.to_string(),
        ty: t,
    }
}

fn structure(name: &str, description: &str, fields: Vec<FieldInfo>) -> Info {
    Info {
        name: name.to_string(),
        description: description.to_string(),
        element: ElementInfo::Struct(StructInfo { fields }),
    }
}

fn file(name: &str, elements: Vec<Info>) -> FileInfo {
    FileInfo {
        name: name.to_string(),
        path: format!("src/{name}.rs"),
        elements,
    }
}

fn point() -> Info {
    structure(
        "Point",
        "",
        vec![
            field("x", "X coordinate", ty("i32", vec![])),
            field("y", "", ty("i32", vec![])),
        ],
    )
}

fn shape() -> Info {
    structure(
        "Shape",
        "A shape.",
        vec![field("sides", "How many sides.", ty("u32", vec![]))],
    )
}

fn catalogue() -> Resolver {
    let mut r = Resolver::new("src".to_string(), "lib.rs".to_string());
    r.insert_module(ModulePath::new(), file("lib", vec![point()]));
    r.insert_module(ModulePath::new().join("mod"), file("mod", vec![shape()]));
    r
}

fn render_via_replacer(resolver: &Resolver, input: &str) -> String {
    let renderer = MarkdownRenderer::new(
        String::new(),
        RenderOptions {
            simplified_types: true,
        },
    );
    let mut replacer = Replacer::new(renderer, resolver);
    replacer.replace(input.to_string());
    replacer.finish().finish()
}

fn render(resolver: &Resolver, input: &str) -> String {
    let out = render_document(
        resolver,
        input.to_string(),
        RenderOptions {
            simplified_types: true,
        },
    );
    assert_eq!(out, render_via_replacer(resolver, input));
    out
}

#[test]
fn struct_directive_renders_fields() {
    let r = catalogue();
    let out = render(&r, "<% Point %>");
    assert_eq!(
        out,
        "## Point\n\n### x\n\n> Type: `i32`\n\nX coordinate\n\n### y\n\n> Type: `i32`\n\n"
    );
}

#[test]
fn ambiguous_shorthand_is_left_as_written() {
    let mut r = Resolver::new("src".to_string(), "lib.rs".to_string());
    r.insert_module(
        ModulePath::new().join("a"),
        file("a", vec![structure("Config", "", vec![])]),
    );
    r.insert_module(
        ModulePath::new().join("b"),
        file("b", vec![structure("Config", "", vec![])]),
    );
    assert_eq!(render(&r, "<% Config %>"), "<% Config %>");
    assert!(r.resolve_shorthand("Config").is_none());
}

#[test]
fn header_false_and_depth_two_skip_heading() {
    let r = catalogue();
    let out = render(&r, "<% mod::Shape header=false depth=2 %>");
    assert_eq!(out, "A shape.\n\n#### sides\n\n> Type: `u32`\n\nHow many sides.\n");
    assert!(!out.contains("Shape"));
}

#[test]
fn braced_options_are_read_too() {
    let r = catalogue();
    let out = render(&r, "<% Point {header=false depth=0} %>");
    assert!(out.starts_with("## x\n\n"));
}

#[test]
fn plain_document_passes_through() {
    let r = catalogue();
    let text = "# Title\n\nSome prose, with < and % and >, and ünïcödé.\n";
    assert_eq!(render(&r, text), text);
    assert_eq!(render(&r, ""), "");
    assert_eq!(render(&r, "x"), "x");
}

#[test]
fn unknown_directive_round_trips() {
    let r = catalogue();
    assert_eq!(render(&r, "<% Missing %>"), "<% Missing %>");
    assert_eq!(render(&r, "a <%nope::Thing%> b"), "a <%nope::Thing%> b");
}

#[test]
fn unterminated_directive_is_passed_through() {
    let r = catalogue();
    assert_eq!(render(&r, "text <% Point"), "text <% Point");
}

#[test]
fn headings_always_have_a_blank_line_before() {
    let mut m = MarkdownRenderer::new(
        "para".to_string(),
        RenderOptions {
            simplified_types: false,
        },
    );
    m.render_heading("A", 0);
    m.render_heading("B", 1);
    assert_eq!(m.finish(), "para\n\n# A\n\n## B\n\n");

    let mut after_text = MarkdownRenderer::new(
        "\n# A\n\nx".to_string(),
        RenderOptions {
            simplified_types: true,
        },
    );
    after_text.render_heading("B", 0);
    assert_eq!(after_text.finish(), "\n# A\n\nx\n\n# B\n\n");

    let mut after_line = MarkdownRenderer::new(
        "line\n".to_string(),
        RenderOptions {
            simplified_types: true,
        },
    );
    after_line.render_heading("C", 2);
    after_line.render_type("u8");
    assert_eq!(after_line.finish(), "line\n\n### C\n\n> Type: `u8`\n\n");
}

#[test]
fn description_heading_lines_nest() {
    let mut m = MarkdownRenderer::new(
        String::new(),
        RenderOptions {
            simplified_types: true,
        },
    );
    m.render_description("intro\r\n# Usage\nmore", 1);
    assert_eq!(m.finish(), "intro\n\n### Usage\n\nmore\n");
}

#[test]
fn enum_variants_render_with_fields() {
    let info = Info {
        name: "Event".to_string(),
        description: "".to_string(),
        element: ElementInfo::Enum(EnumInfo {
            variants: vec![
                VariantInfo {
                    name: "Quit".to_string(),
                    description: "Stop.".to_string(),
                    fields: vec![],
                },
                VariantInfo {
                    name: "Move".to_string(),
                    description: "".to_string(),
                    fields: vec![field("to", "", ty("Option", vec![ty("u8", vec![])]))],
                },
            ],
        }),
    };
    let mut m = MarkdownRenderer::new(
        String::new(),
        RenderOptions {
            simplified_types: true,
        },
    );
    m.render_element(
        &info,
        ReplaceOptions {
            header: true,
            depth: 0,
        },
    );
    assert_eq!(
        m.finish(),
        "# Event\n\n## Quit\n\nStop.\n\n## Move\n\n### to\n\n> Type: `u8?`\n\n"
    );
}

#[test]
fn absolute_lookup_round_trips() {
    let r = catalogue();
    let p = ModulePath::new().join("Point");
    assert_eq!(r.resolve_absolute(&p).unwrap().name, "Point");
    let s = ModulePath::parse("mod::Shape");
    assert_eq!(r.resolve_absolute(&s).unwrap().name, "Shape");
    assert!(r.resolve_absolute(&ModulePath::parse("other::Shape")).is_none());
    assert!(r.resolve_absolute(&ModulePath::new()).is_none());
}

#[test]
fn shorthand_finds_unique_names() {
    let r = catalogue();
    assert_eq!(r.resolve_shorthand("Shape").unwrap().name, "Shape");
    assert!(r.resolve_shorthand("Nothing").is_none());
}

#[test]
fn options_defaults_and_errors() {
    let d = ReplaceOptions::parse_or_default("header=false depth=3");
    assert!(!d.header);
    assert_eq!(d.depth, 3);
    let bad = ReplaceOptions::parse_or_default("header=3");
    assert!(bad.header);
    assert_eq!(bad.depth, 1);
    let broken = ReplaceOptions::parse_or_default("{{{");
    assert!(broken.header);
    assert_eq!(broken.depth, 1);
    let negative = ReplaceOptions::parse_or_default("depth=-1");
    assert_eq!(negative.depth, 1);
}

#[test]
fn options_from_entries() {
    let es = vec![
        ("depth".to_string(), OptionValue::Integer(4)),
        ("other".to_string(), OptionValue::Other),
    ];
    let o = ReplaceOptions::from_entries(&es).unwrap();
    assert!(o.header);
    assert_eq!(o.depth, 4);
    let wrong = vec![("header".to_string(), OptionValue::Integer(1))];
    assert!(ReplaceOptions::from_entries(&wrong).is_none());
    let d = ReplaceOptions::default();
    assert!(d.header);
    assert_eq!(d.depth, 1);
}

#[test]
fn unsafe_option_texts_fall_back_to_defaults() {
    let huge = ReplaceOptions::parse_or_default("header=false depth=99999999999999999999");
    assert!(huge.header);
    assert_eq!(huge.depth, 1);
    let hex = ReplaceOptions::parse_or_default("depth=0xffffffffffffffffff");
    assert_eq!(hex.depth, 1);
    let env = ReplaceOptions::parse_or_default("header=$env_HOME");
    assert!(env.header);
    let fine = ReplaceOptions::parse_or_default("depth=12345");
    assert_eq!(fine.depth, 12345);
}
