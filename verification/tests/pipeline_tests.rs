use cbindgen::config::Config;
use cbindgen::config::Language;
use cbindgen::ir::AnnotationSet;
use cbindgen::library::Library;
use cbindgen::library::PathValue;
use cbindgen::parse::ParsedFunction;
use cbindgen::parse::ParsedItem;
use cbindgen::parse::ParsedModule;
use cbindgen::parse::ParsedType;
use cbindgen::parse::ParsedVariant;

fn prim(name: &str) -> ParsedType {
    ParsedType::Path(name.to_string(), Vec::new())
}

fn func(name: &str, args: Vec<(&str, ParsedType)>, ret: ParsedType) -> ParsedItem {
    ParsedItem::FreeFunction {
        func: ParsedFunction {
            name: name.to_string(),
            doc: Vec::new(),
            args: args.into_iter().map(|(n, t)| (n.to_string(), t)).collect(),
            ret,
        },
        no_mangle: true,
        abi_is_c: true,
    }
}

fn repr_c_struct(name: &str, fields: Vec<(&str, ParsedType)>) -> ParsedItem {
    ParsedItem::StructDecl {
        name: name.to_string(),
        doc: Vec::new(),
        repr_c: true,
        generic_params: Vec::new(),
        named_fields: true,
        fields: fields.into_iter().map(|(n, t)| (n.to_string(), t)).collect(),
    }
}

fn plain_enum(name: &str, variants: Vec<&str>) -> ParsedItem {
    ParsedItem::EnumDecl {
        name: name.to_string(),
        doc: Vec::new(),
        repr: cbindgen::ir::Repr::C,
        has_generics: false,
        has_lifetimes: false,
        has_where: false,
        variants: variants
            .into_iter()
            .map(|v| ParsedVariant {
                name: v.to_string(),
                discriminant: None,
                has_data: false,
            })
            .collect(),
    }
}

fn run(items: Vec<ParsedItem>, config: Config) -> String {
    let modules = vec![ParsedModule {
        crate_name: "demo".to_string(),
        items,
    }];
    let library = Library::load_crate(&modules, "demo", config).unwrap();
    let built = library.generate().unwrap();
    built.write()
}

#[test]
fn scalar_passthrough() {
    let text = run(
        vec![func("set", vec![("x", prim("i32"))], ParsedType::Unit)],
        Config::blank(),
    );
    assert_eq!(
        text,
        "#include <stdint.h>\n\nextern \"C\" {\n\nvoid set(int32_t x);\n\n} // extern \"C\"\n"
    );
}

#[test]
fn struct_dependency_order() {
    let text = run(
        vec![
            func("len", vec![("l", prim("Line"))], prim("f32")),
            repr_c_struct("Line", vec![("a", prim("Point")), ("b", prim("Point"))]),
            repr_c_struct("Point", vec![("x", prim("f32")), ("y", prim("f32"))]),
        ],
        Config::blank(),
    );
    let point = text.find("} Point;").expect("Point must be declared");
    let line = text.find("} Line;").expect("Line must be declared");
    assert!(point < line, "Point must precede Line");
    assert!(text.contains("float len(Line l);"));
    assert!(text.contains("  float x;\n  float y;\n"));
}

#[test]
fn opaque_fallback() {
    let non_repr_c = ParsedItem::StructDecl {
        name: "Bag".to_string(),
        doc: Vec::new(),
        repr_c: false,
        generic_params: Vec::new(),
        named_fields: true,
        fields: vec![(
            "inner".to_string(),
            ParsedType::Path("Vec".to_string(), vec![prim("i32")]),
        )],
    };
    let text = run(
        vec![
            non_repr_c,
            func(
                "poke",
                vec![("b", ParsedType::MutPtr(Box::new(prim("Bag"))))],
                ParsedType::Unit,
            ),
        ],
        Config::blank(),
    );
    assert!(text.contains("typedef struct Bag Bag;"));
    assert!(text.contains("void poke(Bag* b);"));
}

#[test]
fn enum_ordering() {
    let text = run(
        vec![
            repr_c_struct("Cell", vec![("c", prim("Color")), ("s", prim("Shape"))]),
            func("paint", vec![("cell", prim("Cell"))], ParsedType::Unit),
            plain_enum("Shape", vec!["Round", "Square"]),
            plain_enum("Color", vec!["Red", "Green"]),
        ],
        Config::blank(),
    );
    let color = text.find("} Color;").expect("Color must be declared");
    let shape = text.find("} Shape;").expect("Shape must be declared");
    let cell = text.find("} Cell;").expect("Cell must be declared");
    assert!(color < shape, "enums are sorted by name");
    assert!(shape < cell, "enums precede aggregates");
    assert!(text.contains("  Red = 0,\n  Green = 1,\n"));
}

#[test]
fn specialization_monomorphizes() {
    let generic_option = ParsedItem::StructDecl {
        name: "Option".to_string(),
        doc: Vec::new(),
        repr_c: true,
        generic_params: vec!["T".to_string()],
        named_fields: true,
        fields: vec![
            ("present".to_string(), prim("bool")),
            ("value".to_string(), prim("T")),
        ],
    };
    let alias = ParsedItem::AliasDecl {
        name: "OptionU32".to_string(),
        doc: Vec::new(),
        generic_params: Vec::new(),
        has_lifetimes: false,
        ty: ParsedType::Path("Option".to_string(), vec![prim("u32")]),
    };
    let text = run(
        vec![
            generic_option,
            alias,
            func("take", vec![("o", prim("OptionU32"))], ParsedType::Unit),
        ],
        Config::blank(),
    );
    assert!(text.contains("} OptionU32;"));
    assert!(text.contains("  uint32_t value;"));
    assert!(
        !text.contains("} Option;"),
        "the template itself must not be emitted"
    );
    assert_eq!(text.matches("typedef struct").count(), 1);
}

#[test]
fn cxx_wrapping_with_guard() {
    let mut config = Config::blank();
    config.language = Language::Cxx;
    config.include_guard = Some("FOO_H".to_string());
    let text = run(
        vec![func("set", vec![("x", prim("i32"))], ParsedType::Unit)],
        config,
    );
    assert!(text.starts_with("#ifndef FOO_H\n#define FOO_H\n\n#include <stdint.h>\n"));
    assert!(!text.contains("stdbool"));
    let open = text.find("extern \"C\" {").unwrap();
    let proto = text.find("void set(int32_t x);").unwrap();
    let close = text.find("} // extern \"C\"").unwrap();
    assert!(open < proto && proto < close);
    assert!(text.ends_with("#endif // FOO_H\n"));
}

#[test]
fn c_mode_includes_stdbool_and_skips_extern_c() {
    let mut config = Config::blank();
    config.language = Language::C;
    let text = run(
        vec![func("set", vec![("x", prim("bool"))], ParsedType::Unit)],
        config,
    );
    assert!(text.contains("#include <stdint.h>\n#include <stdbool.h>"));
    assert!(!text.contains("extern \"C\""));
    assert!(text.contains("void set(bool x);"));
}

#[test]
fn emission_is_idempotent() {
    let build = |items: Vec<ParsedItem>| -> String {
        run(items, Config::blank())
    };
    let one = build(vec![
        repr_c_struct("Point", vec![("x", prim("f32")), ("y", prim("f32"))]),
        func("origin", vec![], prim("Point")),
    ]);
    let two = build(vec![
        repr_c_struct("Point", vec![("x", prim("f32")), ("y", prim("f32"))]),
        func("origin", vec![], prim("Point")),
    ]);
    assert_eq!(one, two, "the pipeline run twice is byte-identical");
}

#[test]
fn walk_reaches_every_named_type() {
    // Every named type reachable from the signature appears, through
    // pointers, arrays and nested fields alike.
    let text = run(
        vec![
            repr_c_struct("Inner", vec![("v", prim("u8"))]),
            repr_c_struct("Outer", vec![("i", prim("Inner"))]),
            repr_c_struct(
                "Holder",
                vec![(
                    "o",
                    ParsedType::Array(Box::new(prim("Outer")), 4),
                )],
            ),
            func(
                "consume",
                vec![("h", ParsedType::ConstPtr(Box::new(prim("Holder"))))],
                ParsedType::Unit,
            ),
        ],
        Config::blank(),
    );
    assert!(text.contains("} Inner;"));
    assert!(text.contains("} Outer;"));
    assert!(text.contains("} Holder;"));
    assert!(text.contains("  Outer o[4];"));
    assert!(text.contains("void consume(const Holder* h);"));
}

#[test]
fn walk_orders_dependencies_first() {
    let text = run(
        vec![
            func("consume", vec![("h", prim("Holder"))], ParsedType::Unit),
            repr_c_struct("Holder", vec![("o", prim("Outer"))]),
            repr_c_struct("Outer", vec![("i", prim("Inner"))]),
            repr_c_struct("Inner", vec![("v", prim("u8"))]),
        ],
        Config::blank(),
    );
    let inner = text.find("} Inner;").unwrap();
    let outer = text.find("} Outer;").unwrap();
    let holder = text.find("} Holder;").unwrap();
    assert!(inner < outer && outer < holder);
}

#[test]
fn functions_are_emitted_in_name_order() {
    let text = run(
        vec![
            func("zeta", vec![], ParsedType::Unit),
            func("alpha", vec![], ParsedType::Unit),
            func("mid", vec![], ParsedType::Unit),
        ],
        Config::blank(),
    );
    let a = text.find("void alpha(void);").unwrap();
    let m = text.find("void mid(void);").unwrap();
    let z = text.find("void zeta(void);").unwrap();
    assert!(a < m && m < z);
}

#[test]
fn extern_block_functions_are_walked_but_not_emitted() {
    let ext = ParsedItem::ExternBlock {
        abi_is_c: true,
        fns: vec![ParsedFunction {
            name: "imported".to_string(),
            doc: Vec::new(),
            args: vec![("p".to_string(), prim("Payload"))],
            ret: ParsedType::Unit,
        }],
    };
    let text = run(
        vec![
            ext,
            repr_c_struct("Payload", vec![("v", prim("u32"))]),
        ],
        Config::blank(),
    );
    assert!(text.contains("} Payload;"), "dependencies are still walked");
    assert!(
        !text.contains("void imported"),
        "extern declarations are not re-exported"
    );
}

#[test]
fn foreign_crate_functions_are_ignored() {
    let modules = vec![ParsedModule {
        crate_name: "other".to_string(),
        items: vec![func("stray", vec![], ParsedType::Unit)],
    }];
    let library = Library::load_crate(&modules, "demo", Config::blank()).unwrap();
    assert!(library.functions.is_empty());
}

#[test]
fn functions_lacking_markers_are_skipped() {
    let mut not_no_mangle = func("hidden", vec![], ParsedType::Unit);
    if let ParsedItem::FreeFunction { no_mangle, .. } = &mut not_no_mangle {
        *no_mangle = false;
    }
    let modules = vec![ParsedModule {
        crate_name: "demo".to_string(),
        items: vec![not_no_mangle],
    }];
    let library = Library::load_crate(&modules, "demo", Config::blank()).unwrap();
    assert!(library.functions.is_empty());
}

#[test]
fn resolve_path_probes_tables_in_order() {
    let modules = vec![ParsedModule {
        crate_name: "demo".to_string(),
        items: vec![
            plain_enum("Thing", vec!["A"]),
            repr_c_struct("Gadget", vec![("v", prim("u8"))]),
        ],
    }];
    let library = Library::load_crate(&modules, "demo", Config::blank()).unwrap();
    match library.resolve_path(&"Thing".to_string()) {
        Some(PathValue::Enum(e)) => assert_eq!(e.name, "Thing"),
        _ => panic!("Thing must resolve to the enumeration"),
    }
    match library.resolve_path(&"Gadget".to_string()) {
        Some(PathValue::Struct(s)) => assert_eq!(s.name, "Gadget"),
        _ => panic!("Gadget must resolve to the aggregate"),
    }
    assert!(library.resolve_path(&"Absent".to_string()).is_none());
}

#[test]
fn first_insertion_wins_within_a_table() {
    let modules = vec![ParsedModule {
        crate_name: "demo".to_string(),
        items: vec![
            repr_c_struct("Twice", vec![("first", prim("u8"))]),
            repr_c_struct("Twice", vec![("second", prim("u16"))]),
        ],
    }];
    let library = Library::load_crate(&modules, "demo", Config::blank()).unwrap();
    assert_eq!(library.structs.len(), 1);
    assert_eq!(library.structs[0].fields[0].0, "first");
}

#[test]
fn renaming_applies_per_role() {
    let mut config = Config::blank();
    config.field_rename_rule = cbindgen::rename::RenameRule::GeckoCase;
    config.variant_rename_rule = cbindgen::rename::RenameRule::ScreamingSnakeCase;
    config.arg_rename_rule = cbindgen::rename::RenameRule::CamelCase;
    let text = run(
        vec![
            plain_enum("Color", vec!["DeepRed"]),
            repr_c_struct("Point", vec![("x_pos", prim("f32"))]),
            func(
                "move_to",
                vec![("new_place", prim("Point")), ("c", prim("Color"))],
                ParsedType::Unit,
            ),
        ],
        config,
    );
    assert!(text.contains("  DEEP_RED = 0,"));
    assert!(text.contains("  float mXPos;"));
    assert!(text.contains("void move_to(Point newPlace, Color c);"));
}

#[test]
fn annotations_parse_from_doc_lines() {
    let lines = vec![
        "A plain line of documentation.".to_string(),
        "cbindgen:Keep-Me=yes".to_string(),
        "cbindgen:flag".to_string(),
        "cbindgen:off=false".to_string(),
    ];
    let set = AnnotationSet::parse(&lines).unwrap();
    assert_eq!(set.entries.len(), 3);
    assert_eq!(set.entries[0].0, "keep-me");
    assert!(matches!(
        set.entries[0].1,
        cbindgen::ir::AnnotationValue::Str(ref s) if s == "yes"
    ));
    assert!(matches!(
        set.entries[1].1,
        cbindgen::ir::AnnotationValue::Bool(true)
    ));
    assert!(matches!(
        set.entries[2].1,
        cbindgen::ir::AnnotationValue::Bool(false)
    ));
    let bad = vec!["cbindgen:=broken".to_string()];
    assert!(AnnotationSet::parse(&bad).is_err());
}

#[test]
fn enum_discriminants_mix_explicit_and_counted() {
    let item = ParsedItem::EnumDecl {
        name: "Level".to_string(),
        doc: Vec::new(),
        repr: cbindgen::ir::Repr::U8,
        has_generics: false,
        has_lifetimes: false,
        has_where: false,
        variants: vec![
            ParsedVariant {
                name: "Low".to_string(),
                discriminant: None,
                has_data: false,
            },
            ParsedVariant {
                name: "Mid".to_string(),
                discriminant: Some(10),
                has_data: false,
            },
            ParsedVariant {
                name: "High".to_string(),
                discriminant: None,
                has_data: false,
            },
        ],
    };
    let text = run(
        vec![item, func("pick", vec![("l", prim("Level"))], ParsedType::Unit)],
        Config::blank(),
    );
    assert!(text.contains("  Low = 0,\n  Mid = 10,\n  High = 11,\n"));
}

#[test]
fn chained_specializations_resolve() {
    let base = ParsedItem::StructDecl {
        name: "Base".to_string(),
        doc: Vec::new(),
        repr_c: true,
        generic_params: vec!["T".to_string()],
        named_fields: true,
        fields: vec![("value".to_string(), prim("T"))],
    };
    let mid = ParsedItem::AliasDecl {
        name: "Mid".to_string(),
        doc: Vec::new(),
        generic_params: vec!["U".to_string()],
        has_lifetimes: false,
        ty: ParsedType::Path("Base".to_string(), vec![prim("U")]),
    };
    let last = ParsedItem::AliasDecl {
        name: "Concrete".to_string(),
        doc: Vec::new(),
        generic_params: Vec::new(),
        has_lifetimes: false,
        ty: ParsedType::Path("Mid".to_string(), vec![prim("u16")]),
    };
    let text = run(
        vec![
            base,
            mid,
            last,
            func("eat", vec![("c", prim("Concrete"))], ParsedType::Unit),
        ],
        Config::blank(),
    );
    assert!(text.contains("} Concrete;"));
    assert!(text.contains("  uint16_t value;"));
}

#[test]
fn function_pointer_fields_render_in_c_form() {
    let cb = ParsedType::BareFn(vec![prim("i32")], Box::new(ParsedType::Unit));
    let text = run(
        vec![
            repr_c_struct("Hooks", vec![("on_event", cb)]),
            func("install", vec![("h", prim("Hooks"))], ParsedType::Unit),
        ],
        Config::blank(),
    );
    assert!(text.contains("  void (*on_event)(int32_t);"));
}

#[test]
fn unresolvable_reference_is_skipped() {
    let text = run(
        vec![func("use_mystery", vec![("m", prim("Mystery"))], ParsedType::Unit)],
        Config::blank(),
    );
    assert!(text.contains("void use_mystery(Mystery m);"));
    assert!(!text.contains("typedef"));
}

#[test]
fn specialization_with_wrong_arity_is_dropped() {
    let base = ParsedItem::StructDecl {
        name: "Base".to_string(),
        doc: Vec::new(),
        repr_c: true,
        generic_params: vec!["T".to_string()],
        named_fields: true,
        fields: vec![("value".to_string(), prim("T"))],
    };
    let bad = ParsedItem::AliasDecl {
        name: "Bad".to_string(),
        doc: Vec::new(),
        generic_params: Vec::new(),
        has_lifetimes: false,
        ty: ParsedType::Path("Base".to_string(), vec![prim("u8"), prim("u8")]),
    };
    let text = run(
        vec![
            base,
            bad,
            func("eat", vec![("b", prim("Bad"))], ParsedType::Unit),
        ],
        Config::blank(),
    );
    assert!(
        !text.contains("} Bad;"),
        "a mismatched specialization is dropped with a warning"
    );
    assert!(text.contains("void eat(Bad b);"));
}

#[test]
fn generic_enum_falls_back_to_opaque() {
    let mut item = plain_enum("Carrier", vec!["A"]);
    if let ParsedItem::EnumDecl { has_generics, .. } = &mut item {
        *has_generics = true;
    }
    let text = run(
        vec![
            item,
            func(
                "use_carrier",
                vec![("c", ParsedType::ConstPtr(Box::new(prim("Carrier"))))],
                ParsedType::Unit,
            ),
        ],
        Config::blank(),
    );
    assert!(text.contains("typedef struct Carrier Carrier;"));
    assert!(!text.contains("typedef enum"));
}

#[test]
fn promoted_opaque_is_authoritative() {
    let good = repr_c_struct("Twice", vec![("v", prim("u8"))]);
    let failing = ParsedItem::StructDecl {
        name: "Twice".to_string(),
        doc: Vec::new(),
        repr_c: true,
        generic_params: Vec::new(),
        named_fields: true,
        fields: vec![(
            "inner".to_string(),
            ParsedType::Unsupported("reference type".to_string()),
        )],
    };
    let modules = vec![ParsedModule {
        crate_name: "demo".to_string(),
        items: vec![good, failing],
    }];
    let library = Library::load_crate(&modules, "demo", Config::blank()).unwrap();
    assert!(library.structs.is_empty());
    assert_eq!(library.opaque_structs.len(), 1);
    match library.resolve_path(&"Twice".to_string()) {
        Some(PathValue::OpaqueStruct(o)) => assert_eq!(o.name, "Twice"),
        _ => panic!("the promoted opaque entry must be authoritative"),
    }
}

#[test]
fn typedefs_are_emitted() {
    let alias = ParsedItem::AliasDecl {
        name: "Handle".to_string(),
        doc: Vec::new(),
        generic_params: Vec::new(),
        has_lifetimes: false,
        ty: prim("u64"),
    };
    let text = run(
        vec![alias, func("grab", vec![], prim("Handle"))],
        Config::blank(),
    );
    assert!(text.contains("typedef uint64_t Handle;"));
    assert!(text.contains("Handle grab(void);"));
}
