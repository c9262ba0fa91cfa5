use arpy::doc::{
    bodies_removable, body_indent_removable, doc_function_body, function_body, indent_removable,
    DocError, Item, ItemKind,
};

fn s(text: &str) -> String {
    text.to_string()
}

fn example_items() -> Vec<Item> {
    vec![
        Item::Use { text: s("use std::{\n    fmt,\n    io,\n};") },
        Item::Other { kind: ItemKind::Struct, name: Some(s("Point")), text: s("struct Point;") },
        Item::Other { kind: ItemKind::Struct, name: Some(s("Other")), text: s("struct Other;") },
        Item::Fn {
            name: Some(s("helper")),
            text: s("fn helper() {}"),
            body: Some(s("{}")),
        },
        Item::Impl {
            text: s("impl Point {}"),
            self_ty: Some(vec![s("Point")]),
            trait_ty: None,
        },
        Item::Impl {
            text: s("impl fmt::Debug for Other {}"),
            self_ty: Some(vec![s("Other")]),
            trait_ty: Some(vec![s("fmt"), s("::"), s("Debug")]),
        },
        Item::Other { kind: ItemKind::ExternCrate, name: Some(s("alloc")), text: s("extern crate alloc;") },
        Item::Fn {
            name: Some(s("main")),
            text: s("fn main() {\n    let p = Point;\n}"),
            body: Some(s("{\n    let p = Point;\n    helper();\n}")),
        },
    ]
}

#[test]
fn whole_file_example() {
    let doc = arpy::doc::file(&example_items()).unwrap();
    assert_eq!(
        doc,
        "# use std::{    fmt,    io,};\n#\n\
         struct Point;\n\n\
         struct Other;\n\n\
         fn helper() {}\n\n\
         impl Point {}\n\n\
         impl fmt::Debug for Other {}\n\n\
         extern crate alloc;\n\n\
         let p = Point;\nhelper();\n"
    );
}

#[test]
fn example_with_named_dependencies() {
    let deps = vec![s("Point")];
    let doc = function_body(&example_items(), "main", &deps).unwrap();
    assert_eq!(
        doc,
        "# use std::{    fmt,    io,};\n#\n\
         struct Point;\n\n\
         impl Point {}\n\n\
         extern crate alloc;\n\n\
         let p = Point;\nhelper();\n"
    );
}

#[test]
fn impl_found_by_its_trait() {
    let deps = vec![s("Debug")];
    let doc = function_body(&example_items(), "main", &deps).unwrap();
    assert!(doc.contains("impl fmt::Debug for Other {}"));
    assert!(!doc.contains("struct Other;"));
}

#[test]
fn body_in_dependencies_is_refused() {
    let deps = vec![s("main")];
    assert_eq!(function_body(&example_items(), "main", &deps), Err(DocError::BodyInDependencies));
}

#[test]
fn missing_dependency_is_refused() {
    let deps = vec![s("Point"), s("Nowhere")];
    assert_eq!(
        function_body(&example_items(), "main", &deps),
        Err(DocError::MissingDependencies(vec![s("Nowhere")]))
    );
}

#[test]
fn missing_dependency_is_reported_before_missing_body() {
    let deps = vec![s("Nowhere")];
    assert_eq!(
        function_body(&example_items(), "absent", &deps),
        Err(DocError::MissingDependencies(vec![s("Nowhere")]))
    );
}

#[test]
fn missing_body_is_refused() {
    let deps = vec![s("Point")];
    assert_eq!(function_body(&example_items(), "absent", &deps), Err(DocError::NotFound(s("absent"))));
    let items = vec![Item::Other { kind: ItemKind::ExternCrate, name: Some(s("alloc")), text: s("extern crate alloc;") }];
    assert_eq!(arpy::doc::file(&items), Err(DocError::NotFound(s("main"))));
}

#[test]
fn function_without_body_counts_as_found() {
    let items = vec![Item::Fn { name: Some(s("main")), text: s("fn main();"), body: None }];
    assert_eq!(arpy::doc::file(&items), Ok(s("")));
}

#[test]
fn no_dependencies_means_everything() {
    let items = example_items();
    assert_eq!(doc_function_body(&items, "main", None), arpy::doc::file(&items));
}

#[test]
fn indentation_removable_only_at_character_boundaries() {
    assert!(indent_removable("    a\n      b"));
    assert!(indent_removable(""));
    // The least indentation is two bytes; the blank second line holds a
    // three-byte space after one byte, which a two-byte cut would split.
    assert!(!indent_removable("  a\n \u{3000}"));
    // A line no longer than the indentation is emptied, not cut.
    assert!(indent_removable("    a\n \u{3000}"));
    assert!(body_indent_removable("{\n    let x = 1;\n}"));
    assert!(!body_indent_removable("{\n  x\n \u{3000}\n}"));
}

#[test]
fn bodies_checked_only_for_the_example_function() {
    let bad_body = s("{\n  x\n \u{3000}\n}");
    let items = vec![
        Item::Fn { name: Some(s("other")), text: s("fn other() {}"), body: Some(bad_body.clone()) },
        Item::Fn { name: Some(s("main")), text: s("fn main() {}"), body: Some(s("{}")) },
    ];
    assert!(bodies_removable(&items, "main"));
    assert!(!bodies_removable(&items, "other"));
    assert!(bodies_removable(&items, "absent"));
}

#[test]
fn body_in_dependencies_is_refused_before_its_body_is_read() {
    let items = vec![Item::Fn {
        name: Some(s("main")),
        text: s("fn main() {}"),
        body: Some(s("{\n  x\n \u{3000}\n}")),
    }];
    let deps = vec![s("main")];
    assert_eq!(function_body(&items, "main", &deps), Err(DocError::BodyInDependencies));
}

#[test]
fn kinds_shown_always_and_by_name() {
    let items = vec![
        Item::Other { kind: ItemKind::MacroCall, name: None, text: s("m!();") },
        Item::Other { kind: ItemKind::ExternBlock, name: None, text: s("extern \"C\" {}") },
        Item::Other { kind: ItemKind::Const, name: Some(s("N")), text: s("const N: u8 = 1;") },
        Item::Other { kind: ItemKind::TypeAlias, name: Some(s("T")), text: s("type T = u8;") },
        Item::Other { kind: ItemKind::Enum, name: None, text: s("enum {}") },
        Item::Fn { name: Some(s("main")), text: s("fn main() {}"), body: Some(s("{}")) },
    ];
    let deps = vec![s("T")];
    assert_eq!(
        function_body(&items, "main", &deps).unwrap(),
        "m!();\n\nextern \"C\" {}\n\ntype T = u8;\n\n\n"
    );
    // An extern crate is shown always, and its name is never recorded as
    // a dependency found.
    let deps = vec![s("alloc")];
    let items = vec![
        Item::Other { kind: ItemKind::ExternCrate, name: Some(s("alloc")), text: s("extern crate alloc;") },
        Item::Fn { name: Some(s("main")), text: s("fn main() {}"), body: Some(s("{}")) },
    ];
    assert_eq!(
        function_body(&items, "main", &deps),
        Err(DocError::MissingDependencies(vec![s("alloc")]))
    );
}
