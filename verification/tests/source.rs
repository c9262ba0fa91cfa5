use arpy::doc::DocError;
use arpy::source::{
    example_of_source, file_of_source, function_body_of_source, parse_source, SourceDocError,
};

const SOURCE: &str = "use std::{
    fmt,
    io,
};

struct Point;

struct Other;

fn helper() {}

impl Point {}

impl fmt::Debug for Other {}

extern crate alloc;

fn main() {
    let p = Point;
    helper();
}
";

fn s(text: &str) -> String {
    text.to_string()
}

#[test]
fn source_parses_into_items() {
    let items = parse_source(SOURCE).unwrap();
    assert_eq!(items.len(), 8);
    assert!(parse_source("fn main( {").is_none());
}

#[test]
fn whole_file_example_from_source() {
    assert_eq!(
        file_of_source(SOURCE).unwrap(),
        "# use std::{    fmt,    io,};\n#\n\
         struct Point;\n\n\
         struct Other;\n\n\
         fn helper() {}\n\n\
         impl Point {}\n\n\
         impl fmt::Debug for Other {}\n\n\
         extern crate alloc;\n\n\
         let p = Point;\nhelper();\n"
    );
}

#[test]
fn example_with_dependencies_from_source() {
    let deps = vec![s("Point")];
    assert_eq!(
        function_body_of_source(SOURCE, "main", &deps).unwrap(),
        "# use std::{    fmt,    io,};\n#\n\
         struct Point;\n\n\
         impl Point {}\n\n\
         extern crate alloc;\n\n\
         let p = Point;\nhelper();\n"
    );
    let deps = vec![s("Debug")];
    let doc = function_body_of_source(SOURCE, "main", &deps).unwrap();
    assert!(doc.contains("impl fmt::Debug for Other {}"));
}

#[test]
fn source_errors() {
    assert_eq!(file_of_source("fn main( {"), Err(SourceDocError::Syntax));
    assert_eq!(
        function_body_of_source(SOURCE, "main", &vec![s("main")]),
        Err(SourceDocError::Doc(DocError::BodyInDependencies))
    );
    assert_eq!(
        function_body_of_source(SOURCE, "main", &vec![s("Nowhere")]),
        Err(SourceDocError::Doc(DocError::MissingDependencies(vec![s("Nowhere")])))
    );
    assert_eq!(
        example_of_source(SOURCE, "absent", None),
        Err(SourceDocError::Doc(DocError::NotFound(s("absent"))))
    );
}

#[test]
fn indentation_cut_inside_character_is_refused() {
    let source = "fn main() {\n  x();\n \u{2028}\n}\n";
    assert_eq!(file_of_source(source), Err(SourceDocError::IndentCutsCharacter));
}
