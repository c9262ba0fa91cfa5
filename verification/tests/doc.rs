use arpy::doc::{
    function_body_text, hide_in_doc, include_always, include_if_dependency, indent_size, is_dependency,
    is_type_dependency, missing_dependencies, remove_indent,
};

#[test]
fn indent_sizes() {
    assert_eq!(indent_size("    let x = 1;"), Some(4));
    assert_eq!(indent_size("\t x"), Some(2));
    assert_eq!(indent_size("x"), Some(0));
    assert_eq!(indent_size("   "), None);
    assert_eq!(indent_size(""), None);
    assert_eq!(indent_size(" \u{3000} "), None);
    // A non-blank whitespace character ends the indentation.
    assert_eq!(indent_size("  \u{a0}x"), Some(2));
}

#[test]
fn removes_common_indent() {
    assert_eq!(remove_indent("    a\n      b\n    c\n"), "a\n  b\nc");
    assert_eq!(remove_indent("\n\n    a\n\n    b\n\n"), "a\n\nb");
    assert_eq!(remove_indent("  a\r\n    b"), "a\n  b");
    assert_eq!(remove_indent(""), "");
    assert_eq!(remove_indent("   \n  "), "   \n  ");
}

#[test]
fn removes_indent_of_blank_lines_by_bytes() {
    // The blank line is shorter than the indentation, so it becomes empty.
    assert_eq!(remove_indent("    a\n  \n    b"), "a\n\nb");
    // A blank line longer than the indentation keeps what follows it.
    assert_eq!(remove_indent("  a\n      \n  b"), "a\n    \nb");
}

#[test]
fn function_body() {
    let body = "{\n        let x = 1;\n        x + 1\n    }";
    assert_eq!(function_body_text(body), "let x = 1;\nx + 1\n");
    assert_eq!(function_body_text("{}"), "\n");
    // Every brace at either end goes, as `trim_matches` takes them.
    assert_eq!(function_body_text("{a}}"), "a\n");
    assert_eq!(function_body_text("{{ a }}"), "a \n");
}

#[test]
fn hides_items() {
    assert_eq!(hide_in_doc("use std::fmt;"), "# use std::fmt;\n#");
    assert_eq!(hide_in_doc("use a::{\n    b,\n};"), "# use a::{    b,};\n#");
}

#[test]
fn includes_items() {
    assert_eq!(include_always("fn f() {}"), Some("fn f() {}\n".to_string()));
}

#[test]
fn tracks_dependencies() {
    let deps = vec!["MyAdd".to_string(), "my_add".to_string()];
    let mut tracker = Vec::new();
    assert!(is_dependency("MyAdd", Some(&deps), &mut tracker));
    assert!(is_dependency("MyAdd", Some(&deps), &mut tracker));
    assert!(!is_dependency("other", Some(&deps), &mut tracker));
    assert_eq!(tracker, vec!["MyAdd".to_string()]);
    assert!(is_dependency("anything", None, &mut tracker));
    assert_eq!(tracker.len(), 1);
}

#[test]
fn type_dependencies() {
    let deps = vec!["MyAdd".to_string()];
    let mut tracker = Vec::new();
    let tokens = vec!["impl".to_string(), "FnRemote".to_string(), "MyAdd".to_string()];
    assert!(is_type_dependency(Some(&tokens), Some(&deps), &mut tracker));
    assert_eq!(tracker, vec!["MyAdd".to_string()]);
    assert!(!is_type_dependency(None, Some(&deps), &mut tracker));
    let other = vec!["Other".to_string()];
    assert!(!is_type_dependency(Some(&other), Some(&deps), &mut tracker));
}

#[test]
fn reports_missing_dependencies() {
    let deps = vec!["MyAdd".to_string(), "my_add".to_string(), "Other".to_string()];
    let found = vec!["my_add".to_string()];
    assert_eq!(missing_dependencies(&deps, &found), vec!["MyAdd".to_string(), "Other".to_string()]);
    assert!(missing_dependencies(&deps, &deps).is_empty());
}

#[test]
fn carriage_return_without_newline_is_kept() {
    assert_eq!(remove_indent("a\r"), "a\r");
    assert_eq!(hide_in_doc("x\r\ny\r"), "# xy\r\n#");
}

#[test]
fn includes_dependencies_only() {
    let deps = vec!["MyAdd".to_string()];
    let mut tracker = Vec::new();
    assert_eq!(
        include_if_dependency(Some("MyAdd"), "struct MyAdd;", Some(&deps), &mut tracker),
        Some("struct MyAdd;\n".to_string())
    );
    assert_eq!(include_if_dependency(Some("Other"), "struct Other;", Some(&deps), &mut tracker), None);
    assert_eq!(include_if_dependency(None, "impl X {}", Some(&deps), &mut tracker), None);
    assert_eq!(tracker, vec!["MyAdd".to_string()]);
    assert_eq!(
        include_if_dependency(Some("Other"), "struct Other;", None, &mut tracker),
        Some("struct Other;\n".to_string())
    );
}
