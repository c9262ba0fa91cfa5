//! The text functions against the same computations written with std.
use arpy::doc::{function_body_text, hide_in_doc, indent_removable, indent_size, remove_indent};

fn std_indent_size(text: &str) -> Option<usize> {
    if text.trim().is_empty() {
        None
    } else {
        text.find(|c: char| c != ' ' && c != '\t')
    }
}

fn std_remove_indent(text: &str) -> String {
    let min_indent = text.lines().filter_map(std_indent_size).min().unwrap_or(0);

    text.lines()
        .map(|line| {
            if line.len() > min_indent {
                &line[min_indent..]
            } else {
                ""
            }
        })
        .collect::<Vec<&str>>()
        .join("\n")
        .trim_matches('\n')
        .to_string()
}

/// Whether `std_remove_indent` slices every line at a character boundary.
fn std_indent_removable(text: &str) -> bool {
    let min_indent = text.lines().filter_map(std_indent_size).min().unwrap_or(0);

    text.lines()
        .all(|line| line.len() <= min_indent || line.is_char_boundary(min_indent))
}

fn std_hide_in_doc(item: &str) -> String {
    format!("# {}\n", item.lines().collect::<String>()) + "#"
}

fn std_function_body(body: &str) -> String {
    std_remove_indent(body.trim().trim_start_matches('{').trim_end_matches('}')) + "\n"
}

const SAMPLES: &[&str] = &[
    "",
    "\n",
    "\n\n",
    "a",
    "a\n",
    "a\r",
    "a\r\n",
    "a\r\r\n",
    "\r\n\r\n",
    "    a\n      b\n    c\n",
    "\t\ta\n\t  b",
    "  \u{3000}\n    x\n  y",
    "   \u{a0}x\n    y",
    "    a\n\n\n    b\n",
    "  a\n      \n  b",
    "é\n  ü",
    "{\n        let x = 1;\n        x + 1\n    }",
    "  {{ body }}  ",
    "{S {}}",
    "{\n    if x { y }}",
    "\u{2003}{\n  a\n}\u{2003}",
];

#[test]
fn indent_size_agrees_with_std() {
    for s in SAMPLES {
        for line in s.lines() {
            assert_eq!(indent_size(line), std_indent_size(line), "{line:?}");
        }
        assert_eq!(indent_size(s), std_indent_size(s), "{s:?}");
    }
}

#[test]
fn remove_indent_agrees_with_std() {
    for s in SAMPLES {
        assert_eq!(remove_indent(s), std_remove_indent(s), "{s:?}");
    }
}

#[test]
fn hide_in_doc_agrees_with_std() {
    for s in SAMPLES {
        assert_eq!(hide_in_doc(s), std_hide_in_doc(s), "{s:?}");
    }
}

#[test]
fn function_body_agrees_with_std() {
    for s in SAMPLES {
        assert_eq!(function_body_text(s), std_function_body(s), "{s:?}");
    }
}

#[test]
fn indent_removable_agrees_with_std() {
    let cut_inside = ["  a\n \u{3000}", "\ta\n\u{a0}\n", "   x\n  \u{2003}\n   y"];
    for s in SAMPLES.iter().chain(cut_inside.iter()) {
        assert_eq!(indent_removable(s), std_indent_removable(s), "{s:?}");
    }
    for s in cut_inside {
        assert!(!indent_removable(s), "{s:?}");
    }
}

#[test]
fn removing_indent_twice_changes_nothing_more() {
    for s in SAMPLES.iter().filter(|s| !s.contains('\r')) {
        let once = remove_indent(s);
        assert_eq!(remove_indent(&once), once, "{s:?}");
    }
}
