use lunos::strip::{remove_exports, ExportStripper};

#[test]
fn strip_export_list_is_deleted() {
    assert_eq!(remove_exports("const a = 1;\nexport { a };\n"), "const a = 1;\n");
}

#[test]
fn strip_keyword_removed_from_declarations() {
    assert_eq!(
        remove_exports("export function f() {}\n  export const x = 1;\n"),
        "function f() {}\n  const x = 1;\n"
    );
}

#[test]
fn strip_single_line_default() {
    assert_eq!(remove_exports("export default 42;"), "var __default_export_value__ = 42;\n");
    assert_eq!(
        remove_exports("export default { a: 1 };\n"),
        "var __default_export_value__ = { a: 1 };\n"
    );
}

#[test]
fn strip_multi_line_default_object_with_nested_braces() {
    let src = "const z = 0;\nexport default {\n  a: { b: 1 },\n  c: [ { d: 2 } ],\n};\nconsole.log(z);\n";
    assert_eq!(
        remove_exports(src),
        "const z = 0;\nvar __default_export_value__ = {\n  a: { b: 1 },\n  c: [ { d: 2 } ],\n};\nconsole.log(z);\n"
    );
}

#[test]
fn strip_drops_empty_lines_and_keeps_other_text() {
    assert_eq!(remove_exports("a();\n\n\nb();"), "a();\nb();\n");
    assert_eq!(remove_exports(""), "\n");
}

#[test]
fn strip_keeps_a_final_carriage_return() {
    assert_eq!(remove_exports("a\r"), "a\r\n");
    assert_eq!(remove_exports("a\r\nb\r\n"), "a\nb\n");
}

#[test]
fn strip_unclosed_default_object_is_left_out() {
    assert_eq!(remove_exports("x();\nexport default {\n  a: 1,\n"), "x();\n");
}

#[test]
fn stripper_counts_open_braces() {
    let mut s = ExportStripper::new();
    assert!(!s.in_object());
    s.feed_line("export default {");
    assert!(s.in_object());
    assert_eq!(s.depth(), 1);
    s.feed_line("  a: { b: {");
    assert_eq!(s.depth(), 3);
    s.feed_line("  } },");
    assert_eq!(s.depth(), 1);
    assert!(s.in_object());
    s.feed_line("}");
    assert!(!s.in_object());
    assert_eq!(s.depth(), 0);
    assert_eq!(
        s.finish(),
        "var __default_export_value__ = {\n  a: { b: {\n  } },\n};\n"
    );
}
