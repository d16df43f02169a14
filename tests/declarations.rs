use lunos::declarations::{extract_exports, extract_imports, Binding, ImportDecl};

fn named(n: &str) -> Binding {
    Binding::Named(n.to_string())
}

#[test]
fn imports_named_list() {
    let r = extract_imports("import { a, b } from './m.js';\nlet x = 1;\n");
    assert_eq!(
        r,
        vec![ImportDecl { bindings: vec![named("a"), named("b")], specifier: "./m.js".to_string() }]
    );
}

#[test]
fn imports_default_alias_double_quotes() {
    let r = extract_imports("  import cfg from \"./config\"  \n");
    assert_eq!(
        r,
        vec![ImportDecl {
            bindings: vec![Binding::Default("cfg".to_string())],
            specifier: "./config".to_string()
        }]
    );
}

#[test]
fn imports_unrecognised_forms_are_ignored() {
    let src = "import * as ns from './a.js';\nimport d, { x } from './b.js';\nimport './c.js';\nimport x from y;\n";
    assert!(extract_imports(src).is_empty());
}

#[test]
fn imports_keep_line_order_and_skip_empty_names() {
    let src = "import { a, } from 'pkg';\nconsole.log(a);\nimport b from 'pkg/sub';\n";
    let r = extract_imports(src);
    assert_eq!(r.len(), 2);
    assert_eq!(r[0].bindings, vec![named("a")]);
    assert_eq!(r[0].specifier, "pkg");
    assert_eq!(r[1].bindings, vec![Binding::Default("b".to_string())]);
    assert_eq!(r[1].specifier, "pkg/sub");
}

#[test]
fn imports_with_from_inside_names() {
    assert_eq!(
        extract_imports("import fromage from './from.js';"),
        vec![ImportDecl {
            bindings: vec![Binding::Default("fromage".to_string())],
            specifier: "./from.js".to_string()
        }]
    );
    assert_eq!(
        extract_imports("import { fromage } from './cheese.js';"),
        vec![ImportDecl { bindings: vec![named("fromage")], specifier: "./cheese.js".to_string() }]
    );
    assert_eq!(
        extract_imports("import { from } from 'x';"),
        vec![ImportDecl { bindings: vec![named("from")], specifier: "x".to_string() }]
    );
}

#[test]
fn imports_without_spaces_around_from() {
    assert_eq!(
        extract_imports("import{a}from'./m.js'"),
        vec![ImportDecl { bindings: vec![named("a")], specifier: "./m.js".to_string() }]
    );
    assert!(extract_imports("import x fromage './m.js';").is_empty());
}

#[test]
fn exports_of_each_form() {
    let src = "export { a, b , c };\nexport default 42;\nexport function foo(x) {\nexport const bar = 1;\nexport let baz = 2;\nexport var qux = 3;\nexport class Quux {\nexport async function nope() {}\nconst hidden = 0;\n";
    let r = extract_exports(src);
    assert_eq!(
        r,
        vec!["a", "b", "c", "__default_export_value__", "foo", "bar", "baz", "qux", "Quux"]
    );
}

#[test]
fn exports_empty_source() {
    assert!(extract_exports("").is_empty());
    assert!(extract_imports("").is_empty());
}

#[test]
fn exports_single_line_function_body_is_not_a_list() {
    let r = extract_exports("export function f() { return 1; }\n");
    assert_eq!(r, vec!["f"]);
}
