use lunos::bundle::{entry_part, process_es6_modules, BundleError, ModuleSource};

fn module(path: &str, source: &str) -> ModuleSource {
    ModuleSource { path: path.to_string(), source: source.to_string() }
}

const SHIM: &str = "\nfunction __get_default_export__() { return __default_export_value__; }\n";

#[test]
fn default_export_is_materialised() {
    let entry = "import cfg from './m.js';\nconsole.log(cfg.a);\n";
    let mods = vec![module("/p/m.js", "export default { a: 1 };\n")];
    let out = process_es6_modules(entry, &mods).unwrap();
    let expected = format!(
        "var __default_export_value__ = {{ a: 1 }};\n{}var cfg = __get_default_export__();\nconsole.log(cfg.a);",
        SHIM
    );
    assert_eq!(out, expected);
}

#[test]
fn bundling_twice_gives_the_same_text() {
    let entry = "import { f } from './a.js';\nimport g from './b.js';\nf(g);\n";
    let mods = vec![
        module("/p/a.js", "export function f(x) { return x; }\n"),
        module("/p/b.js", "export default {\n  k: { v: 2 }\n};\n"),
    ];
    let one = process_es6_modules(entry, &mods).unwrap();
    let two = process_es6_modules(entry, &mods).unwrap();
    assert_eq!(one, two);
}

#[test]
fn module_imported_twice_appears_once() {
    let entry = "import { a } from './m.js';\nimport { b } from './m.js';\nconsole.log(a + b);\n";
    let src = "export const a = 1;\nexport function b() { return 2; }\n";
    let mods = vec![module("/p/m.js", src), module("/p/m.js", src)];
    let out = process_es6_modules(entry, &mods).unwrap();
    assert_eq!(out.matches("const a = 1;").count(), 1);
    assert_eq!(
        out,
        format!("const a = 1;\nfunction b() {{ return 2; }}\n{}console.log(a + b);", SHIM)
    );
}

#[test]
fn missing_named_export_fails() {
    let entry = "import { foo } from './m.js';\nfoo();\n";
    let mods = vec![module("/p/m.js", "export function bar() {}\n")];
    assert_eq!(
        process_es6_modules(entry, &mods),
        Err(BundleError::MissingExport("./m.js".to_string(), "foo".to_string()))
    );
}

#[test]
fn missing_default_export_fails() {
    let entry = "import cfg from './m.js';\n";
    let mods = vec![module("/p/m.js", "export const x = 1;\n")];
    assert_eq!(
        process_es6_modules(entry, &mods),
        Err(BundleError::MissingDefaultExport("./m.js".to_string(), "cfg".to_string()))
    );
}

#[test]
fn entry_without_imports() {
    assert_eq!(process_es6_modules("console.log(1);", &vec![]).unwrap(), format!("{}console.log(1);", SHIM));
    assert_eq!(entry_part("import a from 'x';\n  import { b } from 'y';\nrun();\n"), "run();");
}

#[test]
fn modules_in_first_reached_order() {
    let entry = "import { b } from './b.js';\nimport { a } from './a.js';\nimport { b2 } from './b.js';\n";
    let mods = vec![
        module("/p/b.js", "export var b = 1;\nexport var b2 = 2;\n"),
        module("/p/a.js", "export var a = 0;\n"),
        module("/p/b.js", "export var b = 1;\nexport var b2 = 2;\n"),
    ];
    let out = process_es6_modules(entry, &mods).unwrap();
    assert_eq!(out, format!("var b = 1;\nvar b2 = 2;\nvar a = 0;\n{}", SHIM));
}
