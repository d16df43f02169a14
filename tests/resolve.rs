use lunos::resolve::{
    first_present_of, is_relative, locate_module, module_file_candidates, node_modules_candidates,
    package_file_candidates, package_main_values, parent_dir, resolve_package, resolve_relative,
    split_package, ResolveError,
};

#[test]
fn relative_specifiers() {
    assert!(is_relative("./x"));
    assert!(is_relative("../x"));
    assert!(!is_relative("x"));
    assert!(!is_relative(".x"));
    assert!(!is_relative("/abs/x"));
}

#[test]
fn resolution_of_dot_slash_from_main() {
    assert_eq!(resolve_relative("/a/b/main.js", "./x"), "/a/b/x");
    assert_eq!(module_file_candidates("/a/b/x"), vec!["/a/b/x", "/a/b/x.js"]);
    assert_eq!(locate_module("/a/b/x", &vec![true, true]), Ok("/a/b/x".to_string()));
    assert_eq!(locate_module("/a/b/x", &vec![false, true]), Ok("/a/b/x.js".to_string()));
}

#[test]
fn relative_with_parent_segments() {
    assert_eq!(resolve_relative("/a/b/main.js", "../c/d.js"), "/a/b/../c/d.js");
    assert_eq!(resolve_relative("/a/b/main.js", "./../../../x.js"), "/a/b/../../../x.js");
    assert_eq!(resolve_relative("/p/main.js", "./lib/../m.js"), "/p/lib/../m.js");
    assert_eq!(resolve_relative("/main.js", "./lib/./m.js"), "/lib/m.js");
}

#[test]
fn parent_of_files() {
    assert_eq!(parent_dir("/a/b/main.js"), "/a/b");
    assert_eq!(parent_dir("/main.js"), "/");
}

#[test]
fn node_modules_search_order() {
    assert_eq!(
        node_modules_candidates("/a/b"),
        vec!["/a/b/node_modules", "/a/node_modules", "/node_modules"]
    );
    assert_eq!(node_modules_candidates("/"), vec!["/node_modules"]);
    assert_eq!(node_modules_candidates("a"), vec!["a/node_modules", "node_modules"]);
}

#[test]
fn package_specifier_parts() {
    assert_eq!(split_package("lodash"), ("lodash".to_string(), None));
    assert_eq!(
        split_package("lodash/fp/get"),
        ("lodash".to_string(), Some("fp/get".to_string()))
    );
}

#[test]
fn main_field_scan() {
    let json = "{\n  \"name\": \"p\",\n  \"main\": \"lib/entry.js\",\n  \"version\": \"1.0.0\"\n}\n";
    assert_eq!(package_main_values(json), vec!["lib/entry.js"]);
    assert_eq!(package_main_values("{ 'main': 'x' }"), vec!["x"]);
    assert_eq!(
        package_main_values("{ \"name\": \"p\", \"main\": \"lib/x.js\", \"version\": \"1\" }"),
        vec!["lib/x.js"]
    );
    assert_eq!(package_main_values("{\"name\": \"main\", \"main\": \"m\"}"), vec!["m"]);
    assert_eq!(package_main_values("{ \"name\": \"p\" }"), Vec::<String>::new());
    assert_eq!(package_main_values("  \"main\": \"a,b\","), vec!["a,b"]);
    assert_eq!(package_main_values("{ \"main\": 'x}y' }"), vec!["x}y"]);
    assert_eq!(package_main_values("\"main\": lib/x, \"v\": 1"), vec!["lib/x"]);
    assert_eq!(package_main_values("'main': 'dist/x'"), vec!["dist/x"]);
}

#[test]
fn package_candidates_with_main() {
    let json = "{\n  \"main\": \"lib/entry\"\n}";
    assert_eq!(
        package_file_candidates("p", "/n/node_modules", Some(json)),
        vec![
            "/n/node_modules/p/lib/entry",
            "/n/node_modules/p/lib/entry.js",
            "/n/node_modules/p/index.js"
        ]
    );
    let json_js = "\"main\": \"lib/entry.js\",";
    assert_eq!(
        package_file_candidates("p", "/n/node_modules", Some(json_js)),
        vec!["/n/node_modules/p/lib/entry.js", "/n/node_modules/p/index.js"]
    );
    assert_eq!(
        package_file_candidates("p/sub/m", "/n/node_modules", None),
        vec!["/n/node_modules/p/sub/m", "/n/node_modules/p/sub/m.js"]
    );
}

#[test]
fn package_without_package_json_falls_back_to_index() {
    let cands = package_file_candidates("p", "/n/node_modules", None);
    assert_eq!(cands, vec!["/n/node_modules/p/index.js"]);
    assert_eq!(
        resolve_package("p", Some("/n/node_modules"), true, None, &vec![true]),
        Ok("/n/node_modules/p/index.js".to_string())
    );
}

#[test]
fn missing_package_is_an_error() {
    assert_eq!(
        resolve_package("nope", Some("/n/node_modules"), false, None, &vec![]),
        Err(ResolveError::PackageNotFound("nope".to_string()))
    );
    assert_eq!(
        resolve_package("nope/x", None, false, None, &vec![]),
        Err(ResolveError::NoNodeModules("nope/x".to_string()))
    );
}

#[test]
fn package_errors_when_nothing_exists() {
    assert_eq!(
        resolve_package("p/sub", Some("/n/node_modules"), true, None, &vec![false, false]),
        Err(ResolveError::SubmoduleNotFound("sub".to_string(), "p".to_string()))
    );
    assert_eq!(
        resolve_package("p", Some("/n/node_modules"), true, None, &vec![false]),
        Err(ResolveError::NoEntryPoint("p".to_string()))
    );
    assert_eq!(
        locate_module("/a/x", &vec![false, false]),
        Err(ResolveError::ModuleNotFound("/a/x".to_string()))
    );
}

#[test]
fn package_main_is_preferred_over_index() {
    let json = "\"main\": \"m\"";
    assert_eq!(
        resolve_package("p", Some("/nm"), true, Some(json), &vec![false, true, true]),
        Ok("/nm/p/m.js".to_string())
    );
}

#[test]
fn absolute_main_stands_for_itself() {
    assert_eq!(
        package_file_candidates("p", "/nm", Some("\"main\": \"/abs/x.js\"")),
        vec!["/abs/x.js", "/nm/p/index.js"]
    );
}

#[test]
fn bare_package_found_through_nearest_node_modules() {
    let dirs = node_modules_candidates(&parent_dir("/a/b/main.js"));
    let nm = first_present_of(&dirs, &vec![true, false, false]).unwrap();
    assert_eq!(nm, "/a/b/node_modules");
    let files = package_file_candidates("lib", &nm, None);
    assert_eq!(files, vec!["/a/b/node_modules/lib/index.js"]);
    assert_eq!(
        resolve_package("lib", Some(&nm), true, None, &vec![true]),
        Ok("/a/b/node_modules/lib/index.js".to_string())
    );
}
