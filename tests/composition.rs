use knitwit::compose::{compose, find_world, locate_worlds, target_wit_source, ComposeError};
use knitwit::naming::layout;
use wit_parser::{Resolve, WorldKey};

fn parsed(path: &str, text: &str) -> Resolve {
    let mut r = Resolve::default();
    r.push_str(path, text).unwrap();
    r
}

fn strings(v: &[&str]) -> Vec<String> {
    v.iter().map(|s| s.to_string()).collect()
}

#[test]
fn target_source_text() {
    assert_eq!(
        target_wit_source("app"),
        "package knitwit:combined;\n\nworld app {\n}"
    );
}

#[test]
fn find_world_takes_first_match() {
    let names = strings(&["a", "b", "a"]);
    assert_eq!(find_world(&names, "a"), Some(0));
    assert_eq!(find_world(&names, "b"), Some(1));
    assert_eq!(find_world(&names, "c"), None);
}

#[test]
fn locate_reports_missing_target_first() {
    let names = strings(&["app", "a"]);
    assert_eq!(locate_worlds(&names, "other", &strings(&["zz"])).err(), Some("other".to_string()));
    assert_eq!(
        locate_worlds(&names, "app", &strings(&["a", "zz", "yy"])).err(),
        Some("zz".to_string())
    );
    let s = locate_worlds(&names, "app", &strings(&["a", "a"])).ok().unwrap();
    assert_eq!(s.target, 0);
    assert_eq!(s.folded, vec![1, 1]);
}

#[test]
fn same_name_different_namespace_goes_to_namespaced_dirs() {
    let a = parsed("a.wit", "package ns1:pkgx;\n\ninterface i {\n  f: func();\n}\n");
    let b = parsed("b.wit", "package ns2:pkgx;\n\ninterface i {\n  g: func();\n}\n");
    let c = compose("app", vec![a, b], &Vec::new()).ok().unwrap();
    let files = layout(&c.graph, c.main).ok().unwrap();
    let mut paths: Vec<String> = files.iter().map(|f| f.path.join("/")).collect();
    paths.sort();
    assert_eq!(
        paths,
        vec![
            "deps/ns1:pkgx/main.wit".to_string(),
            "deps/ns2:pkgx/main.wit".to_string(),
            "main.wit".to_string()
        ]
    );
    let main = files.iter().find(|f| f.path.len() == 1).unwrap();
    assert!(main.text.contains("world app"));
}

#[test]
fn missing_world_is_a_named_error() {
    let a = parsed("a.wit", "package ns1:pkgx;\n\nworld present {\n}\n");
    match compose("app", vec![a], &strings(&["missing-world"])) {
        Err(ComposeError::MissingWorld(name)) => assert_eq!(name, "missing-world"),
        _ => panic!("expected a missing world"),
    }
}

#[test]
fn invalid_target_name_is_reported() {
    assert!(matches!(compose("Not A World", Vec::new(), &Vec::new()), Err(ComposeError::Target(_))));
}

#[test]
fn merged_exports_are_the_union() {
    let src = parsed(
        "w.wit",
        "package ex:worlds;\n\ninterface x {\n  f: func();\n}\n\ninterface y {\n  g: func();\n}\n\nworld a {\n  export x;\n}\n\nworld b {\n  export x;\n  export y;\n}\n",
    );
    let c = compose("app", vec![src], &strings(&["a", "b"])).ok().unwrap();
    let (_, app) = c.graph.worlds.iter().find(|(_, w)| w.name == "app").unwrap();
    let mut exports: Vec<String> = app
        .exports
        .keys()
        .map(|k| match k {
            WorldKey::Name(n) => n.clone(),
            WorldKey::Interface(id) => c.graph.interfaces[*id].name.clone().unwrap(),
        })
        .collect();
    exports.sort();
    assert_eq!(exports, vec!["x".to_string(), "y".to_string()]);
}

#[test]
fn conflicting_world_surfaces_fail() {
    let src = parsed(
        "w.wit",
        "package ex:clash;\n\nworld a {\n  export run: func();\n}\n\nworld b {\n  export run: func(x: u32);\n}\n",
    );
    match compose("app", vec![src], &strings(&["a", "b"])) {
        Err(ComposeError::WorldMerge { world, .. }) => assert_eq!(world, "b"),
        _ => panic!("expected a world merge failure"),
    }
}

#[test]
fn conflicting_sources_fail() {
    let a = parsed("a.wit", "package ns:p@1.0.0;\n\ninterface i {\n  f: func();\n}\n");
    let b = parsed("b.wit", "package ns:p@1.0.0;\n\ninterface i {\n  f: func(x: u32);\n}\n");
    assert!(matches!(compose("app", vec![a, b], &Vec::new()), Err(ComposeError::Merge(_))));
}

#[test]
fn merged_imports_are_the_union() {
    let src = parsed(
        "w.wit",
        "package ex:imports;\n\ninterface x {\n  f: func();\n}\n\ninterface y {\n  g: func();\n}\n\nworld a {\n  import x;\n}\n\nworld b {\n  import y;\n  import x;\n}\n",
    );
    let c = compose("app", vec![src], &strings(&["a", "b"])).ok().unwrap();
    let (_, app) = c.graph.worlds.iter().find(|(_, w)| w.name == "app").unwrap();
    let mut imports: Vec<String> = app.imports.keys().map(|k| c.graph.name_world_key(k)).collect();
    imports.sort();
    assert_eq!(imports, vec!["ex:imports/x".to_string(), "ex:imports/y".to_string()]);
}

#[test]
fn fold_reports_failing_position() {
    let mut g = parsed(
        "w.wit",
        "package ex:fold;\n\nworld t {\n}\n\nworld a {\n  export run: func();\n}\n\nworld b {\n  export run: func(x: u32);\n}\n",
    );
    let r = knitwit::compose::fold_worlds(&mut g, 0, &vec![1, 1, 2]);
    assert_eq!(r.err().map(|(k, _)| k), Some(2));
}

#[test]
fn finish_names_missing_auxiliary_world() {
    let g = parsed("w.wit", "package ex:fin;\n\nworld t {\n}\n");
    match knitwit::compose::finish(g, "t", &strings(&["t", "absent"])) {
        Err(ComposeError::MissingWorld(name)) => assert_eq!(name, "absent"),
        _ => panic!("expected a missing world"),
    }
}

#[test]
fn seeded_graph_holds_only_the_synthetic_package() {
    let c = compose("app", Vec::new(), &Vec::new()).ok().unwrap();
    assert_eq!(c.main, 0);
    assert_eq!(c.graph.packages.len(), 1);
    let (_, pkg) = c.graph.packages.iter().next().unwrap();
    assert_eq!(pkg.name.to_string(), "knitwit:combined");
    let names: Vec<String> = c.graph.worlds.iter().map(|(_, w)| w.name.clone()).collect();
    assert_eq!(names, vec!["app".to_string()]);
    let (_, w) = c.graph.worlds.iter().next().unwrap();
    assert!(w.imports.is_empty() && w.exports.is_empty());
}
