use knitwit::naming::{placements, relative_path, PackageName, Placement};

fn pkg(namespace: &str, name: &str, version: Option<&str>) -> PackageName {
    PackageName {
        namespace: namespace.to_string(),
        name: name.to_string(),
        version: version.map(|v| v.to_string()),
    }
}

fn ids(places: &[Placement]) -> Vec<Option<String>> {
    places
        .iter()
        .map(|p| match p {
            Placement::Main => None,
            Placement::Dependency(id) => Some(id.clone()),
        })
        .collect()
}

fn some(s: &str) -> Option<String> {
    Some(s.to_string())
}

#[test]
fn distinct_names_use_bare_name_and_version() {
    let pkgs = vec![
        pkg("knitwit", "combined", None),
        pkg("wasi", "io", Some("0.2.0")),
        pkg("wasi", "clocks", None),
        pkg("acme", "http", Some("1.2.3-rc.1")),
    ];
    let places = placements(&pkgs, 0);
    assert_eq!(ids(&places), vec![None, some("io-0.2.0"), some("clocks"), some("http-1.2.3-rc.1")]);
}

#[test]
fn shared_name_uses_namespace() {
    let pkgs = vec![
        pkg("ns1", "pkgX", None),
        pkg("knitwit", "combined", None),
        pkg("ns2", "pkgX", Some("1.0.0")),
    ];
    let places = placements(&pkgs, 1);
    assert_eq!(ids(&places), vec![some("ns1:pkgX"), None, some("ns2:pkgX")]);
}

#[test]
fn shared_name_and_namespace_use_full_name() {
    let pkgs = vec![
        pkg("knitwit", "combined", None),
        pkg("wasi", "io", Some("0.2.0")),
        pkg("wasi", "io", Some("0.2.1")),
        pkg("wasi", "io", None),
    ];
    let places = placements(&pkgs, 0);
    assert_eq!(
        ids(&places),
        vec![None, some("wasi:io@0.2.0"), some("wasi:io@0.2.1"), some("wasi:io")]
    );
}

#[test]
fn main_package_is_not_counted() {
    // The main package shares the dependency's name, yet the dependency keeps
    // its bare name.
    let pkgs = vec![pkg("knitwit", "combined", None), pkg("other", "combined", None)];
    let places = placements(&pkgs, 0);
    assert_eq!(ids(&places), vec![None, some("combined")]);
}

#[test]
fn mixed_groups() {
    let pkgs = vec![
        pkg("knitwit", "combined", None),
        pkg("a", "x", None),
        pkg("b", "x", Some("1.0.0")),
        pkg("b", "x", Some("2.0.0")),
        pkg("c", "y", Some("0.1.0")),
    ];
    let places = placements(&pkgs, 0);
    assert_eq!(
        ids(&places),
        vec![None, some("a:x"), some("b:x@1.0.0"), some("b:x@2.0.0"), some("y-0.1.0")]
    );
}

#[test]
fn placement_is_the_same_when_repeated() {
    let pkgs = vec![
        pkg("knitwit", "combined", None),
        pkg("a", "x", None),
        pkg("b", "x", None),
        pkg("c", "z", Some("3.0.0")),
    ];
    assert_eq!(ids(&placements(&pkgs, 0)), ids(&placements(&pkgs, 0)));
}

#[test]
fn empty_package_list() {
    assert!(placements(&Vec::new(), 0).is_empty());
}

#[test]
fn paths_below_root() {
    assert_eq!(relative_path(&Placement::Main), vec!["main.wit".to_string()]);
    assert_eq!(
        relative_path(&Placement::Dependency("ns1:pkgX".to_string())),
        vec!["deps".to_string(), "ns1:pkgX".to_string(), "main.wit".to_string()]
    );
}
