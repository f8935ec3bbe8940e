//! Placement of packages in the output tree.
//!
//! The main package is written at the root; every other (dependency) package
//! goes under `deps/<identifier>/`, where the identifier is as short as the
//! rest of the dependency set allows.

use crate::graph::{package_names, packages_of, printed_of, render_package};
use vstd::prelude::*;
use wit_parser::Resolve;

verus! {

/// The name of a package as the logic reads it: namespace, name and the
/// text of its version, if it has one.
pub struct PackageName {
    pub namespace: String,
    pub name: String,
    pub version: Option<String>,
}

/// Namespace, name and version text of a package.
pub type NameView = (Seq<char>, Seq<char>, Option<Seq<char>>);

pub open spec fn opt_view(v: Option<String>) -> Option<Seq<char>> {
    match v {
        Some(s) => Some(s@),
        None => None,
    }
}

impl View for PackageName {
    type V = NameView;

    open spec fn view(&self) -> NameView {
        (self.namespace@, self.name@, opt_view(self.version))
    }
}

/// Whether `j` is a dependency package other than `i` that has `i`'s name.
pub open spec fn same_name(pkgs: Seq<NameView>, main: int, i: int, j: int) -> bool {
    &&& 0 <= j < pkgs.len()
    &&& j != i
    &&& j != main
    &&& pkgs[j].1 == pkgs[i].1
}

/// Whether `j` is a dependency package other than `i` that has `i`'s name
/// and namespace.
pub open spec fn same_name_and_namespace(pkgs: Seq<NameView>, main: int, i: int, j: int) -> bool {
    &&& same_name(pkgs, main, i, j)
    &&& pkgs[j].0 == pkgs[i].0
}

pub open spec fn name_shared(pkgs: Seq<NameView>, main: int, i: int) -> bool {
    exists|j: int| #[trigger] same_name(pkgs, main, i, j)
}

pub open spec fn namespace_shared(pkgs: Seq<NameView>, main: int, i: int) -> bool {
    exists|j: int| #[trigger] same_name_and_namespace(pkgs, main, i, j)
}

/// `name`, followed by `-<version>` when there is a version.
pub open spec fn bare_identifier(p: NameView) -> Seq<char> {
    match p.2 {
        Some(v) => p.1 + seq!['-'] + v,
        None => p.1,
    }
}

/// `namespace:name`.
pub open spec fn namespaced_identifier(p: NameView) -> Seq<char> {
    p.0 + seq![':'] + p.1
}

/// `namespace:name@version`, or `namespace:name` without a version.
pub open spec fn qualified_identifier(p: NameView) -> Seq<char> {
    match p.2 {
        Some(v) => p.0 + seq![':'] + p.1 + seq!['@'] + v,
        None => p.0 + seq![':'] + p.1,
    }
}

/// The directory name of dependency package `i`, given the whole package
/// list and the index of the main package.
pub open spec fn identifier(pkgs: Seq<NameView>, main: int, i: int) -> Seq<char> {
    if !name_shared(pkgs, main, i) {
        bare_identifier(pkgs[i])
    } else if !namespace_shared(pkgs, main, i) {
        namespaced_identifier(pkgs[i])
    } else {
        qualified_identifier(pkgs[i])
    }
}

/// Where a package is written.
pub enum Placement {
    /// `<root>/main.wit`
    Main,
    /// `<root>/deps/<identifier>/main.wit`
    Dependency(String),
}

/// `None` for the main package, else the identifier of its directory.
pub open spec fn placement_view(p: Placement) -> Option<Seq<char>> {
    match p {
        Placement::Main => None,
        Placement::Dependency(id) => Some(id@),
    }
}

/// The placement of package `i`.
pub open spec fn placement_of(pkgs: Seq<NameView>, main: int, i: int) -> Option<Seq<char>> {
    if i == main {
        None
    } else {
        Some(identifier(pkgs, main, i))
    }
}

/// The placement of every package, in package order.
pub open spec fn plan(pkgs: Seq<NameView>, main: int) -> Seq<Option<Seq<char>>> {
    Seq::new(pkgs.len(), |i: int| placement_of(pkgs, main, i))
}

/// The components of a file's path below the output root.
pub open spec fn path_of(p: Option<Seq<char>>) -> Seq<Seq<char>> {
    match p {
        None => seq!["main.wit"@],
        Some(id) => seq!["deps"@, id, "main.wit"@],
    }
}

pub open spec fn views(pkgs: Seq<PackageName>) -> Seq<NameView> {
    pkgs.map_values(|p: PackageName| p@)
}

/// For each package, whether another dependency package shares its name and
/// whether one among those also shares its namespace.
pub struct Sharing {
    pub name: bool,
    pub namespace: bool,
}

/// Computes, once over the whole package list, which packages share a name
/// or a name and namespace with another dependency package.
pub fn sharing_table(pkgs: &Vec<PackageName>, main: usize) -> (r: Vec<Sharing>)
    ensures
        r.len() == pkgs.len(),
        forall|i: int|
            0 <= i < r.len() ==> {
                &&& (#[trigger] r[i]).name == name_shared(views(pkgs@), main as int, i)
                &&& r[i].namespace == namespace_shared(views(pkgs@), main as int, i)
            },
{
    let ghost v = views(pkgs@);
    let mut r: Vec<Sharing> = Vec::new();
    let mut i: usize = 0;
    while i < pkgs.len()
        invariant
            i <= pkgs.len(),
            v == views(pkgs@),
            r.len() == i,
            forall|k: int|
                0 <= k < i ==> {
                    &&& (#[trigger] r[k]).name == name_shared(v, main as int, k)
                    &&& r[k].namespace == namespace_shared(v, main as int, k)
                },
        decreases pkgs.len() - i,
    {
        let mut name = false;
        let mut namespace = false;
        let mut j: usize = 0;
        while j < pkgs.len()
            invariant
                i < pkgs.len(),
                j <= pkgs.len(),
                v == views(pkgs@),
                name <==> exists|k: int| 0 <= k < j && #[trigger] same_name(v, main as int, i as int, k),
                namespace <==> exists|k: int|
                    0 <= k < j && #[trigger] same_name_and_namespace(v, main as int, i as int, k),
            decreases pkgs.len() - j,
        {
            proof {
                assert(v[i as int] == pkgs@[i as int]@);
                assert(v[j as int] == pkgs@[j as int]@);
            }
            if j != i && j != main && pkgs[j].name == pkgs[i].name {
                assert(same_name(v, main as int, i as int, j as int));
                name = true;
                if pkgs[j].namespace == pkgs[i].namespace {
                    assert(same_name_and_namespace(v, main as int, i as int, j as int));
                    namespace = true;
                }
            }
            j = j + 1;
        }
        r.push(Sharing { name, namespace });
        i = i + 1;
    }
    r
}

/// Builds the directory name of one dependency package from what the
/// sharing table says about it.
pub fn identifier_for(p: &PackageName, name_shared: bool, namespace_shared: bool) -> (r: String)
    ensures
        r@ == (if !name_shared {
            bare_identifier(p@)
        } else if !namespace_shared {
            namespaced_identifier(p@)
        } else {
            qualified_identifier(p@)
        }),
{
    proof {
        reveal_strlit("-");
        reveal_strlit(":");
        reveal_strlit("@");
    }
    if !name_shared {
        let mut r = p.name.clone();
        match &p.version {
            Some(v) => {
                r.append("-");
                r.append(v.as_str());
            },
            None => {},
        }
        r
    } else {
        let mut r = p.namespace.clone();
        r.append(":");
        r.append(p.name.as_str());
        if namespace_shared {
            match &p.version {
                Some(v) => {
                    r.append("@");
                    r.append(v.as_str());
                },
                None => {},
            }
        }
        r
    }
}

/// Decides where each package of the graph is written: the main package at
/// the root, every other one under `deps/` with its identifier.
pub fn placements(pkgs: &Vec<PackageName>, main: usize) -> (r: Vec<Placement>)
    ensures
        r@.map_values(|p: Placement| placement_view(p)) == plan(views(pkgs@), main as int),
{
    let table = sharing_table(pkgs, main);
    let mut r: Vec<Placement> = Vec::new();
    let mut i: usize = 0;
    while i < pkgs.len()
        invariant
            i <= pkgs.len(),
            table.len() == pkgs.len(),
            forall|k: int|
                0 <= k < table.len() ==> {
                    &&& (#[trigger] table[k]).name == name_shared(views(pkgs@), main as int, k)
                    &&& table[k].namespace == namespace_shared(views(pkgs@), main as int, k)
                },
            r.len() == i,
            forall|k: int|
                0 <= k < i ==> placement_view(#[trigger] r[k]) == placement_of(
                    views(pkgs@),
                    main as int,
                    k,
                ),
        decreases pkgs.len() - i,
    {
        if i == main {
            r.push(Placement::Main);
        } else {
            let id = identifier_for(&pkgs[i], table[i].name, table[i].namespace);
            assert(views(pkgs@)[i as int] == pkgs@[i as int]@);
            r.push(Placement::Dependency(id));
        }
        i = i + 1;
    }
    assert(r@.map_values(|p: Placement| placement_view(p)) =~= plan(views(pkgs@), main as int));
    r
}

/// The path of a placed file below the output root, one component at a time.
pub fn relative_path(p: &Placement) -> (r: Vec<String>)
    ensures
        r@.map_values(|s: String| s@) == path_of(placement_view(*p)),
{
    match p {
        Placement::Main => {
            let mut r = Vec::new();
            r.push(String::from_str("main.wit"));
            proof {
                assert(r@.map_values(|s: String| s@) =~= path_of(placement_view(*p)));
            }
            r
        },
        Placement::Dependency(id) => {
            let mut r = Vec::new();
            r.push(String::from_str("deps"));
            r.push(id.clone());
            r.push(String::from_str("main.wit"));
            proof {
                assert(r@.map_values(|s: String| s@) =~= path_of(placement_view(*p)));
            }
            r
        },
    }
}

pub open spec fn is_dependency(pkgs: Seq<NameView>, main: int, i: int) -> bool {
    0 <= i < pkgs.len() && i != main
}

/// When no two dependency packages share a name, each one is placed under its
/// bare name, followed by `-<version>` when it has a version.
pub proof fn lemma_distinct_names_are_bare(pkgs: Seq<NameView>, main: int)
    requires
        forall|i: int, j: int|
            0 <= i < pkgs.len() && 0 <= j < pkgs.len() && i != j && i != main && j != main
                ==> #[trigger] pkgs[i].1 != #[trigger] pkgs[j].1,
    ensures
        forall|i: int|
            0 <= i < pkgs.len() && i != main ==> #[trigger] identifier(pkgs, main, i)
                == bare_identifier(pkgs[i]),
{
    assert forall|i: int| 0 <= i < pkgs.len() && i != main implies #[trigger] identifier(
        pkgs,
        main,
        i,
    ) == bare_identifier(pkgs[i]) by {
        assert forall|j: int| !#[trigger] same_name(pkgs, main, i, j) by {
            if 0 <= j < pkgs.len() && j != i && j != main {
                assert(pkgs[i].1 != pkgs[j].1);
            }
        }
    }
}

/// Whether at least two dependency packages are called `name` in namespace
/// `namespace`, or in any namespace when `namespace` is `None`.
pub open spec fn group_of_two(
    pkgs: Seq<NameView>,
    main: int,
    namespace: Option<Seq<char>>,
    name: Seq<char>,
) -> bool {
    exists|a: int, b: int|
        #[trigger] in_group(pkgs, main, namespace, name, a) && #[trigger] in_group(
            pkgs,
            main,
            namespace,
            name,
            b,
        ) && a != b
}

/// Whether package `i` is a dependency called `name` in namespace
/// `namespace`, or in any namespace when `namespace` is `None`.
pub open spec fn in_group(
    pkgs: Seq<NameView>,
    main: int,
    namespace: Option<Seq<char>>,
    name: Seq<char>,
    i: int,
) -> bool {
    &&& is_dependency(pkgs, main, i)
    &&& pkgs[i].1 == name
    &&& namespace matches Some(ns) ==> pkgs[i].0 == ns
}

/// When at least two dependency packages share a name and no two of them
/// share a namespace, each of them is placed under `namespace:name`,
/// whatever the other packages are.
pub proof fn lemma_shared_name_is_namespaced(pkgs: Seq<NameView>, main: int, name: Seq<char>)
    requires
        group_of_two(pkgs, main, None, name),
        forall|i: int, j: int|
            #[trigger] in_group(pkgs, main, None, name, i) && #[trigger] in_group(
                pkgs,
                main,
                None,
                name,
                j,
            ) && i != j ==> pkgs[i].0 != pkgs[j].0,
    ensures
        forall|i: int|
            #[trigger] in_group(pkgs, main, None, name, i) ==> identifier(pkgs, main, i)
                == namespaced_identifier(pkgs[i]),
{
    let (a, b) = choose|a: int, b: int|
        #[trigger] in_group(pkgs, main, None, name, a) && #[trigger] in_group(
            pkgs,
            main,
            None,
            name,
            b,
        ) && a != b;
    assert forall|i: int| #[trigger] in_group(pkgs, main, None, name, i) implies identifier(
        pkgs,
        main,
        i,
    ) == namespaced_identifier(pkgs[i]) by {
        let j = if i == a { b } else { a };
        assert(same_name(pkgs, main, i, j));
        assert forall|k: int| !#[trigger] same_name_and_namespace(pkgs, main, i, k) by {
            if same_name_and_namespace(pkgs, main, i, k) {
                assert(in_group(pkgs, main, None, name, k));
            }
        }
    }
}

/// When at least two dependency packages share a name and a namespace, each
/// of them is placed under `namespace:name@version`, whatever the other
/// packages are.
pub proof fn lemma_shared_namespace_is_qualified(
    pkgs: Seq<NameView>,
    main: int,
    namespace: Seq<char>,
    name: Seq<char>,
)
    requires
        group_of_two(pkgs, main, Some(namespace), name),
    ensures
        forall|i: int|
            #[trigger] in_group(pkgs, main, Some(namespace), name, i) ==> identifier(pkgs, main, i)
                == qualified_identifier(pkgs[i]),
{
    let (a, b) = choose|a: int, b: int|
        #[trigger] in_group(pkgs, main, Some(namespace), name, a) && #[trigger] in_group(
            pkgs,
            main,
            Some(namespace),
            name,
            b,
        ) && a != b;
    assert forall|i: int| #[trigger] in_group(pkgs, main, Some(namespace), name, i) implies identifier(
        pkgs,
        main,
        i,
    ) == qualified_identifier(pkgs[i]) by {
        let j = if i == a { b } else { a };
        assert(same_name(pkgs, main, i, j));
        assert(same_name_and_namespace(pkgs, main, i, j));
    }
}

/// The placement of every package depends on the package names alone, so
/// laying out the same graph again yields the same paths.
pub proof fn lemma_plan_is_stable(a: Seq<PackageName>, b: Seq<PackageName>, main: int)
    requires
        a.len() == b.len(),
        forall|i: int| 0 <= i < a.len() ==> (#[trigger] a[i])@ == b[i]@,
    ensures
        plan(views(a), main) == plan(views(b), main),
{
    assert(views(a) =~= views(b));
}

/// Whether every package of the graph prints.
pub open spec fn printable(graph: Resolve) -> bool {
    forall|i: int| 0 <= i < packages_of(graph).len() ==> (#[trigger] printed_of(graph)[i]) is Some
}

/// One file of the output tree: its path below the root and its text.
pub struct PlannedFile {
    pub path: Vec<String>,
    pub text: String,
}

/// Renders every package of the graph and gives each the path that its
/// placement decides, in package order.
pub fn layout(graph: &Resolve, main: usize) -> (r: Result<Vec<PlannedFile>, String>)
    ensures
        r is Ok <==> printable(*graph),
        r matches Ok(files) ==> {
            &&& files.len() == packages_of(*graph).len()
            &&& forall|i: int|
                0 <= i < files.len() ==> {
                    &&& (#[trigger] files[i]).path@.map_values(|s: String| s@) == path_of(
                        plan(packages_of(*graph), main as int)[i],
                    )
                    &&& printed_of(*graph)[i] == Some(files[i].text@)
                }
        },
{
    let names = package_names(graph);
    let places = placements(&names, main);
    assert(views(names@) == packages_of(*graph));
    let ghost want = plan(packages_of(*graph), main as int);
    let mut files: Vec<PlannedFile> = Vec::new();
    let mut i: usize = 0;
    while i < places.len()
        invariant
            i <= places.len(),
            places.len() == want.len(),
            want.len() == packages_of(*graph).len(),
            places@.map_values(|p: Placement| placement_view(p)) == want,
            files.len() == i,
            forall|k: int|
                0 <= k < i ==> {
                    &&& (#[trigger] files[k]).path@.map_values(|s: String| s@) == path_of(want[k])
                    &&& printed_of(*graph)[k] == Some(files[k].text@)
                },
        decreases places.len() - i,
    {
        let text = match render_package(graph, i) {
            Ok(t) => t,
            Err(e) => {
                return Err(e);
            },
        };
        let path = relative_path(&places[i]);
        assert(placement_view(places@[i as int]) == want[i as int]);
        files.push(PlannedFile { path, text });
        i = i + 1;
    }
    assert forall|k: int| 0 <= k < packages_of(*graph).len() implies (#[trigger] printed_of(
        *graph,
    )[k]) is Some by {
        assert(printed_of(*graph)[k] == Some(files[k].text@));
    }
    Ok(files)
}

} // verus!
