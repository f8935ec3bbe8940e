//! The document graph of wit-parser, as far as the logic reads it: the names
//! of its worlds and of its packages, each by position in the graph.

use crate::compose::{plain_identifier, target_source};
use crate::naming::{NameView, PackageName};
use vstd::prelude::*;
use wit_parser::Resolve;
use wit_component::WitPrinter;

verus! {

#[verifier::external_type_specification]
#[verifier::external_body]
pub struct ExResolve(Resolve);

/// The names of a graph's worlds, in the order of its world arena.
pub uninterp spec fn worlds_of(g: Resolve) -> Seq<Seq<char>>;

/// For each world of a graph, the names of its imports as
/// `Resolve::name_world_key` writes them.
pub uninterp spec fn imports_of(g: Resolve) -> Seq<Set<Seq<char>>>;

/// For each world of a graph, the names of its exports as
/// `Resolve::name_world_key` writes them.
pub uninterp spec fn exports_of(g: Resolve) -> Seq<Set<Seq<char>>>;

/// The names of a graph's packages, in the order of its package arena.
pub uninterp spec fn packages_of(g: Resolve) -> Seq<NameView>;

/// The WIT text that each package of a graph prints to, doc comments left
/// out, in the order of its package arena; `None` where printing fails.
pub uninterp spec fn printed_of(g: Resolve) -> Seq<Option<Seq<char>>>;

/// Whether WIT text parses into an empty graph.
pub uninterp spec fn parses(path: Seq<char>, text: Seq<char>) -> bool;

/// Whether `other` merges into `g` without conflict.
pub uninterp spec fn merges(g: Resolve, other: Resolve) -> bool;

/// The name of the synthetic package, `knitwit:combined`.
pub open spec fn combined_name() -> NameView {
    ("knitwit"@, "combined"@, None)
}

/// What parsing the synthetic package for world `name` gives: that package
/// alone, at position `main`, holding one world `name` with no imports and
/// no exports.
pub open spec fn seeded(g: Resolve, main: int, name: Seq<char>) -> bool {
    &&& main == 0
    &&& packages_of(g) == seq![combined_name()]
    &&& worlds_of(g) == seq![name]
    &&& imports_of(g) == seq![Set::<Seq<char>>::empty()]
    &&& exports_of(g) == seq![Set::<Seq<char>>::empty()]
}

/// The graph that folding world `from` into world `into` gives; `None` where
/// their surfaces conflict.
pub uninterp spec fn folded_of(g: Resolve, from: int, into: int) -> Option<Resolve>;

/// Relies on `Resolve::push_str` on an empty graph: parses WIT text, without
/// reading any file, and returns the graph with the id of the package added.
/// The synthetic package text for a plain world name parses to that package
/// and that world alone.
#[verifier::external_body]
pub(crate) fn seed_graph(path: &str, text: &str) -> (r: Result<(Resolve, usize), String>)
    ensures
        r is Ok <==> parses(path@, text@),
        r matches Ok((g, i)) ==> i < packages_of(g).len(),
        r matches Ok((g, i)) ==> forall|n: Seq<char>|
            #[trigger] target_source(n) == text@ && plain_identifier(n) ==> seeded(g, i as int, n),
{
    let mut g = Resolve::default();
    match g.push_str(path, text) {
        Ok(id) => Ok((g, id.index())),
        Err(e) => Err(format!("{e:?}")),
    }
}

/// Relies on `Resolve::merge`: moves another graph in, unifying what both
/// hold; the worlds and packages already there keep their place and name.
#[verifier::external_body]
pub(crate) fn merge_graph(g: &mut Resolve, other: Resolve) -> (r: Result<(), String>)
    ensures
        r is Ok <==> merges(*old(g), other),
        r is Ok ==> worlds_of(*old(g)).is_prefix_of(worlds_of(*final(g))),
        r is Ok ==> packages_of(*old(g)).is_prefix_of(packages_of(*final(g))),
{
    match g.merge(other) {
        Ok(_) => Ok(()),
        Err(e) => Err(format!("{e:?}")),
    }
}

/// Relies on the iteration order of `Resolve::worlds`: one name per world.
#[verifier::external_body]
pub(crate) fn world_names(g: &Resolve) -> (r: Vec<String>)
    ensures
        r@.map_values(|s: String| s@) == worlds_of(*g),
        imports_of(*g).len() == r.len(),
        exports_of(*g).len() == r.len(),
{
    g.worlds.iter().map(|(_, w)| w.name.clone()).collect()
}

/// Relies on `Resolve::merge_worlds`: adds the imports and exports of world
/// `from` that world `into` lacks to `into`, after checking those both hold;
/// no other world changes, and no world or package is added or renamed. On
/// failure the graph is left as it was.
#[verifier::external_body]
pub(crate) fn merge_world_into(g: &mut Resolve, from: usize, into: usize) -> (r: Result<(), String>)
    requires
        from < worlds_of(*old(g)).len(),
        into < worlds_of(*old(g)).len(),
    ensures
        r is Ok <==> folded_of(*old(g), from as int, into as int) is Some,
        r is Ok ==> folded_of(*old(g), from as int, into as int) == Some(*final(g)),
        r is Err ==> *final(g) == *old(g),
        worlds_of(*final(g)) == worlds_of(*old(g)),
        packages_of(*final(g)) == packages_of(*old(g)),
        imports_of(*final(g)).len() == imports_of(*old(g)).len(),
        exports_of(*final(g)).len() == exports_of(*old(g)).len(),
        r is Ok ==> imports_of(*final(g))[into as int] == imports_of(*old(g))[into as int].union(
            imports_of(*old(g))[from as int],
        ),
        r is Ok ==> exports_of(*final(g))[into as int] == exports_of(*old(g))[into as int].union(
            exports_of(*old(g))[from as int],
        ),
        forall|w: int|
            0 <= w < exports_of(*old(g)).len() && w != into ==> #[trigger] exports_of(
                *final(g),
            )[w] == exports_of(*old(g))[w],
        forall|w: int|
            0 <= w < imports_of(*old(g)).len() && w != into ==> #[trigger] imports_of(
                *final(g),
            )[w] == imports_of(*old(g))[w],
{
    let from = g.worlds.iter().nth(from).unwrap().0;
    let into = g.worlds.iter().nth(into).unwrap().0;
    let mut clone_maps = Default::default();
    match g.merge_worlds(from, into, &mut clone_maps) {
        Ok(()) => Ok(()),
        Err(e) => Err(format!("{e}")),
    }
}

/// Relies on `PackageName` of each package of `Resolve::packages`, with the
/// version as `semver::Version` writes it.
#[verifier::external_body]
pub(crate) fn package_names(g: &Resolve) -> (r: Vec<PackageName>)
    ensures
        r@.map_values(|p: PackageName| p@) == packages_of(*g),
{
    g.packages.iter().map(|(_, p)| PackageName {
        namespace: p.name.namespace.clone(),
        name: p.name.name.clone(),
        version: p.name.version.as_ref().map(|v| v.to_string()),
    }).collect()
}

/// Relies on `WitPrinter::print`, with doc comments left out: the WIT text
/// of one package of the graph.
#[verifier::external_body]
pub(crate) fn render_package(g: &Resolve, i: usize) -> (r: Result<String, String>)
    requires
        i < packages_of(*g).len(),
    ensures
        r is Ok <==> printed_of(*g)[i as int] is Some,
        r matches Ok(t) ==> printed_of(*g)[i as int] == Some(t@),
{
    let id = g.packages.iter().nth(i).unwrap().0;
    let mut printer = WitPrinter::default();
    printer.emit_docs(false);
    match printer.print(g, id, &[]) {
        Ok(()) => Ok(printer.output.to_string()),
        Err(e) => Err(format!("{e:?}")),
    }
}

} // verus!
