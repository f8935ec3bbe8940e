//! Composition of the output world: the synthetic package that holds it, and
//! the lookup of the worlds that are folded into it.

use crate::graph::{
    combined_name, exports_of, folded_of, imports_of, merge_graph, merge_world_into, merges,
    packages_of, parses, seed_graph, seeded, world_names, worlds_of,
};
use vstd::prelude::*;
use wit_parser::Resolve;

verus! {

/// The WIT text of the synthetic package `knitwit:combined`, holding one
/// empty world named `world_name`.
pub open spec fn target_source(world_name: Seq<char>) -> Seq<char> {
    "package knitwit:combined;\n\nworld "@ + world_name + " {\n}"@
}

/// Writes the source of the synthetic package that every merge targets.
pub fn target_wit_source(world_name: &str) -> (r: String)
    ensures
        r@ == target_source(world_name@),
{
    let mut r = String::from_str("package knitwit:combined;\n\nworld ");
    r.append(world_name);
    r.append(" {\n}");
    r
}

/// Whether `name` is a plain WIT identifier: letters, digits and `-` only.
pub open spec fn plain_identifier(name: Seq<char>) -> bool {
    forall|k: int|
        0 <= k < name.len() ==> {
            let c = #[trigger] name[k];
            ('a' <= c && c <= 'z') || ('A' <= c && c <= 'Z') || ('0' <= c && c <= '9') || c == '-'
        }
}

/// Whether `i` is the first position of `name` in `names`.
pub open spec fn first_index(names: Seq<Seq<char>>, name: Seq<char>, i: int) -> bool {
    &&& 0 <= i < names.len()
    &&& names[i] == name
    &&& forall|k: int| 0 <= k < i ==> names[k] != name
}

pub open spec fn contains(names: Seq<Seq<char>>, name: Seq<char>) -> bool {
    exists|k: int| 0 <= k < names.len() && names[k] == name
}

pub open spec fn string_views(v: Seq<String>) -> Seq<Seq<char>> {
    v.map_values(|s: String| s@)
}

/// Finds the first world called `name`.
pub fn find_world(names: &Vec<String>, name: &str) -> (r: Option<usize>)
    ensures
        match r {
            Some(i) => first_index(string_views(names@), name@, i as int),
            None => !contains(string_views(names@), name@),
        },
{
    let ghost v = string_views(names@);
    let wanted = String::from_str(name);
    let mut i: usize = 0;
    while i < names.len()
        invariant
            i <= names.len(),
            v == string_views(names@),
            wanted@ == name@,
            forall|k: int| 0 <= k < i ==> v[k] != name@,
        decreases names.len() - i,
    {
        assert(v[i as int] == names@[i as int]@);
        if names[i] == wanted {
            return Some(i);
        }
        i = i + 1;
    }
    None
}

/// Whether every name of `wanted` is among `names`.
pub open spec fn all_present(names: Seq<Seq<char>>, wanted: Seq<Seq<char>>) -> bool {
    forall|k: int| 0 <= k < wanted.len() ==> contains(names, #[trigger] wanted[k])
}

/// The name reported missing: the target world if it is absent, else the
/// first absent auxiliary world.
pub open spec fn first_missing(
    names: Seq<Seq<char>>,
    target: Seq<char>,
    aux: Seq<Seq<char>>,
    missing: Seq<char>,
) -> bool {
    if !contains(names, target) {
        missing == target
    } else {
        exists|k: int|
            0 <= k < aux.len() && aux[k] == missing && !contains(names, missing) && all_present(
                names,
                aux.take(k),
            )
    }
}

/// The worlds that composition works on, by position among the graph's
/// worlds: the target and each auxiliary world in the order given.
pub struct WorldSelection {
    pub target: usize,
    pub folded: Vec<usize>,
}

/// Looks up the target world and every auxiliary world by exact name, or
/// names the first one that does not exist.
pub fn locate_worlds(names: &Vec<String>, target: &str, aux: &Vec<String>) -> (r: Result<
    WorldSelection,
    String,
>)
    ensures
        r is Ok <==> contains(string_views(names@), target@) && all_present(
            string_views(names@),
            string_views(aux@),
        ),
        r matches Ok(s) ==> {
            &&& first_index(string_views(names@), target@, s.target as int)
            &&& s.folded.len() == aux.len()
            &&& forall|k: int|
                0 <= k < aux.len() ==> first_index(
                    string_views(names@),
                    aux@[k]@,
                    #[trigger] s.folded[k] as int,
                )
        },
        r matches Err(m) ==> first_missing(
            string_views(names@),
            target@,
            string_views(aux@),
            m@,
        ),
{
    let ghost v = string_views(names@);
    let ghost a = string_views(aux@);
    let t = match find_world(names, target) {
        Some(t) => t,
        None => {
            return Err(String::from_str(target));
        },
    };
    let mut folded: Vec<usize> = Vec::new();
    let mut k: usize = 0;
    while k < aux.len()
        invariant
            k <= aux.len(),
            v == string_views(names@),
            a == string_views(aux@),
            contains(v, target@),
            folded.len() == k,
            forall|j: int| 0 <= j < k ==> first_index(v, aux@[j]@, #[trigger] folded[j] as int),
            all_present(v, a.take(k as int)),
        decreases aux.len() - k,
    {
        assert(a[k as int] == aux@[k as int]@);
        match find_world(names, aux[k].as_str()) {
            Some(w) => {
                folded.push(w);
                assert(all_present(v, a.take(k + 1))) by {
                    assert forall|j: int| 0 <= j < k + 1 implies contains(
                        v,
                        #[trigger] a.take(k + 1)[j],
                    ) by {
                        if j < k {
                            assert(a.take(k + 1)[j] == a.take(k as int)[j]);
                        } else {
                            assert(v[w as int] == a[k as int]);
                        }
                    }
                }
            },
            None => {
                proof {
                    assert(!all_present(v, a)) by {
                        assert(!contains(v, a[k as int]));
                    }
                }
                return Err(aux[k].clone());
            },
        }
        k = k + 1;
    }
    assert(a.take(aux.len() as int) =~= a);
    Ok(WorldSelection { target: t, folded })
}

/// Why composition stopped.
pub enum ComposeError {
    /// The synthetic package could not be parsed (the world name is not a
    /// valid WIT identifier).
    Target(String),
    /// A source disagrees with what was merged before it.
    Merge(String),
    /// No world of the merged graph has this name.
    MissingWorld(String),
    /// Folding this world into the target world failed.
    WorldMerge { world: String, message: String },
}

/// The combined graph and the position of its main package.
pub struct Composed {
    pub graph: Resolve,
    pub main: usize,
}

/// The first position of `name` in `names`.
pub open spec fn first_pos(names: Seq<Seq<char>>, name: Seq<char>) -> int {
    choose|i: int| first_index(names, name, i)
}

/// The first position of each name of `aux` in `names`.
pub open spec fn positions(names: Seq<Seq<char>>, aux: Seq<Seq<char>>) -> Seq<usize> {
    Seq::new(aux.len(), |k: int| first_pos(names, aux[k]) as usize)
}

pub open spec fn worlds_found(g: Resolve, target: Seq<char>, aux: Seq<Seq<char>>) -> bool {
    contains(worlds_of(g), target) && all_present(worlds_of(g), aux)
}

/// Folding the worlds named `aux` into the world named `target`, in order.
pub open spec fn folding(g: Resolve, target: Seq<char>, aux: Seq<Seq<char>>) -> Result<Resolve, int> {
    fold_seq(g, first_pos(worlds_of(g), target), positions(worlds_of(g), aux))
}

/// What folding the worlds named `aux` into the world named `target` of the
/// merged graph `m` gives: the folded graph, the first missing world, or the
/// auxiliary world whose fold failed.
pub open spec fn finished(
    m: Resolve,
    target: Seq<char>,
    aux: Seq<Seq<char>>,
    r: Result<Resolve, ComposeError>,
) -> bool {
    match r {
        Ok(g) => {
            &&& worlds_found(m, target, aux)
            &&& folding(m, target, aux) == Ok::<Resolve, int>(g)
            &&& packages_of(g) == packages_of(m)
            &&& folds_requested(m, g, target, aux)
        },
        Err(ComposeError::MissingWorld(n)) => {
            &&& !worlds_found(m, target, aux)
            &&& first_missing(worlds_of(m), target, aux, n@)
        },
        Err(ComposeError::WorldMerge { world, .. }) => {
            &&& worlds_found(m, target, aux)
            &&& folding(m, target, aux) matches Err(k)
            &&& 0 <= k < aux.len()
            &&& world@ == aux[k]
        },
        _ => false,
    }
}

/// The graph part of a composition's result.
pub open spec fn graph_result(r: Result<Composed, ComposeError>) -> Result<Resolve, ComposeError> {
    match r {
        Ok(c) => Ok(c.graph),
        Err(e) => Err(e),
    }
}

/// What the merged graph keeps of the seeded one: the synthetic package
/// first and, for a plain world name, the target world first.
pub open spec fn seeded_prefix(m: Resolve, target: Seq<char>) -> bool {
    plain_identifier(target) ==> {
        &&& packages_of(m).len() > 0
        &&& packages_of(m)[0] == combined_name()
        &&& worlds_of(m).len() > 0
        &&& worlds_of(m)[0] == target
    }
}

proof fn lemma_first_pos(names: Seq<Seq<char>>, name: Seq<char>, i: int)
    requires
        first_index(names, name, i),
    ensures
        first_pos(names, name) == i,
{
    let j = first_pos(names, name);
    assert(first_index(names, name, j));
    if j < i {
        assert(names[j] != name);
    } else if i < j {
        assert(names[i] != name);
    }
}

/// With a plain target name the merged graph holds the target world, so a
/// missing world is always one of the auxiliary worlds, absent from the graph.
pub proof fn lemma_missing_world_is_auxiliary(
    m: Resolve,
    target: Seq<char>,
    aux: Seq<Seq<char>>,
    n: Seq<char>,
)
    requires
        plain_identifier(target),
        seeded_prefix(m, target),
        first_missing(worlds_of(m), target, aux, n),
    ensures
        contains(aux, n),
        !contains(worlds_of(m), n),
{
    assert(worlds_of(m)[0] == target);
    assert(contains(worlds_of(m), target));
}

/// Looks up the target world and the auxiliary worlds of a merged graph by
/// name and folds the auxiliary worlds into the target world, in order.
pub fn finish(graph: Resolve, target: &str, aux: &Vec<String>) -> (r: Result<Resolve, ComposeError>)
    ensures
        finished(graph, target@, string_views(aux@), r),
{
    let mut graph = graph;
    let ghost merged = graph;
    let ghost a = string_views(aux@);
    let names = world_names(&graph);
    let selection = match locate_worlds(&names, target, aux) {
        Ok(s) => s,
        Err(missing) => {
            return Err(ComposeError::MissingWorld(missing));
        },
    };
    proof {
        lemma_first_pos(worlds_of(merged), target@, selection.target as int);
        assert forall|k: int| 0 <= k < a.len() implies first_index(
            worlds_of(merged),
            #[trigger] a[k],
            selection.folded@[k] as int,
        ) by {
            assert(a[k] == aux@[k]@);
        }
        assert forall|k: int| 0 <= k < a.len() implies #[trigger] selection.folded@[k]
            == positions(worlds_of(merged), a)[k] by {
            lemma_first_pos(worlds_of(merged), a[k], selection.folded@[k] as int);
        }
        assert(selection.folded@ =~= positions(worlds_of(merged), a));
    }
    match fold_worlds(&mut graph, selection.target, &selection.folded) {
        Ok(()) => {},
        Err((k, message)) => {
            return Err(ComposeError::WorldMerge { world: aux[k].clone(), message });
        },
    }
    proof {
        assert(folds_requested(merged, graph, target@, a));
    }
    Ok(graph)
}

/// Builds the combined graph: a fresh graph holding the synthetic package
/// with an empty world `target`, then every source merged in, in order, then
/// every auxiliary world folded into the target world, in order. It stops at
/// the first failure.
pub fn compose(target: &str, sources: Vec<Resolve>, aux: &Vec<String>) -> (r: Result<
    Composed,
    ComposeError,
>)
    ensures
        r matches Err(ComposeError::Target(_)) <==> !parses(
            "component.wit"@,
            target_source(target@),
        ),
        r matches Err(ComposeError::Merge(_)) ==> exists|g: Resolve, k: int|
            0 <= k < sources.len() && !#[trigger] merges(g, sources@[k]),
        !(r matches Err(ComposeError::Target(_))) && !(r matches Err(ComposeError::Merge(_)))
            ==> exists|m: Resolve|
            #[trigger] seeded_prefix(m, target@) && finished(
                m,
                target@,
                string_views(aux@),
                graph_result(r),
            ),
        r matches Ok(c) ==> c.main < packages_of(c.graph).len(),
        r matches Ok(c) ==> plain_identifier(target@) ==> c.main == 0 && packages_of(c.graph)[0]
            == combined_name(),
{
    let text = target_wit_source(target);
    let (mut graph, main) = match seed_graph("component.wit", text.as_str()) {
        Ok(seeded) => seeded,
        Err(e) => {
            return Err(ComposeError::Target(e));
        },
    };
    proof {
        if plain_identifier(target@) {
            assert(target_source(target@) == text@);
            assert(seeded(graph, main as int, target@));
        }
    }
    let mut rest = sources;
    let ghost all = rest@;
    let total: usize = rest.len();
    let mut done: usize = 0;
    while rest.len() > 0
        invariant
            all == sources@,
            parses("component.wit"@, target_source(target@)),
            done + rest.len() == all.len(),
            all.len() == total,
            rest@ == all.skip(done as int),
            main < packages_of(graph).len(),
            seeded_prefix(graph, target@),
            plain_identifier(target@) ==> main == 0,
        decreases rest.len(),
    {
        let source = rest.remove(0);
        proof {
            assert(rest@ =~= all.skip(done + 1));
            assert(source == all[done as int]);
        }
        let ghost before = graph;
        match merge_graph(&mut graph, source) {
            Ok(()) => {},
            Err(e) => {
                proof {
                    assert(!merges(before, sources@[done as int]));
                }
                return Err(ComposeError::Merge(e));
            },
        }
        proof {
            if plain_identifier(target@) {
                assert(packages_of(graph)[0] == packages_of(before)[0]);
                assert(worlds_of(graph)[0] == worlds_of(before)[0]);
            }
        }
        done = done + 1;
    }
    let ghost merged = graph;
    match finish(graph, target, aux) {
        Ok(g) => {
            proof {
                assert(graph_result(Ok::<Composed, ComposeError>(Composed { graph: g, main })) == Ok::<Resolve, ComposeError>(g));
            }
            Ok(Composed { graph: g, main })
        },
        Err(e) => {
            proof {
                assert(seeded_prefix(merged, target@));
            }
            Err(e)
        },
    }
}

/// The names that the worlds at `folded` hold together, given each world's
/// names in `surfaces`.
pub open spec fn union_over(surfaces: Seq<Set<Seq<char>>>, folded: Seq<usize>) -> Set<
    Seq<char>,
>
    decreases folded.len(),
{
    if folded.len() == 0 {
        Set::empty()
    } else {
        union_over(surfaces, folded.drop_last()).union(surfaces[folded.last() as int])
    }
}

/// Whether `new` is `old` with the surfaces at `folded` added to world
/// `target`, every other world as it was.
pub open spec fn folded_into(
    old: Seq<Set<Seq<char>>>,
    new: Seq<Set<Seq<char>>>,
    target: int,
    folded: Seq<usize>,
) -> bool {
    &&& new.len() == old.len()
    &&& new[target] == old[target].union(union_over(old, folded))
    &&& forall|w: int| 0 <= w < old.len() && w != target ==> #[trigger] new[w] == old[w]
}

/// Whether `graph` is `merged` with every world named in `aux` folded into
/// the world named `target`, each found by its first position, in order.
pub open spec fn folds_requested(
    merged: Resolve,
    graph: Resolve,
    target: Seq<char>,
    aux: Seq<Seq<char>>,
) -> bool {
    exists|t: int, folded: Seq<usize>|
        {
            &&& worlds_of(graph) == worlds_of(merged)
            &&& first_index(worlds_of(merged), target, t)
            &&& folded.len() == aux.len()
            &&& (forall|k: int|
                0 <= k < aux.len() ==> first_index(worlds_of(merged), aux[k], #[trigger] folded[k] as int))
            &&& folded_into(imports_of(merged), imports_of(graph), t, folded)
            &&& folded_into(exports_of(merged), exports_of(graph), t, folded)
        }
}

/// Folding the worlds at `folded` into world `into` one after the other: the
/// resulting graph, or the position of the first fold that fails.
pub open spec fn fold_seq(g: Resolve, into: int, folded: Seq<usize>) -> Result<Resolve, int>
    decreases folded.len(),
{
    if folded.len() == 0 {
        Ok(g)
    } else {
        match fold_seq(g, into, folded.drop_last()) {
            Ok(h) => match folded_of(h, folded.last() as int, into) {
                Some(next) => Ok(next),
                None => Err(folded.len() - 1),
            },
            Err(k) => Err(k),
        }
    }
}

proof fn lemma_fold_error_stays(g: Resolve, into: int, s: Seq<usize>, n: int)
    requires
        0 <= n <= s.len(),
        fold_seq(g, into, s.take(n)) is Err,
    ensures
        fold_seq(g, into, s) == fold_seq(g, into, s.take(n)),
    decreases s.len() - n,
{
    if n < s.len() {
        assert(s.take(n + 1).drop_last() =~= s.take(n));
        lemma_fold_error_stays(g, into, s, n + 1);
    } else {
        assert(s.take(n) =~= s);
    }
}

/// Folds the worlds at `folded` into world `target`, in order. On failure it
/// returns the position in `folded` of the world that could not be folded.
pub fn fold_worlds(graph: &mut Resolve, target: usize, folded: &Vec<usize>) -> (r: Result<
    (),
    (usize, String),
>)
    requires
        target < worlds_of(*old(graph)).len(),
        forall|k: int| 0 <= k < folded.len() ==> #[trigger] folded[k] < worlds_of(*old(graph)).len(),
    ensures
        worlds_of(*final(graph)) == worlds_of(*old(graph)),
        packages_of(*final(graph)) == packages_of(*old(graph)),
        r is Ok <==> fold_seq(*old(graph), target as int, folded@) is Ok,
        r is Ok ==> fold_seq(*old(graph), target as int, folded@) == Ok::<Resolve, int>(*final(graph)),
        r matches Err((k, _)) ==> k < folded.len() && fold_seq(*old(graph), target as int, folded@)
            == Err::<Resolve, int>(k as int),
        r is Ok ==> folded_into(imports_of(*old(graph)), imports_of(*final(graph)), target as int, folded@),
        r is Ok ==> folded_into(exports_of(*old(graph)), exports_of(*final(graph)), target as int, folded@),
{
    let names = world_names(graph);
    let ghost start = *graph;
    let ghost worlds = worlds_of(*graph);
    let ghost packages = packages_of(*graph);
    let ghost imports = imports_of(*graph);
    let ghost exports = exports_of(*graph);
    proof {
        assert(folded@.take(0) =~= Seq::<usize>::empty());
        assert(fold_seq(start, target as int, folded@.take(0)) == Ok::<Resolve, int>(start));
        assert(imports[target as int].union(Set::empty()) =~= imports[target as int]);
        assert(exports[target as int].union(Set::empty()) =~= exports[target as int]);
    }
    let mut k: usize = 0;
    while k < folded.len()
        invariant
            k <= folded.len(),
            worlds == worlds_of(*old(graph)),
            packages == packages_of(*old(graph)),
            imports == imports_of(*old(graph)),
            exports == exports_of(*old(graph)),
            start == *old(graph),
            fold_seq(start, target as int, folded@.take(k as int)) == Ok::<Resolve, int>(*graph),
            target < worlds.len(),
            imports.len() == worlds.len(),
            exports.len() == worlds.len(),
            forall|j: int| 0 <= j < folded.len() ==> #[trigger] folded[j] < worlds.len(),
            worlds_of(*graph) == worlds,
            packages_of(*graph) == packages,
            folded_into(imports, imports_of(*graph), target as int, folded@.take(k as int)),
            folded_into(exports, exports_of(*graph), target as int, folded@.take(k as int)),
        decreases folded.len() - k,
    {
        let from = folded[k];
        let ghost before_imports = imports_of(*graph);
        let ghost before_exports = exports_of(*graph);
        let ghost before = *graph;
        let ghost next = folded@.take(k + 1);
        proof {
            assert(next.drop_last() =~= folded@.take(k as int));
            assert(next.last() == from);
        }
        match merge_world_into(graph, from, target) {
            Ok(()) => {},
            Err(message) => {
                proof {
                    assert(fold_seq(start, target as int, next) == Err::<Resolve, int>(k as int));
                    lemma_fold_error_stays(start, target as int, folded@, k + 1);
                }
                return Err((k, message));
            },
        }
        proof {
            lemma_fold_step(imports, before_imports, imports_of(*graph), target as int, from as int, folded@.take(k as int), next);
            lemma_fold_step(exports, before_exports, exports_of(*graph), target as int, from as int, folded@.take(k as int), next);
        }
        k = k + 1;
    }
    assert(folded@.take(folded.len() as int) =~= folded@);
    Ok(())
}

proof fn lemma_fold_step(
    start: Seq<Set<Seq<char>>>,
    before: Seq<Set<Seq<char>>>,
    after: Seq<Set<Seq<char>>>,
    target: int,
    from: int,
    done: Seq<usize>,
    next: Seq<usize>,
)
    requires
        0 <= target < start.len(),
        0 <= from < start.len(),
        next.len() > 0,
        next.drop_last() == done,
        next.last() == from,
        folded_into(start, before, target, done),
        after.len() == before.len(),
        after[target] == before[target].union(before[from]),
        forall|w: int| 0 <= w < before.len() && w != target ==> #[trigger] after[w] == before[w],
    ensures
        folded_into(start, after, target, next),
{
    assert(union_over(start, next) == union_over(start, done).union(start[from]));
    if from == target {
        assert(after[target] =~= start[target].union(union_over(start, next)));
    } else {
        assert(before[from] == start[from]);
        assert(after[target] =~= start[target].union(union_over(start, next)));
    }
}

/// Folding two worlds into a world that has no exports leaves it exporting
/// exactly the names that either of the two exports, each once.
pub proof fn lemma_fold_two_into_empty(
    old: Seq<Set<Seq<char>>>,
    new: Seq<Set<Seq<char>>>,
    target: int,
    a: usize,
    b: usize,
)
    requires
        0 <= target < old.len(),
        a < old.len(),
        b < old.len(),
        old[target] == Set::<Seq<char>>::empty(),
        folded_into(old, new, target, seq![a, b]),
    ensures
        new[target] == old[a as int].union(old[b as int]),
{
    let s = seq![a, b];
    assert(s.drop_last() =~= seq![a]);
    assert(seq![a].drop_last() =~= Seq::<usize>::empty());
    assert(s.last() == b);
    assert(seq![a].last() == a);
    assert(union_over(old, Seq::<usize>::empty()) == Set::<Seq<char>>::empty());
    assert(union_over(old, seq![a]) == union_over(old, Seq::<usize>::empty()).union(
        old[a as int],
    ));
    assert(union_over(old, seq![a]) =~= old[a as int]);
    assert(union_over(old, s) =~= old[a as int].union(old[b as int]));
    assert(new[target] =~= old[a as int].union(old[b as int]));
}

} // verus!
