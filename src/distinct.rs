//! Placement never gives two dependency packages the same directory, as
//! long as their names follow WIT's rules.

use crate::naming::{
    bare_identifier, identifier, is_dependency, name_shared, namespace_shared,
    namespaced_identifier, qualified_identifier, same_name, same_name_and_namespace, NameView,
};
use vstd::prelude::*;

verus! {

pub open spec fn is_digit(c: char) -> bool {
    '0' <= c && c <= '9'
}

/// Whether a segment of `s` after a `-` starts with a digit.
pub open spec fn has_digit_segment(s: Seq<char>) -> bool {
    exists|k: int| 0 <= k && k + 1 < s.len() && s[k] == '-' && #[trigger] is_digit(s[k + 1])
}

/// What WIT asks of a package name, as far as placement relies on it:
/// namespace and name hold no `:` or `@` and no segment of the name starts
/// with a digit; a version starts with a digit and holds no `:`.
pub open spec fn well_formed(p: NameView) -> bool {
    &&& !p.0.contains(':')
    &&& !p.0.contains('@')
    &&& !p.1.contains(':')
    &&& !p.1.contains('@')
    &&& !has_digit_segment(p.1)
    &&& p.2 matches Some(v) ==> v.len() > 0 && is_digit(v[0]) && !v.contains(':')
}

/// The part of a qualified identifier after `namespace:`.
pub open spec fn after_namespace(p: NameView) -> Seq<char> {
    match p.2 {
        Some(v) => p.1 + seq!['@'] + v,
        None => p.1,
    }
}

proof fn lemma_split(a: Seq<char>, b: Seq<char>, x: Seq<char>, y: Seq<char>, c: char)
    requires
        a + seq![c] + b == x + seq![c] + y,
        !a.contains(c),
        !x.contains(c),
    ensures
        a == x,
        b == y,
{
    let s = a + seq![c] + b;
    if a.len() < x.len() {
        assert(s[a.len() as int] == c);
        assert(x[a.len() as int] == c);
    } else if x.len() < a.len() {
        assert(s[x.len() as int] == c);
        assert(a[x.len() as int] == c);
    } else {
        assert(a =~= s.take(a.len() as int));
        assert(x =~= s.take(a.len() as int));
        assert(b =~= s.skip(a.len() as int + 1));
        assert(y =~= s.skip(a.len() as int + 1));
    }
}

proof fn lemma_has_char(a: Seq<char>, b: Seq<char>, c: char)
    ensures
        (a + seq![c] + b).contains(c),
{
    assert((a + seq![c] + b)[a.len() as int] == c);
}

proof fn lemma_forms(p: NameView)
    ensures
        namespaced_identifier(p) == p.0 + seq![':'] + p.1,
        qualified_identifier(p) == p.0 + seq![':'] + after_namespace(p),
{
    match p.2 {
        Some(v) => {
            assert(p.0 + seq![':'] + p.1 + seq!['@'] + v =~= p.0 + seq![':'] + (p.1 + seq!['@']
                + v));
        },
        None => {},
    }
}

/// `bare` of `p` is shorter than, or as long as, that of `q`.
proof fn lemma_bare_distinct_ordered(p: NameView, q: NameView)
    requires
        well_formed(p),
        well_formed(q),
        p.1 != q.1,
        p.1.len() <= q.1.len(),
    ensures
        bare_identifier(p) != bare_identifier(q),
{
    let s = bare_identifier(p);
    if s == bare_identifier(q) {
        let n = p.1.len() as int;
        assert(s.take(n) =~= p.1);
        if p.1.len() == q.1.len() {
            assert(s.take(n) =~= q.1);
        } else {
            // `p` has a version, since its bare form is longer than its name.
            let v = p.2->Some_0;
            assert(s[n] == '-');
            assert(q.1[n] == '-');
            assert(s[n + 1] == v[0]);
            if n + 1 == q.1.len() {
                assert(s[n + 1] == '-');
            } else {
                assert(q.1[n + 1] == v[0]);
                assert(is_digit(q.1[n + 1]));
            }
        }
    }
}

proof fn lemma_bare_distinct(p: NameView, q: NameView)
    requires
        well_formed(p),
        well_formed(q),
        p.1 != q.1,
    ensures
        bare_identifier(p) != bare_identifier(q),
{
    if p.1.len() <= q.1.len() {
        lemma_bare_distinct_ordered(p, q);
    } else {
        lemma_bare_distinct_ordered(q, p);
    }
}

/// A bare identifier holds no `:`; the other two forms do.
proof fn lemma_colon(p: NameView)
    requires
        well_formed(p),
    ensures
        !bare_identifier(p).contains(':'),
        namespaced_identifier(p).contains(':'),
        qualified_identifier(p).contains(':'),
{
    lemma_forms(p);
    lemma_has_char(p.0, p.1, ':');
    lemma_has_char(p.0, after_namespace(p), ':');
    match p.2 {
        Some(v) => {
            let s = p.1 + seq!['-'] + v;
            assert forall|k: int| 0 <= k < s.len() implies s[k] != ':' by {
                if k < p.1.len() {
                    assert(s[k] == p.1[k]);
                } else if k > p.1.len() {
                    assert(s[k] == v[k - p.1.len() - 1]);
                }
            }
        },
        None => {},
    }
}

/// Two qualified or namespaced identifiers that are equal come from the same
/// namespace and name.
proof fn lemma_same_pair(p: NameView, q: NameView, tp: Seq<char>, tq: Seq<char>)
    requires
        well_formed(p),
        well_formed(q),
        tp == p.1 || tp == after_namespace(p),
        tq == q.1 || tq == after_namespace(q),
        p.0 + seq![':'] + tp == q.0 + seq![':'] + tq,
    ensures
        p.0 == q.0,
        p.1 == q.1,
        tp == after_namespace(p) && tq == after_namespace(q) ==> p.2 == q.2,
        tp == p.1 && tq == after_namespace(q) ==> q.2 is None,
{
    lemma_split(p.0, tp, q.0, tq, ':');
    match (p.2, q.2) {
        (Some(v), Some(w)) => {
            if tp == after_namespace(p) && tq == after_namespace(q) {
                lemma_split(p.1, v, q.1, w, '@');
            } else if tp == after_namespace(p) {
                lemma_has_char(p.1, v, '@');
            } else if tq == after_namespace(q) {
                lemma_has_char(q.1, w, '@');
            }
        },
        (Some(v), None) => {
            if tp == after_namespace(p) {
                lemma_has_char(p.1, v, '@');
            }
        },
        (None, Some(w)) => {
            if tq == after_namespace(q) {
                lemma_has_char(q.1, w, '@');
            }
        },
        (None, None) => {},
    }
}

/// No two dependency packages are placed in the same directory, provided
/// that their full names differ and follow WIT's rules.
pub proof fn lemma_identifiers_are_distinct(pkgs: Seq<NameView>, main: int)
    requires
        forall|i: int| #[trigger] is_dependency(pkgs, main, i) ==> well_formed(pkgs[i]),
        forall|i: int, j: int|
            #[trigger] is_dependency(pkgs, main, i) && #[trigger] is_dependency(pkgs, main, j) && i
                != j ==> pkgs[i] != pkgs[j],
    ensures
        forall|i: int, j: int|
            #[trigger] is_dependency(pkgs, main, i) && #[trigger] is_dependency(pkgs, main, j) && i
                != j ==> identifier(pkgs, main, i) != identifier(pkgs, main, j),
{
    assert forall|i: int, j: int|
        #[trigger] is_dependency(pkgs, main, i) && #[trigger] is_dependency(pkgs, main, j) && i
            != j implies identifier(pkgs, main, i) != identifier(pkgs, main, j) by {
        let p = pkgs[i];
        let q = pkgs[j];
        lemma_colon(p);
        lemma_colon(q);
        lemma_forms(p);
        lemma_forms(q);
        if identifier(pkgs, main, i) == identifier(pkgs, main, j) {
            let ni = name_shared(pkgs, main, i);
            let nj = name_shared(pkgs, main, j);
            if !ni && !nj {
                if p.1 == q.1 {
                    assert(same_name(pkgs, main, i, j));
                }
                lemma_bare_distinct(p, q);
            } else if ni && nj {
                let tp = if namespace_shared(pkgs, main, i) { after_namespace(p) } else { p.1 };
                let tq = if namespace_shared(pkgs, main, j) { after_namespace(q) } else { q.1 };
                lemma_same_pair(p, q, tp, tq);
                lemma_same_pair(q, p, tq, tp);
                assert(same_name_and_namespace(pkgs, main, i, j));
                assert(same_name_and_namespace(pkgs, main, j, i));
                if p.2 == q.2 {
                    assert(p =~= q);
                }
            }
        }
    }
}

} // verus!
