//! The mathematical model shared by the whole crate.
//!
//! A recipe is identified by the *set* of (views of) its ingredient names;
//! a catalog is a map from ingredient name to its integer ratio.  This module
//! defines how a vector of names is read as such a set, and the sum of the
//! catalog ratios over a set of names, together with the lemmas that relate
//! the two to the executable vector operations.

use vstd::prelude::*;
use vstd::set::fold::{is_fun_commutative, lemma_finite_set_induct, lemma_fold_empty, lemma_fold_insert};

verus! {

/// The views of the names in a vector of ingredient names.
pub open spec fn name_views(v: Seq<String>) -> Seq<Seq<char>> {
    v.map_values(|s: String| s@)
}

/// The set of (views of) names in a vector of ingredient names.
pub open spec fn name_set(v: Seq<String>) -> Set<Seq<char>> {
    name_views(v).to_set()
}

/// No two entries of the vector hold the same name.
pub open spec fn distinct_names(v: Seq<String>) -> bool {
    name_views(v).no_duplicates()
}

/// A distinct name vector has exactly as many set members as entries.
pub proof fn lemma_name_set_len(v: Seq<String>)
    ensures
        name_set(v).finite(),
        name_set(v).len() <= v.len(),
        distinct_names(v) ==> name_set(v).len() == v.len(),
{
    broadcast use vstd::seq_lib::group_seq_properties;

    name_views(v).lemma_cardinality_of_set();
    if distinct_names(v) {
        name_views(v).unique_seq_to_set();
    }
}

/// Pushing one name onto the vector inserts its view into the set.
pub proof fn lemma_push_name(v: Seq<String>, x: String)
    ensures
        name_views(v.push(x)) =~= name_views(v).push(x@),
        name_set(v.push(x)) =~= name_set(v).insert(x@),
        distinct_names(v) && !name_set(v).contains(x@) ==> distinct_names(v.push(x)),
{
    assert(name_views(v.push(x)) =~= name_views(v).push(x@));
    let pv = name_views(v).push(x@);
    assert forall|y: Seq<char>| name_set(v.push(x)).contains(y) implies name_set(v).insert(
        x@,
    ).contains(y) by {
        let i = choose|i: int| 0 <= i < pv.len() && pv[i] == y;
        if i < name_views(v).len() {
            assert(name_views(v)[i] == y);
        }
    }
    assert forall|y: Seq<char>| name_set(v).insert(x@).contains(y) implies name_set(
        v.push(x),
    ).contains(y) by {
        if y == x@ {
            assert(pv[v.len() as int] == y);
        } else {
            let i = choose|i: int| 0 <= i < name_views(v).len() && name_views(v)[i] == y;
            assert(pv[i] == y);
        }
    }
    if distinct_names(v) && !name_set(v).contains(x@) {
        assert forall|i: int, j: int|
            0 <= i < pv.len() && 0 <= j < pv.len() && i != j implies pv[i] != pv[j] by {
            if i == v.len() as int {
                assert(name_views(v)[j] == pv[j]);
            } else if j == v.len() as int {
                assert(name_views(v)[i] == pv[i]);
            }
        }
    }
}

/// Removing the entry at index `i` of a distinct vector removes its view
/// from the set, and keeps the remaining entries distinct.
pub proof fn lemma_remove_name(v: Seq<String>, i: int)
    requires
        0 <= i < v.len(),
        distinct_names(v),
    ensures
        name_views(v.remove(i)) =~= name_views(v).remove(i),
        name_set(v.remove(i)) =~= name_set(v).remove(v[i]@),
        distinct_names(v.remove(i)),
{
    let w = name_views(v).remove(i);
    assert(name_views(v.remove(i)) =~= w);
    assert forall|y: Seq<char>| name_set(v.remove(i)).contains(y) implies name_set(v).remove(
        v[i]@,
    ).contains(y) by {
        let j = choose|j: int| 0 <= j < w.len() && w[j] == y;
        if j < i {
            assert(name_views(v)[j] == y);
            assert(name_views(v)[j] != name_views(v)[i]);
        } else {
            assert(name_views(v)[j + 1] == y);
            assert(name_views(v)[j + 1] != name_views(v)[i]);
        }
    }
    assert forall|y: Seq<char>| name_set(v).remove(v[i]@).contains(y) implies name_set(
        v.remove(i),
    ).contains(y) by {
        let j = choose|j: int| 0 <= j < name_views(v).len() && name_views(v)[j] == y;
        if j < i {
            assert(w[j] == y);
        } else {
            assert(j != i);
            assert(w[j - 1] == y);
        }
    }
}

/// How the name set of a prefix of the vector relates to the whole.
pub proof fn lemma_take_name(v: Seq<String>, i: int)
    requires
        0 <= i < v.len(),
    ensures
        name_views(v.take(i)) =~= name_views(v).take(i),
        name_set(v.take(i)) <= name_set(v),
        name_set(v.take(i + 1)) =~= name_set(v.take(i)).insert(v[i]@),
        distinct_names(v) ==> distinct_names(v.take(i)),
        distinct_names(v) ==> !name_set(v.take(i)).contains(v[i]@),
{
    assert(name_views(v.take(i)) =~= name_views(v).take(i));
    assert forall|y: Seq<char>| name_set(v.take(i)).contains(y) implies name_set(v).contains(
        y,
    ) by {
        let k = choose|k: int| 0 <= k < name_views(v.take(i)).len() && name_views(v.take(i))[k]
            == y;
        assert(name_views(v)[k] == y);
    }
    assert(v.take(i + 1) =~= v.take(i).push(v[i]));
    lemma_push_name(v.take(i), v[i]);
    if distinct_names(v) {
        assert forall|a: int, b: int|
            0 <= a < i && 0 <= b < i && a != b implies name_views(v.take(i))[a] != name_views(
            v.take(i),
        )[b] by {
            assert(name_views(v)[a] == name_views(v.take(i))[a]);
            assert(name_views(v)[b] == name_views(v.take(i))[b]);
        }
        if name_set(v.take(i)).contains(v[i]@) {
            let k = choose|k: int|
                0 <= k < name_views(v.take(i)).len() && name_views(v.take(i))[k] == v[i]@;
            assert(name_views(v)[k] == v[i]@);
            assert(name_views(v)[i] == v[i]@);
            assert(false);
        }
    }
}

/// A name is in the set of a vector exactly when some entry holds it.
pub proof fn lemma_name_set_contains(v: Seq<String>, y: Seq<char>)
    ensures
        name_set(v).contains(y) <==> exists|i: int| 0 <= i < v.len() && v[i]@ == y,
{
    if name_set(v).contains(y) {
        let i = choose|i: int| 0 <= i < name_views(v).len() && name_views(v)[i] == y;
        assert(v[i]@ == y);
    }
    if exists|i: int| 0 <= i < v.len() && v[i]@ == y {
        let i = choose|i: int| 0 <= i < v.len() && v[i]@ == y;
        assert(name_views(v)[i] == y);
    }
}

/// Pushing an element onto any sequence inserts it into the sequence's set.
pub proof fn lemma_to_set_push<A>(s: Seq<A>, x: A)
    ensures
        s.push(x).to_set() =~= s.to_set().insert(x),
{
    assert forall|y: A| s.push(x).to_set().contains(y) implies s.to_set().insert(x).contains(
        y,
    ) by {
        let i = choose|i: int| 0 <= i < s.push(x).len() && s.push(x)[i] == y;
        if i < s.len() {
            assert(s[i] == y);
        }
    }
    assert forall|y: A| s.to_set().insert(x).contains(y) implies s.push(x).to_set().contains(
        y,
    ) by {
        if y == x {
            assert(s.push(x)[s.len() as int] == y);
        } else {
            let i = choose|i: int| 0 <= i < s.len() && s[i] == y;
            assert(s.push(x)[i] == y);
        }
    }
}

/// The folding step of the sum below: account one more member's ratio.
pub open spec fn add_ratio(t: Map<Seq<char>, int>) -> spec_fn(int, Seq<char>) -> int {
    |acc: int, x: Seq<char>| acc + t[x]
}

/// The sum of the catalog ratios of the members of `s`.
pub open spec fn sum_ratios(t: Map<Seq<char>, int>, s: Set<Seq<char>>) -> int {
    s.fold(0, add_ratio(t))
}

proof fn lemma_add_ratio_commutative(t: Map<Seq<char>, int>)
    ensures
        is_fun_commutative(add_ratio(t)),
{
}

/// The sum over the empty set is zero.
pub proof fn lemma_sum_empty(t: Map<Seq<char>, int>)
    ensures
        sum_ratios(t, Set::empty()) == 0,
{
    lemma_fold_empty(0, add_ratio(t));
}

/// Inserting a fresh member adds exactly its ratio to the sum.
pub proof fn lemma_sum_insert(t: Map<Seq<char>, int>, s: Set<Seq<char>>, x: Seq<char>)
    requires
        s.finite(),
        !s.contains(x),
    ensures
        sum_ratios(t, s.insert(x)) == sum_ratios(t, s) + t[x],
{
    lemma_add_ratio_commutative(t);
    lemma_fold_insert(s, 0, add_ratio(t), x);
}

/// Every ratio that `s` can reach in `t` lies in the `i64` range.
pub open spec fn ratios_in_i64(t: Map<Seq<char>, int>, s: Set<Seq<char>>) -> bool {
    forall|x: Seq<char>| s.contains(x) ==> i64::MIN <= #[trigger] t[x] <= i64::MAX
}

/// A sum of `|s|` ratios, each within the `i64` range, is bounded by
/// `|s|` times that range.
pub proof fn lemma_sum_bound(t: Map<Seq<char>, int>, s: Set<Seq<char>>)
    requires
        s.finite(),
        ratios_in_i64(t, s),
    ensures
        s.len() * (i64::MIN as int) <= sum_ratios(t, s) <= s.len() * (i64::MAX as int),
{
    let pred = |s2: Set<Seq<char>>|
        (ratios_in_i64(t, s2) ==> s2.len() * (i64::MIN as int) <= sum_ratios(t, s2) <= s2.len() * (
        i64::MAX as int));
    assert(pred(Set::<Seq<char>>::empty())) by {
        lemma_sum_empty(t);
    }
    assert forall|s2: Set<Seq<char>>, a: Seq<char>|
        pred(s2) && s2.finite() && !s2.contains(a) implies #[trigger] pred(s2.insert(a)) by {
        if ratios_in_i64(t, s2.insert(a)) {
            assert(ratios_in_i64(t, s2));
            assert(s2.insert(a).contains(a));
            lemma_sum_insert(t, s2, a);
            let n = s2.len() as int;
            assert((n + 1) * (i64::MIN as int) == n * (i64::MIN as int) + (i64::MIN as int))
                by (nonlinear_arith);
            assert((n + 1) * (i64::MAX as int) == n * (i64::MAX as int) + (i64::MAX as int))
                by (nonlinear_arith);
        }
    }
    lemma_finite_set_induct(s, pred);
}

} // verus!
