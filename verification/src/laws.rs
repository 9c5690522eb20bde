//! Properties that relate several recipe operations, stated over the model
//! that the operations' own contracts use: the ingredient set and the exact
//! sum of catalog ratios.

use crate::model::{lemma_to_set_push, sum_ratios};
use crate::ratio::Ratio;
use crate::recipe::mean_of;
use vstd::prelude::*;

verus! {

/// Round trip: inserting a fresh ingredient and then removing it restores
/// the ingredient set exactly, and with it the exact aggregate-ratio sum.
/// Together with `add_ingredient_to_recipe` and
/// `remove_ingredient_from_recipe`, whose contracts give exactly these set
/// transitions and consistent caches, an add followed by a remove of the
/// same ingredient restores the recipe's set and ratio as they were.
pub proof fn lemma_add_remove_round_trip(t: Map<Seq<char>, int>, s: Set<Seq<char>>, x: Seq<char>)
    requires
        s.finite(),
        !s.contains(x),
    ensures
        s.insert(x).remove(x) == s,
        sum_ratios(t, s.insert(x).remove(x)) == sum_ratios(t, s),
{
    assert(s.insert(x).remove(x) =~= s);
}

/// A consistent cached ratio is a function of the ingredient set and the
/// catalog alone: two recipes over the same set and catalog cache the very
/// same scalar.
pub proof fn lemma_ratio_determined(t: Map<Seq<char>, int>, s: Set<Seq<char>>, r1: Ratio, r2: Ratio)
    requires
        mean_of(t, s, r1),
        mean_of(t, s, r2),
    ensures
        r1 == r2,
{
}

/// The set a sequence of insertions ends in, first name first.
pub open spec fn insert_all(s: Set<Seq<char>>, names: Seq<Seq<char>>) -> Set<Seq<char>>
    decreases names.len(),
{
    if names.len() == 0 {
        s
    } else {
        insert_all(s, names.drop_last()).insert(names.last())
    }
}

/// Inserting a sequence of names is taking the union with their set: the
/// order of the insertions never shows in the result.
pub proof fn lemma_insert_all_is_union(s: Set<Seq<char>>, names: Seq<Seq<char>>)
    ensures
        insert_all(s, names) == s.union(names.to_set()),
    decreases names.len(),
{
    if names.len() == 0 {
        assert(names.to_set() =~= Set::<Seq<char>>::empty());
        assert(insert_all(s, names) =~= s.union(names.to_set()));
    } else {
        lemma_insert_all_is_union(s, names.drop_last());
        assert(names.drop_last().push(names.last()) =~= names);
        lemma_to_set_push(names.drop_last(), names.last());
        assert(insert_all(s, names) =~= s.union(names.to_set()));
    }
}

/// Order independence: adding the same ingredients in any two orders —
/// permutations, even with repetitions — yields the same final ingredient
/// set, and hence (by `lemma_ratio_determined`) the same recomputed ratio.
pub proof fn lemma_insert_order_independent(
    s: Set<Seq<char>>,
    names1: Seq<Seq<char>>,
    names2: Seq<Seq<char>>,
)
    requires
        names1.to_set() == names2.to_set(),
    ensures
        insert_all(s, names1) == insert_all(s, names2),
{
    lemma_insert_all_is_union(s, names1);
    lemma_insert_all_is_union(s, names2);
}

} // verus!
