//! The prediction search: starting from the current recipe, enumerate every
//! distinct ingredient set reachable by adding catalog ingredients one at a
//! time that meets the configured size and ratio bounds, without listing any
//! set twice.
//!
//! The traversal is an explicit breadth-wise walk of the subset lattice: one
//! pass per catalog ingredient not yet selected, doubling the frontier of
//! candidate sets that stay under the size ceiling, followed by a filtering
//! pass that applies the acceptance rule.  Result membership is decided by
//! ingredient-set identity alone, so distinctness of the candidate sets is
//! an invariant of the walk, not an afterthought of hashing.

use crate::engine::Configuration;
use crate::model::{
    distinct_names, lemma_name_set_contains, lemma_push_name, lemma_to_set_push, name_set,
    ratios_in_i64, sum_ratios,
};
use crate::ratio::Ratio;
use crate::recipe::{find_name, mean_of, Recipe};
use crate::table::RatioCatalog;
use vstd::prelude::*;
use vstd::set_lib::{lemma_len_subset, lemma_len_union};

verus! {

/// `s` is reachable from the current set `cur` by adding catalog
/// ingredients one at a time: it extends `cur` within the catalog's domain,
/// and — unless the current recipe already exceeds the size ceiling, in
/// which case the walk never meets the ceiling — stays within the ceiling.
pub open spec fn reachable(
    dom: Set<Seq<char>>,
    maxn: int,
    cur: Set<Seq<char>>,
    s: Set<Seq<char>>,
) -> bool {
    &&& cur <= s
    &&& s <= dom
    &&& s.finite()
    &&& (cur.len() <= maxn ==> s.len() <= maxn)
}

/// The aggregate ratio of `s` lies within `[minr, maxr]`: the mean of the
/// empty set is zero, and for a non-empty set the bound is stated exactly
/// by cross-multiplication with the member count.
pub open spec fn set_mean_in_range(
    t: Map<Seq<char>, int>,
    minr: int,
    maxr: int,
    s: Set<Seq<char>>,
) -> bool {
    if s.len() == 0 {
        minr <= 0 && 0 <= maxr
    } else {
        minr * s.len() <= sum_ratios(t, s) && sum_ratios(t, s) <= maxr * s.len()
    }
}

/// The acceptance rule of the search: a reachable candidate is a result
/// exactly when its ratio is in range and it either sits at the size
/// ceiling or holds at least the configured minimum of ingredients.
pub open spec fn accepted(
    t: Map<Seq<char>, int>,
    cfg: Configuration,
    cur: Set<Seq<char>>,
    s: Set<Seq<char>>,
) -> bool {
    &&& reachable(t.dom(), cfg.max_ingredients as int, cur, s)
    &&& set_mean_in_range(t, cfg.min_ratio as int, cfg.max_ratio as int, s)
    &&& (s.len() == cfg.max_ingredients as int || s.len() >= cfg.min_ingredients as int)
}

/// Some recipe in `rs` has exactly the ingredient set `s`.
pub open spec fn result_has(rs: Seq<Recipe>, s: Set<Seq<char>>) -> bool {
    exists|i: int| 0 <= i < rs.len() && rs[i]@ == s
}

/// A candidate of the walk: between the current set and its bound, under
/// the size ceiling, with an exact cached ratio.
spec fn elem_ok(
    t: Map<Seq<char>, int>,
    cur: Set<Seq<char>>,
    bound: Set<Seq<char>>,
    cap: int,
    r: Recipe,
) -> bool {
    &&& r.wf()
    &&& mean_of(t, r@, r.cached_ratio())
    &&& cur <= r@
    &&& r@ <= cur.union(bound)
    &&& r@.len() <= cur.len() + cap
}

spec fn list_ok(
    t: Map<Seq<char>, int>,
    cur: Set<Seq<char>>,
    bound: Set<Seq<char>>,
    cap: int,
    l: Seq<Recipe>,
) -> bool {
    forall|j: int| 0 <= j < l.len() ==> elem_ok(t, cur, bound, cap, #[trigger] l[j])
}

/// No two recipes of the sequence share an ingredient set.
pub open spec fn distinct_views(l: Seq<Recipe>) -> bool {
    forall|j1: int, j2: int| 0 <= j1 < j2 < l.len() ==> l[j1]@ != l[j2]@
}

/// Every set between `cur` and `cur + bound` that respects the ceiling is
/// listed.
spec fn frontier(cur: Set<Seq<char>>, bound: Set<Seq<char>>, cap: int, s: Set<Seq<char>>) -> bool {
    &&& cur <= s
    &&& s <= cur.union(bound)
    &&& s.finite()
    &&& s.len() <= cur.len() + cap
}

spec fn covers(l: Seq<Recipe>, cur: Set<Seq<char>>, bound: Set<Seq<char>>, cap: int) -> bool {
    forall|s: Set<Seq<char>>| #[trigger] frontier(cur, bound, cap, s) ==> result_has(l, s)
}

/// The names that occur in at least one of the given recipes: what a
/// caller of the prediction uses to learn which further ingredients remain
/// choosable.  Each name is listed once.
pub fn choosable_ingredients(recipes: &Vec<Recipe>) -> (out: Vec<String>)
    ensures
        distinct_names(out@),
        forall|y: Seq<char>|
            #![trigger name_set(out@).contains(y)]
            name_set(out@).contains(y) <==> exists|i: int|
                0 <= i < recipes@.len() && (#[trigger] recipes@[i])@.contains(y),
{
    let n = recipes.len();
    let mut out: Vec<String> = Vec::new();
    proof {
        assert(crate::model::name_views(out@) =~= Seq::<Seq<char>>::empty());
    }
    let mut i: usize = 0;
    while i < n
        invariant
            i <= n,
            n == recipes@.len(),
            distinct_names(out@),
            forall|y: Seq<char>|
                #![trigger name_set(out@).contains(y)]
                name_set(out@).contains(y) <==> exists|i2: int|
                    0 <= i2 < i && (#[trigger] recipes@[i2])@.contains(y),
        decreases n - i,
    {
        let names = recipes[i].get_ingredients();
        let m = names.len();
        let mut j: usize = 0;
        while j < m
            invariant
                j <= m,
                i < n,
                n == recipes@.len(),
                m == names@.len(),
                name_set(names@) == recipes@[i as int]@,
                distinct_names(out@),
                forall|y: Seq<char>|
                    #![trigger name_set(out@).contains(y)]
                    name_set(out@).contains(y) <==> (exists|i2: int|
                        0 <= i2 < i && (#[trigger] recipes@[i2])@.contains(y)) || (exists|j2: int|
                        0 <= j2 < j && names@[j2]@ == y),
            decreases m - j,
        {
            let ghost pre_out = out@;
            if find_name(&out, names[j].as_str()).is_none() {
                let nm = names[j].clone();
                proof {
                    lemma_name_set_contains(pre_out, nm@);
                    lemma_push_name(pre_out, nm);
                }
                out.push(nm);
            }
            proof {
                lemma_name_set_contains(out@, names@[j as int]@);
                assert forall|y: Seq<char>|
                    name_set(out@).contains(y) implies ((exists|i2: int|
                    0 <= i2 < i && (#[trigger] recipes@[i2])@.contains(y)) || (exists|j2: int|
                    0 <= j2 < j + 1 && names@[j2]@ == y)) by {
                    if !name_set(pre_out).contains(y) {
                        lemma_name_set_contains(pre_out, y);
                        lemma_name_set_contains(out@, y);
                        assert(y == names@[j as int]@);
                    }
                }
                assert forall|y: Seq<char>|
                    ((exists|i2: int| 0 <= i2 < i && (#[trigger] recipes@[i2])@.contains(y)) || (
                    exists|j2: int|
                        0 <= j2 < j + 1 && names@[j2]@ == y)) implies name_set(out@).contains(
                    y,
                ) by {
                    if exists|j2: int| 0 <= j2 < j + 1 && names@[j2]@ == y {
                        let j2 = choose|j2: int| 0 <= j2 < j + 1 && names@[j2]@ == y;
                        if j2 == j && !name_set(pre_out).contains(y) {
                            lemma_name_set_contains(out@, y);
                            assert(out@[out@.len() - 1]@ == y);
                        } else if j2 == j {
                            assert(name_set(pre_out).contains(y));
                        }
                    }
                    if name_set(pre_out).contains(y) {
                        lemma_name_set_contains(pre_out, y);
                        let k = choose|k: int| 0 <= k < pre_out.len() && pre_out[k]@ == y;
                        lemma_name_set_contains(out@, y);
                        assert(out@[k]@ == y);
                    }
                }
            }
            j += 1;
        }
        proof {
            assert forall|y: Seq<char>|
                name_set(out@).contains(y) implies exists|i2: int|
                0 <= i2 < i + 1 && (#[trigger] recipes@[i2])@.contains(y) by {
                if exists|j2: int| 0 <= j2 < m && names@[j2]@ == y {
                    lemma_name_set_contains(names@, y);
                    assert(recipes@[i as int]@.contains(y));
                }
            }
            assert forall|y: Seq<char>|
                (exists|i2: int|
                    0 <= i2 < i + 1 && (#[trigger] recipes@[i2])@.contains(y)) implies name_set(
                out@,
            ).contains(y) by {
                let i2 = choose|i2: int| 0 <= i2 < i + 1 && recipes@[i2]@.contains(y);
                if i2 == i {
                    lemma_name_set_contains(names@, y);
                }
            }
        }
        i += 1;
    }
    out
}

/// The cached ratio of a consistent recipe is in range exactly when the
/// set's mean is.
proof fn lemma_mean_in_range(
    t: Map<Seq<char>, int>,
    minr: int,
    maxr: int,
    s: Set<Seq<char>>,
    r: Ratio,
)
    requires
        s.finite(),
        mean_of(t, s, r),
    ensures
        r.in_range(minr, maxr) == set_mean_in_range(t, minr, maxr, s),
{
    if s.len() == 0 {
        s.lemma_len0_is_empty();
        crate::model::lemma_sum_empty(t);
    }
}

/// Enumerates all accepted extensions of `current` under `table` and `cfg`.
///
/// The result lists exactly the accepted sets — each once, as a recipe with
/// an exact cached ratio.
pub fn predict_search(table: &RatioCatalog, cfg: &Configuration, current: &Recipe) -> (out: Vec<
    Recipe,
>)
    requires
        table.wf(),
        current.wf(),
        current@ <= table@.dom(),
    ensures
        forall|s: Set<Seq<char>>| #[trigger]
            result_has(out@, s) ==> accepted(table@, *cfg, current@, s),
        forall|s: Set<Seq<char>>| #[trigger]
            accepted(table@, *cfg, current@, s) ==> result_has(out@, s),
        forall|i: int|
            0 <= i < out@.len() ==> (#[trigger] out@[i]).wf() && mean_of(
                table@,
                out@[i]@,
                out@[i].cached_ratio(),
            ),
        distinct_views(out@),
{
    let ghost tm = table@;
    let ghost dom = table@.dom();
    let ghost cur = current@;

    // Collect the catalog ingredients not yet selected, with their ratios.
    let names = table.names();
    let mut extras: Vec<(String, i64)> = Vec::new();
    let n = names.len();
    let mut i: usize = 0;
    while i < n
        invariant
            i <= n,
            n == names@.len(),
            table.wf(),
            current.wf(),
            cur == current@,
            tm == table@,
            dom == table@.dom(),
            crate::model::distinct_names(names@),
            name_set(names@) == dom,
            forall|k: int| 0 <= k < extras@.len() ==> !cur.contains(#[trigger] extras@[k].0@),
            forall|k: int|
                0 <= k < extras@.len() ==> tm.contains_key(#[trigger] extras@[k].0@)
                    && tm[extras@[k].0@] == extras@[k].1 as int,
            forall|k1: int, k2: int|
                0 <= k1 < k2 < extras@.len() ==> extras@[k1].0@ != extras@[k2].0@,
            forall|k: int|
                0 <= k < i ==> cur.contains(#[trigger] names@[k]@) || exists|j: int|
                    0 <= j < extras@.len() && extras@[j].0@ == names@[k]@,
            forall|k: int|
                0 <= k < extras@.len() ==> exists|j: int|
                    0 <= j < i && #[trigger] extras@[k].0@ == names@[j]@,
        decreases n - i,
    {
        let nm = names[i].clone();
        if !current.contains_name(nm.as_str()) {
            proof {
                lemma_name_set_contains(names@, nm@);
                assert(names@[i as int]@ == nm@);
                assert(name_set(names@).contains(nm@));
            }
            let ro = table.lookup(nm.as_str());
            let x = ro.unwrap();
            let ghost pre_extras = extras@;
            extras.push((nm, x));
            proof {
                assert forall|k: int| 0 <= k < pre_extras.len() implies pre_extras[k].0@
                    != extras@[extras@.len() - 1].0@ by {
                    let j = choose|j: int| 0 <= j < i && pre_extras[k].0@ == names@[j]@;
                    assert(crate::model::name_views(names@)[j] == names@[j]@);
                    assert(crate::model::name_views(names@)[i as int] == names@[i as int]@);
                }
                assert forall|k: int|
                    0 <= k < i + 1 implies cur.contains(#[trigger] names@[k]@) || exists|j: int|
                    0 <= j < extras@.len() && extras@[j].0@ == names@[k]@ by {
                    if k == i {
                        assert(extras@[extras@.len() - 1].0@ == names@[k]@);
                    } else if !cur.contains(names@[k]@) {
                        let j = choose|j: int|
                            0 <= j < pre_extras.len() && pre_extras[j].0@ == names@[k]@;
                        assert(extras@[j].0@ == names@[k]@);
                    }
                }
            }
        }
        i += 1;
    }

    let ghost eseq: Seq<Seq<char>> = extras@.map_values(|p: (String, i64)| p.0@);
    let ghost extset = eseq.to_set();
    proof {
        assert(eseq.no_duplicates());
        assert forall|y: Seq<char>| extset.contains(y) implies dom.contains(y) && !cur.contains(
            y,
        ) by {
            let k = choose|k: int| 0 <= k < eseq.len() && eseq[k] == y;
            assert(extras@[k].0@ == y);
        }
        assert forall|y: Seq<char>| dom.contains(y) && !cur.contains(y) implies extset.contains(
            y,
        ) by {
            lemma_name_set_contains(names@, y);
            let k = choose|k: int| 0 <= k < names@.len() && names@[k]@ == y;
            let j = choose|j: int| 0 <= j < extras@.len() && extras@[j].0@ == names@[k]@;
            assert(eseq[j] == y);
        }
        eseq.unique_seq_to_set();
        // the current set is finite and as large as the current vector
        current.lemma_view();
    }

    // The size headroom of the walk: below the ceiling, the number of
    // ingredients that may still be added; above it, no node ever meets the
    // ceiling, so nothing prunes the walk.
    let curlen = current.ingredient_count();
    let maxi = cfg.max_ingredients as usize;
    let cap: usize = if curlen <= maxi {
        maxi - curlen
    } else {
        extras.len()
    };

    // The root of the walk: the current recipe with its ratio recomputed
    // against this catalog.
    let root = current.with_ratio_from(table);
    let mut list: Vec<Recipe> = Vec::new();
    list.push(root);
    proof {
        assert(eseq.take(0) =~= Seq::<Seq<char>>::empty());
        assert(eseq.take(0).to_set() =~= Set::<Seq<char>>::empty());
        assert(cur.union(Set::empty()) =~= cur);
        assert(list_ok(tm, cur, eseq.take(0).to_set(), cap as int, list@));
        assert forall|s: Set<Seq<char>>| #[trigger]
            frontier(cur, eseq.take(0).to_set(), cap as int, s) implies result_has(list@, s) by {
            assert(s =~= cur);
            assert(list@[0]@ == s);
        }
    }

    let en = extras.len();
    let mut ei: usize = 0;
    while ei < en
        invariant
            ei <= en,
            en == extras@.len(),
            table.wf(),
            current.wf(),
            cur == current@,
            tm == table@,
            dom == table@.dom(),
            cur <= dom,
            cur.finite(),
            curlen == cur.len(),
            eseq == extras@.map_values(|p: (String, i64)| p.0@),
            eseq.no_duplicates(),
            forall|k: int| 0 <= k < extras@.len() ==> !cur.contains(#[trigger] extras@[k].0@),
            forall|k: int|
                0 <= k < extras@.len() ==> tm.contains_key(#[trigger] extras@[k].0@)
                    && tm[extras@[k].0@] == extras@[k].1 as int,
            list_ok(tm, cur, eseq.take(ei as int).to_set(), cap as int, list@),
            distinct_views(list@),
            covers(list@, cur, eseq.take(ei as int).to_set(), cap as int),
        decreases en - ei,
    {
        let ghost gl = list@;
        let ghost pre_set = eseq.take(ei as int).to_set();
        let ghost post_set = eseq.take(ei + 1).to_set();
        let ghost x = eseq[ei as int];
        proof {
            assert(eseq.take(ei + 1) =~= eseq.take(ei as int).push(x));
            lemma_to_set_push(eseq.take(ei as int), x);
            assert(post_set =~= pre_set.insert(x));
            assert(extras@[ei as int].0@ == x);
            assert(!cur.contains(x));
            if pre_set.contains(x) {
                let k = choose|k: int| 0 <= k < eseq.take(ei as int).len() && eseq.take(
                    ei as int,
                )[k] == x;
                assert(eseq[k] == x);
                assert(eseq[ei as int] == x);
                assert(false);
            }
        }
        let nm = extras[ei].0.clone();
        let rx = extras[ei].1;
        proof {
            assert(nm@ == x);
        }
        let old_len = list.len();
        let mut j: usize = 0;
        while j < old_len
            invariant
                j <= old_len,
                old_len <= list@.len(),
                table.wf(),
                current.wf(),
                cur == current@,
                tm == table@,
                dom == table@.dom(),
                cur <= dom,
                cur.finite(),
                curlen == cur.len(),
                nm@ == x,
                rx as int == tm[x],
                tm.contains_key(x),
                !cur.contains(x),
                !pre_set.contains(x),
                post_set == pre_set.insert(x),
                pre_set <= dom,
                gl.len() == old_len,
                list@.subrange(0, old_len as int) == gl,
                list_ok(tm, cur, pre_set, cap as int, gl),
                distinct_views(list@),
                list_ok(tm, cur, post_set, cap as int, list@),
                forall|idx: int|
                    old_len <= idx < list@.len() ==> (#[trigger] list@[idx]@).contains(x),
                forall|idx: int|
                    old_len <= idx < list@.len() ==> exists|k: int|
                        0 <= k < j && gl[k]@.insert(x) == (#[trigger] list@[idx])@,
                forall|k: int|
                    0 <= k < j && (#[trigger] gl[k]@).len() < cur.len() + cap ==> result_has(
                        list@,
                        gl[k]@.insert(x),
                    ),
            decreases old_len - j,
        {
            proof {
                assert(list@[j as int] == gl[j as int]);
                assert(elem_ok(tm, cur, pre_set, cap as int, gl[j as int]));
                (list@[j as int]).lemma_view();
                lemma_len_subset(cur, list@[j as int]@);
            }
            let cnt = list[j].ingredient_count();
            if cnt - curlen < cap {
                proof {
                    // the extension stays fresh: the candidate sits inside
                    // cur + pre_set, which x is outside of
                    assert(!list@[j as int]@.contains(x));
                    assert forall|y: Seq<char>| list@[j as int]@.contains(y) implies dom.contains(
                        y,
                    ) by {
                        assert(cur.union(pre_set).contains(y));
                    }
                    table.lemma_view();
                    assert(ratios_in_i64(tm, list@[j as int]@));
                }
                let newrec = list[j].extended(nm.as_str(), rx, Ghost(tm));
                let ghost pre_list = list@;
                list.push(newrec);
                proof {
                    assert(list@.subrange(0, old_len as int) =~= gl);
                    let nidx = list@.len() - 1;
                    assert(list@[nidx] == newrec);
                    assert(newrec@ == gl[j as int]@.insert(x));
                    // the new candidate respects the walk's bounds
                    assert(newrec@ <= cur.union(post_set)) by {
                        assert forall|y: Seq<char>| newrec@.contains(y) implies cur.union(
                            post_set,
                        ).contains(y) by {
                            if y != x {
                                assert(cur.union(pre_set).contains(y));
                            }
                        }
                    }
                    assert(newrec@.len() == gl[j as int]@.len() + 1);
                    assert(elem_ok(tm, cur, post_set, cap as int, newrec));
                    // distinctness: the new candidate differs from every
                    // earlier one
                    assert forall|idx: int| 0 <= idx < nidx implies list@[idx]@ != newrec@ by {
                        if idx < old_len {
                            assert(list@[idx] == gl[idx]);
                            assert(!gl[idx]@.contains(x));
                            assert(newrec@.contains(x));
                        } else {
                            let k = choose|k: int|
                                0 <= k < j && gl[k]@.insert(x) == #[trigger] pre_list[idx]@;
                            assert(list@[idx]@ == gl[k]@.insert(x));
                            if list@[idx]@ == newrec@ {
                                assert(gl[k]@.insert(x).remove(x) =~= gl[k]@);
                                assert(gl[j as int]@.insert(x).remove(x) =~= gl[j as int]@);
                                assert(gl[k]@ == gl[j as int]@);
                                assert(k != j as int);
                                assert(false);
                            }
                        }
                    }
                    assert(distinct_views(list@));
                    // provenance of the new candidates, for the coverage step
                    assert forall|idx: int|
                        old_len <= idx < list@.len() implies exists|k: int|
                            0 <= k < j + 1 && gl[k]@.insert(x) == (#[trigger] list@[idx])@ by {
                        if idx < list@.len() - 1 {
                            let k = choose|k: int|
                                0 <= k < j && gl[k]@.insert(x) == (#[trigger] pre_list[idx])@;
                            assert(gl[k]@.insert(x) == list@[idx]@);
                        } else {
                            assert(gl[j as int]@.insert(x) == list@[idx]@);
                        }
                    }
                    // coverage bookkeeping: every extendable candidate seen
                    // so far has its extension listed
                    assert forall|k2: int|
                        0 <= k2 < j + 1 && (#[trigger] gl[k2]@).len() < cur.len()
                            + cap implies result_has(list@, gl[k2]@.insert(x)) by {
                        if k2 == j {
                            assert(list@[list@.len() - 1]@ == gl[k2]@.insert(x));
                        } else {
                            let w = choose|w: int|
                                0 <= w < pre_list.len() && pre_list[w]@ == gl[k2]@.insert(x);
                            assert(list@[w]@ == gl[k2]@.insert(x));
                        }
                    }
                }
            } else {
                proof {
                    assert(gl[j as int]@.len() == cnt);
                    assert(cnt >= curlen + cap);
                }
            }
            j += 1;
        }
        proof {
            // coverage of the grown frontier
            assert forall|s: Set<Seq<char>>| #[trigger]
                frontier(cur, post_set, cap as int, s) implies result_has(list@, s) by {
                if s.contains(x) {
                    let s0 = s.remove(x);
                    assert(cur <= s0);
                    assert forall|y: Seq<char>| s0.contains(y) implies cur.union(
                        pre_set,
                    ).contains(y) by {
                        assert(cur.union(post_set).contains(y));
                    }
                    assert(s0.len() == s.len() - 1);
                    assert(frontier(cur, pre_set, cap as int, s0));
                    assert(result_has(gl, s0));
                    let k = choose|k: int| 0 <= k < gl.len() && gl[k]@ == s0;
                    assert(gl[k]@.len() < cur.len() + cap);
                    assert(result_has(list@, gl[k]@.insert(x)));
                    assert(s0.insert(x) =~= s);
                } else {
                    assert forall|y: Seq<char>| s.contains(y) implies cur.union(pre_set).contains(
                        y,
                    ) by {
                        assert(cur.union(post_set).contains(y));
                    }
                    assert(frontier(cur, pre_set, cap as int, s));
                    assert(result_has(gl, s));
                    let k = choose|k: int| 0 <= k < gl.len() && gl[k]@ == s;
                    assert(list@[k] == gl[k]);
                }
            }
            assert(covers(list@, cur, post_set, cap as int));
        }
        ei += 1;
    }

    proof {
        assert(eseq.take(en as int) =~= eseq);
        assert(cur.union(extset) =~= dom);
        // the walk's frontier is exactly the reachable sets
        assert forall|s: Set<Seq<char>>|
            frontier(cur, extset, cap as int, s) == reachable(dom, maxi as int, cur, s) by {
            if frontier(cur, extset, cap as int, s) {
                assert(cur <= s && s <= dom && s.finite());
                if cur.len() <= maxi as int {
                    assert(s.len() <= cur.len() + (maxi - curlen));
                }
                assert(reachable(dom, maxi as int, cur, s));
            }
            if reachable(dom, maxi as int, cur, s) {
                if curlen <= maxi {
                    assert(s.len() <= cur.len() + cap);
                } else {
                    lemma_len_union(cur, extset);
                    lemma_len_subset(s, cur.union(extset));
                    assert(extset.len() == en as int);
                    assert(s.len() <= cur.len() + cap);
                }
                assert(frontier(cur, extset, cap as int, s));
            }
        }
        assert(maxi as int == cfg.max_ingredients as int);
    }

    // Apply the acceptance rule to every candidate.
    let ln = list.len();
    let mut out: Vec<Recipe> = Vec::new();
    let mut k: usize = 0;
    while k < ln
        invariant
            k <= ln,
            ln == list@.len(),
            table.wf(),
            current.wf(),
            cur == current@,
            tm == table@,
            dom == table@.dom(),
            cur.finite(),
            list_ok(tm, cur, extset, cap as int, list@),
            distinct_views(list@),
            covers(list@, cur, extset, cap as int),
            forall|s: Set<Seq<char>>|
                frontier(cur, extset, cap as int, s) == reachable(
                    dom,
                    cfg.max_ingredients as int,
                    cur,
                    s,
                ),
            forall|jj: int|
                0 <= jj < out@.len() ==> (#[trigger] out@[jj]).wf() && mean_of(
                    tm,
                    out@[jj]@,
                    out@[jj].cached_ratio(),
                ) && accepted(tm, *cfg, cur, out@[jj]@),
            forall|jj: int|
                0 <= jj < out@.len() ==> exists|idx: int|
                    0 <= idx < k && list@[idx]@ == #[trigger] out@[jj]@,
            forall|idx: int|
                0 <= idx < k && accepted(tm, *cfg, cur, #[trigger] list@[idx]@) ==> result_has(
                    out@,
                    list@[idx]@,
                ),
            distinct_views(out@),
        decreases ln - k,
    {
        proof {
            assert(elem_ok(tm, cur, extset, cap as int, list@[k as int]));
            (list@[k as int]).lemma_view();
            lemma_mean_in_range(
                tm,
                cfg.min_ratio as int,
                cfg.max_ratio as int,
                list@[k as int]@,
                list@[k as int].cached_ratio(),
            );
            assert(frontier(cur, extset, cap as int, list@[k as int]@));
        }
        let cnt = list[k].ingredient_count();
        let ratio = list[k].get_ratio();
        let size_ok = cnt == cfg.max_ingredients as usize || cnt >= cfg.min_ingredients as usize;
        if size_ok && ratio.check_in_range(cfg.min_ratio, cfg.max_ratio) {
            let cp = list[k].duplicate();
            let ghost pre_out = out@;
            out.push(cp);
            proof {
                assert(accepted(tm, *cfg, cur, list@[k as int]@));
                assert(out@[out@.len() - 1]@ == list@[k as int]@);
                assert forall|jj: int| 0 <= jj < out@.len() - 1 implies (#[trigger] out@[jj])@
                    != out@[out@.len() - 1]@ by {
                    let idx = choose|idx: int|
                        0 <= idx < k && list@[idx]@ == (#[trigger] pre_out[jj])@;
                    assert(list@[idx]@ != list@[k as int]@);
                }
                assert forall|idx: int|
                    0 <= idx < k + 1 && accepted(
                        tm,
                        *cfg,
                        cur,
                        (#[trigger] list@[idx])@,
                    ) implies result_has(out@, list@[idx]@) by {
                    if idx == k {
                        assert(out@[out@.len() - 1]@ == list@[idx]@);
                    } else {
                        assert(result_has(pre_out, list@[idx]@));
                        let jj = choose|jj: int|
                            0 <= jj < pre_out.len() && pre_out[jj]@ == list@[idx]@;
                        assert(out@[jj]@ == list@[idx]@);
                    }
                }
            }
        } else {
            proof {
                assert(!accepted(tm, *cfg, cur, list@[k as int]@));
            }
        }
        k += 1;
    }
    proof {
        assert forall|s: Set<Seq<char>>| #[trigger]
            accepted(tm, *cfg, cur, s) implies result_has(out@, s) by {
            assert(reachable(dom, cfg.max_ingredients as int, cur, s));
            assert(frontier(cur, extset, cap as int, s));
            assert(result_has(list@, s));
            let idx = choose|idx: int| 0 <= idx < list@.len() && list@[idx]@ == s;
            assert(accepted(tm, *cfg, cur, list@[idx]@));
            assert(result_has(out@, list@[idx]@));
        }
        assert forall|s: Set<Seq<char>>| #[trigger]
            result_has(out@, s) implies accepted(tm, *cfg, cur, s) by {
            let jj = choose|jj: int| 0 <= jj < out@.len() && out@[jj]@ == s;
            assert(accepted(tm, *cfg, cur, out@[jj]@));
        }
    }
    out
}

} // verus!
