//! A recipe: a set of distinct ingredient names for one category, together
//! with its cached aggregate ratio.  The cache is recomputed on every
//! mutation, so it is always the exact mean of the members' catalog ratios.

use crate::model::{
    distinct_names, lemma_name_set_contains, lemma_name_set_len, lemma_push_name,
    lemma_remove_name, lemma_sum_bound, lemma_sum_empty, lemma_sum_insert, lemma_take_name,
    name_set, name_views, ratios_in_i64, sum_ratios,
};
use crate::ratio::Ratio;
use crate::table::RatioCatalog;
use crate::types::KitchenError;
use vstd::prelude::*;

verus! {

/// `r` is exactly the aggregate ratio of the member set `s` under the
/// catalog map `t`: its numerator is the sum of the members' catalog ratios
/// and its denominator the number of members (one for the empty set, whose
/// mean is the zero scalar).
pub open spec fn mean_of(t: Map<Seq<char>, int>, s: Set<Seq<char>>, r: Ratio) -> bool {
    &&& r.num == sum_ratios(t, s)
    &&& r.den == if s.len() == 0 {
        1int
    } else {
        s.len() as int
    }
}

/// Finds the first entry of `v` that holds `name`.
pub(crate) fn find_name(v: &Vec<String>, name: &str) -> (r: Option<usize>)
    ensures
        match r {
            Some(k) => k < v@.len() && v@[k as int]@ == name@,
            None => forall|k: int| 0 <= k < v@.len() ==> v@[k]@ != name@,
        },
{
    let owned: String = name.to_owned();
    let n = v.len();
    let mut i: usize = 0;
    while i < n
        invariant
            i <= n,
            n == v@.len(),
            owned@ == name@,
            forall|k: int| 0 <= k < i ==> v@[k]@ != name@,
        decreases n - i,
    {
        if v[i] == owned {
            return Some(i);
        }
        i += 1;
    }
    None
}

/// Sums the catalog ratios of the names in `v`.  The result is exact: each
/// ratio is an `i64` and there are at most `usize::MAX` of them, so the sum
/// always fits in an `i128`.
fn sum_names(v: &Vec<String>, table: &RatioCatalog) -> (s: i128)
    requires
        distinct_names(v@),
        table.wf(),
        name_set(v@) <= table@.dom(),
    ensures
        s as int == sum_ratios(table@, name_set(v@)),
{
    proof {
        lemma_sum_empty(table@);
        assert(name_views(v@.take(0)) =~= Seq::<Seq<char>>::empty());
        assert(name_set(v@.take(0)) =~= Set::<Seq<char>>::empty());
    }
    let n = v.len();
    let mut acc: i128 = 0;
    let mut i: usize = 0;
    while i < n
        invariant
            i <= n,
            n == v@.len(),
            distinct_names(v@),
            table.wf(),
            name_set(v@) <= table@.dom(),
            acc as int == sum_ratios(table@, name_set(v@.take(i as int))),
        decreases n - i,
    {
        let ghost pre = name_set(v@.take(i as int));
        proof {
            lemma_take_name(v@, i as int);
            lemma_name_set_contains(v@, v@[i as int]@);
            assert(name_set(v@).contains(v@[i as int]@));
        }
        let ro = table.lookup(v[i].as_str());
        proof {
            assert(table@.dom().contains(v@[i as int]@));
        }
        let x = ro.unwrap();
        proof {
            // `pre` is a subset of the catalog's domain, so its sum is
            // bounded by its size times the i64 range.
            lemma_name_set_len(v@.take(i as int));
            table.lemma_view();
            assert forall|y: Seq<char>| pre.contains(y) implies i64::MIN <= #[trigger] table@[y]
                <= i64::MAX by {
                assert(name_set(v@).contains(y));
                assert(table@.dom().contains(y));
            }
            assert(ratios_in_i64(table@, pre));
            lemma_sum_bound(table@, pre);
            assert(pre.len() <= i as int);
            let m = i64::MAX as int;
            let lo = i64::MIN as int;
            assert(pre.len() * lo >= (i as int) * lo && pre.len() * m <= (i as int) * m)
                by (nonlinear_arith)
                requires
                    0 <= pre.len() <= i as int,
                    lo == i64::MIN as int,
                    m == i64::MAX as int,
            ;
            assert((i as int) * m + m <= (u64::MAX as int) * m && (i as int) * lo + lo >= (
            u64::MAX as int + 1) * lo) by (nonlinear_arith)
                requires
                    0 <= i as int,
                    i as int + 1 <= u64::MAX as int,
                    lo == i64::MIN as int,
                    m == i64::MAX as int,
            ;
            assert((u64::MAX as int) * m <= i128::MAX && (u64::MAX as int + 1) * lo
                >= i128::MIN) by (nonlinear_arith)
                requires
                    lo == i64::MIN as int,
                    m == i64::MAX as int,
            ;
            lemma_sum_insert(table@, pre, v@[i as int]@);
        }
        acc = acc + (x as i128);
        i += 1;
    }
    proof {
        assert(v@.take(n as int) =~= v@);
    }
    acc
}

/// A candidate ingredient combination for one category: a set of distinct
/// ingredient names plus its cached aggregate ratio.
#[derive(Debug)]
pub struct Recipe {
    ingredients: Vec<String>,
    ratio: Ratio,
}

impl View for Recipe {
    type V = Set<Seq<char>>;

    /// The identity of a recipe: the set of (views of) its ingredient names.
    /// Order of insertion never matters to it.
    closed spec fn view(&self) -> Set<Seq<char>> {
        name_set(self.ingredients@)
    }
}

impl Recipe {
    /// The ingredient names in insertion order.
    pub closed spec fn seq_view(&self) -> Seq<Seq<char>> {
        name_views(self.ingredients@)
    }

    /// The cached aggregate ratio.
    pub closed spec fn cached_ratio(&self) -> Ratio {
        self.ratio
    }

    /// A recipe is well formed when its ingredient names are distinct and
    /// the cached denominator matches the member count.
    pub closed spec fn wf(&self) -> bool {
        &&& distinct_names(self.ingredients@)
        &&& self.ratio.den == if self.ingredients@.len() == 0 {
            1int
        } else {
            self.ingredients@.len() as int
        }
    }

    /// Basic facts relating the set view, the sequence view and the cache.
    pub proof fn lemma_view(&self)
        ensures
            self@ == self.seq_view().to_set(),
            self@.finite(),
            self@.len() <= self.seq_view().len(),
            self.wf() ==> self@.len() == self.seq_view().len(),
            self.wf() ==> self.cached_ratio().den == if self@.len() == 0 {
                1int
            } else {
                self@.len() as int
            },
            self.wf() ==> self.cached_ratio().wf(),
    {
        lemma_name_set_len(self.ingredients@);
    }

    /// An empty recipe, with the zero scalar as its ratio.  Its cache is
    /// consistent with every catalog, since it sums nothing.
    pub fn new() -> (r: Recipe)
        ensures
            r.wf(),
            r@ == Set::<Seq<char>>::empty(),
            r.seq_view() == Seq::<Seq<char>>::empty(),
            r.cached_ratio() == (Ratio { num: 0, den: 1 }),
            forall|t: Map<Seq<char>, int>| #[trigger] mean_of(t, r@, r.cached_ratio()),
    {
        let r = Recipe { ingredients: Vec::new(), ratio: Ratio { num: 0, den: 1 } };
        proof {
            assert(r.seq_view() =~= Seq::<Seq<char>>::empty());
            assert(r@ =~= Set::<Seq<char>>::empty());
            assert forall|t: Map<Seq<char>, int>| #[trigger] mean_of(t, r@, r.cached_ratio()) by {
                lemma_sum_empty(t);
            }
        }
        r
    }

    /// Whether the recipe already holds `name`.
    pub fn contains_name(&self, name: &str) -> (r: bool)
        ensures
            r == self@.contains(name@),
    {
        let found = find_name(&self.ingredients, name);
        proof {
            lemma_name_set_contains(self.ingredients@, name@);
        }
        match found {
            Some(_) => true,
            None => false,
        }
    }

    /// The selected ingredient names.
    pub fn get_ingredients(&self) -> (r: &Vec<String>)
        ensures
            name_views(r@) == self.seq_view(),
            name_set(r@) == self@,
    {
        &self.ingredients
    }

    /// How many ingredients the recipe holds.
    pub fn ingredient_count(&self) -> (n: usize)
        ensures
            n == self.seq_view().len(),
            self.wf() ==> n == self@.len(),
    {
        proof {
            self.lemma_view();
        }
        self.ingredients.len()
    }

    /// The cached aggregate ratio.
    pub fn get_ratio(&self) -> (r: Ratio)
        ensures
            r == self.cached_ratio(),
    {
        self.ratio
    }

    /// An observably identical copy of the recipe.
    pub fn duplicate(&self) -> (r: Recipe)
        ensures
            r@ == self@,
            r.seq_view() == self.seq_view(),
            r.cached_ratio() == self.cached_ratio(),
            r.wf() == self.wf(),
    {
        let v = self.ingredients.clone();
        proof {
            assert forall|i: int| 0 <= i < v@.len() implies v@[i] == self.ingredients@[i] by {
                assert(cloned::<String>(self.ingredients@[i], v@[i]));
            }
            assert(v@ =~= self.ingredients@);
        }
        Recipe { ingredients: v, ratio: self.ratio }
    }

    /// The exact mean of the members' catalog ratios: a pure function of the
    /// ingredient set and the catalog.
    pub fn compute_ratio(&self, table: &RatioCatalog) -> (r: Ratio)
        requires
            self.wf(),
            table.wf(),
            self@ <= table@.dom(),
        ensures
            r.wf(),
            mean_of(table@, self@, r),
    {
        let s = sum_names(&self.ingredients, table);
        let n = self.ingredients.len();
        proof {
            self.lemma_view();
        }
        if n == 0 {
            proof {
                assert(self@ =~= Set::<Seq<char>>::empty());
                lemma_sum_empty(table@);
            }
            Ratio { num: 0, den: 1 }
        } else {
            Ratio { num: s, den: n }
        }
    }

    /// Whether every member of the recipe is a key of `table`.
    pub fn members_in_table(&self, table: &RatioCatalog) -> (r: bool)
        requires
            table.wf(),
        ensures
            r == (self@ <= table@.dom()),
    {
        let n = self.ingredients.len();
        let mut i: usize = 0;
        while i < n
            invariant
                i <= n,
                n == self.ingredients@.len(),
                table.wf(),
                forall|k: int|
                    0 <= k < i ==> table@.dom().contains(#[trigger] self.ingredients@[k]@),
            decreases n - i,
        {
            if table.lookup(self.ingredients[i].as_str()).is_none() {
                proof {
                    lemma_name_set_contains(self.ingredients@, self.ingredients@[i as int]@);
                    assert(self@.contains(self.ingredients@[i as int]@));
                }
                return false;
            }
            i += 1;
        }
        proof {
            assert forall|y: Seq<char>| self@.contains(y) implies table@.dom().contains(y) by {
                lemma_name_set_contains(self.ingredients@, y);
                let k = choose|k: int|
                    0 <= k < self.ingredients@.len() && self.ingredients@[k]@ == y;
                assert(table@.dom().contains(self.ingredients@[k]@));
            }
        }
        true
    }

    /// A copy of the recipe whose cached ratio is freshly recomputed from
    /// `table`.
    pub fn with_ratio_from(&self, table: &RatioCatalog) -> (r: Recipe)
        requires
            self.wf(),
            table.wf(),
            self@ <= table@.dom(),
        ensures
            r.wf(),
            r@ == self@,
            r.seq_view() == self.seq_view(),
            mean_of(table@, r@, r.cached_ratio()),
    {
        let ratio = self.compute_ratio(table);
        let v = self.ingredients.clone();
        proof {
            assert forall|i: int| 0 <= i < v@.len() implies v@[i] == self.ingredients@[i] by {
                assert(cloned::<String>(self.ingredients@[i], v@[i]));
            }
            assert(v@ =~= self.ingredients@);
            self.lemma_view();
        }
        Recipe { ingredients: v, ratio }
    }

    /// The recipe grown by one fresh ingredient whose catalog ratio is `x`.
    /// Prediction uses this to walk the subset lattice without re-summing:
    /// the new cache adds `x` to the old numerator, which stays exact.
    pub(crate) fn extended(&self, name: &str, x: i64, Ghost(t): Ghost<Map<Seq<char>, int>>) -> (out:
        Recipe)
        requires
            self.wf(),
            !self@.contains(name@),
            mean_of(t, self@, self.cached_ratio()),
            ratios_in_i64(t, self@),
            t.contains_key(name@),
            t[name@] == x as int,
        ensures
            out.wf(),
            out@ == self@.insert(name@),
            out.seq_view() == self.seq_view().push(name@),
            mean_of(t, out@, out.cached_ratio()),
    {
        let owned: String = name.to_owned();
        let v0 = self.ingredients.clone();
        let mut v = v0;
        proof {
            assert forall|i: int| 0 <= i < v@.len() implies v@[i] == self.ingredients@[i] by {
                assert(cloned::<String>(self.ingredients@[i], v@[i]));
            }
            assert(v@ =~= self.ingredients@);
            self.lemma_view();
            lemma_push_name(self.ingredients@, owned);
            lemma_sum_bound(t, self@);
            lemma_sum_insert(t, self@, name@);
            let len = self@.len() as int;
            let m = i64::MAX as int;
            let lo = i64::MIN as int;
            assert(len <= u64::MAX as int);
            assert(len * lo + lo >= (u64::MAX as int + 1) * lo && len * m + m <= (u64::MAX as int
                + 1) * m) by (nonlinear_arith)
                requires
                    0 <= len,
                    len + 1 <= u64::MAX as int + 1,
                    lo == i64::MIN as int,
                    m == i64::MAX as int,
            ;
            assert((u64::MAX as int + 1) * m <= i128::MAX && (u64::MAX as int + 1) * lo
                >= i128::MIN) by (nonlinear_arith)
                requires
                    lo == i64::MIN as int,
                    m == i64::MAX as int,
            ;
        }
        let num = self.ratio.num + (x as i128);
        v.push(owned);
        let den = v.len();
        let out = Recipe { ingredients: v, ratio: Ratio { num, den } };
        proof {
            lemma_name_set_len(out.ingredients@);
        }
        out
    }

    /// Inserts `ingredient` and recomputes the cached ratio from `table`.
    ///
    /// Fails with `AlreadyPresent` when the ingredient is already a member,
    /// and with `CatalogDesync` when the grown member set would not lie
    /// wholly inside the catalog; a failed call changes nothing.
    pub fn add_ingredient_to_recipe(&mut self, ingredient: &str, table: &RatioCatalog) -> (r:
        Result<(), KitchenError>)
        requires
            old(self).wf(),
            table.wf(),
        ensures
            final(self).wf(),
            old(self)@.contains(ingredient@) ==> r == Err::<(), KitchenError>(
                KitchenError::AlreadyPresent,
            ) && *final(self) == *old(self),
            !old(self)@.contains(ingredient@) && !(old(self)@.insert(ingredient@)
                <= table@.dom()) ==> r == Err::<(), KitchenError>(KitchenError::CatalogDesync)
                && *final(self) == *old(self),
            !old(self)@.contains(ingredient@) && old(self)@.insert(ingredient@) <= table@.dom()
                ==> r == Ok::<(), KitchenError>(()) && final(self)@ == old(self)@.insert(
                ingredient@,
            ) && final(self).seq_view() == old(self).seq_view().push(ingredient@) && mean_of(
                table@,
                final(self)@,
                final(self).cached_ratio(),
            ),
    {
        if self.contains_name(ingredient) {
            return Err(KitchenError::AlreadyPresent);
        }
        if table.lookup(ingredient).is_none() {
            proof {
                assert(old(self)@.insert(ingredient@).contains(ingredient@));
            }
            return Err(KitchenError::CatalogDesync);
        }
        let n = self.ingredients.len();
        let mut i: usize = 0;
        while i < n
            invariant
                i <= n,
                n == self.ingredients@.len(),
                *self == *old(self),
                old(self).wf(),
                table.wf(),
                !old(self)@.contains(ingredient@),
                table@.contains_key(ingredient@),
                forall|k: int| 0 <= k < i ==> table@.dom().contains(#[trigger] self.ingredients@[k]@),
            decreases n - i,
        {
            if table.lookup(self.ingredients[i].as_str()).is_none() {
                proof {
                    lemma_name_set_contains(self.ingredients@, self.ingredients@[i as int]@);
                    assert(old(self)@.contains(self.ingredients@[i as int]@));
                    assert(old(self)@.insert(ingredient@).contains(
                        self.ingredients@[i as int]@,
                    ));
                }
                return Err(KitchenError::CatalogDesync);
            }
            i += 1;
        }
        proof {
            assert forall|y: Seq<char>| old(self)@.insert(ingredient@).contains(y)
                implies table@.dom().contains(y) by {
                if y != ingredient@ {
                    lemma_name_set_contains(self.ingredients@, y);
                    let k = choose|k: int|
                        0 <= k < self.ingredients@.len() && self.ingredients@[k]@ == y;
                    assert(table@.dom().contains(self.ingredients@[k]@));
                }
            }
        }
        let owned: String = ingredient.to_owned();
        let ghost v0 = self.ingredients@;
        proof {
            lemma_push_name(v0, owned);
        }
        self.ingredients.push(owned);
        let s = sum_names(&self.ingredients, table);
        let den = self.ingredients.len();
        self.ratio = Ratio { num: s, den };
        proof {
            lemma_name_set_len(self.ingredients@);
        }
        Ok(())
    }

    /// Removes `ingredient` and recomputes the cached ratio from `table`.
    ///
    /// Fails with `NotPresent` when the ingredient is not a member, and with
    /// `CatalogDesync` when a remaining member cannot be found in the
    /// catalog; a failed call changes nothing.  The mean of an emptied
    /// recipe is the zero scalar.
    pub fn remove_ingredient_from_recipe(&mut self, ingredient: &str, table: &RatioCatalog) -> (r:
        Result<(), KitchenError>)
        requires
            old(self).wf(),
            table.wf(),
        ensures
            final(self).wf(),
            !old(self)@.contains(ingredient@) ==> r == Err::<(), KitchenError>(
                KitchenError::NotPresent,
            ) && *final(self) == *old(self),
            old(self)@.contains(ingredient@) && !(old(self)@.remove(ingredient@)
                <= table@.dom()) ==> r == Err::<(), KitchenError>(KitchenError::CatalogDesync)
                && *final(self) == *old(self),
            old(self)@.contains(ingredient@) && old(self)@.remove(ingredient@) <= table@.dom()
                ==> r == Ok::<(), KitchenError>(()) && final(self)@ == old(self)@.remove(
                ingredient@,
            ) && mean_of(table@, final(self)@, final(self).cached_ratio()),
    {
        proof {
            lemma_name_set_contains(self.ingredients@, ingredient@);
        }
        let found = find_name(&self.ingredients, ingredient);
        let idx = match found {
            None => {
                return Err(KitchenError::NotPresent);
            },
            Some(k) => k,
        };
        let n = self.ingredients.len();
        let mut i: usize = 0;
        while i < n
            invariant
                i <= n,
                n == self.ingredients@.len(),
                *self == *old(self),
                old(self).wf(),
                table.wf(),
                idx < n,
                old(self)@.contains(ingredient@),
                self.ingredients@[idx as int]@ == ingredient@,
                forall|k: int|
                    0 <= k < i && k != idx ==> table@.dom().contains(
                        #[trigger] self.ingredients@[k]@,
                    ),
            decreases n - i,
        {
            if i != idx && table.lookup(self.ingredients[i].as_str()).is_none() {
                proof {
                    let vi = self.ingredients@[i as int]@;
                    lemma_name_set_contains(self.ingredients@, vi);
                    assert(old(self)@.contains(vi));
                    assert(name_views(self.ingredients@)[i as int] == vi);
                    assert(name_views(self.ingredients@)[idx as int] == ingredient@);
                    assert(vi != ingredient@);
                    assert(old(self)@.remove(ingredient@).contains(vi));
                }
                return Err(KitchenError::CatalogDesync);
            }
            i += 1;
        }
        let ghost v0 = self.ingredients@;
        proof {
            lemma_remove_name(v0, idx as int);
            assert forall|y: Seq<char>| old(self)@.remove(ingredient@).contains(y)
                implies table@.dom().contains(y) by {
                lemma_name_set_contains(v0, y);
                let k = choose|k: int| 0 <= k < v0.len() && v0[k]@ == y;
                assert(k != idx);
                assert(table@.dom().contains(v0[k]@));
            }
        }
        let _removed = self.ingredients.remove(idx);
        let s = sum_names(&self.ingredients, table);
        let count = self.ingredients.len();
        if count == 0 {
            self.ratio = Ratio { num: 0, den: 1 };
        } else {
            self.ratio = Ratio { num: s, den: count };
        }
        proof {
            lemma_name_set_len(self.ingredients@);
            if count == 0 {
                assert(self@ =~= Set::<Seq<char>>::empty());
                lemma_sum_empty(table@);
            }
        }
        Ok(())
    }
}

} // verus!
