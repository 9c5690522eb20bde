//! Per-category ratio catalogs: an immutable mapping from ingredient name to
//! its ratio scalar, loaded from a sequence of (name, category, ratio) rows.

use crate::model::{
    distinct_names, lemma_name_set_contains, lemma_name_set_len, lemma_push_name, name_set,
    name_views,
};
use crate::types::TypeOfIngredient;
use vstd::pervasive::VecAdditionalExecFns;
use vstd::prelude::*;

verus! {

/// The map denoted by a sequence of catalog rows: a later row overwrites an
/// earlier one with the same name.
pub open spec fn table_map(rows: Seq<(String, i64)>) -> Map<Seq<char>, int>
    decreases rows.len(),
{
    if rows.len() == 0 {
        Map::empty()
    } else {
        table_map(rows.drop_last()).insert(rows.last().0@, rows.last().1 as int)
    }
}

/// The names of the rows, in row order.
pub open spec fn row_keys(rows: Seq<(String, i64)>) -> Seq<String> {
    rows.map_values(|r: (String, i64)| r.0)
}

/// The domain of the denoted map is the set of row names, and every value
/// lies in the `i64` range.
pub proof fn lemma_table_map_dom(rows: Seq<(String, i64)>)
    ensures
        table_map(rows).dom() =~= name_set(row_keys(rows)),
        forall|y: Seq<char>| #[trigger]
            table_map(rows).dom().contains(y) ==> i64::MIN <= table_map(rows)[y] <= i64::MAX,
    decreases rows.len(),
{
    if rows.len() == 0 {
        assert(name_views(row_keys(rows)) =~= Seq::<Seq<char>>::empty());
        assert(name_set(row_keys(rows)) =~= Set::<Seq<char>>::empty());
    } else {
        let dl = rows.drop_last();
        lemma_table_map_dom(dl);
        assert(row_keys(rows) =~= row_keys(dl).push(rows.last().0));
        lemma_push_name(row_keys(dl), rows.last().0);
    }
}

/// With distinct row names, the denoted map sends each row's name to that
/// row's ratio.
pub proof fn lemma_table_map_at(rows: Seq<(String, i64)>, i: int)
    requires
        distinct_names(row_keys(rows)),
        0 <= i < rows.len(),
    ensures
        table_map(rows).contains_key(rows[i].0@),
        table_map(rows)[rows[i].0@] == rows[i].1 as int,
    decreases rows.len(),
{
    let dl = rows.drop_last();
    assert(row_keys(dl) =~= row_keys(rows).drop_last());
    if i < rows.len() - 1 {
        assert(distinct_names(row_keys(dl))) by {
            assert forall|a: int, b: int|
                0 <= a < dl.len() && 0 <= b < dl.len() && a != b implies name_views(row_keys(dl))[a]
                != name_views(row_keys(dl))[b] by {
                assert(name_views(row_keys(rows))[a] == name_views(row_keys(dl))[a]);
                assert(name_views(row_keys(rows))[b] == name_views(row_keys(dl))[b]);
            }
        }
        lemma_table_map_at(dl, i);
        assert(name_views(row_keys(rows))[i] == rows[i].0@);
        assert(name_views(row_keys(rows))[rows.len() - 1] == rows.last().0@);
        assert(rows[i].0@ != rows.last().0@);
    }
}

/// Replacing row `i`'s ratio, keeping its name, denotes a map insertion.
pub proof fn lemma_table_map_update(rows: Seq<(String, i64)>, i: int, name: String, x: i64)
    requires
        distinct_names(row_keys(rows)),
        0 <= i < rows.len(),
        name@ == rows[i].0@,
    ensures
        table_map(rows.update(i, (name, x))) =~= table_map(rows).insert(rows[i].0@, x as int),
    decreases rows.len(),
{
    let r2 = rows.update(i, (name, x));
    let dl = rows.drop_last();
    assert(distinct_names(row_keys(dl))) by {
        assert(row_keys(dl) =~= row_keys(rows).drop_last());
        assert forall|a: int, b: int|
            0 <= a < dl.len() && 0 <= b < dl.len() && a != b implies name_views(row_keys(dl))[a]
            != name_views(row_keys(dl))[b] by {
            assert(name_views(row_keys(rows))[a] == name_views(row_keys(dl))[a]);
            assert(name_views(row_keys(rows))[b] == name_views(row_keys(dl))[b]);
        }
    }
    if i == rows.len() - 1 {
        assert(r2.drop_last() =~= dl);
        assert(r2.last() == (name, x));
        assert(table_map(r2) =~= table_map(rows).insert(rows[i].0@, x as int));
    } else {
        assert(r2.drop_last() =~= dl.update(i, (name, x)));
        assert(r2.last() == rows.last());
        assert(row_keys(dl) =~= row_keys(rows).drop_last());
        assert(dl[i] == rows[i]);
        lemma_table_map_update(dl, i, name, x);
        assert(name_views(row_keys(rows))[i] == rows[i].0@);
        assert(name_views(row_keys(rows))[rows.len() - 1] == rows.last().0@);
        assert(rows[i].0@ != rows.last().0@);
        assert(table_map(r2) =~= table_map(rows).insert(rows[i].0@, x as int));
    }
}

/// An immutable per-category catalog: ingredient name to ratio scalar.
#[derive(Clone, Debug)]
pub struct RatioCatalog {
    rows: Vec<(String, i64)>,
}

impl View for RatioCatalog {
    type V = Map<Seq<char>, int>;

    closed spec fn view(&self) -> Map<Seq<char>, int> {
        table_map(self.rows@)
    }
}

impl RatioCatalog {
    /// A catalog is well formed when its row names are distinct.
    pub closed spec fn wf(&self) -> bool {
        distinct_names(row_keys(self.rows@))
    }

    /// The catalog's names, in row order.
    pub closed spec fn key_seq(&self) -> Seq<Seq<char>> {
        name_views(row_keys(self.rows@))
    }

    /// Basic facts about the denoted map.
    pub proof fn lemma_view(&self)
        ensures
            self@.dom().finite(),
            self@.dom() =~= self.key_seq().to_set(),
            forall|y: Seq<char>| #[trigger]
                self@.dom().contains(y) ==> i64::MIN <= self@[y] <= i64::MAX,
            self.wf() ==> self@.dom().len() == self.key_seq().len(),
    {
        lemma_table_map_dom(self.rows@);
        lemma_name_set_len(row_keys(self.rows@));
    }

    /// An empty catalog.
    pub fn new() -> (c: RatioCatalog)
        ensures
            c.wf(),
            c@ =~= Map::<Seq<char>, int>::empty(),
    {
        RatioCatalog { rows: Vec::new() }
    }

    /// Returns the ratio recorded for `name`, if the catalog knows it.
    pub fn lookup(&self, name: &str) -> (r: Option<i64>)
        requires
            self.wf(),
        ensures
            match r {
                Some(x) => self@.contains_key(name@) && x as int == self@[name@],
                None => !self@.contains_key(name@),
            },
    {
        let owned: String = name.to_owned();
        let n = self.rows.len();
        let mut i: usize = 0;
        while i < n
            invariant
                i <= n,
                n == self.rows@.len(),
                owned@ == name@,
                self.wf(),
                forall|k: int| 0 <= k < i ==> self.rows@[k].0@ != name@,
            decreases n - i,
        {
            if self.rows[i].0 == owned {
                proof {
                    lemma_table_map_at(self.rows@, i as int);
                }
                return Some(self.rows[i].1);
            }
            i += 1;
        }
        proof {
            lemma_table_map_dom(self.rows@);
            lemma_name_set_contains(row_keys(self.rows@), name@);
            assert(forall|k: int|
                0 <= k < self.rows@.len() ==> #[trigger] row_keys(self.rows@)[k]@ != name@);
        }
        None
    }

    /// Records `ratio` for `name`, overwriting any earlier row for it.
    pub fn insert(&mut self, name: String, ratio: i64)
        requires
            old(self).wf(),
        ensures
            final(self).wf(),
            final(self)@ =~= old(self)@.insert(name@, ratio as int),
    {
        let n = self.rows.len();
        let mut i: usize = 0;
        while i < n
            invariant
                i <= n,
                n == self.rows@.len(),
                self == old(self),
                self.wf(),
                forall|k: int| 0 <= k < i ==> self.rows@[k].0@ != name@,
            decreases n - i,
        {
            if self.rows[i].0 == name {
                proof {
                    lemma_table_map_at(self.rows@, i as int);
                    lemma_table_map_update(self.rows@, i as int, name, ratio);
                    assert(name_views(row_keys(self.rows@.update(i as int, (name, ratio)))) =~= name_views(
                        row_keys(self.rows@),
                    ));
                }
                self.rows.set(i, (name, ratio));
                return ;
            }
            i += 1;
        }
        proof {
            let rows0 = self.rows@;
            lemma_table_map_dom(rows0);
            lemma_name_set_contains(row_keys(rows0), name@);
            assert(forall|k: int| 0 <= k < rows0.len() ==> #[trigger] row_keys(rows0)[k]@ != name@);
            assert(!name_set(row_keys(rows0)).contains(name@));
            lemma_push_name(row_keys(rows0), name);
            assert(row_keys(rows0.push((name, ratio))) =~= row_keys(rows0).push(name));
            assert(rows0.push((name, ratio)).drop_last() =~= rows0);
        }
        self.rows.push((name, ratio));
    }

    /// All ingredient names, in catalog order.
    pub fn names(&self) -> (out: Vec<String>)
        requires
            self.wf(),
        ensures
            name_views(out@) =~= self.key_seq(),
            distinct_names(out@),
            name_set(out@) =~= self@.dom(),
    {
        let n = self.rows.len();
        let mut out: Vec<String> = Vec::new();
        let mut i: usize = 0;
        while i < n
            invariant
                i <= n,
                n == self.rows@.len(),
                self.wf(),
                name_views(out@) =~= self.key_seq().take(i as int),
            decreases n - i,
        {
            let nm = self.rows[i].0.clone();
            proof {
                assert(nm@ == self.key_seq()[i as int]);
                assert(name_views(out@.push(nm)) =~= name_views(out@).push(nm@));
                assert(self.key_seq().take(i + 1) =~= self.key_seq().take(i as int).push(
                    self.key_seq()[i as int],
                ));
            }
            out.push(nm);
            i += 1;
        }
        proof {
            assert(self.key_seq().take(n as int) =~= self.key_seq());
            self.lemma_view();
        }
        out
    }
}

/// One row of an external ratio table: an ingredient, its category, and its
/// ratio scalar.
#[derive(Clone, Debug)]
pub struct RatioEntry {
    pub name: String,
    pub type_of_ingredient: TypeOfIngredient,
    pub ratio: i64,
}

/// The per-category map that a sequence of table entries loads: entries of
/// other categories are skipped, and a later entry overwrites an earlier one
/// with the same name.
pub open spec fn table_of_entries(entries: Seq<RatioEntry>, t: TypeOfIngredient) -> Map<
    Seq<char>,
    int,
>
    decreases entries.len(),
{
    if entries.len() == 0 {
        Map::empty()
    } else {
        let m = table_of_entries(entries.drop_last(), t);
        let e = entries.last();
        if e.type_of_ingredient == t {
            m.insert(e.name@, e.ratio as int)
        } else {
            m
        }
    }
}

/// Whether any entry belongs to category `t`.
pub open spec fn has_entries_for(entries: Seq<RatioEntry>, t: TypeOfIngredient) -> bool {
    exists|i: int| 0 <= i < entries.len() && entries[i].type_of_ingredient == t
}

/// A category without entries loads as the empty map.
pub proof fn lemma_table_of_entries_empty(entries: Seq<RatioEntry>, t: TypeOfIngredient)
    requires
        !has_entries_for(entries, t),
    ensures
        table_of_entries(entries, t) =~= Map::<Seq<char>, int>::empty(),
    decreases entries.len(),
{
    if entries.len() > 0 {
        let dl = entries.drop_last();
        assert(!has_entries_for(dl, t)) by {
            if has_entries_for(dl, t) {
                let j = choose|j: int| 0 <= j < dl.len() && dl[j].type_of_ingredient == t;
                assert(entries[j].type_of_ingredient == t);
            }
        }
        assert(entries[entries.len() - 1].type_of_ingredient != t);
        lemma_table_of_entries_empty(dl, t);
    }
}

/// Groups a ratio table into one catalog per category.  A category with no
/// entry gets no catalog at all, so that reads of it keep failing.
pub fn ratio_table_to_table_per_type(entries: &Vec<RatioEntry>) -> (out: (
    Option<RatioCatalog>,
    Option<RatioCatalog>,
))
    ensures
        (out.0 is Some) == has_entries_for(entries@, TypeOfIngredient::FRUIT),
        (out.1 is Some) == has_entries_for(entries@, TypeOfIngredient::VEGETABLE),
        out.0 matches Some(c) ==> c.wf() && c@ =~= table_of_entries(
            entries@,
            TypeOfIngredient::FRUIT,
        ),
        out.1 matches Some(c) ==> c.wf() && c@ =~= table_of_entries(
            entries@,
            TypeOfIngredient::VEGETABLE,
        ),
{
    let n = entries.len();
    let mut fruit: Option<RatioCatalog> = None;
    let mut vegetable: Option<RatioCatalog> = None;
    let mut i: usize = 0;
    while i < n
        invariant
            i <= n,
            n == entries@.len(),
            (fruit is Some) == has_entries_for(
                entries@.take(i as int),
                TypeOfIngredient::FRUIT,
            ),
            (vegetable is Some) == has_entries_for(
                entries@.take(i as int),
                TypeOfIngredient::VEGETABLE,
            ),
            fruit matches Some(c) ==> c.wf() && c@ =~= table_of_entries(
                entries@.take(i as int),
                TypeOfIngredient::FRUIT,
            ),
            vegetable matches Some(c) ==> c.wf() && c@ =~= table_of_entries(
                entries@.take(i as int),
                TypeOfIngredient::VEGETABLE,
            ),
        decreases n - i,
    {
        let ghost pre = entries@.take(i as int);
        let ghost post = entries@.take(i + 1);
        proof {
            assert(post.drop_last() =~= pre);
            assert(post.last() == entries@[i as int]);
            assert forall|t: TypeOfIngredient|
                entries@[i as int].type_of_ingredient != t implies has_entries_for(post, t)
                == has_entries_for(pre, t) by {
                if has_entries_for(post, t) {
                    let j = choose|j: int| 0 <= j < post.len() && post[j].type_of_ingredient == t;
                    assert(j != i);
                    assert(pre[j].type_of_ingredient == t);
                }
                if has_entries_for(pre, t) {
                    let j = choose|j: int| 0 <= j < pre.len() && pre[j].type_of_ingredient == t;
                    assert(post[j].type_of_ingredient == t);
                }
            }
            assert forall|t: TypeOfIngredient|
                entries@[i as int].type_of_ingredient == t implies has_entries_for(post, t) by {
                assert(post[i as int].type_of_ingredient == t);
            }
        }
        let name = entries[i].name.clone();
        let ratio = entries[i].ratio;
        match entries[i].type_of_ingredient {
            TypeOfIngredient::FRUIT => {
                let mut c = match fruit {
                    Some(c0) => c0,
                    None => {
                        proof {
                            lemma_table_of_entries_empty(pre, TypeOfIngredient::FRUIT);
                        }
                        RatioCatalog::new()
                    },
                };
                proof {
                    assert(c@ =~= table_of_entries(pre, TypeOfIngredient::FRUIT));
                }
                c.insert(name, ratio);
                proof {
                    assert(c@ =~= table_of_entries(post, TypeOfIngredient::FRUIT));
                }
                fruit = Some(c);
            },
            TypeOfIngredient::VEGETABLE => {
                let mut c = match vegetable {
                    Some(c0) => c0,
                    None => {
                        proof {
                            lemma_table_of_entries_empty(pre, TypeOfIngredient::VEGETABLE);
                        }
                        RatioCatalog::new()
                    },
                };
                proof {
                    assert(c@ =~= table_of_entries(pre, TypeOfIngredient::VEGETABLE));
                }
                c.insert(name, ratio);
                proof {
                    assert(c@ =~= table_of_entries(post, TypeOfIngredient::VEGETABLE));
                }
                vegetable = Some(c);
            },
        }
        i += 1;
    }
    proof {
        assert(entries@.take(n as int) =~= entries@);
    }
    (fruit, vegetable)
}

} // verus!
