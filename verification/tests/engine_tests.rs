use glider_kitchen_ai::{Configuration, KitchenAi, KitchenError, RatioEntry, TypeOfIngredient};

fn entry(name: &str, t: TypeOfIngredient, ratio: i64) -> RatioEntry {
    RatioEntry { name: name.to_owned(), type_of_ingredient: t, ratio }
}

fn config(min_ratio: i64, max_ratio: i64, min_ingredients: u8, max_ingredients: u8) -> Configuration {
    Configuration { min_ratio, max_ratio, min_ingredients, max_ingredients }
}

fn engine_with(
    cfg: Configuration,
    entries: Vec<RatioEntry>,
) -> KitchenAi {
    let mut ai = KitchenAi::new_with_config(cfg);
    ai.load_tables(&entries);
    ai
}

/// The set of ingredient-name sets a prediction returned, sorted for
/// comparison.
fn prediction_sets(ai: &KitchenAi, t: &TypeOfIngredient) -> Vec<Vec<String>> {
    let recipes = ai.predict(t).expect("prediction should succeed");
    let mut out: Vec<Vec<String>> = Vec::new();
    for r in &recipes {
        let mut names: Vec<String> = r.get_ingredients().clone();
        names.sort();
        out.push(names);
    }
    out.sort();
    out
}

fn names_of(v: &[&str]) -> Vec<String> {
    v.iter().map(|s| (*s).to_string()).collect()
}

#[test]
fn ratio_of_untouched_category_is_zero() {
    let ai = engine_with(config(0, 10, 1, 2), vec![entry("apple", TypeOfIngredient::FRUIT, 2)]);
    let r = ai.get_ratio(&TypeOfIngredient::FRUIT);
    assert_eq!(r.num, 0);
    assert_eq!(r.den, 1);
    let r2 = ai.get_ratio(&TypeOfIngredient::VEGETABLE);
    assert_eq!(r2.num, 0);
    assert_eq!(r2.den, 1);
}

#[test]
fn ratio_is_the_arithmetic_mean() {
    let mut ai = engine_with(
        config(0, 10, 1, 3),
        vec![
            entry("apple", TypeOfIngredient::FRUIT, 2),
            entry("banana", TypeOfIngredient::FRUIT, 4),
            entry("cherry", TypeOfIngredient::FRUIT, 9),
        ],
    );
    let t = TypeOfIngredient::FRUIT;
    ai.add_ingredient(&t, "apple").unwrap();
    let r = ai.get_ratio(&t);
    assert_eq!((r.num, r.den), (2, 1));
    ai.add_ingredient(&t, "banana").unwrap();
    let r = ai.get_ratio(&t);
    assert_eq!((r.num, r.den), (6, 2));
    assert_eq!(r.num as f64 / r.den as f64, 3.0);
    ai.add_ingredient(&t, "cherry").unwrap();
    let r = ai.get_ratio(&t);
    assert_eq!((r.num, r.den), (15, 3));
    assert_eq!(r.num as f64 / r.den as f64, 5.0);
}

#[test]
fn adding_twice_fails_and_changes_nothing() {
    let mut ai = engine_with(
        config(0, 10, 1, 2),
        vec![
            entry("apple", TypeOfIngredient::FRUIT, 2),
            entry("banana", TypeOfIngredient::FRUIT, 4),
        ],
    );
    let t = TypeOfIngredient::FRUIT;
    assert_eq!(ai.add_ingredient(&t, "apple"), Ok(()));
    let before_ratio = ai.get_ratio(&t);
    let mut before_names = ai.get_recipe(&t).unwrap().get_ingredients().clone();
    before_names.sort();

    assert_eq!(ai.add_ingredient(&t, "apple"), Err(KitchenError::AlreadyPresent));

    let after_ratio = ai.get_ratio(&t);
    let mut after_names = ai.get_recipe(&t).unwrap().get_ingredients().clone();
    after_names.sort();
    assert_eq!(before_ratio, after_ratio);
    assert_eq!(before_names, after_names);
}

#[test]
fn add_then_remove_restores_set_and_ratio() {
    let mut ai = engine_with(
        config(0, 10, 1, 3),
        vec![
            entry("apple", TypeOfIngredient::FRUIT, 2),
            entry("banana", TypeOfIngredient::FRUIT, 4),
            entry("cherry", TypeOfIngredient::FRUIT, 9),
        ],
    );
    let t = TypeOfIngredient::FRUIT;
    ai.add_ingredient(&t, "apple").unwrap();
    ai.add_ingredient(&t, "banana").unwrap();
    let before_ratio = ai.get_ratio(&t);
    let mut before_names = ai.get_recipe(&t).unwrap().get_ingredients().clone();
    before_names.sort();

    ai.add_ingredient(&t, "cherry").unwrap();
    ai.remove_ingredient(&t, "cherry").unwrap();

    let after_ratio = ai.get_ratio(&t);
    let mut after_names = ai.get_recipe(&t).unwrap().get_ingredients().clone();
    after_names.sort();
    assert_eq!(before_ratio, after_ratio);
    assert_eq!(before_names, after_names);
}

#[test]
fn removing_an_absent_ingredient_fails() {
    let mut ai = engine_with(config(0, 10, 1, 2), vec![entry("apple", TypeOfIngredient::FRUIT, 2)]);
    let t = TypeOfIngredient::FRUIT;
    assert_eq!(ai.remove_ingredient(&t, "apple"), Err(KitchenError::NotPresent));
    ai.add_ingredient(&t, "apple").unwrap();
    assert_eq!(ai.remove_ingredient(&t, "banana"), Err(KitchenError::NotPresent));
    assert_eq!(ai.remove_ingredient(&t, "apple"), Ok(()));
    let r = ai.get_ratio(&t);
    assert_eq!((r.num, r.den), (0, 1));
}

#[test]
fn insertion_order_does_not_matter() {
    let orders: [[&str; 3]; 6] = [
        ["apple", "banana", "cherry"],
        ["apple", "cherry", "banana"],
        ["banana", "apple", "cherry"],
        ["banana", "cherry", "apple"],
        ["cherry", "apple", "banana"],
        ["cherry", "banana", "apple"],
    ];
    let mut seen: Vec<((i128, usize), Vec<String>)> = Vec::new();
    for order in &orders {
        let mut ai = engine_with(
            config(0, 10, 1, 3),
            vec![
                entry("apple", TypeOfIngredient::FRUIT, 2),
                entry("banana", TypeOfIngredient::FRUIT, 4),
                entry("cherry", TypeOfIngredient::FRUIT, 9),
            ],
        );
        let t = TypeOfIngredient::FRUIT;
        for name in order {
            ai.add_ingredient(&t, name).unwrap();
        }
        let r = ai.get_ratio(&t);
        let mut names = ai.get_recipe(&t).unwrap().get_ingredients().clone();
        names.sort();
        seen.push(((r.num, r.den), names));
    }
    for other in &seen[1..] {
        assert_eq!(&seen[0], other);
    }
}

#[test]
fn validity_tracks_the_inclusive_ratio_range() {
    let mut ai = engine_with(
        config(2, 4, 1, 2),
        vec![
            entry("apple", TypeOfIngredient::FRUIT, 2),
            entry("banana", TypeOfIngredient::FRUIT, 4),
            entry("cherry", TypeOfIngredient::FRUIT, 20),
        ],
    );
    let t = TypeOfIngredient::FRUIT;
    // no recipe yet: ratio zero, below min_ratio 2
    assert!(!ai.is_valid(&t));
    ai.add_ingredient(&t, "apple").unwrap();
    // ratio 2 == min_ratio: inclusive
    assert!(ai.is_valid(&t));
    ai.add_ingredient(&t, "banana").unwrap();
    // ratio 3
    assert!(ai.is_valid(&t));
    ai.remove_ingredient(&t, "apple").unwrap();
    // ratio 4 == max_ratio: inclusive
    assert!(ai.is_valid(&t));
    ai.add_ingredient(&t, "cherry").unwrap();
    // ratio 12 > 4
    assert!(!ai.is_valid(&t));
}

#[test]
fn zero_ratio_is_valid_when_zero_is_in_range() {
    let ai = engine_with(config(0, 10, 1, 2), vec![entry("apple", TypeOfIngredient::FRUIT, 2)]);
    assert!(ai.is_valid(&TypeOfIngredient::FRUIT));
    assert!(ai.is_valid(&TypeOfIngredient::VEGETABLE));
}

#[test]
fn prediction_lists_exactly_the_acceptable_sets() {
    let ai = engine_with(
        config(0, 10, 1, 2),
        vec![
            entry("a", TypeOfIngredient::FRUIT, 2),
            entry("b", TypeOfIngredient::FRUIT, 4),
            entry("c", TypeOfIngredient::FRUIT, 20),
        ],
    );
    let got = prediction_sets(&ai, &TypeOfIngredient::FRUIT);
    let mut expected = vec![names_of(&["a"]), names_of(&["b"]), names_of(&["a", "b"])];
    expected.sort();
    assert_eq!(got, expected);
}

#[test]
fn prediction_deduplicates_across_paths() {
    let mut ai = engine_with(
        config(0, 10, 1, 2),
        vec![
            entry("a", TypeOfIngredient::FRUIT, 2),
            entry("b", TypeOfIngredient::FRUIT, 4),
        ],
    );
    let t = TypeOfIngredient::FRUIT;
    ai.add_ingredient(&t, "a").unwrap();
    let got = prediction_sets(&ai, &t);
    let mut expected = vec![names_of(&["a"]), names_of(&["a", "b"])];
    expected.sort();
    assert_eq!(got, expected);
}

#[test]
fn prediction_stops_at_the_size_ceiling() {
    let ai = engine_with(
        config(0, 100, 0, 2),
        vec![
            entry("a", TypeOfIngredient::FRUIT, 2),
            entry("b", TypeOfIngredient::FRUIT, 4),
            entry("c", TypeOfIngredient::FRUIT, 6),
        ],
    );
    let got = prediction_sets(&ai, &TypeOfIngredient::FRUIT);
    let mut expected = vec![
        names_of(&[]),
        names_of(&["a"]),
        names_of(&["b"]),
        names_of(&["c"]),
        names_of(&["a", "b"]),
        names_of(&["a", "c"]),
        names_of(&["b", "c"]),
    ];
    expected.sort();
    assert_eq!(got, expected);
}

#[test]
fn unknown_category_is_reported_and_nothing_defaults() {
    let mut ai = engine_with(config(0, 10, 1, 2), vec![entry("apple", TypeOfIngredient::FRUIT, 2)]);
    let t = TypeOfIngredient::VEGETABLE;
    assert!(matches!(ai.predict(&t), Err(KitchenError::UnknownCategory)));
    assert_eq!(ai.add_ingredient(&t, "carrot"), Err(KitchenError::UnknownCategory));
    assert!(matches!(
        ai.get_ingredients_from_table(&t),
        Err(KitchenError::UnknownCategory)
    ));
    assert!(ai.get_recipe(&t).is_none());
}

#[test]
fn catalog_lists_its_ingredients_per_category() {
    let ai = engine_with(
        config(0, 10, 1, 2),
        vec![
            entry("apple", TypeOfIngredient::FRUIT, 2),
            entry("carrot", TypeOfIngredient::VEGETABLE, 3),
            entry("banana", TypeOfIngredient::FRUIT, 4),
        ],
    );
    let mut fruits = ai.get_ingredients_from_table(&TypeOfIngredient::FRUIT).unwrap();
    fruits.sort();
    assert_eq!(fruits, names_of(&["apple", "banana"]));
    let veggies = ai.get_ingredients_from_table(&TypeOfIngredient::VEGETABLE).unwrap();
    assert_eq!(veggies, names_of(&["carrot"]));
}

#[test]
fn a_later_table_entry_overwrites_an_earlier_one() {
    let mut ai = engine_with(
        config(0, 10, 1, 2),
        vec![
            entry("apple", TypeOfIngredient::FRUIT, 2),
            entry("apple", TypeOfIngredient::FRUIT, 7),
        ],
    );
    let t = TypeOfIngredient::FRUIT;
    let names = ai.get_ingredients_from_table(&t).unwrap();
    assert_eq!(names, names_of(&["apple"]));
    ai.add_ingredient(&t, "apple").unwrap();
    let r = ai.get_ratio(&t);
    assert_eq!((r.num, r.den), (7, 1));
}

#[test]
fn reloading_a_catalog_out_from_under_a_recipe_desynchronizes() {
    let mut ai = engine_with(config(0, 10, 1, 2), vec![entry("apple", TypeOfIngredient::FRUIT, 2)]);
    let t = TypeOfIngredient::FRUIT;
    ai.add_ingredient(&t, "apple").unwrap();
    // replace the catalog with one that no longer knows "apple"
    ai.load_tables(&vec![entry("banana", TypeOfIngredient::FRUIT, 4)]);
    assert_eq!(ai.add_ingredient(&t, "banana"), Err(KitchenError::CatalogDesync));
    assert!(matches!(ai.predict(&t), Err(KitchenError::CatalogDesync)));
    // removing the stray member resynchronizes
    assert_eq!(ai.remove_ingredient(&t, "apple"), Ok(()));
    assert_eq!(ai.add_ingredient(&t, "banana"), Ok(()));
}

#[test]
fn prediction_from_an_oversized_recipe_keeps_extending() {
    // the current recipe already exceeds max_ingredients: the ceiling can
    // no longer be met, so the walk extends to every superset
    let mut ai = engine_with(
        config(0, 100, 0, 1),
        vec![
            entry("a", TypeOfIngredient::FRUIT, 2),
            entry("b", TypeOfIngredient::FRUIT, 4),
            entry("c", TypeOfIngredient::FRUIT, 6),
        ],
    );
    let t = TypeOfIngredient::FRUIT;
    ai.add_ingredient(&t, "a").unwrap();
    ai.add_ingredient(&t, "b").unwrap();
    let got = prediction_sets(&ai, &t);
    let mut expected = vec![names_of(&["a", "b"]), names_of(&["a", "b", "c"])];
    expected.sort();
    assert_eq!(got, expected);
}

#[test]
fn negative_ratios_average_exactly() {
    let mut ai = engine_with(
        config(-5, 0, 1, 2),
        vec![
            entry("a", TypeOfIngredient::FRUIT, -3),
            entry("b", TypeOfIngredient::FRUIT, 2),
        ],
    );
    let t = TypeOfIngredient::FRUIT;
    ai.add_ingredient(&t, "a").unwrap();
    ai.add_ingredient(&t, "b").unwrap();
    let r = ai.get_ratio(&t);
    assert_eq!((r.num, r.den), (-1, 2));
    assert!(ai.is_valid(&t));
}

#[test]
fn choosable_ingredients_union_all_predicted_sets() {
    let mut ai = engine_with(
        config(0, 10, 1, 2),
        vec![
            entry("a", TypeOfIngredient::FRUIT, 2),
            entry("b", TypeOfIngredient::FRUIT, 4),
            entry("c", TypeOfIngredient::FRUIT, 20),
        ],
    );
    let t = TypeOfIngredient::FRUIT;
    // predictions are {a}, {b}, {a, b}: c never appears, so it is not choosable
    let recipes = ai.predict(&t).unwrap();
    let mut names = glider_kitchen_ai::predict::choosable_ingredients(&recipes);
    names.sort();
    assert_eq!(names, names_of(&["a", "b"]));
    // from {a} with ceiling 2, only b can still join
    ai.add_ingredient(&t, "a").unwrap();
    let recipes = ai.predict(&t).unwrap();
    let mut names = glider_kitchen_ai::predict::choosable_ingredients(&recipes);
    names.sort();
    assert_eq!(names, names_of(&["a", "b"]));
}
