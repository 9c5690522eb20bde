use glider_kitchen_ai::{KitchenError, RatioCatalog, Recipe};

fn catalog(pairs: &[(&str, i64)]) -> RatioCatalog {
    let mut c = RatioCatalog::new();
    for (name, ratio) in pairs {
        c.insert((*name).to_owned(), *ratio);
    }
    c
}

#[test]
fn empty_recipe_has_the_zero_ratio() {
    let rec = Recipe::new();
    let r = rec.get_ratio();
    assert_eq!((r.num, r.den), (0, 1));
    assert!(rec.get_ingredients().is_empty());
}

#[test]
fn compute_ratio_is_the_mean_over_the_member_set() {
    let cat = catalog(&[("a", 2), ("b", 4), ("c", 9)]);
    let mut rec = Recipe::new();
    let r = rec.compute_ratio(&cat);
    assert_eq!((r.num, r.den), (0, 1));
    rec.add_ingredient_to_recipe("a", &cat).unwrap();
    rec.add_ingredient_to_recipe("c", &cat).unwrap();
    let r = rec.compute_ratio(&cat);
    assert_eq!((r.num, r.den), (11, 2));
    assert_eq!(r.num as f64 / r.den as f64, 5.5);
}

#[test]
fn recipe_add_fails_the_second_time_and_changes_nothing() {
    let cat = catalog(&[("a", 2), ("b", 4)]);
    let mut rec = Recipe::new();
    assert_eq!(rec.add_ingredient_to_recipe("a", &cat), Ok(()));
    let ratio_before = rec.get_ratio();
    let names_before = rec.get_ingredients().clone();
    assert_eq!(
        rec.add_ingredient_to_recipe("a", &cat),
        Err(KitchenError::AlreadyPresent)
    );
    assert_eq!(rec.get_ratio(), ratio_before);
    assert_eq!(rec.get_ingredients(), &names_before);
}

#[test]
fn recipe_round_trip_restores_state() {
    let cat = catalog(&[("a", 2), ("b", 4)]);
    let mut rec = Recipe::new();
    rec.add_ingredient_to_recipe("a", &cat).unwrap();
    let ratio_before = rec.get_ratio();
    let names_before = rec.get_ingredients().clone();
    rec.add_ingredient_to_recipe("b", &cat).unwrap();
    rec.remove_ingredient_from_recipe("b", &cat).unwrap();
    assert_eq!(rec.get_ratio(), ratio_before);
    assert_eq!(rec.get_ingredients(), &names_before);
}

#[test]
fn recipe_add_of_an_uncataloged_ingredient_is_a_desync() {
    let cat = catalog(&[("a", 2)]);
    let mut rec = Recipe::new();
    assert_eq!(
        rec.add_ingredient_to_recipe("z", &cat),
        Err(KitchenError::CatalogDesync)
    );
    assert!(rec.get_ingredients().is_empty());
}

#[test]
fn recipe_remove_of_an_absent_ingredient_fails() {
    let cat = catalog(&[("a", 2)]);
    let mut rec = Recipe::new();
    assert_eq!(
        rec.remove_ingredient_from_recipe("a", &cat),
        Err(KitchenError::NotPresent)
    );
}

#[test]
fn emptied_recipe_returns_to_the_zero_ratio() {
    let cat = catalog(&[("a", 2)]);
    let mut rec = Recipe::new();
    rec.add_ingredient_to_recipe("a", &cat).unwrap();
    rec.remove_ingredient_from_recipe("a", &cat).unwrap();
    let r = rec.get_ratio();
    assert_eq!((r.num, r.den), (0, 1));
    assert!(rec.get_ingredients().is_empty());
}

#[test]
fn catalog_lookup_finds_only_known_names() {
    let cat = catalog(&[("a", 2), ("b", 4)]);
    assert_eq!(cat.lookup("a"), Some(2));
    assert_eq!(cat.lookup("b"), Some(4));
    assert_eq!(cat.lookup("z"), None);
}

#[test]
fn catalog_insert_overwrites_by_name() {
    let cat = catalog(&[("a", 2), ("a", 5)]);
    assert_eq!(cat.lookup("a"), Some(5));
    assert_eq!(cat.names(), vec!["a".to_string()]);
}
