use std::collections::{HashMap, HashSet};

use recipe_graph::recipe::{Discipline, Recipe, RecipeIngredient, RecipeSource};
use recipe_graph::traversal::mark_recursive_recipes;

fn recipe(id: Option<u32>, output: u32, ingredients: &[(u32, u32)], source: RecipeSource) -> Recipe {
    Recipe {
        id,
        output_item_id: output,
        output_item_count: 1,
        disciplines: vec![Discipline::Jeweler],
        ingredients: ingredients
            .iter()
            .map(|&(item_id, count)| RecipeIngredient { item_id, count })
            .collect(),
        source,
    }
}

fn chain_database() -> HashMap<u32, Recipe> {
    let mut db = HashMap::new();
    db.insert(10, recipe(Some(1), 10, &[(20, 2)], RecipeSource::Purchasable));
    db.insert(20, recipe(Some(2), 20, &[(30, 1)], RecipeSource::Automatic));
    db
}

fn cyclic_database() -> HashMap<u32, Recipe> {
    let mut db = HashMap::new();
    db.insert(10, recipe(None, 10, &[(20, 1)], RecipeSource::Automatic));
    db.insert(20, recipe(None, 20, &[(10, 1)], RecipeSource::Automatic));
    db
}

#[test]
fn unknown_recipes_of_chain() {
    let db = chain_database();
    let mut unknown = HashSet::new();
    db[&10].collect_unknown_recipe_ids(&db, &None, &mut unknown);
    assert_eq!(unknown, HashSet::from([1]));
}

#[test]
fn ingredient_ids_of_chain() {
    let db = chain_database();
    let mut ids = Vec::new();
    db[&10].collect_ingredient_ids(&db, &mut ids);
    assert_eq!(ids, vec![20, 30]);
}

#[test]
fn mutual_pair_is_recursive() {
    let db = cyclic_database();
    assert_eq!(mark_recursive_recipes(&db), HashSet::from([10, 20]));
}

#[test]
fn acyclic_database_has_no_recursive_item() {
    let db = chain_database();
    assert!(mark_recursive_recipes(&db).is_empty());
}

#[test]
fn self_ingredient_is_recursive_and_others_not() {
    let mut db = HashMap::new();
    db.insert(5, recipe(None, 5, &[(5, 1), (6, 1)], RecipeSource::Automatic));
    db.insert(7, recipe(None, 7, &[(5, 1)], RecipeSource::Automatic));
    assert_eq!(mark_recursive_recipes(&db), HashSet::from([5]));
}

#[test]
fn longer_cycle_flags_every_member() {
    let mut db = HashMap::new();
    db.insert(1, recipe(None, 1, &[(2, 1)], RecipeSource::Automatic));
    db.insert(2, recipe(None, 2, &[(3, 1), (9, 4)], RecipeSource::Automatic));
    db.insert(3, recipe(None, 3, &[(1, 1)], RecipeSource::Automatic));
    db.insert(4, recipe(None, 4, &[(1, 1)], RecipeSource::Automatic));
    assert_eq!(mark_recursive_recipes(&db), HashSet::from([1, 2, 3]));
}

#[test]
fn ingredient_ids_terminate_on_cycle() {
    let db = cyclic_database();
    let mut ids = Vec::new();
    db[&10].collect_ingredient_ids(&db, &mut ids);
    assert_eq!(ids, vec![20, 10]);
}

#[test]
fn ingredient_ids_depth_first_without_duplicates() {
    let mut db = HashMap::new();
    db.insert(1, recipe(None, 1, &[(2, 1), (3, 1), (4, 1)], RecipeSource::Automatic));
    db.insert(2, recipe(None, 2, &[(5, 1), (3, 1)], RecipeSource::Automatic));
    db.insert(3, recipe(None, 3, &[(6, 1), (5, 1)], RecipeSource::Automatic));
    let mut ids = Vec::new();
    db[&1].collect_ingredient_ids(&db, &mut ids);
    assert_eq!(ids, vec![2, 5, 3, 6, 4]);
}

#[test]
fn ingredient_ids_skip_what_was_seen() {
    let db = chain_database();
    let mut ids = vec![20];
    db[&10].collect_ingredient_ids(&db, &mut ids);
    assert_eq!(ids, vec![20]);
}

#[test]
fn ingredient_ids_keep_existing_prefix() {
    let db = chain_database();
    let mut ids = vec![99];
    db[&10].collect_ingredient_ids(&db, &mut ids);
    assert_eq!(ids, vec![99, 20, 30]);
}

#[test]
fn known_recipe_is_excluded() {
    let db = chain_database();
    let mut unknown = HashSet::new();
    db[&10].collect_unknown_recipe_ids(&db, &Some(HashSet::from([1])), &mut unknown);
    assert!(unknown.is_empty());
}

#[test]
fn empty_known_set_knows_nothing() {
    let db = chain_database();
    let mut unknown = HashSet::new();
    db[&10].collect_unknown_recipe_ids(&db, &Some(HashSet::new()), &mut unknown);
    assert_eq!(unknown, HashSet::from([1]));
}

#[test]
fn automatic_recipe_never_unknown() {
    let db = chain_database();
    let mut unknown = HashSet::new();
    db[&20].collect_unknown_recipe_ids(&db, &None, &mut unknown);
    assert!(unknown.is_empty());
}

#[test]
fn unknown_recipes_below_recipe_without_id() {
    let mut db = HashMap::new();
    db.insert(10, recipe(None, 10, &[(20, 1), (40, 1)], RecipeSource::Purchasable));
    db.insert(20, recipe(Some(7), 20, &[(30, 1)], RecipeSource::Achievement));
    db.insert(30, recipe(Some(8), 30, &[], RecipeSource::Discoverable));
    db.insert(40, recipe(Some(9), 40, &[], RecipeSource::Purchasable));
    let mut unknown = HashSet::from([100]);
    db[&10].collect_unknown_recipe_ids(&db, &None, &mut unknown);
    assert_eq!(unknown, HashSet::from([100, 7, 9]));
}

#[test]
fn unknown_recipes_terminate_on_cycle() {
    let mut db = HashMap::new();
    db.insert(10, recipe(Some(1), 10, &[(20, 1)], RecipeSource::Purchasable));
    db.insert(20, recipe(Some(2), 20, &[(10, 1)], RecipeSource::Purchasable));
    let mut unknown = HashSet::new();
    db[&10].collect_unknown_recipe_ids(&db, &Some(HashSet::from([2])), &mut unknown);
    assert_eq!(unknown, HashSet::from([1]));
}

#[test]
fn recursive_items_independent_of_insertion_order() {
    let entries = [
        (1, vec![(2, 1)]),
        (2, vec![(3, 1)]),
        (3, vec![(1, 1), (4, 2)]),
        (4, vec![(5, 1)]),
        (5, vec![(4, 1)]),
        (6, vec![(1, 1)]),
    ];
    let mut forward = HashMap::new();
    for (out, ings) in entries.iter() {
        forward.insert(*out, recipe(None, *out, ings, RecipeSource::Automatic));
    }
    let mut backward = HashMap::new();
    for (out, ings) in entries.iter().rev() {
        backward.insert(*out, recipe(None, *out, ings, RecipeSource::Automatic));
    }
    let expected = HashSet::from([1, 2, 3, 4, 5]);
    assert_eq!(mark_recursive_recipes(&forward), expected);
    assert_eq!(mark_recursive_recipes(&backward), expected);
}

#[test]
fn empty_database_has_no_recursive_item() {
    let db: HashMap<u32, Recipe> = HashMap::new();
    assert!(mark_recursive_recipes(&db).is_empty());
}
