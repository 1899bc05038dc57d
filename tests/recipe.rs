use recipe_graph::import::{CommunityRecipe, ImportError, ServiceRecipe};
use recipe_graph::recipe::{timegated_item_ids, Discipline, Recipe, RecipeIngredient, RecipeSource};

fn simple(output: u32, source: RecipeSource, ingredients: Vec<RecipeIngredient>) -> Recipe {
    Recipe {
        id: Some(3),
        output_item_id: output,
        output_item_count: 1,
        disciplines: vec![Discipline::Chef],
        ingredients,
        source,
    }
}

fn ing(item_id: u32, count: u32) -> RecipeIngredient {
    RecipeIngredient { item_id, count }
}

#[test]
fn automatic_sources() {
    assert!(simple(1, RecipeSource::Automatic, vec![]).is_automatic());
    assert!(simple(1, RecipeSource::Discoverable, vec![]).is_automatic());
    assert!(!simple(1, RecipeSource::Purchasable, vec![]).is_automatic());
    assert!(!simple(1, RecipeSource::Achievement, vec![]).is_automatic());
}

#[test]
fn timegated_outputs() {
    assert!(simple(46740, RecipeSource::Automatic, vec![]).is_timegated());
    assert!(simple(79817, RecipeSource::Automatic, vec![]).is_timegated());
    assert!(simple(43772, RecipeSource::Automatic, vec![]).is_timegated());
    assert!(!simple(46743, RecipeSource::Automatic, vec![]).is_timegated());
    assert!(!simple(0, RecipeSource::Automatic, vec![]).is_timegated());
}

#[test]
fn timegated_list_is_fixed() {
    let ids = timegated_item_ids();
    assert_eq!(ids.len(), 15);
    assert_eq!(ids[0], 46740);
    assert_eq!(ids[14], 43772);
}

#[test]
fn ingredients_sorted_by_count_then_id() {
    let r = simple(
        1,
        RecipeSource::Automatic,
        vec![ing(5, 2), ing(9, 30), ing(7, 2), ing(1, 5), ing(8, 2)],
    );
    let sorted: Vec<(u32, u32)> = r.sorted_ingredients().iter().map(|g| (g.item_id, g.count)).collect();
    assert_eq!(sorted, vec![(9, 30), (1, 5), (8, 2), (7, 2), (5, 2)]);
    assert_eq!(r.ingredients[0], ing(5, 2));
}

#[test]
fn sorting_keeps_equal_entries() {
    let r = simple(1, RecipeSource::Automatic, vec![ing(4, 1), ing(4, 1), ing(6, 1)]);
    let sorted: Vec<RecipeIngredient> = r.sorted_ingredients().into_iter().copied().collect();
    assert_eq!(sorted, vec![ing(6, 1), ing(4, 1), ing(4, 1)]);
    for pair in sorted.windows(2) {
        assert!(pair[0].count > pair[1].count || (pair[0].count == pair[1].count && pair[0].item_id >= pair[1].item_id));
    }
}

#[test]
fn sorting_empty_recipe() {
    let r = simple(1, RecipeSource::Automatic, vec![]);
    assert!(r.sorted_ingredients().is_empty());
}

#[test]
fn seed_recipes() {
    let seeds = Recipe::additional_recipes();
    assert_eq!(seeds.len(), 11);
    assert_eq!(seeds[0].output_item_id, 97487);
    assert!(seeds[0].is_automatic());
    assert_eq!(seeds[0].ingredients.len(), 4);
    assert_eq!(seeds[10].output_item_id, 96613);
    assert_eq!(seeds[10].ingredients[3], ing(97487, 2));
    assert!(seeds.iter().all(|r| r.id.is_none()));
    assert!(seeds.iter().skip(1).all(|r| !r.is_automatic()));
}

fn service(learned_from_item: bool, auto_learned: bool) -> ServiceRecipe {
    ServiceRecipe {
        id: 42,
        output_item_id: 100,
        output_item_count: 3,
        disciplines: vec![Discipline::Tailor],
        ingredients: vec![ing(1, 2)],
        learned_from_item,
        auto_learned,
    }
}

#[test]
fn service_classification() {
    let r = Recipe::from_service_recipe(service(true, true));
    assert_eq!(r.source, RecipeSource::Purchasable);
    assert_eq!(r.id, Some(42));
    assert_eq!(r.output_item_count, 3);
    assert_eq!(Recipe::from_service_recipe(service(false, true)).source, RecipeSource::Automatic);
    assert_eq!(Recipe::from_service_recipe(service(false, false)).source, RecipeSource::Discoverable);
}

fn community(count: Option<u32>, disciplines: Vec<Discipline>) -> CommunityRecipe {
    CommunityRecipe {
        name: "Gift of Craft".to_string(),
        output_item_id: 200,
        output_item_count: count,
        disciplines,
        ingredients: vec![ing(3, 1)],
    }
}

#[test]
fn community_classification() {
    let r = Recipe::try_from_community_recipe(community(Some(2), vec![Discipline::Scribe])).unwrap();
    assert_eq!(r.source, RecipeSource::Automatic);
    assert_eq!(r.id, None);
    assert_eq!(r.output_item_count, 2);
    let a = Recipe::try_from_community_recipe(community(
        Some(1),
        vec![Discipline::Scribe, Discipline::Achievement],
    ))
    .unwrap();
    assert_eq!(a.source, RecipeSource::Achievement);
}

#[test]
fn community_unparsable_count() {
    match Recipe::try_from_community_recipe(community(None, vec![])) {
        Err(ImportError::UnparsableOutputCount { name }) => assert_eq!(name, "Gift of Craft"),
        Ok(_) => panic!("conversion succeeded"),
    }
    assert!(Recipe::try_from_community_recipe(community(Some(0), vec![])).is_err());
}

#[test]
fn every_listed_item_is_timegated() {
    for id in timegated_item_ids() {
        assert!(simple(id, RecipeSource::Purchasable, vec![]).is_timegated());
    }
    assert!(!simple(46741, RecipeSource::Purchasable, vec![]).is_timegated());
}
