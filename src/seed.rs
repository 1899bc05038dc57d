use vstd::prelude::*;
use crate::recipe::{Discipline, Recipe, RecipeIngredient, RecipeSource};

verus! {

/// Builds one seed recipe: no identifier, a single unit of output.
fn seed_recipe(
    output_item_id: u32,
    disciplines: Vec<Discipline>,
    ingredients: Vec<RecipeIngredient>,
    source: RecipeSource,
) -> (r: Recipe)
    ensures
        r.id is None,
        r.output_item_id == output_item_id,
        r.output_item_count == 1,
        r.disciplines@ == disciplines@,
        r.ingredients@ == ingredients@,
        r.source == source,
{
    Recipe { id: None, output_item_id, output_item_count: 1, disciplines, ingredients, source }
}

/// Output items of the seed recipes, in list order.
pub open spec fn seed_output_ids() -> Seq<u32> {
    seq![97487, 97339, 97041, 97284, 96628, 95864, 96467, 97020, 96299, 96070, 96613]
}

/// Ingredients of the seed recipes, in list order.
pub open spec fn seed_ingredients() -> Seq<Seq<RecipeIngredient>> {
    seq![
        seq![RecipeIngredient { item_id: 97102, count: 4 }, RecipeIngredient { item_id: 96052, count: 30 }, RecipeIngredient { item_id: 19721, count: 2 }, RecipeIngredient { item_id: 19685, count: 5 }],
        seq![RecipeIngredient { item_id: 96052, count: 3 }, RecipeIngredient { item_id: 19679, count: 5 }, RecipeIngredient { item_id: 97487, count: 1 }],
        seq![RecipeIngredient { item_id: 97339, count: 1 }, RecipeIngredient { item_id: 96052, count: 10 }, RecipeIngredient { item_id: 19680, count: 10 }, RecipeIngredient { item_id: 97487, count: 1 }],
        seq![RecipeIngredient { item_id: 97041, count: 1 }, RecipeIngredient { item_id: 96052, count: 20 }, RecipeIngredient { item_id: 19683, count: 25 }, RecipeIngredient { item_id: 97487, count: 1 }],
        seq![RecipeIngredient { item_id: 97284, count: 1 }, RecipeIngredient { item_id: 96052, count: 30 }, RecipeIngredient { item_id: 19687, count: 25 }, RecipeIngredient { item_id: 97487, count: 1 }],
        seq![RecipeIngredient { item_id: 96628, count: 1 }, RecipeIngredient { item_id: 96052, count: 50 }, RecipeIngredient { item_id: 19688, count: 25 }, RecipeIngredient { item_id: 97487, count: 1 }],
        seq![RecipeIngredient { item_id: 95864, count: 1 }, RecipeIngredient { item_id: 96052, count: 80 }, RecipeIngredient { item_id: 19682, count: 25 }, RecipeIngredient { item_id: 97487, count: 1 }],
        seq![RecipeIngredient { item_id: 96467, count: 1 }, RecipeIngredient { item_id: 96052, count: 130 }, RecipeIngredient { item_id: 19686, count: 25 }, RecipeIngredient { item_id: 97487, count: 1 }],
        seq![RecipeIngredient { item_id: 97020, count: 1 }, RecipeIngredient { item_id: 96052, count: 210 }, RecipeIngredient { item_id: 19684, count: 50 }, RecipeIngredient { item_id: 97487, count: 1 }],
        seq![RecipeIngredient { item_id: 96299, count: 1 }, RecipeIngredient { item_id: 96052, count: 340 }, RecipeIngredient { item_id: 19685, count: 15 }, RecipeIngredient { item_id: 97487, count: 1 }],
        seq![RecipeIngredient { item_id: 96070, count: 1 }, RecipeIngredient { item_id: 96052, count: 550 }, RecipeIngredient { item_id: 46743, count: 1 }, RecipeIngredient { item_id: 97487, count: 2 }],
    ]
}

/// Disciplines of the seed recipes, in list order.
pub open spec fn seed_disciplines() -> Seq<Seq<Discipline>> {
    seq![
        seq![Discipline::Armorsmith, Discipline::Artificer, Discipline::Huntsman, Discipline::Jeweler, Discipline::Leatherworker, Discipline::Tailor, Discipline::Weaponsmith],
        seq![Discipline::Jeweler],
        seq![Discipline::Jeweler],
        seq![Discipline::Jeweler],
        seq![Discipline::Jeweler],
        seq![Discipline::Jeweler],
        seq![Discipline::Jeweler],
        seq![Discipline::Jeweler],
        seq![Discipline::Jeweler],
        seq![Discipline::Jeweler],
        seq![Discipline::Jeweler],
    ]
}

impl Recipe {
    /// The manually curated recipes that the game-data service does not
    /// publish: the Piece of Dragon Jade and the Jade Bot Core tiers. None of
    /// them has an identifier; the first is automatic, the rest purchasable.
    pub fn additional_recipes() -> (r: Vec<Recipe>)
        ensures
            r@.len() == seed_output_ids().len(),
            forall|i: int| 0 <= i < r@.len() ==> {
                &&& (#[trigger] r@[i]).id is None
                &&& r@[i].output_item_id == seed_output_ids()[i]
                &&& r@[i].output_item_count == 1
                &&& r@[i].source == (if i == 0 { RecipeSource::Automatic } else { RecipeSource::Purchasable })
                &&& r@[i].ingredients@ == seed_ingredients()[i]
                &&& r@[i].disciplines@ == seed_disciplines()[i]
            },
    {
        let mut r: Vec<Recipe> = Vec::new();
        // Piece of Dragon Jade
        r.push(seed_recipe(
            97487,
            vec![Discipline::Armorsmith, Discipline::Artificer, Discipline::Huntsman, Discipline::Jeweler, Discipline::Leatherworker, Discipline::Tailor, Discipline::Weaponsmith],
            vec![
                RecipeIngredient { item_id: 97102, count: 4 },
                RecipeIngredient { item_id: 96052, count: 30 },
                RecipeIngredient { item_id: 19721, count: 2 },
                RecipeIngredient { item_id: 19685, count: 5 },
            ],
            RecipeSource::Automatic,
        ));
        // Jade Bot Core, tier 1 to 10
        r.push(seed_recipe(
            97339,
            vec![Discipline::Jeweler],
            vec![
                RecipeIngredient { item_id: 96052, count: 3 },
                RecipeIngredient { item_id: 19679, count: 5 },
                RecipeIngredient { item_id: 97487, count: 1 },
            ],
            RecipeSource::Purchasable,
        ));
        r.push(seed_recipe(
            97041,
            vec![Discipline::Jeweler],
            vec![
                RecipeIngredient { item_id: 97339, count: 1 },
                RecipeIngredient { item_id: 96052, count: 10 },
                RecipeIngredient { item_id: 19680, count: 10 },
                RecipeIngredient { item_id: 97487, count: 1 },
            ],
            RecipeSource::Purchasable,
        ));
        r.push(seed_recipe(
            97284,
            vec![Discipline::Jeweler],
            vec![
                RecipeIngredient { item_id: 97041, count: 1 },
                RecipeIngredient { item_id: 96052, count: 20 },
                RecipeIngredient { item_id: 19683, count: 25 },
                RecipeIngredient { item_id: 97487, count: 1 },
            ],
            RecipeSource::Purchasable,
        ));
        r.push(seed_recipe(
            96628,
            vec![Discipline::Jeweler],
            vec![
                RecipeIngredient { item_id: 97284, count: 1 },
                RecipeIngredient { item_id: 96052, count: 30 },
                RecipeIngredient { item_id: 19687, count: 25 },
                RecipeIngredient { item_id: 97487, count: 1 },
            ],
            RecipeSource::Purchasable,
        ));
        r.push(seed_recipe(
            95864,
            vec![Discipline::Jeweler],
            vec![
                RecipeIngredient { item_id: 96628, count: 1 },
                RecipeIngredient { item_id: 96052, count: 50 },
                RecipeIngredient { item_id: 19688, count: 25 },
                RecipeIngredient { item_id: 97487, count: 1 },
            ],
            RecipeSource::Purchasable,
        ));
        r.push(seed_recipe(
            96467,
            vec![Discipline::Jeweler],
            vec![
                RecipeIngredient { item_id: 95864, count: 1 },
                RecipeIngredient { item_id: 96052, count: 80 },
                RecipeIngredient { item_id: 19682, count: 25 },
                RecipeIngredient { item_id: 97487, count: 1 },
            ],
            RecipeSource::Purchasable,
        ));
        r.push(seed_recipe(
            97020,
            vec![Discipline::Jeweler],
            vec![
                RecipeIngredient { item_id: 96467, count: 1 },
                RecipeIngredient { item_id: 96052, count: 130 },
                RecipeIngredient { item_id: 19686, count: 25 },
                RecipeIngredient { item_id: 97487, count: 1 },
            ],
            RecipeSource::Purchasable,
        ));
        r.push(seed_recipe(
            96299,
            vec![Discipline::Jeweler],
            vec![
                RecipeIngredient { item_id: 97020, count: 1 },
                RecipeIngredient { item_id: 96052, count: 210 },
                RecipeIngredient { item_id: 19684, count: 50 },
                RecipeIngredient { item_id: 97487, count: 1 },
            ],
            RecipeSource::Purchasable,
        ));
        r.push(seed_recipe(
            96070,
            vec![Discipline::Jeweler],
            vec![
                RecipeIngredient { item_id: 96299, count: 1 },
                RecipeIngredient { item_id: 96052, count: 340 },
                RecipeIngredient { item_id: 19685, count: 15 },
                RecipeIngredient { item_id: 97487, count: 1 },
            ],
            RecipeSource::Purchasable,
        ));
        r.push(seed_recipe(
            96613,
            vec![Discipline::Jeweler],
            vec![
                RecipeIngredient { item_id: 96070, count: 1 },
                RecipeIngredient { item_id: 96052, count: 550 },
                RecipeIngredient { item_id: 46743, count: 1 },
                RecipeIngredient { item_id: 97487, count: 2 },
            ],
            RecipeSource::Purchasable,
        ));
        r
    }
}

} // verus!
