use vstd::prelude::*;
use crate::recipe::{Discipline, Recipe, RecipeIngredient, RecipeSource};

verus! {

/// A recipe as published by the authoritative game-data service.
#[derive(Debug)]
pub struct ServiceRecipe {
    pub id: u32,
    pub output_item_id: u32,
    pub output_item_count: u32,
    pub disciplines: Vec<Discipline>,
    pub ingredients: Vec<RecipeIngredient>,
    /// The recipe is unlocked by consuming a purchased item.
    pub learned_from_item: bool,
    /// The recipe is granted on reaching the discipline level.
    pub auto_learned: bool,
}

/// A recipe of the community data set. `output_item_count` is absent where
/// the record's quantity did not parse as an integer.
#[derive(Debug)]
pub struct CommunityRecipe {
    pub name: String,
    pub output_item_id: u32,
    pub output_item_count: Option<u32>,
    pub disciplines: Vec<Discipline>,
    pub ingredients: Vec<RecipeIngredient>,
}

/// Why a community record could not become a recipe.
#[derive(Debug)]
pub enum ImportError {
    /// The named record's output quantity is not a positive integer.
    UnparsableOutputCount { name: String },
}

/// Classification of a service record: purchase wins over automatic
/// eligibility, and anything else is discoverable.
pub open spec fn service_source(learned_from_item: bool, auto_learned: bool) -> RecipeSource {
    if learned_from_item {
        RecipeSource::Purchasable
    } else if auto_learned {
        RecipeSource::Automatic
    } else {
        RecipeSource::Discoverable
    }
}

/// Classification of a community record: achievement recipes stay apart,
/// every other one counts as automatic.
pub open spec fn community_source(disciplines: Seq<Discipline>) -> RecipeSource {
    if disciplines.contains(Discipline::Achievement) {
        RecipeSource::Achievement
    } else {
        RecipeSource::Automatic
    }
}

fn requires_achievement(disciplines: &Vec<Discipline>) -> (r: bool)
    ensures
        r == disciplines@.contains(Discipline::Achievement),
{
    let mut i: usize = 0;
    while i < disciplines.len()
        invariant
            0 <= i <= disciplines@.len(),
            forall|j: int| 0 <= j < i ==> disciplines@[j] != Discipline::Achievement,
        decreases disciplines@.len() - i,
    {
        if disciplines[i] == Discipline::Achievement {
            return true;
        }
        i = i + 1;
    }
    false
}

impl Recipe {
    /// The recipe of a service record, under the record's identifier.
    pub fn from_service_recipe(recipe: ServiceRecipe) -> (r: Recipe)
        ensures
            r.id == Some(recipe.id),
            r.output_item_id == recipe.output_item_id,
            r.output_item_count == recipe.output_item_count,
            r.disciplines@ == recipe.disciplines@,
            r.ingredients@ == recipe.ingredients@,
            r.source == service_source(recipe.learned_from_item, recipe.auto_learned),
    {
        let source = if recipe.learned_from_item {
            RecipeSource::Purchasable
        } else if recipe.auto_learned {
            RecipeSource::Automatic
        } else {
            RecipeSource::Discoverable
        };
        Recipe {
            id: Some(recipe.id),
            output_item_id: recipe.output_item_id,
            output_item_count: recipe.output_item_count,
            disciplines: recipe.disciplines,
            ingredients: recipe.ingredients,
            source,
        }
    }

    /// The recipe of a community record, without identifier; fails, naming
    /// the record, exactly when its output quantity is absent or zero.
    pub fn try_from_community_recipe(recipe: CommunityRecipe) -> (r: Result<Recipe, ImportError>)
        ensures
            match recipe.output_item_count {
                Some(count) if count > 0 => r matches Ok(v) && v.id is None
                    && v.output_item_id == recipe.output_item_id && v.output_item_count == count
                    && v.disciplines@ == recipe.disciplines@ && v.ingredients@
                    == recipe.ingredients@ && v.source == community_source(recipe.disciplines@),
                _ => r matches Err(ImportError::UnparsableOutputCount { name }) && name@
                    == recipe.name@,
            },
    {
        let output_item_count = match recipe.output_item_count {
            Some(count) if count > 0 => count,
            _ => {
                return Err(ImportError::UnparsableOutputCount { name: recipe.name });
            },
        };
        let source = if requires_achievement(&recipe.disciplines) {
            RecipeSource::Achievement
        } else {
            RecipeSource::Automatic
        };
        Ok(
            Recipe {
                id: None,
                output_item_id: recipe.output_item_id,
                output_item_count,
                disciplines: recipe.disciplines,
                ingredients: recipe.ingredients,
                source,
            },
        )
    }
}

} // verus!
