use vstd::prelude::*;

verus! {

/// A crafting discipline able to execute a recipe.
#[derive(Debug, Clone, Copy, PartialEq, Eq, Structural)]
pub enum Discipline {
    Armorsmith,
    Artificer,
    Chef,
    Huntsman,
    Jeweler,
    Leatherworker,
    Scribe,
    Tailor,
    Weaponsmith,
    Achievement,
}

/// One requirement of a recipe: `count` units of item `item_id`.
#[derive(Debug, Clone, Copy, PartialEq, Eq, Structural)]
pub struct RecipeIngredient {
    pub item_id: u32,
    pub count: u32,
}

/// How a recipe becomes available to a crafter.
#[derive(Debug, Clone, Copy, PartialEq, Eq, Structural)]
pub enum RecipeSource {
    /// Known to every crafter without an unlock step.
    Automatic,
    /// Learnable through in-game discovery; treated as known.
    Discoverable,
    /// Must be bought or unlocked from a vendor.
    Purchasable,
    /// Unlocked through a special requirement.
    Achievement,
}

/// A rule producing `output_item_count` units of `output_item_id` from
/// `ingredients`.
#[derive(Debug)]
pub struct Recipe {
    /// Present only for recipes of the authoritative game-data service.
    pub id: Option<u32>,
    pub output_item_id: u32,
    pub output_item_count: u32,
    pub disciplines: Vec<Discipline>,
    pub ingredients: Vec<RecipeIngredient>,
    pub source: RecipeSource,
}

/// A source that needs no separate unlock step.
pub open spec fn source_is_automatic(s: RecipeSource) -> bool {
    s is Automatic || s is Discoverable
}

impl Recipe {
    /// The recipe needs no separate unlock step.
    pub open spec fn spec_is_automatic(&self) -> bool {
        source_is_automatic(self.source)
    }

    /// Whether the recipe is available without being separately obtained:
    /// true for `Automatic` and `Discoverable`, false for `Purchasable` and
    /// `Achievement`.
    pub fn is_automatic(&self) -> (r: bool)
        ensures
            r == self.spec_is_automatic(),
    {
        match self.source {
            RecipeSource::Purchasable | RecipeSource::Achievement => false,
            RecipeSource::Automatic | RecipeSource::Discoverable => true,
        }
    }
}

/// Output items of recipes that can only be crafted once a day.
pub open spec fn timegated_output_ids() -> Seq<u32> {
    seq![
        46740u32,
        46742,
        46744,
        46745,
        66913,
        66917,
        66923,
        67015,
        67377,
        79726,
        79763,
        79790,
        79795,
        79817,
        43772,
    ]
}

/// The curated list of time-gated output items: Spool of Silk Weaving
/// Thread, Lump of Mithrillium, Glob of Elder Spirit Residue, Spool of Thick
/// Elonian Cord, Clay Pot, Plate of Meaty Plant Food, Plate of Piquant Plant
/// Food, Heat Stone, Vial of Maize Balm, the four Dragon Hatchling Doll
/// parts, Gossamer Stuffing and Charged Quartz Crystal.
pub fn timegated_item_ids() -> (r: Vec<u32>)
    ensures
        r@ == timegated_output_ids(),
{
    let r: Vec<u32> = vec![
        46740, 46742, 46744, 46745, 66913, 66917, 66923, 67015, 67377, 79726, 79763, 79790,
        79795, 79817, 43772,
    ];
    assert(r@ =~= timegated_output_ids());
    r
}

impl Recipe {
    /// Whether the recipe's output is one of the time-gated items.
    pub fn is_timegated(&self) -> (r: bool)
        ensures
            r == timegated_output_ids().contains(self.output_item_id),
    {
        let ids = timegated_item_ids();
        let mut i: usize = 0;
        while i < ids.len()
            invariant
                ids@ == timegated_output_ids(),
                0 <= i <= ids@.len(),
                forall|j: int| 0 <= j < i ==> ids@[j] != self.output_item_id,
            decreases ids@.len() - i,
        {
            if ids[i] == self.output_item_id {
                return true;
            }
            i = i + 1;
        }
        false
    }
}

} // verus!
