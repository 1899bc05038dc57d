use vstd::prelude::*;
use crate::recipe::Recipe;
use crate::traversal::{
    has_ingredient,
    in_chain,
    in_recipe_chain,
    is_chain,
    is_recursive_item,
    must_obtain,
    unknown_in_chain,
};

verus! {

/// An identifier that only automatic recipes of the walk carry is never
/// collected as unknown, whatever the known-recipe set.
pub proof fn lemma_automatic_never_unknown(
    db: Map<u32, Recipe>,
    r: Recipe,
    known: Option<Set<u32>>,
    id: u32,
)
    requires
        forall|q: Recipe|
            #[trigger] in_recipe_chain(db, r, q) && q.id == Some(id) ==> q.spec_is_automatic(),
    ensures
        !unknown_in_chain(db, r, known, id),
{
    if unknown_in_chain(db, r, known, id) {
        let q = choose|q: Recipe| #[trigger] in_recipe_chain(db, r, q) && must_obtain(q, known, id);
        assert(q.spec_is_automatic());
    }
}

/// With no known-recipe set, the identifier of every non-automatic recipe
/// met on the walk is collected.
pub proof fn lemma_nothing_known_collects_all(db: Map<u32, Recipe>, r: Recipe, q: Recipe, id: u32)
    requires
        in_recipe_chain(db, r, q),
        q.id == Some(id),
        !q.spec_is_automatic(),
    ensures
        unknown_in_chain(db, r, None, id),
{
    assert(must_obtain(q, None, id));
}

/// An identifier in the known-recipe set is never collected.
pub proof fn lemma_known_never_unknown(db: Map<u32, Recipe>, r: Recipe, known: Set<u32>, id: u32)
    requires
        known.contains(id),
    ensures
        !unknown_in_chain(db, r, Some(known), id),
{
}

/// Two items whose recipes each require the other are both recursive.
pub proof fn lemma_mutual_requirement_recursive(db: Map<u32, Recipe>, x: u32, y: u32)
    requires
        db.contains_key(x),
        db.contains_key(y),
        has_ingredient(db[x], y),
        has_ingredient(db[y], x),
    ensures
        is_recursive_item(db, x),
        is_recursive_item(db, y),
{
    let px = seq![y, x];
    assert(is_chain(db, db[x], px));
    assert(px.last() == x);
    let py = seq![x, y];
    assert(is_chain(db, db[y], py));
    assert(py.last() == y);
}

/// Where no item's chain leads back to it, no item is recursive.
pub proof fn lemma_acyclic_none_recursive(db: Map<u32, Recipe>)
    requires
        forall|x: u32| #[trigger] db.contains_key(x) ==> !in_chain(db, db[x], x),
    ensures
        Set::new(|x: u32| is_recursive_item(db, x)) == Set::<u32>::empty(),
{
    assert(Set::new(|x: u32| is_recursive_item(db, x)) =~= Set::<u32>::empty());
}

} // verus!
