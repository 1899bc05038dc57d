use vstd::prelude::*;
use vstd::std_specs::hash::spec_hash_map_iter;
use vstd::std_specs::iter::IteratorSpec;
use std::collections::{HashMap, HashSet};
use crate::recipe::Recipe;

verus! {

broadcast use vstd::std_specs::hash::group_hash_axioms;

/// `x` is the item of one of `r`'s ingredients.
pub open spec fn has_ingredient(r: Recipe, x: u32) -> bool {
    exists|k: int| 0 <= k < r.ingredients@.len() && (#[trigger] r.ingredients@[k]).item_id == x
}

/// `p` is a walk down the production graph of `db` that starts at an
/// ingredient of `r`: each step goes from an item that `db` produces to an
/// ingredient of the recipe producing it.
pub open spec fn is_chain(db: Map<u32, Recipe>, r: Recipe, p: Seq<u32>) -> bool {
    &&& p.len() > 0
    &&& has_ingredient(r, p[0])
    &&& forall|j: int|
        0 <= j < p.len() - 1 ==> db.contains_key(#[trigger] p[j]) && has_ingredient(
            db[p[j]],
            p[j + 1],
        )
}

/// Item `x` takes part, at some depth, in the production chain of `r`.
pub open spec fn in_chain(db: Map<u32, Recipe>, r: Recipe, x: u32) -> bool {
    exists|p: Seq<u32>| #[trigger] is_chain(db, r, p) && p.last() == x
}

/// Every ingredient of `r`, and every ingredient of a recipe of `db` whose
/// output is in `s`, is in `s`.
pub open spec fn is_closed(db: Map<u32, Recipe>, r: Recipe, s: Seq<u32>) -> bool {
    &&& forall|k: int|
        0 <= k < r.ingredients@.len() ==> s.contains((#[trigger] r.ingredients@[k]).item_id)
    &&& forall|x: u32, k: int|
        s.contains(x) && db.contains_key(x) && 0 <= k < db[x].ingredients@.len() ==> s.contains(
            (#[trigger] db[x].ingredients@[k]).item_id,
        )
}

/// A walk through `r`'s production chain never leaves a set closed under it.
proof fn lemma_chain_stays_closed(db: Map<u32, Recipe>, r: Recipe, s: Seq<u32>, p: Seq<u32>, j: int)
    requires
        is_closed(db, r, s),
        is_chain(db, r, p),
        0 <= j < p.len(),
    ensures
        s.contains(p[j]),
    decreases j,
{
    if j == 0 {
        let k = choose|k: int| 0 <= k < r.ingredients@.len() && (#[trigger] r.ingredients@[k]).item_id == p[0];
        assert(s.contains(r.ingredients@[k].item_id));
    } else {
        lemma_chain_stays_closed(db, r, s, p, j - 1);
        let prev = p[j - 1];
        assert(db.contains_key(p[j - 1]) && has_ingredient(db[p[j - 1]], p[j]));
        let k = choose|k: int|
            0 <= k < db[prev].ingredients@.len() && (#[trigger] db[prev].ingredients@[k]).item_id == p[j];
        assert(s.contains(db[prev].ingredients@[k].item_id));
    }
}

/// A chain of the recipe producing `g`, an ingredient of `r`, extends to a
/// chain of `r`.
proof fn lemma_chain_extend(db: Map<u32, Recipe>, r: Recipe, g: u32, q: Seq<u32>)
    requires
        has_ingredient(r, g),
        db.contains_key(g),
        is_chain(db, db[g], q),
    ensures
        is_chain(db, r, seq![g] + q),
        (seq![g] + q).last() == q.last(),
{
    let p = seq![g] + q;
    assert forall|j: int| 0 <= j < p.len() - 1 implies db.contains_key(#[trigger] p[j]) && has_ingredient(
        db[p[j]],
        p[j + 1],
    ) by {
        if j > 0 {
            assert(p[j] == q[j - 1]);
            assert(p[j + 1] == q[j]);
        } else {
            assert(p[1] == q[0]);
        }
    }
}

/// Removing from a finite set one more element shrinks what remains.
proof fn lemma_fewer_unseen(dom: Set<u32>, a: Seq<u32>, b: Seq<u32>, x: u32)
    requires
        dom.finite(),
        forall|y: u32| a.contains(y) ==> b.contains(y),
        b.contains(x),
        !a.contains(x),
        dom.contains(x),
    ensures
        dom.difference(b.to_set()).len() < dom.difference(a.to_set()).len(),
{
    let da = dom.difference(a.to_set());
    let db = dom.difference(b.to_set());
    assert(db.subset_of(da.remove(x)));
    vstd::set_lib::lemma_len_subset(db, da.remove(x));
}

/// Whether `v` holds `x`.
fn contains_id(v: &Vec<u32>, x: u32) -> (r: bool)
    ensures
        r == v@.contains(x),
{
    let mut i: usize = 0;
    while i < v.len()
        invariant
            0 <= i <= v.len(),
            forall|j: int| 0 <= j < i ==> v@[j] != x,
        decreases v.len() - i,
    {
        if v[i] == x {
            return true;
        }
        i = i + 1;
    }
    false
}

/// `cur` is `start` followed by items that are new, distinct, and in the
/// production chain of `r`.
pub open spec fn extends_with_chain_items(
    db: Map<u32, Recipe>,
    r: Recipe,
    start: Seq<u32>,
    cur: Seq<u32>,
) -> bool {
    &&& cur.len() >= start.len()
    &&& cur.subrange(0, start.len() as int) == start
    &&& forall|a: int, b: int| start.len() <= a < b < cur.len() ==> cur[a] != cur[b]
    &&& forall|a: int|
        start.len() <= a < cur.len() ==> !start.contains(#[trigger] cur[a]) && in_chain(
            db,
            r,
            cur[a],
        )
}

/// Each item of `cur` past the first `from` entries that `db` produces has
/// every ingredient of its recipe in `cur`.
pub open spec fn appended_expanded(db: Map<u32, Recipe>, from: int, cur: Seq<u32>) -> bool {
    forall|a: int, k: int|
        from <= a < cur.len() && db.contains_key(cur[a]) && 0 <= k < db[cur[a]].ingredients@.len()
            ==> cur.contains((#[trigger] db[cur[a]].ingredients@[k]).item_id)
}

/// The first `n` ingredients of `r` are in `cur`.
pub open spec fn holds_ingredients(r: Recipe, cur: Seq<u32>, n: int) -> bool {
    forall|k: int| 0 <= k < n ==> cur.contains((#[trigger] r.ingredients@[k]).item_id)
}

proof fn lemma_prefix_contains(start: Seq<u32>, cur: Seq<u32>, y: u32)
    requires
        cur.len() >= start.len(),
        cur.subrange(0, start.len() as int) == start,
        start.contains(y),
    ensures
        cur.contains(y),
{
    let t = choose|t: int| 0 <= t < start.len() && start[t] == y;
    assert(cur[t] == cur.subrange(0, start.len() as int)[t]);
}

/// One ingredient `g` of `r` was recorded onto `c` and the chain of its
/// recipe `rr` walked, giving `c2`: the walk's facts carry over to `c2`.
proof fn lemma_descent_step(
    db: Map<u32, Recipe>,
    r: Recipe,
    start: Seq<u32>,
    c: Seq<u32>,
    g: u32,
    c2: Seq<u32>,
    i: int,
)
    requires
        0 <= i < r.ingredients@.len(),
        r.ingredients@[i].item_id == g,
        !c.contains(g),
        extends_with_chain_items(db, r, start, c),
        appended_expanded(db, start.len() as int, c),
        holds_ingredients(r, c, i),
        db.contains_key(g) ==> {
            &&& extends_with_chain_items(db, db[g], c.push(g), c2)
            &&& appended_expanded(db, c.len() + 1int, c2)
            &&& holds_ingredients(db[g], c2, db[g].ingredients@.len() as int)
        },
        !db.contains_key(g) ==> c2 == c.push(g),
    ensures
        extends_with_chain_items(db, r, start, c2),
        appended_expanded(db, start.len() as int, c2),
        holds_ingredients(r, c2, i + 1),
{
    let c1 = c.push(g);
    assert(c1.subrange(0, c.len() as int) =~= c);
    assert(c2.len() >= c1.len() && c2.subrange(0, c1.len() as int) == c1) by {
        if !db.contains_key(g) {
            assert(c2.subrange(0, c1.len() as int) =~= c1);
        }
    }
    assert(c2.subrange(0, c.len() as int) =~= c) by {
        assert forall|t: int| 0 <= t < c.len() implies c2[t] == c[t] by {
            assert(c2[t] == c2.subrange(0, c1.len() as int)[t]);
            assert(c1[t] == c1.subrange(0, c.len() as int)[t]);
        }
    }
    assert(c2.subrange(0, start.len() as int) =~= start) by {
        assert forall|t: int| 0 <= t < start.len() implies c2[t] == start[t] by {
            assert(c2[t] == c2.subrange(0, c.len() as int)[t]);
            assert(c[t] == c.subrange(0, start.len() as int)[t]);
        }
    }
    assert(c2[c.len() as int] == g) by {
        assert(c2[c.len() as int] == c2.subrange(0, c1.len() as int)[c.len() as int]);
    }
    assert forall|a: int| 0 <= a < c.len() implies c2[a] == c[a] by {
        assert(c2[a] == c2.subrange(0, c.len() as int)[a]);
    }
    assert(has_ingredient(r, g));
    assert(is_chain(db, r, seq![g]));
    assert(seq![g].last() == g);
    assert forall|a: int, b: int| start.len() <= a < b < c2.len() implies c2[a] != c2[b] by {
        if b > c.len() {
            assert(!c1.contains(c2[b]));
            if a < c.len() {
                assert(c1[a] == c2[a]);
            } else {
                assert(c1[c.len() as int] == g);
            }
        } else if b == c.len() {
            assert(c[a] == c2[a]);
        }
    }
    assert forall|a: int| start.len() <= a < c2.len() implies !start.contains(#[trigger] c2[a])
        && in_chain(db, r, c2[a]) by {
        if a > c.len() {
            assert(!c1.contains(c2[a]));
            if start.contains(c2[a]) {
                lemma_prefix_contains(start, c, c2[a]);
                lemma_prefix_contains(c, c1, c2[a]);
            }
            let q = choose|q: Seq<u32>| #[trigger] is_chain(db, db[g], q) && q.last() == c2[a];
            lemma_chain_extend(db, r, g, q);
        } else if a < c.len() {
            assert(c[a] == c2[a]);
        } else {
            if start.contains(g) {
                lemma_prefix_contains(start, c, g);
            }
        }
    }
    assert forall|y: u32| c.contains(y) implies c2.contains(y) by {
        lemma_prefix_contains(c, c2, y);
    }
    assert(c2.contains(g));
    assert forall|a: int, k: int|
        start.len() <= a < c2.len() && db.contains_key(c2[a]) && 0 <= k < db[c2[a]].ingredients@.len()
            implies c2.contains((#[trigger] db[c2[a]].ingredients@[k]).item_id) by {
        if a < c.len() {
            assert(c[a] == c2[a]);
            assert(c.contains(db[c[a]].ingredients@[k].item_id));
        }
    }
    assert forall|k: int| 0 <= k < i + 1 implies c2.contains((#[trigger] r.ingredients@[k]).item_id) by {
        if k < i {
            assert(c.contains(r.ingredients@[k].item_id));
        }
    }
}

impl Recipe {
    /// Appends to `ids`, in depth-first order of first discovery, every item
    /// of this recipe's production chain through `recipes_map` that `ids`
    /// does not hold yet. An item already in `ids` is skipped with the whole
    /// chain below it. What was in `ids` stays in front; each appended item
    /// is new, appears once and is in the chain. The result holds every
    /// ingredient of this recipe and every ingredient of the recipe of each
    /// appended item, so that from an empty `ids` it holds exactly the
    /// chain's items.
    pub fn collect_ingredient_ids(&self, recipes_map: &HashMap<u32, Recipe>, ids: &mut Vec<u32>)
        ensures
            extends_with_chain_items(recipes_map@, *self, old(ids)@, final(ids)@),
            appended_expanded(recipes_map@, old(ids)@.len() as int, final(ids)@),
            holds_ingredients(*self, final(ids)@, self.ingredients@.len() as int),
            old(ids)@.len() == 0 ==> forall|x: u32|
                final(ids)@.contains(x) <==> in_chain(recipes_map@, *self, x),
        decreases recipes_map@.dom().difference(old(ids)@.to_set()).len(),
    {
        let ghost start = ids@;
        let ghost db = recipes_map@;
        let n = self.ingredients.len();
        proof {
            assert(ids@.subrange(0, start.len() as int) =~= start);
        }
        for i in 0..n
            invariant
                n == self.ingredients@.len(),
                start == old(ids)@,
                db == recipes_map@,
                extends_with_chain_items(db, *self, start, ids@),
                appended_expanded(db, start.len() as int, ids@),
                holds_ingredients(*self, ids@, i as int),
        {
            let item = self.ingredients[i].item_id;
            let ghost c = ids@;
            if !contains_id(ids, item) {
                ids.push(item);
                match recipes_map.get(&item) {
                    Some(recipe) => {
                        proof {
                            assert(ids@.subrange(0, c.len() as int) =~= c);
                            assert forall|y: u32| start.contains(y) implies ids@.contains(y) by {
                                lemma_prefix_contains(start, c, y);
                                lemma_prefix_contains(c, ids@, y);
                            }
                            assert(ids@[ids@.len() - 1] == item);
                            lemma_fewer_unseen(db.dom(), start, ids@, item);
                        }
                        recipe.collect_ingredient_ids(recipes_map, ids);
                    },
                    None => {},
                }
                proof {
                    lemma_descent_step(db, *self, start, c, item, ids@, i as int);
                }
            }
        }
        proof {
            if start.len() == 0 {
                assert(is_closed(db, *self, ids@));
                assert forall|x: u32| ids@.contains(x) <==> in_chain(db, *self, x) by {
                    if in_chain(db, *self, x) {
                        let p = choose|p: Seq<u32>| #[trigger] is_chain(db, *self, p) && p.last() == x;
                        lemma_chain_stays_closed(db, *self, ids@, p, p.len() - 1);
                    }
                    if ids@.contains(x) {
                        let a = choose|a: int| 0 <= a < ids@.len() && ids@[a] == x;
                        assert(in_chain(db, *self, ids@[a]));
                    }
                }
            }
        }
    }
}

/// Recipe `q` is met by a walk from `r`: `r` itself, or the recipe of an
/// item of `r`'s production chain.
pub open spec fn in_recipe_chain(db: Map<u32, Recipe>, r: Recipe, q: Recipe) -> bool {
    q == r || exists|x: u32| #[trigger] in_chain(db, r, x) && db.contains_key(x) && db[x] == q
}

/// Identifier `id` is in the known-recipe set; an absent set knows nothing.
pub open spec fn is_known(known: Option<Set<u32>>, id: u32) -> bool {
    known is Some && known->0.contains(id)
}

/// Recipe `q` has identifier `id`, is not automatic and is not known.
pub open spec fn must_obtain(q: Recipe, known: Option<Set<u32>>, id: u32) -> bool {
    q.id == Some(id) && !q.spec_is_automatic() && !is_known(known, id)
}

/// Some recipe met by a walk from `r` must be obtained under identifier `id`.
pub open spec fn unknown_in_chain(
    db: Map<u32, Recipe>,
    r: Recipe,
    known: Option<Set<u32>>,
    id: u32,
) -> bool {
    exists|q: Recipe| #[trigger] in_recipe_chain(db, r, q) && must_obtain(q, known, id)
}

/// The model of an optional known-recipe set.
pub open spec fn known_view(known: Option<HashSet<u32>>) -> Option<Set<u32>> {
    match known {
        Some(s) => Some(s@),
        None => None,
    }
}

impl Recipe {
    /// Adds this recipe's identifier to `unknown_recipes` where it has one,
    /// is not automatic and is not in `known_recipes`.
    fn record_if_unknown(&self, known_recipes: &Option<HashSet<u32>>, unknown_recipes: &mut HashSet<u32>)
        ensures
            final(unknown_recipes)@ == old(unknown_recipes)@.union(
                Set::new(|id: u32| must_obtain(*self, known_view(*known_recipes), id)),
            ),
    {
        let ghost added = Set::new(|id: u32| must_obtain(*self, known_view(*known_recipes), id));
        match self.id {
            Some(id) => {
                if !unknown_recipes.contains(&id) && !self.is_automatic() {
                    let known = match known_recipes {
                        Some(recipes) => recipes.contains(&id),
                        None => false,
                    };
                    if !known {
                        unknown_recipes.insert(id);
                    }
                }
                assert(final(unknown_recipes)@ =~= old(unknown_recipes)@.union(added)) by {
                    assert forall|x: u32| added.contains(x) implies x == id by {}
                }
            },
            None => {
                assert(added =~= Set::empty());
                assert(unknown_recipes@ =~= old(unknown_recipes)@.union(added));
            },
        }
    }

    /// Adds to `unknown_recipes` the identifier of every recipe met on a walk
    /// from this one through `recipes_map` (this recipe, and the recipe of
    /// each item of its production chain) that is neither automatic nor in
    /// `known_recipes`. An absent `known_recipes` counts as knowing none.
    /// Recipes without an identifier add nothing; the walk goes on below
    /// them, and every item is expanded once, so it ends on cyclic data too.
    pub fn collect_unknown_recipe_ids(
        &self,
        recipes_map: &HashMap<u32, Recipe>,
        known_recipes: &Option<HashSet<u32>>,
        unknown_recipes: &mut HashSet<u32>,
    )
        ensures
            final(unknown_recipes)@ == old(unknown_recipes)@.union(
                Set::new(
                    |id: u32| unknown_in_chain(recipes_map@, *self, known_view(*known_recipes), id),
                ),
            ),
    {
        let ghost db = recipes_map@;
        let ghost known = known_view(*known_recipes);
        let mut chain: Vec<u32> = Vec::new();
        self.collect_ingredient_ids(recipes_map, &mut chain);
        self.record_if_unknown(known_recipes, unknown_recipes);
        let n = chain.len();
        for i in 0..n
            invariant
                n == chain@.len(),
                db == recipes_map@,
                known == known_view(*known_recipes),
                forall|x: u32| chain@.contains(x) <==> in_chain(db, *self, x),
                unknown_recipes@ == old(unknown_recipes)@.union(
                    Set::new(
                        |id: u32|
                            must_obtain(*self, known, id) || exists|j: int|
                                0 <= j < i && db.contains_key(chain@[j]) && must_obtain(
                                    #[trigger] db[chain@[j]],
                                    known,
                                    id,
                                ),
                    ),
                ),
        {
            let ghost before = unknown_recipes@;
            match recipes_map.get(&chain[i]) {
                Some(recipe) => {
                    recipe.record_if_unknown(known_recipes, unknown_recipes);
                },
                None => {},
            }
            proof {
                let f = |id: u32|
                    must_obtain(*self, known, id) || exists|j: int|
                        0 <= j < i + 1 && db.contains_key(chain@[j]) && must_obtain(
                            #[trigger] db[chain@[j]],
                            known,
                            id,
                        );
                assert(unknown_recipes@ =~= old(unknown_recipes)@.union(Set::new(f))) by {
                    assert forall|id: u32| f(id) && !before.contains(id) implies unknown_recipes@.contains(id) by {
                        let j = choose|j: int|
                            0 <= j < i + 1 && db.contains_key(chain@[j]) && must_obtain(
                                #[trigger] db[chain@[j]],
                                known,
                                id,
                            );
                        assert(j == i);
                    }
                }
            }
        }
        proof {
            let f = |id: u32|
                must_obtain(*self, known, id) || exists|j: int|
                    0 <= j < n && db.contains_key(chain@[j]) && must_obtain(
                        #[trigger] db[chain@[j]],
                        known,
                        id,
                    );
            let g = |id: u32| unknown_in_chain(db, *self, known, id);
            assert forall|id: u32| #[trigger] f(id) <==> g(id) by {
                if f(id) {
                    if must_obtain(*self, known, id) {
                        assert(in_recipe_chain(db, *self, *self));
                    } else {
                        let j = choose|j: int|
                            0 <= j < n && db.contains_key(chain@[j]) && must_obtain(
                                #[trigger] db[chain@[j]],
                                known,
                                id,
                            );
                        assert(chain@.contains(chain@[j]));
                        assert(in_chain(db, *self, chain@[j]));
                        assert(in_recipe_chain(db, *self, db[chain@[j]]));
                    }
                }
                if g(id) {
                    let q = choose|q: Recipe| #[trigger] in_recipe_chain(db, *self, q) && must_obtain(q, known, id);
                    if q != *self {
                        let x = choose|x: u32| #[trigger] in_chain(db, *self, x) && db.contains_key(x) && db[x] == q;
                        assert(chain@.contains(x));
                        let j = choose|j: int| 0 <= j < n && chain@[j] == x;
                        assert(db.contains_key(chain@[j]) && must_obtain(db[chain@[j]], known, id));
                    }
                }
            }
            assert(Set::new(f) =~= Set::new(g));
        }
    }
}

/// Item `x` has a recipe in `db` whose production chain needs `x` again.
pub open spec fn is_recursive_item(db: Map<u32, Recipe>, x: u32) -> bool {
    db.contains_key(x) && in_chain(db, db[x], x)
}

/// Cutting out the loops of a chain leaves a chain to the same item that
/// repeats no item.
#[verifier::rlimit(30)]
proof fn lemma_simple_chain(db: Map<u32, Recipe>, r: Recipe, p: Seq<u32>) -> (q: Seq<u32>)
    requires
        is_chain(db, r, p),
    ensures
        is_chain(db, r, q),
        q.last() == p.last(),
        q.no_duplicates(),
    decreases p.len(),
{
    if p.no_duplicates() {
        p
    } else {
        let (i0, j0) = choose|i: int, j: int|
            0 <= i < p.len() && 0 <= j < p.len() && i != j && p[i] == p[j];
        let i = if i0 < j0 { i0 } else { j0 };
        let j = if i0 < j0 { j0 } else { i0 };
        let q = p.subrange(0, i) + p.subrange(j, p.len() as int);
        assert(q.len() == p.len() - (j - i));
        assert forall|m: int| 0 <= m < q.len() implies #[trigger] q[m] == (if m < i {
            p[m]
        } else {
            p[m + j - i]
        }) by {}
        assert(q[0] == p[0]);
        assert(q.last() == p.last());
        assert forall|m: int| 0 <= m < q.len() - 1 implies db.contains_key(#[trigger] q[m])
            && has_ingredient(db[q[m]], q[m + 1]) by {
            let a = if m < i { m } else { m + j - i };
            let b = if m + 1 < i { m + 1 } else { m + 1 + j - i };
            assert(q[m] == p[a]);
            assert(q[m + 1] == p[b]);
            if m == i - 1 {
                assert(p[b] == p[m + 1]);
            }
            assert(p[a] == p[a] && 0 <= a < p.len() - 1);
        }
        lemma_simple_chain(db, r, q)
    }
}

/// `p` is a chain of `r` to `target` that repeats no item and whose items
/// before the last are not in `stack`.
pub open spec fn is_open_route(
    db: Map<u32, Recipe>,
    r: Recipe,
    target: u32,
    stack: Seq<u32>,
    p: Seq<u32>,
) -> bool {
    &&& is_chain(db, r, p)
    &&& p.last() == target
    &&& p.no_duplicates()
    &&& forall|k: int| 0 <= k < p.len() - 1 ==> !stack.contains(#[trigger] p[k])
}

/// Depth-first search of `recipe`'s production chain for
/// `search_output_item_id`. The search stops at the first ingredient equal
/// to the target; an ingredient already on `ingredients_stack`, the path
/// from the start, is not entered again. The stack is left as it was found.
/// A found target is in the chain, and the target is found whenever a route
/// to it that repeats no item avoids the stack.
fn mark_recursive_recipes_internal(
    recipe: &Recipe,
    search_output_item_id: u32,
    recipes_map: &HashMap<u32, Recipe>,
    ingredients_stack: &mut Vec<u32>,
) -> (found: bool)
    ensures
        final(ingredients_stack)@ == old(ingredients_stack)@,
        found ==> in_chain(recipes_map@, *recipe, search_output_item_id),
        (exists|p: Seq<u32>|
            #[trigger] is_open_route(
                recipes_map@,
                *recipe,
                search_output_item_id,
                old(ingredients_stack)@,
                p,
            )) ==> found,
    decreases recipes_map@.dom().difference(old(ingredients_stack)@.to_set()).len(),
{
    let ghost db = recipes_map@;
    let ghost stack = ingredients_stack@;
    let ghost target = search_output_item_id;
    let n = recipe.ingredients.len();
    for i in 0..n
        invariant
            n == recipe.ingredients@.len(),
            db == recipes_map@,
            stack == old(ingredients_stack)@,
            ingredients_stack@ == stack,
            target == search_output_item_id,
            forall|p: Seq<u32>|
                #[trigger] is_open_route(db, *recipe, target, stack, p) ==> forall|k: int|
                    0 <= k < i ==> recipe.ingredients@[k].item_id != p[0],
    {
        let item = recipe.ingredients[i].item_id;
        assert(has_ingredient(*recipe, item)) by {
            assert(recipe.ingredients@[i as int].item_id == item);
        }
        if item == search_output_item_id {
            assert(is_chain(db, *recipe, seq![item]));
            assert(seq![item].last() == item);
            return true;
        }
        if !contains_id(ingredients_stack, item) {
            let mut found = false;
            match recipes_map.get(&item) {
                Some(next) => {
                    ingredients_stack.push(item);
                    proof {
                        assert forall|y: u32| stack.contains(y) implies ingredients_stack@.contains(y) by {
                            let t = choose|t: int| 0 <= t < stack.len() && stack[t] == y;
                            assert(ingredients_stack@[t] == y);
                        }
                        assert(ingredients_stack@[stack.len() as int] == item);
                        lemma_fewer_unseen(db.dom(), stack, ingredients_stack@, item);
                    }
                    let ghost pushed = ingredients_stack@;
                    found = mark_recursive_recipes_internal(
                        next,
                        search_output_item_id,
                        recipes_map,
                        ingredients_stack,
                    );
                    ingredients_stack.pop();
                    proof {
                        assert(ingredients_stack@ =~= stack);
                        if found {
                            let q = choose|q: Seq<u32>| #[trigger] is_chain(db, db[item], q) && q.last() == target;
                            lemma_chain_extend(db, *recipe, item, q);
                        } else {
                            assert forall|p: Seq<u32>|
                                #[trigger] is_open_route(db, *recipe, target, stack, p) implies p[0] != item by {
                                if p[0] == item {
                                    let q = p.drop_first();
                                    assert(p.len() > 1);
                                    assert(db.contains_key(p[0]) && has_ingredient(db[p[0]], p[1]));
                                    assert forall|m: int| 0 <= m < q.len() - 1 implies db.contains_key(
                                        #[trigger] q[m],
                                    ) && has_ingredient(db[q[m]], q[m + 1]) by {
                                        assert(q[m] == p[m + 1] && q[m + 1] == p[m + 2]);
                                    }
                                    assert(is_chain(db, db[item], q));
                                    assert forall|k: int| 0 <= k < q.len() - 1 implies !pushed.contains(
                                        #[trigger] q[k],
                                    ) by {
                                        assert(q[k] == p[k + 1]);
                                        assert(!stack.contains(p[k + 1]));
                                        assert(p[k + 1] != p[0]);
                                        if pushed.contains(q[k]) {
                                            let t = choose|t: int| 0 <= t < pushed.len() && pushed[t] == q[k];
                                            if t < stack.len() {
                                                assert(stack[t] == pushed[t]);
                                            }
                                        }
                                    }
                                    assert(q.no_duplicates());
                                    assert(is_open_route(db, db[item], target, pushed, q));
                                }
                            }
                        }
                    }
                },
                None => {
                    proof {
                        assert forall|p: Seq<u32>|
                            #[trigger] is_open_route(db, *recipe, target, stack, p) implies p[0] != item by {
                            if p[0] == item {
                                assert(p.len() > 1);
                            }
                        }
                    }
                },
            }
            if found {
                return true;
            }
        } else {
            proof {
                assert forall|p: Seq<u32>|
                    #[trigger] is_open_route(db, *recipe, target, stack, p) implies p[0] != item by {
                    if p[0] == item {
                        assert(p.len() > 1);
                    }
                }
            }
        }
    }
    proof {
        assert forall|p: Seq<u32>| #[trigger] is_open_route(db, *recipe, target, stack, p) implies false by {
            let k = choose|k: int| 0 <= k < recipe.ingredients@.len() && (#[trigger] recipe.ingredients@[k]).item_id == p[0];
        }
    }
    false
}

/// The items of `recipes_map` whose own production chain requires them: an
/// item is in the result exactly when a walk from one of the ingredients of
/// its recipe leads back to it. Each item is searched for depth-first from
/// its own recipe, unless an earlier search already flagged it; the result
/// does not depend on the order in which the map is walked.
pub fn mark_recursive_recipes(recipes_map: &HashMap<u32, Recipe>) -> (r: HashSet<u32>)
    ensures
        forall|x: u32| r@.contains(x) <==> is_recursive_item(recipes_map@, x),
{
    let ghost db = recipes_map@;
    let ghost v = spec_hash_map_iter(recipes_map).remaining();
    let ghost mut done: int = 0;
    let mut set: HashSet<u32> = HashSet::new();
    for entry in it: recipes_map.iter()
        invariant
            db == recipes_map@,
            v == spec_hash_map_iter(recipes_map).remaining(),
            it.seq() == v,
            done == it.index(),
            forall|x: u32| set@.contains(x) ==> is_recursive_item(db, x),
            forall|j: int|
                0 <= j < done && is_recursive_item(db, *(#[trigger] v[j]).0)
                    ==> set@.contains(*v[j].0),
    {
        let (item_id, recipe) = entry;
        if !set.contains(item_id) {
            let mut ingredients_stack: Vec<u32> = Vec::new();
            if mark_recursive_recipes_internal(recipe, *item_id, recipes_map, &mut ingredients_stack) {
                set.insert(*item_id);
            }
            proof {
                if in_chain(db, *recipe, *item_id) {
                    let p = choose|p: Seq<u32>| #[trigger] is_chain(db, *recipe, p) && p.last() == *item_id;
                    let q = lemma_simple_chain(db, *recipe, p);
                    assert(is_open_route(db, *recipe, *item_id, Seq::<u32>::empty(), q));
                }
            }
        }
        proof {
            done = done + 1;
        }
    }
    proof {
        assert forall|x: u32| is_recursive_item(db, x) implies set@.contains(x) by {
            assert(done == v.len());
            assert(v.contains((&x, &db[x])));
            let j = choose|j: int| 0 <= j < v.len() && v[j] == (&x, &db[x]);
            assert(*v[j].0 == x);
        }
    }
    set
}

} // verus!
