use vstd::prelude::*;
use crate::recipe::{Recipe, RecipeIngredient};

verus! {

/// `a` may stand before `b`: a larger count first, and on equal counts the
/// larger item identifier first.
pub open spec fn comes_before(a: RecipeIngredient, b: RecipeIngredient) -> bool {
    a.count > b.count || (a.count == b.count && a.item_id >= b.item_id)
}

/// Every ingredient of `s` may stand before each one after it.
pub open spec fn is_ordered(s: Seq<RecipeIngredient>) -> bool {
    forall|i: int, j: int| 0 <= i < j < s.len() ==> comes_before(s[i], s[j])
}

/// The ingredients that a sequence of references points at.
pub open spec fn pointees(s: Seq<&RecipeIngredient>) -> Seq<RecipeIngredient> {
    s.map_values(|g: &RecipeIngredient| *g)
}

fn ordered_before(a: &RecipeIngredient, b: &RecipeIngredient) -> (r: bool)
    ensures
        r == comes_before(*a, *b),
{
    a.count > b.count || (a.count == b.count && a.item_id >= b.item_id)
}

impl Recipe {
    /// The ingredients by count, larger first, and on equal counts by item
    /// identifier, larger first. The recipe itself is left as it is.
    pub fn sorted_ingredients(&self) -> (r: Vec<&RecipeIngredient>)
        ensures
            pointees(r@).to_multiset() == self.ingredients@.to_multiset(),
            is_ordered(pointees(r@)),
    {
        broadcast use vstd::seq_lib::group_to_multiset_ensures;

        let mut out: Vec<&RecipeIngredient> = Vec::new();
        let n = self.ingredients.len();
        proof {
            assert(pointees(out@) =~= self.ingredients@.subrange(0, 0));
        }
        for i in 0..n
            invariant
                n == self.ingredients@.len(),
                pointees(out@).to_multiset() == self.ingredients@.subrange(0, i as int).to_multiset(),
                forall|a: int, b: int| 0 <= a < b < out@.len() ==> comes_before(*out@[a], *out@[b]),
        {
            let g = &self.ingredients[i];
            let mut p: usize = 0;
            while p < out.len() && ordered_before(out[p], g)
                invariant
                    p <= out@.len(),
                    forall|k: int| 0 <= k < p ==> comes_before(*out@[k], *g),
                decreases out@.len() - p,
            {
                p = p + 1;
            }
            let ghost before = out@;
            out.insert(p, g);
            proof {
                assert(pointees(out@) =~= pointees(before).insert(p as int, *g));
                vstd::seq_lib::to_multiset_insert(pointees(before), p as int, *g);
                let done = self.ingredients@.subrange(0, i as int);
                assert(self.ingredients@.subrange(0, i + 1) =~= done.push(*g));
                vstd::seq_lib::to_multiset_build(done, *g);
                assert(pointees(out@).to_multiset() == self.ingredients@.subrange(
                    0,
                    i + 1,
                ).to_multiset());
                assert forall|a: int, b: int| 0 <= a < b < out@.len() implies comes_before(
                    *out@[a],
                    *out@[b],
                ) by {
                    if p < before.len() {
                        assert(!comes_before(*before[p as int], *g));
                    }
                    if a < p && b == p {
                    } else if a == p && b > p {
                        assert(comes_before(*before[p as int], *before[b - 1]) || b - 1 == p);
                    } else if a > p {
                        assert(out@[a] == before[a - 1]);
                    }
                }
            }
        }
        proof {
            assert(self.ingredients@.subrange(0, n as int) =~= self.ingredients@);
        }
        out
    }
}

/// Two orderings of the same ingredients that both follow the two-key rule
/// are equal: the rule leaves no choice, so every correct sort of a recipe's
/// ingredients gives one and the same sequence.
pub proof fn lemma_ordering_unique(a: Seq<RecipeIngredient>, b: Seq<RecipeIngredient>)
    requires
        a.to_multiset() == b.to_multiset(),
        is_ordered(a),
        is_ordered(b),
    ensures
        a == b,
    decreases a.len(),
{
    broadcast use vstd::seq_lib::group_to_multiset_ensures;

    a.to_multiset_ensures();
    b.to_multiset_ensures();
    if a.len() == 0 {
        assert(b.to_multiset().len() == 0);
        assert(b =~= a);
    } else {
        assert(b.len() == a.len());
        assert(a.to_multiset().count(a[0]) > 0);
        assert(b.contains(a[0]));
        assert(b.to_multiset().count(b[0]) > 0);
        assert(a.contains(b[0]));
        let k = choose|k: int| 0 <= k < b.len() && b[k] == a[0];
        let m = choose|m: int| 0 <= m < a.len() && a[m] == b[0];
        if k > 0 {
            assert(comes_before(b[0], b[k]));
        }
        if m > 0 {
            assert(comes_before(a[0], a[m]));
        }
        assert(a[0] == b[0]);
        vstd::seq_lib::to_multiset_remove(a, 0);
        vstd::seq_lib::to_multiset_remove(b, 0);
        assert(a.remove(0) =~= a.drop_first());
        assert(b.remove(0) =~= b.drop_first());
        lemma_ordering_unique(a.drop_first(), b.drop_first());
        assert(a =~= seq![a[0]] + a.drop_first());
        assert(b =~= seq![b[0]] + b.drop_first());
    }
}

} // verus!
