//! Ready-made `porta.toml` files for the coding agents people run under
//! porta, each under its agent's name: looking one up, and listing them.

use vstd::prelude::*;
use crate::text::{owned, push_str, same_text};

verus! {

/// The names of the recipes, in order.
pub open spec fn recipe_names(recipes: Seq<(&str, &str)>) -> Seq<Seq<char>> {
    recipes.map_values(|r: (&str, &str)| r.0@)
}

/// The recipe names, space-separated, for help and errors.
pub fn wt_recipe_names(recipes: &[(&str, &str)]) -> (r: String)
    ensures
        r@ == crate::words::join(recipe_names(recipes@), " "@),
{
    let mut names = String::new();
    let mut i: usize = 0;
    while i < recipes.len()
        invariant
            i <= recipes@.len(),
            names@ == crate::words::join(recipe_names(recipes@.take(i as int)), " "@),
        decreases recipes.len() - i,
    {
        let ghost before = names@;
        if i > 0 {
            push_str(&mut names, " ");
        }
        push_str(&mut names, recipes[i].0);
        proof {
            let t = recipe_names(recipes@.take(i + 1));
            assert(t.drop_last() =~= recipe_names(recipes@.take(i as int)));
            assert(t.last() == recipes@[i as int].0@);
            if i == 0 {
                assert(t.len() == 1);
                assert(before =~= Seq::<char>::empty());
            }
            assert(names@ =~= crate::words::join(t, " "@));
        }
        i = i + 1;
    }
    assert(recipes@.take(recipes@.len() as int) =~= recipes@);
    names
}

/// The text of the first recipe in `recipes` called `name`.
pub open spec fn recipe_text(recipes: Seq<(&str, &str)>, name: Seq<char>) -> Seq<char>
    decreases recipes.len(),
{
    if recipes.len() == 0 {
        Seq::empty()
    } else if recipes[0].0@ == name {
        recipes[0].1@
    } else {
        recipe_text(recipes.drop_first(), name)
    }
}

/// The recipe called `name` among `recipes` (each a name and its text), or an
/// empty string when there is none.
pub fn wt_recipe(name: &str, recipes: &[(&str, &str)]) -> (r: String)
    ensures
        r@ == recipe_text(recipes@, name@),
{
    let mut i: usize = 0;
    assert(recipes@.subrange(0, recipes@.len() as int) =~= recipes@);
    while i < recipes.len()
        invariant
            i <= recipes@.len(),
            recipe_text(recipes@, name@) == recipe_text(recipes@.subrange(i as int, recipes@.len() as int), name@),
        decreases recipes.len() - i,
    {
        let ghost rest = recipes@.subrange(i as int, recipes@.len() as int);
        assert(rest[0] == recipes@[i as int]);
        if same_text(recipes[i].0, name) {
            return owned(recipes[i].1);
        }
        assert(rest.drop_first() =~= recipes@.subrange(i + 1, recipes@.len() as int));
        i = i + 1;
    }
    String::new()
}

} // verus!
