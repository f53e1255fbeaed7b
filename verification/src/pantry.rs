//! Pantry filtering: split a finished ingredient list into what is
//! already owned and what has to be bought, by exact name membership
//! in the pantry set.
use vstd::prelude::*;

use crate::ingredient_list::{view_of, EntryModel, IngredientListItem};

verus! {

/// The name stands in the pantry set.
pub open spec fn in_pantry(pantry: Seq<Seq<char>>, name: Seq<char>) -> bool {
    pantry.contains(name)
}

proof fn lemma_filter_one<A>(x: A, pred: spec_fn(A) -> bool)
    ensures
        seq![x].filter(pred) == if pred(x) {
            seq![x]
        } else {
            Seq::<A>::empty()
        },
{
    reveal(Seq::filter);
    let s = seq![x];
    assert(s.drop_last() =~= Seq::<A>::empty());
    assert(Seq::<A>::empty().filter(pred) =~= Seq::<A>::empty());
    assert(s.last() == x);
    if pred(x) {
        assert(s.filter(pred) =~= Seq::<A>::empty().push(x));
        assert(Seq::<A>::empty().push(x) =~= s);
    }
}

fn name_in_set(set: &Vec<String>, name: &String) -> (r: bool)
    ensures
        r == in_pantry(set@.map_values(|s: String| s@), name@),
{
    let n: usize = set.len();
    let mut i: usize = 0;
    while i < n
        invariant
            0 <= i <= n,
            n == set@.len(),
            forall|j: int| 0 <= j < i ==> (#[trigger] set@[j])@ != name@,
        decreases n - i,
    {
        if *name == set[i] {
            assert(set@.map_values(|s: String| s@)[i as int] == name@);
            return true;
        }
        i = i + 1;
    }
    proof {
        let mapped = set@.map_values(|s: String| s@);
        if mapped.contains(name@) {
            let j = choose|j: int| 0 <= j < mapped.len() && mapped[j] == name@;
            assert(mapped[j] == set@[j]@);
            assert(false);
        }
    }
    false
}

fn filter_items(
    items: &Vec<IngredientListItem>,
    pantry: &Vec<String>,
    keep_in_pantry: bool,
) -> (r: Vec<IngredientListItem>)
    requires
        forall|i: int| 0 <= i < items@.len() ==> (#[trigger] items@[i]).wf(),
    ensures
        forall|i: int| 0 <= i < r@.len() ==> (#[trigger] r@[i]).wf(),
        ({
            let names = pantry@.map_values(|s: String| s@);
            view_of(r@) == view_of(items@).filter(
                |e: EntryModel| in_pantry(names, e.name) == keep_in_pantry,
            )
        }),
{
    let ghost names = pantry@.map_values(|s: String| s@);
    let ghost pred = |e: EntryModel| in_pantry(names, e.name) == keep_in_pantry;
    let n: usize = items.len();
    let mut out: Vec<IngredientListItem> = Vec::new();
    let mut i: usize = 0;
    proof {
        assert(view_of(items@.take(0)) =~= Seq::<EntryModel>::empty());
        reveal(Seq::filter);
        assert(view_of(out@) =~= view_of(items@.take(0)).filter(pred));
    }
    while i < n
        invariant
            0 <= i <= n,
            n == items@.len(),
            names == pantry@.map_values(|s: String| s@),
            pred == (|e: EntryModel| in_pantry(names, e.name) == keep_in_pantry),
            forall|j: int| 0 <= j < items@.len() ==> (#[trigger] items@[j]).wf(),
            forall|j: int| 0 <= j < out@.len() ==> (#[trigger] out@[j]).wf(),
            view_of(out@) == view_of(items@.take(i as int)).filter(pred),
        decreases n - i,
    {
        let keep = name_in_set(pantry, &items[i].name) == keep_in_pantry;
        let ghost pre = view_of(out@);
        if keep {
            out.push(items[i].clone());
        }
        proof {
            let e = items@[i as int]@;
            assert(view_of(items@.take(i + 1)) =~= view_of(items@.take(i as int)) + seq![e]);
            Seq::filter_distributes_over_add(view_of(items@.take(i as int)), seq![e], pred);
            lemma_filter_one(e, pred);
            if keep {
                assert(view_of(out@) =~= pre.push(e));
                assert(view_of(items@.take(i + 1)).filter(pred) =~= pre.push(e));
            } else {
                assert(view_of(out@) =~= pre);
                assert(view_of(items@.take(i + 1)).filter(pred) =~= pre);
            }
        }
        i = i + 1;
    }
    proof {
        assert(items@.take(n as int) =~= items@);
    }
    out
}

/// The entries whose names are not in the pantry: what still has to
/// be bought. Exactly the input entries, in order, whose display name
/// misses the pantry set.
pub fn excluding_pantry(items: &Vec<IngredientListItem>, pantry: &Vec<String>) -> (r: Vec<
    IngredientListItem,
>)
    requires
        forall|i: int| 0 <= i < items@.len() ==> (#[trigger] items@[i]).wf(),
    ensures
        forall|i: int| 0 <= i < r@.len() ==> (#[trigger] r@[i]).wf(),
        view_of(r@) == view_of(items@).filter(
            |e: EntryModel| !in_pantry(pantry@.map_values(|s: String| s@), e.name),
        ),
{
    let r = filter_items(items, pantry, false);
    proof {
        let names = pantry@.map_values(|s: String| s@);
        assert(view_of(items@).filter(|e: EntryModel| in_pantry(names, e.name) == false)
            =~= view_of(items@).filter(|e: EntryModel| !in_pantry(names, e.name))) by {
            lemma_filter_equiv(
                view_of(items@),
                |e: EntryModel| in_pantry(names, e.name) == false,
                |e: EntryModel| !in_pantry(names, e.name),
            );
        }
    }
    r
}

/// The entries whose names are in the pantry: what is already owned.
pub fn from_pantry(items: &Vec<IngredientListItem>, pantry: &Vec<String>) -> (r: Vec<
    IngredientListItem,
>)
    requires
        forall|i: int| 0 <= i < items@.len() ==> (#[trigger] items@[i]).wf(),
    ensures
        forall|i: int| 0 <= i < r@.len() ==> (#[trigger] r@[i]).wf(),
        view_of(r@) == view_of(items@).filter(
            |e: EntryModel| in_pantry(pantry@.map_values(|s: String| s@), e.name),
        ),
{
    let r = filter_items(items, pantry, true);
    proof {
        let names = pantry@.map_values(|s: String| s@);
        lemma_filter_equiv(
            view_of(items@),
            |e: EntryModel| in_pantry(names, e.name) == true,
            |e: EntryModel| in_pantry(names, e.name),
        );
    }
    r
}

/// Filters with pointwise-equal predicates agree.
proof fn lemma_filter_equiv<A>(s: Seq<A>, p: spec_fn(A) -> bool, q: spec_fn(A) -> bool)
    requires
        forall|x: A| #[trigger] p(x) == q(x),
    ensures
        s.filter(p) == s.filter(q),
    decreases s.len(),
{
    reveal(Seq::filter);
    if s.len() > 0 {
        lemma_filter_equiv(s.drop_last(), p, q);
    }
}

} // verus!
