//! Aisle categorization: group a finished ingredient list by shopping
//! aisle, by exact name membership in the category rules; everything
//! unmatched lands in a reserved "other" bucket at the end.
use vstd::prelude::*;

use crate::ingredient_list::{view_of, EntryModel, IngredientListItem};

verus! {

/// One aisle category: its name and the ingredient names it covers.
#[derive(Debug)]
pub struct AisleCategory {
    pub name: String,
    pub members: Vec<String>,
}

/// Model of one category.
pub struct CategoryModel {
    pub name: Seq<char>,
    pub members: Seq<Seq<char>>,
}

impl View for AisleCategory {
    type V = CategoryModel;

    open spec fn view(&self) -> CategoryModel {
        CategoryModel {
            name: self.name@,
            members: self.members@.map_values(|m: String| m@),
        }
    }
}

/// The aisle configuration: categories in their declared order.
#[derive(Debug)]
pub struct AisleRules {
    pub categories: Vec<AisleCategory>,
}

impl View for AisleRules {
    type V = Seq<CategoryModel>;

    open spec fn view(&self) -> Seq<CategoryModel> {
        self.categories@.map_values(|c: AisleCategory| c@)
    }
}

/// The reserved bucket for unmatched ingredients.
pub open spec fn other_name() -> Seq<char> {
    seq!['o', 't', 'h', 'e', 'r']
}

/// The category an ingredient name falls under: the first category
/// listing it, or "other".
pub open spec fn category_of(cats: Seq<CategoryModel>, name: Seq<char>) -> Seq<char>
    decreases cats.len(),
{
    if cats.len() == 0 {
        other_name()
    } else if cats[0].members.contains(name) {
        cats[0].name
    } else {
        category_of(cats.skip(1), name)
    }
}

/// The grouped output from one category position on: each category's
/// entries (those the full rule set places under its name), skipping
/// empty buckets, with the "other" bucket after them.
pub open spec fn spec_aisled(
    cats: Seq<CategoryModel>,
    i: int,
    items: Seq<EntryModel>,
) -> Seq<(Seq<char>, Seq<EntryModel>)>
    decreases cats.len() - i when 0 <= i <= cats.len()
{
    if i >= cats.len() {
        let l = items.filter(|e: EntryModel| category_of(cats, e.name) == other_name());
        if l.len() > 0 {
            seq![(other_name(), l)]
        } else {
            Seq::empty()
        }
    } else {
        let l = items.filter(|e: EntryModel| category_of(cats, e.name) == cats[i].name);
        let rest = spec_aisled(cats, i + 1, items);
        if l.len() > 0 {
            seq![(cats[i].name, l)] + rest
        } else {
            rest
        }
    }
}

fn member_of(members: &Vec<String>, name: &String) -> (r: bool)
    ensures
        r == members@.map_values(|m: String| m@).contains(name@),
{
    let n: usize = members.len();
    let mut i: usize = 0;
    while i < n
        invariant
            0 <= i <= n,
            n == members@.len(),
            forall|j: int| 0 <= j < i ==> (#[trigger] members@[j])@ != name@,
        decreases n - i,
    {
        if *name == members[i] {
            assert(members@.map_values(|m: String| m@)[i as int] == name@);
            return true;
        }
        i = i + 1;
    }
    proof {
        let mapped = members@.map_values(|m: String| m@);
        if mapped.contains(name@) {
            let j = choose|j: int| 0 <= j < mapped.len() && mapped[j] == name@;
            assert(mapped[j] == members@[j]@);
            assert(false);
        }
    }
    false
}

/// The category name an ingredient falls under, as the model says.
fn category_of_exec(rules: &AisleRules, name: &String) -> (r: String)
    ensures
        r@ == category_of(rules@, name@),
{
    let n: usize = rules.categories.len();
    let mut i: usize = 0;
    proof {
        assert(rules@.skip(0) =~= rules@);
    }
    while i < n
        invariant
            0 <= i <= n,
            n == rules.categories@.len(),
            rules@.len() == n,
            category_of(rules@, name@) == category_of(rules@.skip(i as int), name@),
        decreases n - i,
    {
        proof {
            assert(rules@.skip(i as int)[0] == rules@[i as int]);
            assert(rules@[i as int] == rules.categories@[i as int]@);
        }
        if member_of(&rules.categories[i].members, name) {
            return rules.categories[i].name.clone();
        }
        proof {
            assert(rules@.skip(i as int).skip(1) =~= rules@.skip(i + 1));
        }
        i = i + 1;
    }
    proof {
        assert(rules@.skip(n as int).len() == 0);
    }
    let mut other = String::new();
    crate::text::push_char(&mut other, 'o');
    crate::text::push_char(&mut other, 't');
    crate::text::push_char(&mut other, 'h');
    crate::text::push_char(&mut other, 'e');
    crate::text::push_char(&mut other, 'r');
    proof {
        assert(other@ =~= other_name());
    }
    other
}

proof fn lemma_filter_one_entry(x: EntryModel, pred: spec_fn(EntryModel) -> bool)
    ensures
        seq![x].filter(pred) == if pred(x) {
            seq![x]
        } else {
            Seq::<EntryModel>::empty()
        },
{
    reveal(Seq::filter);
    let s = seq![x];
    assert(s.drop_last() =~= Seq::<EntryModel>::empty());
    assert(Seq::<EntryModel>::empty().filter(pred) =~= Seq::<EntryModel>::empty());
    assert(s.last() == x);
    if pred(x) {
        assert(s.filter(pred) =~= Seq::<EntryModel>::empty().push(x));
        assert(Seq::<EntryModel>::empty().push(x) =~= s);
    }
}

/// The input entries, in order, whose category under the rules is
/// exactly `target`.
fn filter_by_category(
    items: &Vec<IngredientListItem>,
    rules: &AisleRules,
    target: &String,
) -> (r: Vec<IngredientListItem>)
    requires
        forall|i: int| 0 <= i < items@.len() ==> (#[trigger] items@[i]).wf(),
    ensures
        forall|i: int| 0 <= i < r@.len() ==> (#[trigger] r@[i]).wf(),
        view_of(r@) == view_of(items@).filter(
            |e: EntryModel| category_of(rules@, e.name) == target@,
        ),
{
    let ghost pred = |e: EntryModel| category_of(rules@, e.name) == target@;
    let n: usize = items.len();
    let mut out: Vec<IngredientListItem> = Vec::new();
    let mut i: usize = 0;
    proof {
        assert(view_of(items@.take(0)) =~= Seq::<EntryModel>::empty());
        reveal(Seq::filter);
        assert(view_of(out@) =~= view_of(items@.take(0)).filter(pred));
    }
    while i < n
        invariant
            0 <= i <= n,
            n == items@.len(),
            pred == (|e: EntryModel| category_of(rules@, e.name) == target@),
            forall|j: int| 0 <= j < items@.len() ==> (#[trigger] items@[j]).wf(),
            forall|j: int| 0 <= j < out@.len() ==> (#[trigger] out@[j]).wf(),
            view_of(out@) == view_of(items@.take(i as int)).filter(pred),
        decreases n - i,
    {
        let cat = category_of_exec(rules, &items[i].name);
        let keep = cat == *target;
        let ghost pre = view_of(out@);
        if keep {
            out.push(items[i].clone());
        }
        proof {
            let e = items@[i as int]@;
            assert(view_of(items@.take(i + 1)) =~= view_of(items@.take(i as int)) + seq![e]);
            Seq::filter_distributes_over_add(view_of(items@.take(i as int)), seq![e], pred);
            lemma_filter_one_entry(e, pred);
            if keep {
                assert(view_of(out@) =~= pre.push(e));
                assert(view_of(items@.take(i + 1)).filter(pred) =~= pre.push(e));
            } else {
                assert(view_of(out@) =~= pre);
                assert(view_of(items@.take(i + 1)).filter(pred) =~= pre);
            }
        }
        i = i + 1;
    }
    proof {
        assert(items@.take(n as int) =~= items@);
    }
    out
}

/// Group a flat ingredient list by aisle: each declared category, in
/// rule order, holds the entries whose first matching category it is;
/// unmatched entries land under "other" at the end; empty buckets are
/// dropped. With empty rules everything lands under "other".
pub fn aisled(items: &Vec<IngredientListItem>, rules: &AisleRules) -> (r: Vec<
    (String, Vec<IngredientListItem>),
>)
    requires
        forall|i: int| 0 <= i < items@.len() ==> (#[trigger] items@[i]).wf(),
    ensures
        r@.map_values(|p: (String, Vec<IngredientListItem>)| (p.0@, view_of(p.1@)))
            == spec_aisled(rules@, 0, view_of(items@)),
        forall|i: int, j: int|
            0 <= i < r@.len() && 0 <= j < r@[i].1@.len() ==> (#[trigger] r@[i].1@[j]).wf(),
{
    let ghost itemsv = view_of(items@);
    let ghost pairs = |p: (String, Vec<IngredientListItem>)| (p.0@, view_of(p.1@));
    let n: usize = rules.categories.len();
    let mut out: Vec<(String, Vec<IngredientListItem>)> = Vec::new();
    let mut i: usize = 0;
    proof {
        assert(out@.map_values(pairs) =~= Seq::<(Seq<char>, Seq<EntryModel>)>::empty());
    }
    while i < n
        invariant
            0 <= i <= n,
            n == rules.categories@.len(),
            rules@.len() == n,
            itemsv == view_of(items@),
            pairs == (|p: (String, Vec<IngredientListItem>)| (p.0@, view_of(p.1@))),
            forall|j: int| 0 <= j < items@.len() ==> (#[trigger] items@[j]).wf(),
            spec_aisled(rules@, 0, itemsv) == out@.map_values(pairs) + spec_aisled(
                rules@,
                i as int,
                itemsv,
            ),
            forall|x: int, y: int|
                0 <= x < out@.len() && 0 <= y < out@[x].1@.len() ==> (#[trigger] out@[x].1@[y]).wf(),
        decreases n - i,
    {
        let cname = rules.categories[i].name.clone();
        proof {
            assert(rules@[i as int] == rules.categories@[i as int]@);
        }
        let l = filter_by_category(items, rules, &cname);
        let ghost pre = out@.map_values(pairs);
        if l.len() > 0 {
            out.push((cname, l));
            proof {
                assert(out@.map_values(pairs) =~= pre.push((rules@[i as int].name, view_of(l@))));
                assert(pre + spec_aisled(rules@, i as int, itemsv) =~= pre.push(
                    (rules@[i as int].name, view_of(l@)),
                ) + spec_aisled(rules@, i + 1, itemsv));
            }
        } else {
            proof {
                assert(view_of(l@).len() == 0);
            }
        }
        i = i + 1;
    }
    let mut other = String::new();
    crate::text::push_char(&mut other, 'o');
    crate::text::push_char(&mut other, 't');
    crate::text::push_char(&mut other, 'h');
    crate::text::push_char(&mut other, 'e');
    crate::text::push_char(&mut other, 'r');
    proof {
        assert(other@ =~= other_name());
    }
    let lo = filter_by_category(items, rules, &other);
    if lo.len() > 0 {
        let ghost pre = out@.map_values(pairs);
        out.push((other, lo));
        proof {
            assert(out@.map_values(pairs) =~= pre.push((other_name(), view_of(lo@))));
            assert(pre + spec_aisled(rules@, n as int, itemsv) =~= pre.push(
                (other_name(), view_of(lo@)),
            ));
        }
    } else {
        proof {
            assert(view_of(lo@).len() == 0);
            assert(out@.map_values(pairs) + spec_aisled(rules@, n as int, itemsv)
                =~= out@.map_values(pairs));
        }
    }
    out
}

} // verus!
