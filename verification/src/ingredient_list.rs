//! The ingredient accumulator: a name-keyed, insertion-ordered list of
//! grouped quantities, built up over one aggregation pass and drained
//! into a name-sorted list for stable report output.
use vstd::prelude::*;
use vstd::seq_lib::lemma_multiset_commutative;

use vstd::multiset::Multiset;

use crate::error::AggError;
use crate::grouped::{grouped_add, GroupedQuantity};
use crate::quantity::{Quantity, QuantityModel};
use crate::text::{lex_lt, str_lt};

verus! {

broadcast use vstd::seq_lib::group_to_multiset_ensures, vstd::multiset::group_multiset_axioms;

/// Model of one accumulator entry: a display name and its merged
/// quantities.
pub struct EntryModel {
    pub name: Seq<char>,
    pub quantities: Seq<QuantityModel>,
}

/// One named entry of the final ingredient list.
#[derive(Debug)]
pub struct IngredientListItem {
    pub name: String,
    pub quantities: GroupedQuantity,
}

impl View for IngredientListItem {
    type V = EntryModel;

    open spec fn view(&self) -> EntryModel {
        EntryModel { name: self.name@, quantities: self.quantities@ }
    }
}

impl Clone for IngredientListItem {
    fn clone(&self) -> (r: Self)
        ensures
            r@ == self@,
            self.wf() ==> r.wf(),
    {
        IngredientListItem { name: self.name.clone(), quantities: self.quantities.clone() }
    }
}

impl IngredientListItem {
    pub open spec fn wf(self) -> bool {
        self.quantities.wf()
    }

    pub fn new(name: String, quantities: GroupedQuantity) -> (r: IngredientListItem)
        ensures
            r@.name == name@,
            r@.quantities == quantities@,
            quantities.wf() ==> r.wf(),
    {
        IngredientListItem { name, quantities }
    }
}

/// An existing entry after one more quantity lands on its name.
pub open spec fn entry_add(e: EntryModel, q: Option<QuantityModel>) -> EntryModel {
    match q {
        Some(qm) => EntryModel { name: e.name, quantities: grouped_add(e.quantities, qm) },
        None => e,
    }
}

/// The entry a first contribution under a fresh name creates.
pub open spec fn new_entry(name: Seq<char>, q: Option<QuantityModel>) -> EntryModel {
    EntryModel {
        name,
        quantities: match q {
            Some(qm) => seq![qm],
            None => Seq::empty(),
        },
    }
}

/// Adding one contribution to the accumulator: the entry with this
/// display name absorbs it, or a new entry is appended.
pub open spec fn acc_add(
    s: Seq<EntryModel>,
    name: Seq<char>,
    q: Option<QuantityModel>,
) -> Seq<EntryModel>
    decreases s.len(),
{
    if s.len() == 0 {
        seq![new_entry(name, q)]
    } else if s[0].name == name {
        seq![entry_add(s[0], q)] + s.skip(1)
    } else {
        seq![s[0]] + acc_add(s.skip(1), name, q)
    }
}

/// No two entries share a display name.
pub open spec fn distinct_names(s: Seq<EntryModel>) -> bool {
    forall|i: int, j: int| 0 <= i < j < s.len() ==> s[i].name != s[j].name
}

/// Every entry's group is fully merged: no two of its kept quantities
/// are unit-compatible.
pub open spec fn all_merged(s: Seq<EntryModel>) -> bool {
    forall|i: int| 0 <= i < s.len() ==> crate::grouped::fully_merged(#[trigger] s[i].quantities)
}

/// Adding this contribution overflows nowhere: every unit-compatible
/// quantity already standing under the name sums within machine
/// bounds.
pub open spec fn acc_add_fits(
    s: Seq<EntryModel>,
    name: Seq<char>,
    q: Option<QuantityModel>,
) -> bool {
    match q {
        None => true,
        Some(qm) => forall|i: int, j: int|
            0 <= i < s.len() && s[i].name == name && 0 <= j < s[i].quantities.len()
                && #[trigger] crate::quantity::compatible(s[i].quantities[j], qm)
                ==> crate::quantity::amount_add_fits(s[i].quantities[j].amount, qm.amount),
    }
}

/// Accumulating keeps every group fully merged: whatever lands on the
/// list, everything unit-compatible has already been summed into one
/// entry.
pub proof fn lemma_acc_add_keeps_merged(s: Seq<EntryModel>, name: Seq<char>, q: Option<
    QuantityModel,
>)
    requires
        all_merged(s),
    ensures
        all_merged(acc_add(s, name, q)),
    decreases s.len(),
{
    if s.len() == 0 {
        let t = acc_add(s, name, q);
        assert(t[0] == new_entry(name, q));
        match q {
            Some(qm) => {
                assert(crate::grouped::fully_merged(seq![qm]));
            },
            None => {
                assert(crate::grouped::fully_merged(Seq::<QuantityModel>::empty()));
            },
        }
    } else if s[0].name == name {
        let t = acc_add(s, name, q);
        assert(t[0] == entry_add(s[0], q));
        match q {
            Some(qm) => {
                crate::grouped::lemma_grouped_add_keeps_merged(s[0].quantities, qm);
            },
            None => {},
        }
        assert forall|i: int| 0 <= i < t.len() implies crate::grouped::fully_merged(
            #[trigger] t[i].quantities,
        ) by {
            if i > 0 {
                assert(t[i] == s[i]);
            }
        }
    } else {
        assert(forall|j: int| 0 <= j < s.skip(1).len() ==> s.skip(1)[j] == s[j + 1]);
        lemma_acc_add_keeps_merged(s.skip(1), name, q);
        let t = acc_add(s, name, q);
        let t2 = acc_add(s.skip(1), name, q);
        assert forall|i: int| 0 <= i < t.len() implies crate::grouped::fully_merged(
            #[trigger] t[i].quantities,
        ) by {
            if i == 0 {
                assert(t[0] == s[0]);
            } else {
                assert(t[i] == t2[i - 1]);
            }
        }
    }
}

/// When the name's entry sits at `i`, adding updates exactly that entry.
pub proof fn lemma_acc_add_at(s: Seq<EntryModel>, name: Seq<char>, q: Option<QuantityModel>, i: int)
    requires
        0 <= i < s.len(),
        s[i].name == name,
        forall|j: int| 0 <= j < i ==> s[j].name != name,
    ensures
        acc_add(s, name, q) =~= s.update(i, entry_add(s[i], q)),
    decreases i,
{
    if i == 0 {
    } else {
        assert(s.skip(1)[i - 1] == s[i]);
        assert(forall|j: int| 0 <= j < i - 1 ==> s.skip(1)[j] == s[j + 1]);
        lemma_acc_add_at(s.skip(1), name, q, i - 1);
    }
}

/// When no entry bears the name, adding appends a fresh entry.
pub proof fn lemma_acc_add_none(s: Seq<EntryModel>, name: Seq<char>, q: Option<QuantityModel>)
    requires
        forall|j: int| 0 <= j < s.len() ==> s[j].name != name,
    ensures
        acc_add(s, name, q) =~= s.push(new_entry(name, q)),
    decreases s.len(),
{
    if s.len() > 0 {
        assert(forall|j: int| 0 <= j < s.skip(1).len() ==> s.skip(1)[j] == s[j + 1]);
        lemma_acc_add_none(s.skip(1), name, q);
    }
}

/// The grouped quantities standing under a display name, if any.
pub open spec fn group_of(s: Seq<EntryModel>, name: Seq<char>) -> Option<Seq<QuantityModel>>
    decreases s.len(),
{
    if s.len() == 0 {
        None
    } else if s[0].name == name {
        Some(s[0].quantities)
    } else {
        group_of(s.skip(1), name)
    }
}

/// The grouped quantities under a name, an empty group where none
/// stands yet.
pub open spec fn group_or_empty(s: Seq<EntryModel>, name: Seq<char>) -> Seq<QuantityModel> {
    match group_of(s, name) {
        Some(g) => g,
        None => Seq::empty(),
    }
}

/// One accumulator addition touches exactly the group under its own
/// name and no other.
pub proof fn lemma_group_of_acc_add(
    s: Seq<EntryModel>,
    n2: Seq<char>,
    q: QuantityModel,
    name: Seq<char>,
)
    ensures
        group_or_empty(acc_add(s, n2, Some(q)), name) == if n2 == name {
            grouped_add(group_or_empty(s, name), q)
        } else {
            group_or_empty(s, name)
        },
    decreases s.len(),
{
    let t = acc_add(s, n2, Some(q));
    if s.len() == 0 {
        assert(t =~= seq![new_entry(n2, Some(q))]);
        if n2 == name {
            assert(grouped_add(Seq::<QuantityModel>::empty(), q) =~= seq![q]);
        } else {
            assert(group_of(t.skip(1), name) == group_of(Seq::<EntryModel>::empty(), name)) by {
                assert(t.skip(1) =~= Seq::<EntryModel>::empty());
            }
        }
    } else if s[0].name == n2 {
        assert(t =~= seq![entry_add(s[0], Some(q))] + s.skip(1));
        assert(t[0] == entry_add(s[0], Some(q)));
        assert(t.skip(1) =~= s.skip(1));
        if n2 != name {
            assert(t[0].name == s[0].name);
        }
    } else {
        assert(t =~= seq![s[0]] + acc_add(s.skip(1), n2, Some(q)));
        assert(t[0] == s[0]);
        assert(t.skip(1) =~= acc_add(s.skip(1), n2, Some(q)));
        lemma_group_of_acc_add(s.skip(1), n2, q, name);
    }
}

/// A whole sequence of name-keyed contributions, first to last.
pub open spec fn acc_fold(
    s: Seq<EntryModel>,
    l: Seq<(Seq<char>, QuantityModel)>,
) -> Seq<EntryModel>
    decreases l.len(),
{
    if l.len() == 0 {
        s
    } else {
        acc_fold(acc_add(s, l[0].0, Some(l[0].1)), l.skip(1))
    }
}

/// The quantities a run of contributions adds under one name, in
/// order.
pub open spec fn for_name(
    l: Seq<(Seq<char>, QuantityModel)>,
    name: Seq<char>,
) -> Seq<QuantityModel>
    decreases l.len(),
{
    if l.len() == 0 {
        Seq::empty()
    } else if l[0].0 == name {
        seq![l[0].1] + for_name(l.skip(1), name)
    } else {
        for_name(l.skip(1), name)
    }
}

/// A name's group after a run of contributions is exactly its own
/// quantities folded in, in their order — contributions under other
/// names never touch it.
pub proof fn lemma_acc_fold_group_of(
    s: Seq<EntryModel>,
    l: Seq<(Seq<char>, QuantityModel)>,
    name: Seq<char>,
)
    ensures
        group_or_empty(acc_fold(s, l), name) == crate::grouped::grouped_fold(
            group_or_empty(s, name),
            for_name(l, name),
        ),
    decreases l.len(),
{
    if l.len() > 0 {
        let s2 = acc_add(s, l[0].0, Some(l[0].1));
        lemma_group_of_acc_add(s, l[0].0, l[0].1, name);
        lemma_acc_fold_group_of(s2, l.skip(1), name);
        if l[0].0 == name {
            let fl = for_name(l, name);
            assert(fl[0] == l[0].1);
            assert(fl.skip(1) =~= for_name(l.skip(1), name));
        }
    }
}

/// Merge order is immaterial in full: the final grouped quantity under
/// one display name depends only on the multiset of the mutually
/// unit-compatible quantities contributed under it — however those
/// contributions are ordered or interleaved with other names'.
pub proof fn lemma_per_name_order_immaterial(
    s: Seq<EntryModel>,
    l1: Seq<(Seq<char>, QuantityModel)>,
    l2: Seq<(Seq<char>, QuantityModel)>,
    name: Seq<char>,
)
    requires
        for_name(l1, name).to_multiset() == for_name(l2, name).to_multiset(),
        crate::grouped::mutually_compatible(for_name(l1, name)),
        crate::grouped::mutually_compatible(for_name(l2, name)),
    ensures
        group_or_empty(acc_fold(s, l1), name) == group_or_empty(acc_fold(s, l2), name),
{
    lemma_acc_fold_group_of(s, l1, name);
    lemma_acc_fold_group_of(s, l2, name);
    crate::grouped::lemma_grouped_fold_permutation(
        group_or_empty(s, name),
        for_name(l1, name),
        for_name(l2, name),
    );
}

/// Merge order does not matter: the final grouped quantity under one
/// display name is the same whichever of two unit-compatible
/// contributions arrives first. Repeated exchanges of adjacent
/// additions carry this to any reordering of the unit-compatible
/// contributions for that name.
pub proof fn lemma_acc_add_exchange(
    s: Seq<EntryModel>,
    name: Seq<char>,
    a: QuantityModel,
    b: QuantityModel,
)
    requires
        crate::quantity::compatible(a, b),
    ensures
        acc_add(acc_add(s, name, Some(a)), name, Some(b)) == acc_add(
            acc_add(s, name, Some(b)),
            name,
            Some(a),
        ),
    decreases s.len(),
{
    if s.len() == 0 {
        let ea = new_entry(name, Some(a));
        let eb = new_entry(name, Some(b));
        assert(acc_add(s, name, Some(a)) =~= seq![ea]);
        assert(acc_add(s, name, Some(b)) =~= seq![eb]);
        assert(acc_add(seq![ea], name, Some(b)) =~= seq![entry_add(ea, Some(b))]);
        assert(acc_add(seq![eb], name, Some(a)) =~= seq![entry_add(eb, Some(a))]);
        crate::grouped::lemma_grouped_add_exchange(Seq::<QuantityModel>::empty(), a, b);
        assert(grouped_add(grouped_add(Seq::<QuantityModel>::empty(), a), b) =~= grouped_add(
            seq![a],
            b,
        ));
        assert(grouped_add(grouped_add(Seq::<QuantityModel>::empty(), b), a) =~= grouped_add(
            seq![b],
            a,
        ));
        assert(entry_add(ea, Some(b)) == entry_add(eb, Some(a)));
    } else if s[0].name == name {
        let sa = acc_add(s, name, Some(a));
        let sb = acc_add(s, name, Some(b));
        assert(sa =~= seq![entry_add(s[0], Some(a))] + s.skip(1));
        assert(sb =~= seq![entry_add(s[0], Some(b))] + s.skip(1));
        assert(acc_add(sa, name, Some(b)) =~= seq![entry_add(entry_add(s[0], Some(a)), Some(b))]
            + s.skip(1));
        assert(acc_add(sb, name, Some(a)) =~= seq![entry_add(entry_add(s[0], Some(b)), Some(a))]
            + s.skip(1));
        crate::grouped::lemma_grouped_add_exchange(s[0].quantities, a, b);
        assert(entry_add(entry_add(s[0], Some(a)), Some(b)) == entry_add(
            entry_add(s[0], Some(b)),
            Some(a),
        ));
    } else {
        let sa = acc_add(s, name, Some(a));
        let sb = acc_add(s, name, Some(b));
        assert(sa =~= seq![s[0]] + acc_add(s.skip(1), name, Some(a)));
        assert(sb =~= seq![s[0]] + acc_add(s.skip(1), name, Some(b)));
        assert(sa[0] == s[0] && sb[0] == s[0]);
        assert(sa.skip(1) =~= acc_add(s.skip(1), name, Some(a)));
        assert(sb.skip(1) =~= acc_add(s.skip(1), name, Some(b)));
        lemma_acc_add_exchange(s.skip(1), name, a, b);
        assert(acc_add(sa, name, Some(b)) =~= seq![s[0]] + acc_add(
            acc_add(s.skip(1), name, Some(a)),
            name,
            Some(b),
        ));
        assert(acc_add(sb, name, Some(a)) =~= seq![s[0]] + acc_add(
            acc_add(s.skip(1), name, Some(b)),
            name,
            Some(a),
        ));
    }
}

/// The insertion-ordered accumulator of one aggregation pass, and the
/// final flat ingredient list.
#[derive(Debug)]
pub struct IngredientList {
    items: Vec<IngredientListItem>,
}

impl View for IngredientList {
    type V = Seq<EntryModel>;

    closed spec fn view(&self) -> Seq<EntryModel> {
        self.items@.map_values(|e: IngredientListItem| e@)
    }
}

impl IngredientList {
    pub closed spec fn wf(self) -> bool {
        forall|i: int| 0 <= i < self.items@.len() ==> self.items@[i].wf()
    }

    pub fn new() -> (r: IngredientList)
        ensures
            r.wf(),
            r@ =~= Seq::<EntryModel>::empty(),
            distinct_names(r@),
    {
        IngredientList { items: Vec::new() }
    }

    pub fn items(&self) -> (r: &Vec<IngredientListItem>)
        ensures
            r@.map_values(|e: IngredientListItem| e@) == self@,
            self.wf() ==> forall|i: int| 0 <= i < r@.len() ==> r@[i].wf(),
    {
        &self.items
    }

    pub fn len(&self) -> (r: usize)
        ensures
            r == self@.len(),
    {
        self.items.len()
    }

    /// Record one contribution: merge the quantity into the entry under
    /// this display name, creating the entry if the name is new. With no
    /// quantity the entry still comes to exist, once, and stays as it
    /// was if it already does. Fails only when a unit-compatible sum
    /// under the name leaves the machine's integer range — and on a
    /// well-kept list exactly then; the list is then unchanged.
    pub fn add_ingredient(&mut self, name: String, quantity: Option<Quantity>) -> (r: Result<
        (),
        AggError,
    >)
        requires
            old(self).wf(),
            match quantity {
                Some(q) => q.wf(),
                None => true,
            },
        ensures
            ({
                let qv = match quantity {
                    Some(q) => Some(q@),
                    None => None,
                };
                &&& (r matches Ok(()) ==> final(self)@ == acc_add(old(self)@, name@, qv)
                    && final(self).wf())
                &&& (r matches Err(e) ==> e is Overflow && final(self)@ == old(self)@
                    && final(self).wf() && !acc_add_fits(old(self)@, name@, qv))
                &&& ((distinct_names(old(self)@) && all_merged(old(self)@) && !acc_add_fits(
                    old(self)@,
                    name@,
                    qv,
                )) ==> r is Err)
                &&& (distinct_names(old(self)@) ==> distinct_names(final(self)@))
                &&& ((all_merged(old(self)@) && r is Ok) ==> all_merged(final(self)@))
            }),
    {
        let ghost s = self@;
        let ghost qv: Option<QuantityModel> = match &quantity {
            Some(q) => Some(q@),
            None => None,
        };
        let n: usize = self.items.len();
        let mut i: usize = 0;
        while i < n
            invariant
                0 <= i <= n,
                n == self.items@.len(),
                self@ == s,
                s == old(self)@,
                self.wf(),
                match quantity {
                    Some(q) => q.wf() && qv == Some(q@),
                    None => qv is None,
                },
                forall|j: int| 0 <= j < i ==> s[j].name != name@,
            decreases n - i,
        {
            if self.items[i].name == name {
                proof {
                    lemma_acc_add_at(s, name@, qv, i as int);
                }
                match quantity {
                    Some(q) => {
                        let ghost items0 = self.items@;
                        let entry = &mut self.items[i];
                        let r = entry.quantities.add(&q);
                        proof {
                            if r is Ok {
                                assert(self.items@ =~= items0.update(
                                    i as int,
                                    self.items@[i as int],
                                ));
                            } else {
                                assert(self.items@ =~= items0.update(
                                    i as int,
                                    self.items@[i as int],
                                ));
                                assert(self.items@[i as int]@ == items0[i as int]@);
                                assert(self@ =~= s);
                            }
                        }
                        match r {
                            Ok(()) => {
                                assert(self@ =~= s.update(i as int, entry_add(s[i as int], qv)));
                                assert forall|j: int|
                                    0 <= j < self.items@.len() implies self.items@[j].wf() by {
                                    if j != i {
                                        assert(self.items@[j] == items0[j]);
                                    }
                                }
                                proof {
                                    if distinct_names(s) {
                                        assert forall|x: int, y: int|
                                            0 <= x < y < self@.len() implies self@[x].name
                                            != self@[y].name by {
                                            assert(s[x].name != s[y].name);
                                        }
                                    }
                                    if distinct_names(s) && all_merged(s) {
                                        let gv = s[i as int].quantities;
                                        assert(crate::grouped::fully_merged(gv));
                                        assert forall|i2: int, j2: int|
                                            0 <= i2 < s.len() && s[i2].name == name@ && 0 <= j2
                                                < s[i2].quantities.len()
                                                && #[trigger] crate::quantity::compatible(
                                                s[i2].quantities[j2],
                                                q@,
                                            ) implies crate::quantity::amount_add_fits(
                                            s[i2].quantities[j2].amount,
                                            q@.amount,
                                        ) by {
                                            if i2 != i {
                                                assert(false);
                                            } else if !crate::quantity::amount_add_fits(
                                                s[i2].quantities[j2].amount,
                                                q@.amount,
                                            ) {
                                                assert(exists|w: int|
                                                    0 <= w < gv.len() && crate::quantity::compatible(
                                                        gv[w],
                                                        q@,
                                                    ) && !crate::quantity::amount_add_fits(
                                                        gv[w].amount,
                                                        q@.amount,
                                                    ));
                                                assert(false);
                                            }
                                        }
                                        assert(acc_add_fits(s, name@, qv));
                                    }
                                    if all_merged(s) {
                                        lemma_acc_add_keeps_merged(s, name@, qv);
                                    }
                                }
                                return Ok(());
                            },
                            Err(e) => {
                                assert forall|j: int|
                                    0 <= j < self.items@.len() implies self.items@[j].wf() by {
                                    if j != i {
                                        assert(self.items@[j] == items0[j]);
                                    }
                                }
                                proof {
                                    let gv = s[i as int].quantities;
                                    let jj = choose|jj: int|
                                        0 <= jj < gv.len() && crate::quantity::compatible(
                                            gv[jj],
                                            q@,
                                        ) && !crate::quantity::amount_add_fits(
                                            gv[jj].amount,
                                            q@.amount,
                                        );
                                    assert(!acc_add_fits(s, name@, qv));
                                }
                                return Err(e);
                            },
                        }
                    },
                    None => {
                        assert(entry_add(s[i as int], qv) == s[i as int]);
                        assert(self@ =~= s.update(i as int, entry_add(s[i as int], qv)));
                        proof {
                            if all_merged(s) {
                                lemma_acc_add_keeps_merged(s, name@, qv);
                            }
                        }
                        return Ok(());
                    },
                }
            }
            i = i + 1;
        }
        proof {
            lemma_acc_add_none(s, name@, qv);
        }
        let mut group = GroupedQuantity::new();
        match quantity {
            Some(q) => {
                let r = group.add(&q);
                proof {
                    crate::grouped::lemma_grouped_add_none(Seq::<QuantityModel>::empty(), q@);
                }
                assert(r is Ok);
                assert(group@ =~= seq![q@]);
            },
            None => {
                assert(group@ =~= Seq::<QuantityModel>::empty());
            },
        }
        let ghost items0 = self.items@;
        self.items.push(IngredientListItem { name, quantities: group });
        assert(self@ =~= s.push(new_entry(name@, qv)));
        assert forall|j: int| 0 <= j < self.items@.len() implies self.items@[j].wf() by {
            if j < items0.len() {
                assert(self.items@[j] == items0[j]);
            }
        }
        proof {
            if distinct_names(s) {
                assert forall|x: int, y: int|
                    0 <= x < y < self@.len() implies self@[x].name != self@[y].name by {
                    if y == s.len() {
                        assert(self@[x].name == s[x].name);
                    } else {
                        assert(s[x].name != s[y].name);
                    }
                }
            }
            assert(acc_add_fits(s, name@, qv));
            if all_merged(s) {
                lemma_acc_add_keeps_merged(s, name@, qv);
            }
        }
        Ok(())
    }

    /// Drain the accumulator into a list sorted by name, for stable
    /// report output. The entries are exactly those accumulated, in
    /// strictly increasing name order.
    pub fn into_sorted(self) -> (r: IngredientList)
        requires
            self.wf(),
            distinct_names(self@),
        ensures
            r.wf(),
            r@.to_multiset() == self@.to_multiset(),
            r@.len() == self@.len(),
            forall|i: int| 0 <= i < r@.len() - 1 ==> lex_lt(r@[i].name, #[trigger] r@[i + 1].name),
            distinct_names(r@),
    {
        let IngredientList { mut items } = self;
        let ghost full = items@.map_values(|e: IngredientListItem| e@);
        let mut out: Vec<IngredientListItem> = Vec::new();
        while items.len() > 0
            invariant
                forall|i: int| 0 <= i < items@.len() ==> (#[trigger] items@[i]).wf(),
                forall|i: int| 0 <= i < out@.len() ==> (#[trigger] out@[i]).wf(),
                view_of(items@).to_multiset().add(view_of(out@).to_multiset())
                    == full.to_multiset(),
                forall|i: int|
                    0 <= i < out@.len() - 1 ==> lex_lt(
                        out@[i]@.name,
                        #[trigger] out@[i + 1]@.name,
                    ),
                distinct_names(full),
                forall|i: int|
                    0 <= i < items@.len() ==> !has_name(
                        view_of(out@),
                        #[trigger] items@[i]@.name,
                    ),
                distinct_names(view_of(items@)),
                distinct_names(view_of(out@)),
            decreases items@.len(),
        {
            let ghost items_pre = items@;
            let ghost out_pre = view_of(out@);
            let e = items.pop().unwrap();
            proof {
                assert(items_pre.drop_last() =~= items_pre.remove(items_pre.len() - 1));
                lemma_view_of_remove(items_pre, items_pre.len() - 1);
                assert(e == items_pre[items_pre.len() - 1]);
                assert(view_of(items_pre)[items_pre.len() - 1].name == e@.name);
                assert(!has_name(view_of(out@), e@.name));
                assert forall|i2: int| 0 <= i2 < out@.len() implies out@[i2]@.name != e@.name by {
                    assert(view_of(out@)[i2].name == out@[i2]@.name);
                }
            }
            insert_sorted(&mut out, e);
            proof {
                assert forall|i: int|
                    0 <= i < items@.len() implies !has_name(
                    view_of(out@),
                    #[trigger] items@[i]@.name,
                ) by {
                    assert(items@[i] == items_pre[i]);
                    assert(view_of(items_pre)[i].name == items@[i]@.name);
                    assert(view_of(items_pre)[items_pre.len() - 1].name == e@.name);
                    if has_name(view_of(out@), items@[i]@.name) {
                        assert(has_name(out_pre, items@[i]@.name) || items@[i]@.name == e@.name);
                    }
                }
                assert forall|x: int, y: int|
                    0 <= x < y < view_of(items@).len() implies view_of(items@)[x].name
                    != view_of(items@)[y].name by {
                    assert(view_of(items@)[x] == view_of(items_pre)[x]);
                    assert(view_of(items@)[y] == view_of(items_pre)[y]);
                }
            }
        }
        proof {
            assert(view_of(items@).to_multiset() =~= Multiset::<EntryModel>::empty());
        }
        let r = IngredientList { items: out };
        proof {
            assert(r@.to_multiset() =~= full.to_multiset());
            assert(r@.len() == r@.to_multiset().len());
            assert(full.len() == full.to_multiset().len());
        }
        r
    }
}

/// The entry models of a sequence of items.
pub open spec fn view_of(s: Seq<IngredientListItem>) -> Seq<EntryModel> {
    s.map_values(|e: IngredientListItem| e@)
}

/// Some entry of `s` bears the display name `nm`.
pub open spec fn has_name(s: Seq<EntryModel>, nm: Seq<char>) -> bool {
    exists|i: int| 0 <= i < s.len() && s[i].name == nm
}

proof fn lemma_view_of_remove(s: Seq<IngredientListItem>, i: int)
    requires
        0 <= i < s.len(),
    ensures
        view_of(s.remove(i)) =~= view_of(s).remove(i),
{
}

proof fn lemma_view_of_insert(s: Seq<IngredientListItem>, i: int, e: IngredientListItem)
    requires
        0 <= i <= s.len(),
    ensures
        view_of(s.insert(i, e)) =~= view_of(s).insert(i, e@),
{
}

/// A sequence's multiset gains exactly the inserted element.
proof fn lemma_insert_to_multiset<A>(s: Seq<A>, i: int, e: A)
    requires
        0 <= i <= s.len(),
    ensures
        s.insert(i, e).to_multiset() =~= s.to_multiset().insert(e),
{
    broadcast use vstd::seq_lib::group_to_multiset_ensures;

    let pre = s.take(i);
    let post = s.skip(i);
    assert(s =~= pre + post);
    assert(s.insert(i, e) =~= pre.push(e) + post);
    lemma_multiset_commutative(pre, post);
    lemma_multiset_commutative(pre.push(e), post);
    assert(pre.push(e).to_multiset() =~= pre.to_multiset().insert(e));
}

/// Place an item into a name-sorted vector, keeping it sorted.
#[verifier::rlimit(60)]
fn insert_sorted(out: &mut Vec<IngredientListItem>, e: IngredientListItem)
    requires
        e.wf(),
        forall|i: int| 0 <= i < old(out)@.len() ==> (#[trigger] old(out)@[i]).wf(),
        forall|i: int|
            0 <= i < old(out)@.len() - 1 ==> lex_lt(
                old(out)@[i]@.name,
                #[trigger] old(out)@[i + 1]@.name,
            ),
        forall|i: int| 0 <= i < old(out)@.len() ==> old(out)@[i]@.name != e@.name,
        distinct_names(view_of(old(out)@)),
    ensures
        forall|i: int| 0 <= i < final(out)@.len() ==> (#[trigger] final(out)@[i]).wf(),
        forall|i: int|
            0 <= i < final(out)@.len() - 1 ==> lex_lt(
                final(out)@[i]@.name,
                #[trigger] final(out)@[i + 1]@.name,
            ),
        view_of(final(out)@).to_multiset() == view_of(old(out)@).to_multiset().insert(e@),
        distinct_names(view_of(final(out)@)),
        forall|nm: Seq<char>|
            #[trigger] has_name(view_of(final(out)@), nm) ==> has_name(view_of(old(out)@), nm)
                || nm == e@.name,
{
    let n: usize = out.len();
    let mut j: usize = 0;
    while j < n && !str_lt(&e.name, &out[j].name)
        invariant
            0 <= j <= n,
            n == out@.len(),
            out@ == old(out)@,
            forall|k: int| 0 <= k < j ==> !lex_lt(e@.name, #[trigger] out@[k]@.name),
        decreases n - j,
    {
        j = j + 1;
    }
    proof {
        if j < n {
            assert(lex_lt(e@.name, out@[j as int]@.name));
        }
        if j > 0 {
            crate::text::lemma_lex_trichotomy(e@.name, out@[j - 1]@.name);
            assert(lex_lt(out@[j - 1]@.name, e@.name));
        }
        lemma_view_of_insert(out@, j as int, e);
        lemma_insert_to_multiset(view_of(out@), j as int, e@);
    }
    let ghost out0 = out@;
    let ghost jj = j as int;
    out.insert(j, e);
    assert(out@ =~= out0.insert(jj, e));
    proof {
        out0.insert_ensures(jj, e);
        assert forall|i: int|
            0 <= i < out@.len() - 1 implies lex_lt(out@[i]@.name, #[trigger] out@[i + 1]@.name) by {
            if i + 1 < jj {
                assert(out@[i] == out0[i] && out@[i + 1] == out0[i + 1]);
            } else if i + 1 == jj {
                assert(out@[i] == out0[i] && out@[i + 1] == e);
            } else if i == jj {
                assert(out@[i] == e && out@[i + 1] == out0[i]);
            } else {
                assert(out@[i] == out0[i - 1] && out@[i + 1] == out0[i]);
            }
        }
        assert forall|x: int, y: int|
            0 <= x < y < view_of(out@).len() implies view_of(out@)[x].name != view_of(
            out@,
        )[y].name by {
            assert(forall|k: int| 0 <= k < out0.len() ==> #[trigger] view_of(out0)[k] == out0[k]@);
            if x == jj {
                assert(out@[x] == e);
                assert(out@[y] == out0[y - 1]);
                assert(view_of(out0)[y - 1].name != e@.name);
            } else if y == jj {
                let x0 = if x < jj {
                    x
                } else {
                    x - 1
                };
                assert(out@[x] == out0[x0]);
                assert(out@[y] == e);
                assert(view_of(out0)[x0].name != e@.name);
            } else {
                let x0 = if x < jj {
                    x
                } else {
                    x - 1
                };
                let y0 = if y < jj {
                    y
                } else {
                    y - 1
                };
                assert(out@[x] == out0[x0]);
                assert(out@[y] == out0[y0]);
                assert(x0 < y0);
                assert(view_of(out0)[x0].name != view_of(out0)[y0].name);
            }
        }
        assert forall|nm: Seq<char>|
            #[trigger] has_name(view_of(out@), nm) implies has_name(view_of(out0), nm) || nm
            == e@.name by {
            let i = choose|i: int| 0 <= i < view_of(out@).len() && view_of(out@)[i].name == nm;
            if i < jj {
                assert(view_of(out0)[i].name == nm);
            } else if i > jj {
                assert(view_of(out0)[i - 1].name == nm);
            }
        }
    }
}

} // verus!
