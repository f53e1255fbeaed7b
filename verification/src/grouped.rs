//! Grouped quantities: every contribution to one ingredient name,
//! merged as far as units allow. The invariant is that no two kept
//! entries are unit-compatible — everything compatible has already
//! been summed into a single entry.
use vstd::prelude::*;

use crate::error::AggError;
use crate::quantity::{
    amount_add, amount_add_fits, compatible, merge, MergeOutcome, Quantity, QuantityModel,
};

verus! {

/// The merged model entry for two unit-compatible quantities.
pub open spec fn merged_model(a: QuantityModel, b: QuantityModel) -> QuantityModel {
    QuantityModel { amount: amount_add(a.amount, b.amount), unit: a.unit }
}

/// Adding a quantity to a group: the first unit-compatible entry
/// absorbs it; otherwise it is appended.
pub open spec fn grouped_add(s: Seq<QuantityModel>, q: QuantityModel) -> Seq<QuantityModel>
    decreases s.len(),
{
    if s.len() == 0 {
        seq![q]
    } else if compatible(s[0], q) {
        seq![merged_model(s[0], q)] + s.skip(1)
    } else {
        seq![s[0]] + grouped_add(s.skip(1), q)
    }
}

/// No two entries of the group are unit-compatible.
pub open spec fn fully_merged(s: Seq<QuantityModel>) -> bool {
    forall|i: int, j: int| 0 <= i < j < s.len() ==> !compatible(s[i], s[j])
}

/// When the first compatible entry sits at `i`, adding updates exactly
/// that entry.
pub proof fn lemma_grouped_add_at(s: Seq<QuantityModel>, q: QuantityModel, i: int)
    requires
        0 <= i < s.len(),
        compatible(s[i], q),
        forall|j: int| 0 <= j < i ==> !compatible(s[j], q),
    ensures
        grouped_add(s, q) =~= s.update(i, merged_model(s[i], q)),
    decreases i,
{
    if i == 0 {
        assert(grouped_add(s, q) =~= s.update(0, merged_model(s[0], q)));
    } else {
        assert(s.skip(1)[i - 1] == s[i]);
        assert(forall|j: int| 0 <= j < i - 1 ==> s.skip(1)[j] == s[j + 1]);
        lemma_grouped_add_at(s.skip(1), q, i - 1);
        assert(grouped_add(s, q) =~= seq![s[0]] + s.skip(1).update(
            i - 1,
            merged_model(s[i], q),
        ));
    }
}

/// When no entry is compatible, adding appends.
pub proof fn lemma_grouped_add_none(s: Seq<QuantityModel>, q: QuantityModel)
    requires
        forall|j: int| 0 <= j < s.len() ==> !compatible(s[j], q),
    ensures
        grouped_add(s, q) =~= s.push(q),
    decreases s.len(),
{
    if s.len() > 0 {
        assert(forall|j: int| 0 <= j < s.skip(1).len() ==> s.skip(1)[j] == s[j + 1]);
        lemma_grouped_add_none(s.skip(1), q);
    }
}

/// Adding keeps the group fully merged: the group invariant holds of
/// every group the engine builds, whatever is added and in what order.
pub proof fn lemma_grouped_add_keeps_merged(s: Seq<QuantityModel>, q: QuantityModel)
    requires
        fully_merged(s),
    ensures
        fully_merged(grouped_add(s, q)),
{
    if exists|i: int| 0 <= i < s.len() && compatible(s[i], q) {
        let i = choose|i: int|
            0 <= i < s.len() && compatible(s[i], q) && forall|j: int|
                0 <= j < i ==> !compatible(s[j], q);
        assert(exists|i: int|
            0 <= i < s.len() && compatible(s[i], q) && forall|j: int|
                0 <= j < i ==> !compatible(s[j], q)) by {
            let k = choose|k: int| 0 <= k < s.len() && compatible(s[k], q);
            lemma_first_compatible(s, q, k);
        }
        lemma_grouped_add_at(s, q, i);
        let t = s.update(i, merged_model(s[i], q));
        assert forall|x: int, y: int| 0 <= x < y < t.len() implies !compatible(t[x], t[y]) by {
            if x != i && y != i {
                assert(!compatible(s[x], s[y]));
            }
        }
    } else {
        lemma_grouped_add_none(s, q);
        let t = s.push(q);
        assert forall|x: int, y: int| 0 <= x < y < t.len() implies !compatible(t[x], t[y]) by {
            if y == s.len() {
                assert(t[x] == s[x]);
            }
        }
    }
}

/// Merge order does not matter: two unit-compatible quantities land in
/// the same group state whichever is added first. Repeated exchanges
/// of adjacent additions carry this to any reordering of the
/// unit-compatible additions for one name.
pub proof fn lemma_grouped_add_exchange(s: Seq<QuantityModel>, a: QuantityModel, b: QuantityModel)
    requires
        compatible(a, b),
    ensures
        grouped_add(grouped_add(s, a), b) == grouped_add(grouped_add(s, b), a),
    decreases s.len(),
{
    crate::quantity::lemma_amount_add_comm(a.amount, b.amount);
    if s.len() == 0 {
        assert(grouped_add(grouped_add(s, a), b) =~= seq![merged_model(a, b)]);
        assert(grouped_add(grouped_add(s, b), a) =~= seq![merged_model(b, a)]);
        assert(merged_model(a, b) == merged_model(b, a));
    } else if compatible(s[0], a) {
        assert(compatible(s[0], b));
        let sa = grouped_add(s, a);
        let sb = grouped_add(s, b);
        assert(sa =~= seq![merged_model(s[0], a)] + s.skip(1));
        assert(sb =~= seq![merged_model(s[0], b)] + s.skip(1));
        assert(compatible(merged_model(s[0], a), b));
        assert(compatible(merged_model(s[0], b), a));
        assert(grouped_add(sa, b) =~= seq![merged_model(merged_model(s[0], a), b)] + s.skip(1));
        assert(grouped_add(sb, a) =~= seq![merged_model(merged_model(s[0], b), a)] + s.skip(1));
        crate::quantity::lemma_amount_add_assoc(s[0].amount, a.amount, b.amount);
        crate::quantity::lemma_amount_add_assoc(s[0].amount, b.amount, a.amount);
        assert(merged_model(merged_model(s[0], a), b) == merged_model(merged_model(s[0], b), a));
    } else {
        assert(!compatible(s[0], b));
        let sa = grouped_add(s, a);
        let sb = grouped_add(s, b);
        assert(sa =~= seq![s[0]] + grouped_add(s.skip(1), a));
        assert(sb =~= seq![s[0]] + grouped_add(s.skip(1), b));
        assert(sa[0] == s[0] && sb[0] == s[0]);
        assert(sa.skip(1) =~= grouped_add(s.skip(1), a));
        assert(sb.skip(1) =~= grouped_add(s.skip(1), b));
        lemma_grouped_add_exchange(s.skip(1), a, b);
        assert(grouped_add(sa, b) =~= seq![s[0]] + grouped_add(grouped_add(s.skip(1), a), b));
        assert(grouped_add(sb, a) =~= seq![s[0]] + grouped_add(grouped_add(s.skip(1), b), a));
    }
}

/// A whole sequence of quantities added to a group, first to last.
pub open spec fn grouped_fold(s: Seq<QuantityModel>, qs: Seq<QuantityModel>) -> Seq<QuantityModel>
    decreases qs.len(),
{
    if qs.len() == 0 {
        s
    } else {
        grouped_fold(grouped_add(s, qs[0]), qs.skip(1))
    }
}

/// All the quantities are unit-compatible with one another.
pub open spec fn mutually_compatible(qs: Seq<QuantityModel>) -> bool {
    forall|i: int, j: int|
        0 <= i < qs.len() && 0 <= j < qs.len() ==> #[trigger] compatible(qs[i], qs[j])
}

proof fn lemma_fold_append(s: Seq<QuantityModel>, qs1: Seq<QuantityModel>, qs2: Seq<QuantityModel>)
    ensures
        grouped_fold(s, qs1 + qs2) == grouped_fold(grouped_fold(s, qs1), qs2),
    decreases qs1.len(),
{
    if qs1.len() == 0 {
        assert(qs1 + qs2 =~= qs2);
    } else {
        assert((qs1 + qs2)[0] == qs1[0]);
        assert((qs1 + qs2).skip(1) =~= qs1.skip(1) + qs2);
        lemma_fold_append(grouped_add(s, qs1[0]), qs1.skip(1), qs2);
    }
}

/// Folding is unchanged by pulling any one of the mutually compatible
/// quantities to the front.
proof fn lemma_fold_pull(s: Seq<QuantityModel>, qs: Seq<QuantityModel>, k: int)
    requires
        0 <= k < qs.len(),
        mutually_compatible(qs),
    ensures
        grouped_fold(s, qs) == grouped_fold(s, seq![qs[k]] + qs.remove(k)),
    decreases k,
{
    if k == 0 {
        assert(seq![qs[0]] + qs.remove(0) =~= qs);
    } else {
        let tail = qs.skip(1);
        assert(forall|j: int| 0 <= j < tail.len() ==> tail[j] == qs[j + 1]);
        assert(mutually_compatible(tail));
        assert(grouped_fold(s, qs) == grouped_fold(grouped_add(s, qs[0]), tail));
        lemma_fold_pull(grouped_add(s, qs[0]), tail, k - 1);
        assert(grouped_fold(grouped_add(s, qs[0]), tail) == grouped_fold(
            grouped_add(s, qs[0]),
            seq![tail[k - 1]] + tail.remove(k - 1),
        ));
        let rest = tail.remove(k - 1);
        assert(tail[k - 1] == qs[k]);
        let pulled = seq![tail[k - 1]] + rest;
        assert(pulled[0] == qs[k]);
        assert(pulled.skip(1) =~= rest);
        assert(grouped_fold(grouped_add(s, qs[0]), pulled) == grouped_fold(
            grouped_add(grouped_add(s, qs[0]), qs[k]),
            rest,
        ));
        lemma_grouped_add_exchange(s, qs[0], qs[k]);
        assert(grouped_fold(
            grouped_add(grouped_add(s, qs[k]), qs[0]),
            rest,
        ) == grouped_fold(grouped_add(s, qs[k]), seq![qs[0]] + rest)) by {
            assert((seq![qs[0]] + rest)[0] == qs[0]);
            assert((seq![qs[0]] + rest).skip(1) =~= rest);
        }
        assert(seq![qs[0]] + rest =~= qs.remove(k)) by {
            assert(qs.remove(k).len() == qs.len() - 1);
            tail.remove_ensures(k - 1);
            qs.remove_ensures(k);
            assert forall|i: int| 0 <= i < qs.remove(k).len() implies (seq![qs[0]] + rest)[i]
                == qs.remove(k)[i] by {
                if i == 0 {
                } else if i < k {
                    assert(rest[i - 1] == tail[i - 1]);
                    assert(tail[i - 1] == qs[i]);
                    assert(qs.remove(k)[i] == qs[i]);
                } else {
                    assert(rest[i - 1] == tail[i]);
                    assert(tail[i] == qs[i + 1]);
                    assert(qs.remove(k)[i] == qs[i + 1]);
                }
            }
        }
        assert(grouped_fold(s, seq![qs[k]] + qs.remove(k)) == grouped_fold(
            grouped_add(s, qs[k]),
            qs.remove(k),
        )) by {
            assert((seq![qs[k]] + qs.remove(k))[0] == qs[k]);
            assert((seq![qs[k]] + qs.remove(k)).skip(1) =~= qs.remove(k));
        }
    }
}

/// Folding mutually compatible quantities into a group gives the same
/// state for every ordering of them: order of unit-compatible
/// additions is immaterial, whatever the group already holds.
pub proof fn lemma_grouped_fold_permutation(
    s: Seq<QuantityModel>,
    qs1: Seq<QuantityModel>,
    qs2: Seq<QuantityModel>,
)
    requires
        qs1.to_multiset() == qs2.to_multiset(),
        mutually_compatible(qs1),
        mutually_compatible(qs2),
    ensures
        grouped_fold(s, qs1) == grouped_fold(s, qs2),
    decreases qs1.len(),
{
    broadcast use vstd::seq_lib::group_to_multiset_ensures;

    if qs1.len() == 0 {
        assert(qs2.len() == qs2.to_multiset().len());
        assert(qs2.len() == 0);
    } else {
        let q = qs1[0];
        assert(qs1.contains(q));
        assert(qs1.to_multiset().count(q) > 0);
        assert(qs2.to_multiset().count(q) > 0);
        assert(qs2.contains(q));
        let k = choose|k: int| 0 <= k < qs2.len() && qs2[k] == q;
        lemma_fold_pull(s, qs2, k);
        let rest2 = qs2.remove(k);
        assert(grouped_fold(s, seq![q] + rest2) == grouped_fold(grouped_add(s, q), rest2)) by {
            assert((seq![q] + rest2)[0] == q);
            assert((seq![q] + rest2).skip(1) =~= rest2);
        }
        let rest1 = qs1.skip(1);
        assert(grouped_fold(s, qs1) == grouped_fold(grouped_add(s, q), rest1));
        assert(rest1 =~= qs1.remove(0));
        assert(rest1.to_multiset() == qs1.to_multiset().remove(q));
        assert(rest2.to_multiset() == qs2.to_multiset().remove(q));
        assert(forall|j: int| 0 <= j < rest1.len() ==> rest1[j] == qs1[j + 1]);
        assert(mutually_compatible(rest1));
        qs2.remove_ensures(k);
        assert forall|x: int, y: int|
            0 <= x < rest2.len() && 0 <= y < rest2.len() implies #[trigger] compatible(
            rest2[x],
            rest2[y],
        ) by {
            let x0 = if x < k {
                x
            } else {
                x + 1
            };
            let y0 = if y < k {
                y
            } else {
                y + 1
            };
            assert(rest2[x] == qs2[x0] && rest2[y] == qs2[y0]);
        }
        lemma_grouped_fold_permutation(grouped_add(s, q), rest1, rest2);
    }
}

proof fn lemma_first_compatible(s: Seq<QuantityModel>, q: QuantityModel, k: int)
    requires
        0 <= k < s.len(),
        compatible(s[k], q),
    ensures
        exists|i: int|
            0 <= i < s.len() && compatible(s[i], q) && forall|j: int|
                0 <= j < i ==> !compatible(s[j], q),
    decreases k,
{
    if forall|j: int| 0 <= j < k ==> !compatible(s[j], q) {
    } else {
        let k2 = choose|k2: int| 0 <= k2 < k && compatible(s[k2], q);
        lemma_first_compatible(s, q, k2);
    }
}

/// One or more merged quantity entries for a single ingredient name.
#[derive(Debug)]
pub struct GroupedQuantity {
    quantities: Vec<Quantity>,
}

impl View for GroupedQuantity {
    type V = Seq<QuantityModel>;

    closed spec fn view(&self) -> Seq<QuantityModel> {
        self.quantities@.map_values(|q: Quantity| q@)
    }
}

impl Clone for GroupedQuantity {
    fn clone(&self) -> (r: Self)
        ensures
            r@ == self@,
            self.wf() ==> r.wf(),
    {
        let n: usize = self.quantities.len();
        let mut out: Vec<Quantity> = Vec::new();
        let mut i: usize = 0;
        while i < n
            invariant
                0 <= i <= n,
                n == self.quantities@.len(),
                out@ =~= self.quantities@.take(i as int),
            decreases n - i,
        {
            out.push(self.quantities[i].clone());
            assert(out@ =~= self.quantities@.take(i as int).push(self.quantities@[i as int]));
            assert(self.quantities@.take(i as int).push(self.quantities@[i as int])
                =~= self.quantities@.take(i + 1));
            i = i + 1;
        }
        proof {
            assert(self.quantities@.take(n as int) =~= self.quantities@);
        }
        GroupedQuantity { quantities: out }
    }
}

impl GroupedQuantity {
    pub closed spec fn wf(self) -> bool {
        forall|i: int| 0 <= i < self.quantities@.len() ==> self.quantities@[i].wf()
    }

    pub fn new() -> (r: GroupedQuantity)
        ensures
            r.wf(),
            r@ =~= Seq::<QuantityModel>::empty(),
    {
        GroupedQuantity { quantities: Vec::new() }
    }

    /// Wrap an already-merged list of quantities.
    pub fn from_quantities(quantities: Vec<Quantity>) -> (r: GroupedQuantity)
        requires
            forall|i: int| 0 <= i < quantities@.len() ==> quantities@[i].wf(),
        ensures
            r.wf(),
            r@ =~= quantities@.map_values(|q: Quantity| q@),
    {
        GroupedQuantity { quantities }
    }

    pub fn is_empty(&self) -> (r: bool)
        ensures
            r == (self@.len() == 0),
    {
        self.quantities.len() == 0
    }

    pub fn quantities(&self) -> (r: &Vec<Quantity>)
        ensures
            r@.map_values(|q: Quantity| q@) == self@,
            self.wf() ==> forall|i: int| 0 <= i < r@.len() ==> (#[trigger] r@[i]).wf(),
    {
        &self.quantities
    }

    /// Merge one more quantity into the group: the first unit-compatible
    /// entry absorbs it, otherwise it is appended. Fails only when a
    /// unit-compatible entry's exact sum leaves the machine's integer
    /// range — and on a fully merged group exactly then; the group is
    /// then unchanged.
    pub fn add(&mut self, q: &Quantity) -> (r: Result<(), AggError>)
        requires
            old(self).wf(),
            q.wf(),
        ensures
            r matches Ok(()) ==> final(self)@ == grouped_add(old(self)@, q@) && final(self).wf(),
            r matches Err(e) ==> e is Overflow && final(self)@ == old(self)@ && final(self).wf()
                && (exists|i: int|
                0 <= i < old(self)@.len() && compatible(old(self)@[i], q@) && !amount_add_fits(
                    old(self)@[i].amount,
                    q@.amount,
                )),
            (fully_merged(old(self)@) && exists|i: int|
                0 <= i < old(self)@.len() && compatible(old(self)@[i], q@) && !amount_add_fits(
                    old(self)@[i].amount,
                    q@.amount,
                )) ==> r is Err,
    {
        let ghost s = self@;
        let n: usize = self.quantities.len();
        let mut i: usize = 0;
        while i < n
            invariant
                0 <= i <= n,
                n == self.quantities@.len(),
                self@ == s,
                s == old(self)@,
                self.wf(),
                q.wf(),
                forall|j: int| 0 <= j < i ==> !compatible(s[j], q@),
            decreases n - i,
        {
            match merge(&self.quantities[i], q) {
                MergeOutcome::Merged(m) => {
                    proof {
                        lemma_grouped_add_at(s, q@, i as int);
                        if fully_merged(s) {
                            assert forall|w: int|
                                0 <= w < s.len() && compatible(s[w], q@) implies amount_add_fits(
                                s[w].amount,
                                q@.amount,
                            ) by {
                                if w != i {
                                    assert(compatible(s[i as int], s[w]));
                                    assert(false);
                                }
                            }
                        }
                    }
                    let ghost qs = self.quantities@;
                    self.quantities[i] = m;
                    assert(self@ =~= s.update(i as int, merged_model(s[i as int], q@)));
                    assert forall|j: int|
                        0 <= j < self.quantities@.len() implies self.quantities@[j].wf() by {
                        if j != i {
                            assert(self.quantities@[j] == qs[j]);
                        }
                    }
                    return Ok(());
                },
                MergeOutcome::Overflow => {
                    proof {
                        assert(compatible(s[i as int], q@) && !amount_add_fits(
                            s[i as int].amount,
                            q@.amount,
                        ));
                    }
                    return Err(AggError::Overflow);
                },
                MergeOutcome::Unmergeable => {
                    i = i + 1;
                },
            }
        }
        proof {
            lemma_grouped_add_none(s, q@);
        }
        let ghost qs = self.quantities@;
        let q2 = q.clone();
        self.quantities.push(q2);
        assert(self@ =~= s.push(q@));
        assert forall|j: int| 0 <= j < self.quantities@.len() implies self.quantities@[j].wf() by {
            if j < qs.len() {
                assert(self.quantities@[j] == qs[j]);
            }
        }
        Ok(())
    }
}

} // verus!
